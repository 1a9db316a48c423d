//! Coloured glyphs written out as text, with ANSI colours where the terminal
//! takes them.

use vstd::prelude::*;
use colored::{Color, Colorize};
use crate::color::Rgb;
use crate::colored_char::ColoredChar;
use crate::flat_matrix::FlatMatrix;
use crate::frames::{chars_of, find, first_match};
use crate::text::{join_lines, joined, GenAscii};

verus! {

/// What a character looks like once it is painted: the character alone
/// where colours are switched off; the character between an escape sequence
/// that sets the colour and the one that resets it where they are on; and
/// the character with the reset sequence alone behind it where colours are
/// switched off while the character is being written.
pub open spec fn is_painted(s: Seq<char>, ch: char) -> bool {
    ||| s == seq![ch]
    ||| exists|code: Seq<char>|
        s == seq!['\x1B', '['] + code + seq!['m', ch, '\x1B', '[', '0', 'm']
    ||| s == seq![ch, '\x1B', '[', '0', 'm']
}

/// Calls `Colorize::color` of the colored crate on the character with a true
/// colour and formats the outcome.
///
/// Not proved: that colored writes the character unchanged where colouring is
/// off, and else writes `ESC [`, a colour code that depends on the
/// terminal's support for true colour, `m`, the character and the reset
/// sequence `ESC [ 0 m`. Whether colouring is on is decided by the
/// environment of the process and by a switch that any thread may flip;
/// colored asks twice, once before it writes and once for the colour code,
/// so that a flip between the two leaves the character and the reset
/// sequence without a colour code.
#[verifier::external_body]
fn paint(ch: char, r: u8, g: u8, b: u8) -> (s: String)
    ensures
        is_painted(s@, ch),
{
    format!("{}", ch.to_string().color(Color::TrueColor { r, g, b }))
}

/// What a cell may be written as: nothing where it is not displayed, its
/// glyph alone where its colour is a gray, else its glyph painted.
pub open spec fn is_rendering(c: ColoredChar, s: Seq<char>) -> bool {
    if !c.display {
        s == Seq::<char>::empty()
    } else if c.color.r == c.color.g && c.color.g == c.color.b {
        s == seq![c.ch]
    } else {
        is_painted(s, c.ch)
    }
}

/// Whether a cell is written without any colour: it is invisible or gray.
pub open spec fn is_plain(c: ColoredChar) -> bool {
    !c.display || (c.color.r == c.color.g && c.color.g == c.color.b)
}

/// What a cell without colour is written as.
pub open spec fn plain_rendering(c: ColoredChar) -> Seq<char> {
    if c.display {
        seq![c.ch]
    } else {
        Seq::empty()
    }
}

/// The pieces one after the other.
pub open spec fn concatenated(pieces: Seq<Seq<char>>) -> Seq<char>
    decreases pieces.len(),
{
    if pieces.len() == 0 {
        Seq::empty()
    } else {
        concatenated(pieces.drop_last()) + pieces.last()
    }
}

/// Pieces that are, each, a rendering of the cell at their place.
pub open spec fn are_renderings(cells: Seq<ColoredChar>, pieces: Seq<Seq<char>>) -> bool {
    &&& pieces.len() == cells.len()
    &&& forall|i: int| 0 <= i < cells.len() ==> is_rendering(cells[i], #[trigger] pieces[i])
}

/// What a row of cells may be written as: renderings of its cells, one after
/// the other.
pub open spec fn is_row_rendering(cells: Seq<ColoredChar>, s: Seq<char>) -> bool {
    exists|pieces: Seq<Seq<char>>| are_renderings(cells, pieces) && s == concatenated(pieces)
}

/// What a row of cells without colour is written as.
pub open spec fn plain_row(cells: Seq<ColoredChar>) -> Seq<char> {
    concatenated(cells.map_values(|c: ColoredChar| plain_rendering(c)))
}

/// Whether no cell of a row has a colour.
pub open spec fn is_plain_row(cells: Seq<ColoredChar>) -> bool {
    forall|i: int| 0 <= i < cells.len() ==> is_plain(#[trigger] cells[i])
}

/// A row without colour has one rendering only.
pub proof fn lemma_plain_row_rendering(cells: Seq<ColoredChar>, s: Seq<char>)
    requires
        is_plain_row(cells),
        is_row_rendering(cells, s),
    ensures
        s == plain_row(cells),
{
    let pieces = choose|pieces: Seq<Seq<char>>|
        are_renderings(cells, pieces) && s == concatenated(pieces);
    assert forall|i: int| 0 <= i < cells.len() implies pieces[i] == plain_rendering(cells[i]) by {
        assert(is_plain(cells[i]));
    }
    assert(pieces =~= cells.map_values(|c: ColoredChar| plain_rendering(c)));
}

impl ColoredChar {
    /// The cell as text.
    pub fn to_string(&self) -> (s: String)
        ensures
            is_rendering(*self, s@),
    {
        if self.display {
            if self.is_grayscale() {
                let mut s: String = String::new();
                s.push(self.ch);
                assert(s@ =~= seq![self.ch]);
                s
            } else {
                paint(self.ch, self.color.r, self.color.g, self.color.b)
            }
        } else {
            String::new()
        }
    }
}

/// Rows of cells that can be written as one string.
pub trait Concat {
    spec fn is_concat(&self, s: Seq<char>) -> bool;

    fn concat(self) -> (s: String)
        ensures
            self.is_concat(s@),
    ;
}

impl Concat for Vec<ColoredChar> {
    open spec fn is_concat(&self, s: Seq<char>) -> bool {
        is_row_rendering(self@, s)
    }

    fn concat(self) -> (s: String) {
        let mut s: String = String::new();
        let ghost mut pieces: Seq<Seq<char>> = Seq::empty();
        let mut i: usize = 0;
        while i < self.len()
            invariant
                i <= self.len(),
                are_renderings(self@.take(i as int), pieces),
                s@ == concatenated(pieces),
            decreases self.len() - i,
        {
            let piece: String = self[i].to_string();
            s.append(piece.as_str());
            proof {
                assert(pieces.push(piece@).drop_last() =~= pieces);
                pieces = pieces.push(piece@);
            }
            i = i + 1;
        }
        assert(self@.take(self.len() as int) =~= self@);
        s
    }
}

/// What a grid of cells may be written as: renderings of its rows, with a
/// line feed between each two.
pub open spec fn is_grid_rendering(rows: Seq<Seq<ColoredChar>>, s: Seq<char>) -> bool {
    exists|lines: Seq<Seq<char>>|
        {
            &&& lines.len() == rows.len()
            &&& forall|i: int|
                0 <= i < rows.len() ==> is_row_rendering(rows[i], #[trigger] lines[i])
            &&& s == joined(lines, seq!['\n'])
        }
}

/// What a grid of cells without colour is written as.
pub open spec fn plain_grid(rows: Seq<Seq<ColoredChar>>) -> Seq<char> {
    joined(rows.map_values(|row: Seq<ColoredChar>| plain_row(row)), seq!['\n'])
}

/// A grid without colour has one rendering only.
pub proof fn lemma_plain_grid_rendering(rows: Seq<Seq<ColoredChar>>, s: Seq<char>)
    requires
        is_plain_grid(rows),
        is_grid_rendering(rows, s),
    ensures
        s == plain_grid(rows),
{
    let lines = choose|lines: Seq<Seq<char>>|
        {
            &&& lines.len() == rows.len()
            &&& forall|i: int|
                0 <= i < rows.len() ==> is_row_rendering(rows[i], #[trigger] lines[i])
            &&& s == joined(lines, seq!['\n'])
        };
    assert forall|i: int| 0 <= i < rows.len() implies lines[i] == plain_row(rows[i]) by {
        assert(is_plain_row(rows[i]));
        lemma_plain_row_rendering(rows[i], lines[i]);
    }
    assert(lines =~= rows.map_values(|row: Seq<ColoredChar>| plain_row(row)));
}

/// Whether no cell of a grid has a colour.
pub open spec fn is_plain_grid(rows: Seq<Seq<ColoredChar>>) -> bool {
    forall|i: int| 0 <= i < rows.len() ==> is_plain_row(#[trigger] rows[i])
}

/// Writes a grid of cells out as text, row after row. The text of a grid
/// without colour is the same wherever it is written.
pub fn render_grid(grid: &FlatMatrix<ColoredChar>) -> (s: String)
    requires
        grid.wf(),
    ensures
        is_grid_rendering(grid@.row_seqs(), s@),
        is_plain_grid(grid@.row_seqs()) ==> s@ == plain_grid(grid@.row_seqs()),
{
    let rows: Vec<Vec<ColoredChar>> = grid.into_iter_vecs();
    let mut lines: Vec<String> = Vec::new();
    let n: usize = rows.len();
    let mut rows = rows;
    let ghost all = grid@.row_seqs();
    // the rows are taken from the back, so that none is copied
    let mut back: Vec<String> = Vec::new();
    while rows.len() > 0
        invariant
            n == all.len(),
            rows.len() <= n,
            back.len() == n - rows.len(),
            forall|k: int| 0 <= k < rows.len() ==> (#[trigger] rows[k])@ == all[k],
            forall|k: int|
                0 <= k < back.len() ==> is_row_rendering(all[n - 1 - k], (#[trigger] back[k])@),
        decreases rows.len(),
    {
        let ghost at = rows.len() - 1;
        let row: Vec<ColoredChar> = rows.pop().unwrap();
        assert(row@ == all[at]);
        back.push(row.concat());
    }
    while back.len() > 0
        invariant
            n == all.len(),
            back.len() <= n,
            lines.len() == n - back.len(),
            forall|k: int|
                0 <= k < back.len() ==> is_row_rendering(all[n - 1 - k], (#[trigger] back[k])@),
            forall|k: int| 0 <= k < lines.len() ==> is_row_rendering(all[k], (#[trigger] lines[k])@),
        decreases back.len(),
    {
        let line: String = back.pop().unwrap();
        lines.push(line);
    }
    let s: String = join_lines(&lines);
    proof {
        let witness = crate::text::views_of(lines@);
        assert forall|k: int| 0 <= k < all.len() implies is_row_rendering(
            all[k],
            #[trigger] witness[k],
        ) by {
            assert(witness[k] == lines[k]@);
        }
        assert(is_grid_rendering(all, s@));
        if is_plain_grid(all) {
            lemma_plain_grid_rendering(all, s@);
        }
    }
    s
}

/// A glyph and the colour it is drawn in.
#[derive(Clone, Copy, Debug, PartialEq, Eq, Structural)]
pub struct ColorChar {
    pub ch: char,
    pub color: Rgb,
}

impl ColorChar {
    pub fn new(ch: char, color: Rgb) -> (c: Self)
        ensures
            c == (ColorChar { ch, color }),
    {
        ColorChar { ch, color }
    }

    /// The glyph as text: alone where the colour is white, else painted.
    pub fn to_string(&self) -> (s: String)
        ensures
            self.color == Rgb::white() ==> s@ == seq![self.ch],
            self.color != Rgb::white() ==> is_painted(s@, self.ch),
    {
        if self.color.r == 255 && self.color.g == 255 && self.color.b == 255 {
            let mut s: String = String::new();
            s.push(self.ch);
            assert(s@ =~= seq![self.ch]);
            s
        } else {
            paint(self.ch, self.color.r, self.color.g, self.color.b)
        }
    }
}

/// What marks a painted black blank: the true-colour code for black and the
/// blank behind it.
pub open spec fn black_blank() -> Seq<char> {
    seq!['[', '3', '8', ';', '2', ';', '0', ';', '0', ';', '0', 'm', ' ']
}

/// What a glyph with its colour may be written as.
pub open spec fn is_color_rendering(c: ColorChar, s: Seq<char>) -> bool {
    if c.color == Rgb::white() {
        s == seq![c.ch]
    } else {
        is_painted(s, c.ch)
    }
}

/// Whether a piece of text is kept: it holds no painted black blank.
pub open spec fn is_kept(piece: Seq<char>) -> bool {
    first_match(piece, black_blank(), 0) is None
}

/// The pieces that are kept, one after the other.
pub open spec fn kept_pieces(pieces: Seq<Seq<char>>) -> Seq<char>
    decreases pieces.len(),
{
    if pieces.len() == 0 {
        Seq::empty()
    } else if is_kept(pieces.last()) {
        kept_pieces(pieces.drop_last()) + pieces.last()
    } else {
        kept_pieces(pieces.drop_last())
    }
}

/// What a row of glyphs with their colours may be written as: renderings of
/// the glyphs one after the other, painted black blanks left out.
pub open spec fn is_color_row(cells: Seq<ColorChar>, s: Seq<char>) -> bool {
    exists|pieces: Seq<Seq<char>>|
        {
            &&& pieces.len() == cells.len()
            &&& forall|i: int|
                0 <= i < cells.len() ==> is_color_rendering(cells[i], #[trigger] pieces[i])
            &&& s == kept_pieces(pieces)
        }
}

/// The painted black blank as characters.
fn black_blank_chars() -> (v: Vec<char>)
    ensures
        v@ == black_blank(),
{
    let v: Vec<char> = chars_of("[38;2;0;0;0m ");
    proof {
        reveal_strlit("[38;2;0;0;0m ");
        assert(v@ =~= black_blank());
    }
    v
}

/// Writes a row of glyphs with their colours.
pub fn render_color_row(cells: &Vec<ColorChar>) -> (s: String)
    ensures
        is_color_row(cells@, s@),
{
    let marker: Vec<char> = black_blank_chars();
    let mut s: String = String::new();
    let ghost mut pieces: Seq<Seq<char>> = Seq::empty();
    let mut i: usize = 0;
    while i < cells.len()
        invariant
            marker@ == black_blank(),
            i <= cells.len(),
            pieces.len() == i,
            forall|k: int| 0 <= k < i ==> is_color_rendering(cells[k], #[trigger] pieces[k]),
            s@ == kept_pieces(pieces),
        decreases cells.len() - i,
    {
        let piece: String = cells[i].to_string();
        let chars: Vec<char> = chars_of(piece.as_str());
        let found: Option<usize> = find(&chars, &marker, 0);
        proof {
            assert(pieces.push(piece@).drop_last() =~= pieces);
            pieces = pieces.push(piece@);
        }
        if found.is_none() {
            s.append(piece.as_str());
        }
        i = i + 1;
    }
    s
}

/// Rows of glyphs with their colours are written row after row, with a line
/// feed between each two; painted black blanks are left out.
impl GenAscii for Vec<Vec<ColorChar>> {
    open spec fn is_ascii(&self, s: Seq<char>) -> bool {
        exists|lines: Seq<Seq<char>>|
            {
                &&& lines.len() == self@.len()
                &&& forall|i: int|
                    0 <= i < self@.len() ==> is_color_row(self@[i]@, #[trigger] lines[i])
                &&& s == joined(lines, seq!['\n'])
            }
    }

    fn gen_ascii(&self) -> (s: String) {
        let mut lines: Vec<String> = Vec::new();
        let mut i: usize = 0;
        while i < self.len()
            invariant
                i <= self.len(),
                lines.len() == i,
                forall|k: int| 0 <= k < i ==> is_color_row(self@[k]@, (#[trigger] lines[k])@),
            decreases self.len() - i,
        {
            lines.push(render_color_row(&self[i]));
            i = i + 1;
        }
        let s: String = join_lines(&lines);
        proof {
            let witness = crate::text::views_of(lines@);
            assert forall|k: int| 0 <= k < self@.len() implies is_color_row(
                self@[k]@,
                #[trigger] witness[k],
            ) by {
                assert(witness[k] == lines[k]@);
            }
        }
        s
    }
}

} // verus!
