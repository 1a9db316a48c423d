//! Grids of glyphs written out as text.

use vstd::prelude::*;
use vstd::string::StringExecFns;

verus! {

/// `String::push` of the standard library appends one character to the end
/// of the string and changes nothing else.
pub assume_specification[ String::push ](s: &mut String, ch: char)
    ensures
        final(s)@ == old(s)@.push(ch),
;

/// The lines one after the other, with `sep` between each two.
pub open spec fn joined(lines: Seq<Seq<char>>, sep: Seq<char>) -> Seq<char>
    decreases lines.len(),
{
    if lines.len() == 0 {
        Seq::empty()
    } else if lines.len() == 1 {
        lines[0]
    } else {
        joined(lines.drop_last(), sep) + sep + lines.last()
    }
}

/// The pieces one after the other, each with `sep` before it.
pub open spec fn prefixed(pieces: Seq<Seq<char>>, sep: Seq<char>) -> Seq<char>
    decreases pieces.len(),
{
    if pieces.len() == 0 {
        Seq::empty()
    } else {
        prefixed(pieces.drop_last(), sep) + sep + pieces.last()
    }
}

/// The characters of the rows of a grid.
pub open spec fn rows_of_chars(rows: Seq<Vec<char>>) -> Seq<Seq<char>> {
    rows.map_values(|row: Vec<char>| row@)
}

/// The characters of strings.
pub open spec fn views_of(strings: Seq<String>) -> Seq<Seq<char>> {
    strings.map_values(|s: String| s@)
}

/// A string of the given characters.
pub fn line_of(chars: &Vec<char>) -> (s: String)
    ensures
        s@ == chars@,
{
    let mut s: String = String::new();
    let mut i: usize = 0;
    while i < chars.len()
        invariant
            i <= chars.len(),
            s@ == chars@.take(i as int),
        decreases chars.len() - i,
    {
        s.push(chars[i]);
        assert(chars@.take(i + 1) =~= chars@.take(i as int).push(chars@[i as int]));
        i = i + 1;
    }
    assert(chars@.take(chars.len() as int) =~= chars@);
    s
}

/// The lines joined into one string, with a line feed between each two.
pub fn join_lines(lines: &Vec<String>) -> (s: String)
    ensures
        s@ == joined(views_of(lines@), seq!['\n']),
{
    let mut s: String = String::new();
    let mut i: usize = 0;
    let ghost all = views_of(lines@);
    while i < lines.len()
        invariant
            i <= lines.len(),
            all == views_of(lines@),
            s@ == joined(all.take(i as int), seq!['\n']),
        decreases lines.len() - i,
    {
        proof {
            assert(all.take(i + 1).drop_last() =~= all.take(i as int));
            assert(all.take(i + 1).last() == lines[i as int]@);
        }
        if i > 0 {
            s.push('\n');
        }
        s.append(lines[i].as_str());
        proof {
            if i == 0 {
                assert(s@ =~= lines[0]@);
            }
        }
        i = i + 1;
    }
    assert(all.take(lines.len() as int) =~= all);
    s
}

/// Grids that can be written out as text.
pub trait GenAscii {
    /// Whether `s` is the grid written out.
    spec fn is_ascii(&self, s: Seq<char>) -> bool;

    fn gen_ascii(&self) -> (s: String)
        ensures
            self.is_ascii(s@),
    ;
}

/// Rows of characters are written row after row, with a line feed between
/// each two.
impl GenAscii for Vec<Vec<char>> {
    open spec fn is_ascii(&self, s: Seq<char>) -> bool {
        s == joined(rows_of_chars(self@), seq!['\n'])
    }

    fn gen_ascii(&self) -> (s: String) {
        let mut lines: Vec<String> = Vec::new();
        let mut i: usize = 0;
        while i < self.len()
            invariant
                i <= self.len(),
                lines.len() == i,
                forall|k: int| 0 <= k < i ==> (#[trigger] lines[k])@ == self[k]@,
            decreases self.len() - i,
        {
            lines.push(line_of(&self[i]));
            i = i + 1;
        }
        assert(views_of(lines@) =~= rows_of_chars(self@));
        join_lines(&lines)
    }
}

/// Strings that can be joined with a separator before each of them.
pub trait JoinColored {
    spec fn custom_joined(&self, separator: Seq<char>) -> Seq<char>;

    fn custom_join(&self, separator: &str) -> (s: String)
        ensures
            s@ == self.custom_joined(separator@),
    ;
}

impl JoinColored for Vec<String> {
    open spec fn custom_joined(&self, separator: Seq<char>) -> Seq<char> {
        prefixed(views_of(self@), separator)
    }

    fn custom_join(&self, separator: &str) -> (s: String) {
        let mut s: String = String::new();
        let mut i: usize = 0;
        let ghost all = views_of(self@);
        while i < self.len()
            invariant
                i <= self.len(),
                all == views_of(self@),
                s@ == prefixed(all.take(i as int), separator@),
            decreases self.len() - i,
        {
            proof {
                assert(all.take(i + 1).drop_last() =~= all.take(i as int));
                assert(all.take(i + 1).last() == self[i as int]@);
            }
            s.append(separator);
            s.append(self[i].as_str());
            i = i + 1;
        }
        assert(all.take(self.len() as int) =~= all);
        s
    }
}

} // verus!
