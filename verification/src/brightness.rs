//! The brightness model: luma of a colour, the transparency penalty, and
//! averages of brightness values and colours.

use vstd::prelude::*;
use crate::color::{Pixel, Rgb};
use crate::rounding::{div_round_half_even, lemma_round_bounded, lemma_round_exact, round_half_even};

verus! {

/// The weighted channel sum in thousandths: 0.299 R + 0.587 G + 0.114 B.
pub open spec fn luma_numerator(r: u8, g: u8, b: u8) -> nat {
    (299 * r + 587 * g + 114 * b) as nat
}

/// Luma of a colour, rounded half to even.
pub open spec fn luma(r: u8, g: u8, b: u8) -> nat {
    round_half_even(luma_numerator(r, g, b), 1000)
}

/// Luma never leaves the range of a byte.
pub proof fn lemma_luma_is_byte(r: u8, g: u8, b: u8)
    ensures
        luma(r, g, b) <= 255,
{
    lemma_round_bounded(luma_numerator(r, g, b), 1000, 255);
}

/// Luma of a colour as a byte.
pub fn grayscale_calc(r: u8, g: u8, b: u8) -> (y: u8)
    ensures
        y == luma(r, g, b),
{
    let n: u128 = 299 * (r as u128) + 587 * (g as u128) + 114 * (b as u128);
    let q: u128 = div_round_half_even(n, 1000);
    proof {
        lemma_luma_is_byte(r, g, b);
    }
    q as u8
}

/// A value darkened by transparency: the value less `255 - alpha`, never
/// below zero.
pub open spec fn penalized(value: nat, alpha: u8) -> nat {
    let cut = (255 - alpha) as nat;
    if value >= cut {
        (value - cut) as nat
    } else {
        0
    }
}

/// Brightness of a pixel: its luma darkened by its transparency.
pub open spec fn brightness(p: Pixel) -> nat {
    penalized(luma(p.r, p.g, p.b), p.a)
}

/// Brightness is a byte; an opaque pixel keeps its luma and a fully
/// transparent one has none.
pub proof fn lemma_brightness_range(p: Pixel)
    ensures
        brightness(p) <= 255,
        p.a == 255 ==> brightness(p) == luma(p.r, p.g, p.b),
        p.a == 0 ==> brightness(p) == 0,
{
    lemma_luma_is_byte(p.r, p.g, p.b);
}

/// Things that have a brightness between 0 and 255.
pub trait Penalty {
    spec fn penalty(&self) -> nat;

    fn calc_penalty(&self) -> (v: u8)
        ensures
            v == self.penalty(),
    ;
}

/// A value paired with an alpha channel.
impl Penalty for (u8, u8) {
    open spec fn penalty(&self) -> nat {
        penalized(self.0 as nat, self.1)
    }

    fn calc_penalty(&self) -> (v: u8) {
        let cut: u8 = 255 - self.1;
        if self.0 >= cut {
            self.0 - cut
        } else {
            0
        }
    }
}

impl Penalty for Pixel {
    open spec fn penalty(&self) -> nat {
        brightness(*self)
    }

    fn calc_penalty(&self) -> (v: u8) {
        let gray: u8 = grayscale_calc(self.r, self.g, self.b);
        (gray, self.a).calc_penalty()
    }
}

/// Sum of `f` over the items of `s`.
pub open spec fn total<A>(s: Seq<A>, f: spec_fn(A) -> nat) -> nat
    decreases s.len(),
{
    if s.len() == 0 {
        0
    } else {
        total(s.drop_last(), f) + f(s.last())
    }
}

/// The sum over a prefix grows by the next item.
pub proof fn lemma_total_take<A>(s: Seq<A>, i: int, f: spec_fn(A) -> nat)
    requires
        0 <= i < s.len(),
    ensures
        total(s.take(i + 1), f) == total(s.take(i), f) + f(s[i]),
{
    assert(s.take(i + 1).drop_last() =~= s.take(i));
}

/// Where every item has the same value, the sum is that value times the
/// number of items.
pub proof fn lemma_total_uniform<A>(s: Seq<A>, f: spec_fn(A) -> nat, v: nat)
    requires
        forall|i: int| 0 <= i < s.len() ==> f(#[trigger] s[i]) == v,
    ensures
        total(s, f) == v * s.len(),
    decreases s.len(),
{
    if s.len() > 0 {
        lemma_total_uniform(s.drop_last(), f, v);
        assert(v * s.len() == v * (s.len() - 1) + v) by (nonlinear_arith);
    }
}

/// The mean of a sum over `count` items, rounded half to even; 0 where there
/// is no item.
pub open spec fn mean(sum: nat, count: nat) -> nat {
    if count == 0 {
        0
    } else {
        round_half_even(sum, count)
    }
}

pub open spec fn brightness_total(s: Seq<u8>) -> nat {
    total(s, |v: u8| v as nat)
}

pub open spec fn red_total(s: Seq<Rgb>) -> nat {
    total(s, |c: Rgb| c.r as nat)
}

pub open spec fn green_total(s: Seq<Rgb>) -> nat {
    total(s, |c: Rgb| c.g as nat)
}

pub open spec fn blue_total(s: Seq<Rgb>) -> nat {
    total(s, |c: Rgb| c.b as nat)
}

/// Mean of brightness values.
pub open spec fn average_brightness(s: Seq<u8>) -> nat {
    mean(brightness_total(s), s.len())
}

/// Mean of colours, channel by channel.
pub open spec fn average_color(s: Seq<Rgb>) -> (nat, nat, nat) {
    (mean(red_total(s), s.len()), mean(green_total(s), s.len()), mean(blue_total(s), s.len()))
}

/// A mean of bytes is a byte.
pub proof fn lemma_mean_is_byte(sum: nat, count: nat)
    requires
        sum <= count * 255,
    ensures
        mean(sum, count) <= 255,
{
    if count > 0 {
        assert(count * 255 == 255 * count) by (nonlinear_arith);
        lemma_round_bounded(sum, count, 255);
    }
}

/// Averaging copies of one brightness value gives that value back.
pub proof fn lemma_average_of_copies(s: Seq<u8>, v: u8)
    requires
        s.len() > 0,
        forall|i: int| 0 <= i < s.len() ==> s[i] == v,
    ensures
        average_brightness(s) == v,
{
    lemma_total_uniform(s, |x: u8| x as nat, v as nat);
    lemma_round_exact(v as nat, s.len());
}

/// Averaging copies of one colour gives that colour back.
pub proof fn lemma_average_of_color_copies(s: Seq<Rgb>, c: Rgb)
    requires
        s.len() > 0,
        forall|i: int| 0 <= i < s.len() ==> s[i] == c,
    ensures
        average_color(s) == (c.r as nat, c.g as nat, c.b as nat),
{
    lemma_total_uniform(s, |x: Rgb| x.r as nat, c.r as nat);
    lemma_total_uniform(s, |x: Rgb| x.g as nat, c.g as nat);
    lemma_total_uniform(s, |x: Rgb| x.b as nat, c.b as nat);
    lemma_round_exact(c.r as nat, s.len());
    lemma_round_exact(c.g as nat, s.len());
    lemma_round_exact(c.b as nat, s.len());
}

/// The mean of a sum of bytes over `count` items, 0 where there is none.
pub fn mean_of(sum: u128, count: u128) -> (m: u8)
    requires
        sum <= count * 255,
    ensures
        m == mean(sum as nat, count as nat),
{
    if count == 0 {
        0
    } else {
        let q: u128 = div_round_half_even(sum, count);
        proof {
            lemma_mean_is_byte(sum as nat, count as nat);
        }
        q as u8
    }
}

/// Collections that average to one value.
pub trait Average {
    type Output;

    spec fn average_spec(&self) -> Self::Output;

    fn average(&self) -> (a: Self::Output)
        ensures
            a == self.average_spec(),
    ;
}

impl Average for Vec<u8> {
    type Output = u8;

    open spec fn average_spec(&self) -> u8 {
        average_brightness(self@) as u8
    }

    fn average(&self) -> (a: u8) {
        let n: usize = self.len();
        let mut sum: u128 = 0;
        let mut i: usize = 0;
        while i < n
            invariant
                n == self.len(),
                i <= n,
                sum == brightness_total(self@.take(i as int)),
                sum <= i * 255,
            decreases n - i,
        {
            proof {
                lemma_total_take(self@, i as int, |v: u8| v as nat);
            }
            sum = sum + self[i] as u128;
            i = i + 1;
        }
        assert(self@.take(n as int) =~= self@);
        mean_of(sum, n as u128)
    }
}

impl Average for Vec<Rgb> {
    type Output = Rgb;

    open spec fn average_spec(&self) -> Rgb {
        let (r, g, b) = average_color(self@);
        Rgb { r: r as u8, g: g as u8, b: b as u8 }
    }

    fn average(&self) -> (a: Rgb) {
        let n: usize = self.len();
        let mut r: u128 = 0;
        let mut g: u128 = 0;
        let mut b: u128 = 0;
        let mut i: usize = 0;
        while i < n
            invariant
                n == self.len(),
                i <= n,
                r == red_total(self@.take(i as int)),
                g == green_total(self@.take(i as int)),
                b == blue_total(self@.take(i as int)),
                r <= i * 255,
                g <= i * 255,
                b <= i * 255,
            decreases n - i,
        {
            proof {
                lemma_total_take(self@, i as int, |c: Rgb| c.r as nat);
                lemma_total_take(self@, i as int, |c: Rgb| c.g as nat);
                lemma_total_take(self@, i as int, |c: Rgb| c.b as nat);
            }
            let c: Rgb = self[i];
            r = r + c.r as u128;
            g = g + c.g as u128;
            b = b + c.b as u128;
            i = i + 1;
        }
        assert(self@.take(n as int) =~= self@);
        Rgb { r: mean_of(r, n as u128), g: mean_of(g, n as u128), b: mean_of(b, n as u128) }
    }
}

/// The brightness values of paired items.
pub open spec fn brightness_parts(s: Seq<(u8, Rgb)>) -> Seq<u8> {
    s.map_values(|p: (u8, Rgb)| p.0)
}

/// The colours of paired items.
pub open spec fn color_parts(s: Seq<(u8, Rgb)>) -> Seq<Rgb> {
    s.map_values(|p: (u8, Rgb)| p.1)
}

/// Brightness and colour are averaged each by itself.
impl Average for Vec<(u8, Rgb)> {
    type Output = (u8, Rgb);

    open spec fn average_spec(&self) -> (u8, Rgb) {
        let (r, g, b) = average_color(color_parts(self@));
        (
            average_brightness(brightness_parts(self@)) as u8,
            Rgb { r: r as u8, g: g as u8, b: b as u8 },
        )
    }

    fn average(&self) -> (a: (u8, Rgb)) {
        let mut values: Vec<u8> = Vec::with_capacity(self.len());
        let mut colors: Vec<Rgb> = Vec::with_capacity(self.len());
        let mut i: usize = 0;
        while i < self.len()
            invariant
                i <= self.len(),
                values@ == brightness_parts(self@.take(i as int)),
                colors@ == color_parts(self@.take(i as int)),
            decreases self.len() - i,
        {
            let (value, color) = self[i];
            values.push(value);
            colors.push(color);
            proof {
                assert(self@.take(i + 1) =~= self@.take(i as int).push(self@[i as int]));
                assert(values@ =~= brightness_parts(self@.take(i + 1)));
                assert(colors@ =~= color_parts(self@.take(i + 1)));
            }
            i = i + 1;
        }
        assert(self@.take(self.len() as int) =~= self@);
        (values.average(), colors.average())
    }
}

/// Whether any of the items is visible.
pub open spec fn any_visible(s: Seq<(u8, Rgb, bool)>) -> bool {
    exists|i: int| 0 <= i < s.len() && (#[trigger] s[i]).2
}

/// The items without their visibility.
pub open spec fn without_visibility(s: Seq<(u8, Rgb, bool)>) -> Seq<(u8, Rgb)> {
    s.map_values(|p: (u8, Rgb, bool)| (p.0, p.1))
}

/// Brightness and colour are averaged each by itself; the average is visible
/// where any item is.
impl Average for Vec<(u8, Rgb, bool)> {
    type Output = (u8, Rgb, bool);

    open spec fn average_spec(&self) -> (u8, Rgb, bool) {
        let (r, g, b) = average_color(color_parts(without_visibility(self@)));
        (
            average_brightness(brightness_parts(without_visibility(self@))) as u8,
            Rgb { r: r as u8, g: g as u8, b: b as u8 },
            any_visible(self@),
        )
    }

    fn average(&self) -> (a: (u8, Rgb, bool)) {
        let mut pairs: Vec<(u8, Rgb)> = Vec::with_capacity(self.len());
        let mut visible: bool = false;
        let mut i: usize = 0;
        while i < self.len()
            invariant
                i <= self.len(),
                pairs@ == without_visibility(self@.take(i as int)),
                visible == any_visible(self@.take(i as int)),
            decreases self.len() - i,
        {
            let (value, color, shown) = self[i];
            pairs.push((value, color));
            proof {
                let before = self@.take(i as int);
                let after = self@.take(i + 1);
                assert(after =~= before.push(self@[i as int]));
                assert(pairs@ =~= without_visibility(after));
                if any_visible(before) {
                    let k = choose|k: int| 0 <= k < before.len() && (#[trigger] before[k]).2;
                    assert(after[k].2);
                }
                if shown {
                    assert(after[i as int].2);
                }
                if any_visible(after) {
                    let k = choose|k: int| 0 <= k < after.len() && (#[trigger] after[k]).2;
                    if k < i {
                        assert(before[k].2);
                    }
                }
            }
            visible = visible || shown;
            i = i + 1;
        }
        assert(self@.take(self.len() as int) =~= self@);
        let (value, color) = pairs.average();
        (value, color, visible)
    }
}

} // verus!
