//! The names of frame files: which names are frames of a video, the number
//! of a frame, and frames put in order.

use vstd::prelude::*;

verus! {

/// The marker that stands before the number of a frame.
pub open spec fn frame_tag() -> Seq<char> {
    seq!['_', 'f', 'r', 'a', 'm', 'e']
}

/// Whether `needle` stands in `hay` at place `at`.
pub open spec fn matches_at(hay: Seq<char>, needle: Seq<char>, at: int) -> bool {
    0 <= at && at + needle.len() <= hay.len() && hay.subrange(at, at + needle.len()) == needle
}

/// The first place at or after `from` where `needle` stands in `hay`.
pub open spec fn first_match(hay: Seq<char>, needle: Seq<char>, from: int) -> Option<int>
    decreases hay.len() - from,
{
    if from < 0 || from + needle.len() > hay.len() {
        None
    } else if matches_at(hay, needle, from) {
        Some(from)
    } else if from >= hay.len() {
        None
    } else {
        first_match(hay, needle, from + 1)
    }
}

/// Whether a character is one of the digits 0 to 9.
pub open spec fn is_digit(c: char) -> bool {
    48 <= c as u32 <= 57
}

/// Whether every character is a digit.
pub open spec fn all_digits(s: Seq<char>) -> bool {
    forall|i: int| 0 <= i < s.len() ==> is_digit(#[trigger] s[i])
}

/// The number that decimal digits spell.
pub open spec fn decimal_value(digits: Seq<char>) -> nat
    decreases digits.len(),
{
    if digits.len() == 0 {
        0
    } else {
        (10 * decimal_value(digits.drop_last()) + (digits.last() as u32 - 48)) as nat
    }
}

/// Where the number of a frame ends that begins at `from`: at the first full
/// stop, at the next marker, or at the end of the name.
pub open spec fn number_end(name: Seq<char>, from: int) -> int
    decreases name.len() - from,
{
    if from < 0 || from >= name.len() {
        name.len() as int
    } else if name[from] == '.' || matches_at(name, frame_tag(), from) {
        from
    } else {
        number_end(name, from + 1)
    }
}

/// What stands for the number of the frame in a name that holds the marker:
/// the characters behind the first marker, up to the end of the number.
pub open spec fn number_part(name: Seq<char>) -> Option<Seq<char>> {
    match first_match(name, frame_tag(), 0) {
        None => None,
        Some(at) => Some(name.subrange(at + 6, number_end(name, at + 6))),
    }
}

/// Whether a name is that of a frame: it holds the marker, and nothing but
/// digits stands for the number.
pub open spec fn names_a_frame(name: Seq<char>) -> bool {
    number_part(name) matches Some(part) && all_digits(part)
}

/// The number of the frame that a name gives, where it gives one that fits
/// 32 bits.
pub open spec fn frame_number_of(name: Seq<char>) -> Option<u32> {
    match number_part(name) {
        None => None,
        Some(part) => if part.len() > 0 && all_digits(part) && decimal_value(part) <= u32::MAX {
            Some(decimal_value(part) as u32)
        } else {
            None
        },
    }
}

/// The end of a number lies between its start and the end of the name, and
/// no full stop stands before it.
pub proof fn lemma_number_end(name: Seq<char>, from: int)
    requires
        0 <= from <= name.len(),
    ensures
        from <= number_end(name, from) <= name.len(),
    decreases name.len() - from,
{
    if from < name.len() && !(name[from] == '.' || matches_at(name, frame_tag(), from)) {
        lemma_number_end(name, from + 1);
    }
}

/// A match that is found lies at or after the start of the search and inside
/// the text.
pub proof fn lemma_first_match(hay: Seq<char>, needle: Seq<char>, from: int)
    requires
        0 <= from,
    ensures
        first_match(hay, needle, from) matches Some(at) ==> from <= at && matches_at(
            hay,
            needle,
            at,
        ),
    decreases hay.len() - from,
{
    if from + needle.len() <= hay.len() && !matches_at(hay, needle, from) && from < hay.len() {
        lemma_first_match(hay, needle, from + 1);
    }
}

/// More digits spell no smaller number.
pub proof fn lemma_decimal_value_grows(digits: Seq<char>, n: int)
    requires
        0 <= n <= digits.len(),
        all_digits(digits),
    ensures
        decimal_value(digits.take(n)) <= decimal_value(digits),
    decreases digits.len() - n,
{
    if n < digits.len() {
        lemma_decimal_value_grows(digits, n + 1);
        assert(digits.take(n + 1).drop_last() =~= digits.take(n));
        assert(is_digit(digits[n]));
    } else {
        assert(digits.take(n) =~= digits);
    }
}

/// The characters of a string.
pub fn chars_of(s: &str) -> (v: Vec<char>)
    ensures
        v@ == s@,
{
    let mut v: Vec<char> = Vec::new();
    for c in it: s.chars()
        invariant
            it.seq() == s@,
            v@ == it.seq().take(it.index() as int),
    {
        proof {
            assert(it.seq().take(it.index() + 1) =~= it.seq().take(it.index() as int).push(c));
        }
        v.push(c);
    }
    assert(s@.take(s@.len() as int) =~= s@);
    v
}

/// Whether `needle` stands in `hay` at place `at`.
pub fn stands_at(hay: &Vec<char>, needle: &Vec<char>, at: usize) -> (b: bool)
    ensures
        b == matches_at(hay@, needle@, at as int),
{
    if needle.len() > hay.len() || at > hay.len() - needle.len() {
        return false;
    }
    let mut i: usize = 0;
    while i < needle.len()
        invariant
            at + needle.len() <= hay.len(),
            i <= needle.len(),
            forall|k: int| 0 <= k < i ==> hay[at + k] == needle[k],
        decreases needle.len() - i,
    {
        if hay[at + i] != needle[i] {
            proof {
                let part = hay@.subrange(at as int, at + needle.len());
                assert(part[i as int] == hay[at + i]);
            }
            return false;
        }
        i = i + 1;
    }
    assert(hay@.subrange(at as int, at + needle.len()) =~= needle@);
    true
}

/// The first place at or after `from` where `needle` stands in `hay`.
pub fn find(hay: &Vec<char>, needle: &Vec<char>, from: usize) -> (r: Option<usize>)
    ensures
        match first_match(hay@, needle@, from as int) {
            Some(at) => r == Some(at as usize) && at <= usize::MAX,
            None => r is None,
        },
{
    let mut i: usize = from;
    loop
        invariant
            from <= i,
            first_match(hay@, needle@, from as int) == first_match(hay@, needle@, i as int),
        decreases hay.len() + 1 - i,
    {
        if needle.len() > hay.len() || i > hay.len() - needle.len() {
            return None;
        }
        if stands_at(hay, needle, i) {
            return Some(i);
        }
        if i >= hay.len() {
            return None;
        }
        i = i + 1;
    }
}

/// The marker as characters.
pub fn tag() -> (t: Vec<char>)
    ensures
        t@ == frame_tag(),
{
    let mut t: Vec<char> = Vec::with_capacity(6);
    t.push('_');
    t.push('f');
    t.push('r');
    t.push('a');
    t.push('m');
    t.push('e');
    assert(t@ =~= frame_tag());
    t
}

/// Where what stands for the number of a frame begins and ends in a name, or
/// `None` where the name does not hold the marker.
pub fn number_bounds(name: &Vec<char>) -> (r: Option<(usize, usize)>)
    ensures
        number_part(name@) is Some <==> r is Some,
        r matches Some((start, end)) ==> start <= end <= name.len() && number_part(name@) == Some(
            name@.subrange(start as int, end as int),
        ),
{
    let marker: Vec<char> = tag();
    match find(name, &marker, 0) {
        None => None,
        Some(at) => {
            proof {
                lemma_first_match(name@, marker@, 0);
                assert(frame_tag().len() == 6);
                assert(matches_at(name@, marker@, at as int));
                assert(at + 6 <= name.len());
            }
            let start: usize = at + 6;
            let mut end: usize = start;
            proof {
                lemma_number_end(name@, start as int);
            }
            while end < name.len() && !(name[end] == '.' || stands_at(name, &marker, end))
                invariant
                    marker@ == frame_tag(),
                    start <= end <= name.len(),
                    number_end(name@, start as int) == number_end(name@, end as int),
                decreases name.len() - end,
            {
                end = end + 1;
            }
            Some((start, end))
        },
    }
}

/// Whether the characters from `start` up to `end` are all digits.
pub fn digits_only(name: &Vec<char>, start: usize, end: usize) -> (b: bool)
    requires
        start <= end <= name.len(),
    ensures
        b == all_digits(name@.subrange(start as int, end as int)),
{
    let ghost part = name@.subrange(start as int, end as int);
    let mut i: usize = start;
    while i < end
        invariant
            start <= i <= end <= name.len(),
            part == name@.subrange(start as int, end as int),
            forall|k: int| 0 <= k < i - start ==> is_digit(#[trigger] part[k]),
        decreases end - i,
    {
        let code: u32 = name[i] as u32;
        if code < 48 || code > 57 {
            assert(!is_digit(part[i - start]));
            return false;
        }
        i = i + 1;
    }
    true
}

/// Whether a name is that of a frame.
pub fn is_frame_name(name: &str) -> (b: bool)
    ensures
        b == names_a_frame(name@),
{
    let chars: Vec<char> = chars_of(name);
    match number_bounds(&chars) {
        None => false,
        Some((start, end)) => digits_only(&chars, start, end),
    }
}

/// The number of the frame that a name gives.
pub fn frame_number(name: &str) -> (n: Option<u32>)
    ensures
        n == frame_number_of(name@),
{
    let chars: Vec<char> = chars_of(name);
    match number_bounds(&chars) {
        None => None,
        Some((start, end)) => {
            if start == end || !digits_only(&chars, start, end) {
                return None;
            }
            let ghost part = chars@.subrange(start as int, end as int);
            let mut value: u64 = 0;
            let mut i: usize = start;
            while i < end
                invariant
                    start <= i <= end <= chars.len(),
                    part == chars@.subrange(start as int, end as int),
                    all_digits(part),
                    number_part(name@) == Some(part),
                    value == decimal_value(part.take(i - start)),
                    value <= u32::MAX,
                decreases end - i,
            {
                proof {
                    assert(part.take(i - start + 1).drop_last() =~= part.take(i - start));
                    assert(is_digit(part[i - start]));
                    lemma_decimal_value_grows(part, i - start + 1);
                }
                let digit: u64 = (chars[i] as u32 - 48) as u64;
                value = value * 10 + digit;
                assert(part.take(i - start + 1).last() == chars[i as int]);
                assert(value == decimal_value(part.take(i - start + 1)));
                if value > 0xffff_ffff {
                    return None;
                }
                i = i + 1;
            }
            assert(part.take(end - start) =~= part);
            Some(value as u32)
        },
    }
}

/// The characters of names.
pub open spec fn name_views(names: Seq<String>) -> Seq<Seq<char>> {
    names.map_values(|n: String| n@)
}

/// Every name gives the number of a frame.
pub open spec fn all_numbered(names: Seq<Seq<char>>) -> bool {
    forall|i: int| 0 <= i < names.len() ==> frame_number_of(#[trigger] names[i]) is Some
}

/// The number of the frame of a name that gives one.
pub open spec fn key_of(name: Seq<char>) -> int {
    frame_number_of(name)->Some_0 as int
}

/// `after` holds the names of `before` in the order of their frame numbers,
/// names with one number in the order they had: `places[i]` is where the
/// name at place `i` of `after` stood in `before`.
pub open spec fn is_ordering(before: Seq<Seq<char>>, after: Seq<Seq<char>>, places: Seq<int>) -> bool {
    &&& places.len() == after.len()
    &&& forall|i: int|
        0 <= i < after.len() ==> 0 <= #[trigger] places[i] < before.len() && after[i]
            == before[places[i]]
    &&& forall|i: int, j: int|
        0 <= i < j < after.len() ==> #[trigger] places[i] != #[trigger] places[j]
    &&& forall|i: int, j: int|
        0 <= i < j < after.len() ==> key_of(#[trigger] after[i]) <= key_of(#[trigger] after[j])
    &&& forall|i: int, j: int|
        0 <= i < j < after.len() && key_of(after[i]) == key_of(after[j]) ==> #[trigger] places[i]
            < #[trigger] places[j]
}

/// Putting the next name of `before` behind the names whose number is no
/// larger, and ahead of those whose number is larger, keeps the names in
/// order.
pub proof fn lemma_insert_keeps_order(
    before: Seq<Seq<char>>,
    after: Seq<Seq<char>>,
    places: Seq<int>,
    at: int,
    k: int,
)
    requires
        0 <= at <= after.len() == k < before.len(),
        is_ordering(before, after, places),
        forall|i: int| 0 <= i < k ==> #[trigger] places[i] < k,
        forall|i: int| 0 <= i < at ==> key_of(#[trigger] after[i]) <= key_of(before[k]),
        forall|i: int| at <= i < k ==> key_of(#[trigger] after[i]) > key_of(before[k]),
    ensures
        is_ordering(before, after.insert(at, before[k]), places.insert(at, k)),
        forall|i: int| 0 <= i < k + 1 ==> 0 <= #[trigger] places.insert(at, k)[i] < k + 1,
{
    let now = after.insert(at, before[k]);
    let new_places = places.insert(at, k);
    let was = |i: int|
        if i < at {
            i
        } else {
            i - 1
        };
    assert forall|i: int| 0 <= i < now.len() implies 0 <= #[trigger] new_places[i] < before.len()
        && now[i] == before[new_places[i]] && new_places[i] < k + 1 by {
        if i != at {
            assert(new_places[i] == places[was(i)]);
            assert(now[i] == after[was(i)]);
        }
    }
    assert forall|i: int, j: int| 0 <= i < j < now.len() implies #[trigger] new_places[i]
        != #[trigger] new_places[j] by {
        if i != at && j != at {
            assert(new_places[i] == places[was(i)]);
            assert(new_places[j] == places[was(j)]);
        } else if i == at {
            assert(new_places[j] == places[was(j)]);
        } else {
            assert(new_places[i] == places[was(i)]);
        }
    }
    assert forall|i: int, j: int| 0 <= i < j < now.len() implies key_of(#[trigger] now[i])
        <= key_of(#[trigger] now[j]) by {
        if i != at && j != at {
            assert(now[i] == after[was(i)]);
            assert(now[j] == after[was(j)]);
        } else if i == at {
            assert(now[j] == after[was(j)]);
        } else {
            assert(now[i] == after[was(i)]);
        }
    }
    assert forall|i: int, j: int|
        0 <= i < j < now.len() && key_of(now[i]) == key_of(now[j]) implies #[trigger] new_places[i]
            < #[trigger] new_places[j] by {
        if i != at && j != at {
            assert(now[i] == after[was(i)]);
            assert(now[j] == after[was(j)]);
            assert(new_places[i] == places[was(i)]);
            assert(new_places[j] == places[was(j)]);
        } else if i == at {
            assert(now[j] == after[was(j)]);
        } else {
            assert(now[i] == after[was(i)]);
            assert(new_places[i] == places[was(i)]);
        }
    }
}

/// `after` is `before` sorted by frame number, the order of names with one
/// number kept.
pub open spec fn is_sorted_by_frame(before: Seq<Seq<char>>, after: Seq<Seq<char>>) -> bool {
    after.len() == before.len() && exists|places: Seq<int>| is_ordering(before, after, places)
}

/// Puts the names of frames in the order of their numbers. Names with one
/// number keep the order they came in.
pub fn frame_sort(names: &mut Vec<String>)
    requires
        all_numbered(name_views(old(names)@)),
    ensures
        is_sorted_by_frame(name_views(old(names)@), name_views(final(names)@)),
{
    let ghost before = name_views(names@);
    let n: usize = names.len();
    let mut sorted: Vec<String> = Vec::with_capacity(n);
    let mut keys: Vec<u32> = Vec::with_capacity(n);
    let ghost mut places: Seq<int> = Seq::empty();
    let mut k: usize = 0;
    while k < n
        invariant
            n == names.len(),
            before == name_views(names@),
            all_numbered(before),
            k <= n,
            sorted.len() == k,
            keys.len() == k,
            forall|i: int| 0 <= i < k ==> #[trigger] keys[i] == key_of(sorted[i]@),
            forall|i: int| 0 <= i < k ==> 0 <= #[trigger] places[i] < k,
            is_ordering(before, name_views(sorted@), places),
        decreases n - k,
    {
        let name: String = names[k].clone();
        assert(name@ == before[k as int]);
        let key: u32 = match frame_number(name.as_str()) {
            Some(number) => number,
            None => 0,
        };
        assert(key == key_of(before[k as int]));
        let mut at: usize = 0;
        while at < k && keys[at] <= key
            invariant
                at <= k,
                keys.len() == k,
                forall|i: int| 0 <= i < at ==> #[trigger] keys[i] <= key,
            decreases k - at,
        {
            at = at + 1;
        }
        let ghost old_sorted = name_views(sorted@);
        assert forall|i: int| 0 <= i < k implies #[trigger] keys[i] == key_of(old_sorted[i]) by {
            assert(old_sorted[i] == sorted[i]@);
        }
        let ghost old_places = places;
        let ghost old_keys = keys@;
        sorted.insert(at, name);
        keys.insert(at, key);
        proof {
            places = old_places.insert(at as int, k as int);
            assert(name_views(sorted@) =~= old_sorted.insert(at as int, before[k as int]));
            assert(keys@ =~= old_keys.insert(at as int, key));
            assert forall|i: int| 0 <= i < at implies key_of(#[trigger] old_sorted[i]) <= key by {
                assert(old_keys[i] <= key);
            }
            assert forall|i: int| at <= i < k implies key_of(#[trigger] old_sorted[i]) > key by {
                assert(old_keys[at as int] > key);
                assert(old_keys[i] == key_of(old_sorted[i]));
                if i > at {
                    assert(key_of(old_sorted[at as int]) <= key_of(old_sorted[i]));
                }
            }
            lemma_insert_keeps_order(before, old_sorted, old_places, at as int, k as int);
            assert forall|i: int| 0 <= i < k + 1 implies #[trigger] keys[i] == key_of(
                sorted[i]@,
            ) by {
                assert(name_views(sorted@)[i] == sorted[i]@);
                if i < at {
                    assert(keys[i] == old_keys[i]);
                    assert(old_sorted[i] == sorted[i]@);
                } else if i > at {
                    assert(keys[i] == old_keys[i - 1]);
                    assert(old_sorted[i - 1] == sorted[i]@);
                }
            }
        }
        k = k + 1;
    }
    *names = sorted;
}

} // verus!
