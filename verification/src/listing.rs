//! Lists of numbers as they are written on a command line: between two
//! delimiters, with commas or blanks between the numbers.
use vstd::prelude::*;
use crate::decimal::{parse_unsigned, unsigned_of};
use crate::text::{chars_of, slice_of, split_blank, tokens, views};

verus! {

/// Why a list was refused.
#[derive(Debug, Clone, Copy, PartialEq, Eq, Structural)]
pub enum ListError {
    /// The opening delimiter does not occur.
    MissingOpen,
    /// The closing delimiter does not occur after the opening one.
    MissingClose,
    /// The item with this index is no number of the machine's word.
    BadItem(usize),
}

/// Index of the first `c` at or after `i`, or the length of `s` where
/// there is none.
pub open spec fn position_of(s: Seq<char>, c: char, i: int) -> int
    decreases s.len() - i,
{
    if i < 0 || i >= s.len() {
        s.len() as int
    } else if s[i] == c {
        i
    } else {
        position_of(s, c, i + 1)
    }
}

/// The words of a list: what commas and blanks part its text into.
pub open spec fn list_words(inner: Seq<char>) -> Seq<Seq<char>> {
    tokens(
        inner.map_values(
            |c: char|
                if c == ',' {
                    ' '
                } else {
                    c
                },
        ),
    )
}

/// The number that a word spells, where it fits the machine's word.
pub open spec fn list_item(w: Seq<char>) -> Option<nat> {
    match unsigned_of(w) {
        Some(n) => if n <= usize::MAX {
            Some(n)
        } else {
            None
        },
        None => None,
    }
}

/// Index of the first word at or after `i` that spells no number, or the
/// number of words where each spells one.
pub open spec fn first_bad(words: Seq<Seq<char>>, i: int) -> int
    decreases words.len() - i,
{
    if i < 0 || i >= words.len() {
        words.len() as int
    } else if list_item(words[i]) is None {
        i
    } else {
        first_bad(words, i + 1)
    }
}

/// What a list denotes: the numbers between the first opening delimiter
/// and the first closing delimiter after it.
pub open spec fn list_of(s: Seq<char>, open: char, close: char) -> Result<Seq<nat>, ListError> {
    let a = position_of(s, open, 0);
    if a >= s.len() {
        Err(ListError::MissingOpen)
    } else {
        let b = position_of(s, close, a + 1);
        if b >= s.len() {
            Err(ListError::MissingClose)
        } else {
            let words = list_words(s.subrange(a + 1, b));
            let bad = first_bad(words, 0);
            if bad < words.len() {
                Err(ListError::BadItem(bad as usize))
            } else {
                Ok(words.map_values(|w: Seq<char>| list_item(w)->0))
            }
        }
    }
}

fn find_char(s: &Vec<char>, c: char, from: usize) -> (r: usize)
    requires
        from <= s.len(),
    ensures
        r == position_of(s@, c, from as int),
        from <= r <= s.len(),
{
    let mut i: usize = from;
    while i < s.len() && s[i] != c
        invariant
            from <= i <= s.len(),
            position_of(s@, c, from as int) == position_of(s@, c, i as int),
        decreases s.len() - i,
    {
        i += 1;
    }
    i
}

/// Reads a list of numbers such as `[128, 128 64]`.
pub fn parse_list_input(s: &str, open: char, close: char) -> (r: Result<Vec<usize>, ListError>)
    ensures
        match list_of(s@, open, close) {
            Ok(v) => r matches Ok(x) && x@.map_values(|n: usize| n as nat) == v,
            Err(e) => r matches Err(x) && x == e,
        },
{
    let text = chars_of(s);
    let start = find_char(&text, open, 0);
    if start >= text.len() {
        return Err(ListError::MissingOpen);
    }
    let end = find_char(&text, close, start + 1);
    if end >= text.len() {
        return Err(ListError::MissingClose);
    }
    let inner = slice_of(&text, start + 1, end);
    let mut spaced: Vec<char> = Vec::new();
    let mut k: usize = 0;
    while k < inner.len()
        invariant
            0 <= k <= inner.len(),
            spaced.len() == k,
            forall|j: int|
                0 <= j < k ==> spaced@[j] == if inner@[j] == ',' {
                    ' '
                } else {
                    inner@[j]
                },
        decreases inner.len() - k,
    {
        if inner[k] == ',' {
            spaced.push(' ');
        } else {
            spaced.push(inner[k]);
        }
        k += 1;
    }
    assert(spaced@ =~= inner@.map_values(
        |c: char|
            if c == ',' {
                ' '
            } else {
                c
            },
    ));
    let words = split_blank(&spaced);
    let ghost w = list_words(inner@);
    let mut vals: Vec<usize> = Vec::new();
    let mut i: usize = 0;
    assert(w.len() == words.len());
    while i < words.len()
        invariant
            0 <= i <= words.len() == w.len(),
            views(words@) == w,
            position_of(s@, open, 0) == start < s@.len(),
            position_of(s@, close, start + 1) == end < s@.len(),
            w == list_words(s@.subrange(start + 1, end as int)),
            first_bad(w, 0) == first_bad(w, i as int),
            vals.len() == i,
            forall|j: int| 0 <= j < i ==> list_item(w[j]) == Some(#[trigger] vals@[j] as nat),
        decreases words.len() - i,
    {
        assert(w[i as int] == words@[i as int]@);
        match parse_unsigned(&words[i], usize::MAX as u64) {
            Some(n) => vals.push(n as usize),
            None => {
                return Err(ListError::BadItem(i));
            },
        }
        i += 1;
    }
    assert(vals@.map_values(|n: usize| n as nat) =~= w.map_values(
        |x: Seq<char>| list_item(x)->0,
    ));
    Ok(vals)
}

} // verus!
