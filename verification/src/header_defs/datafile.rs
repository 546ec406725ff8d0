//! The data-file directive: where the payload of a detached header lies.
use vstd::prelude::*;
use crate::decimal::{
    digit_value, int_text, nat_text, parse_signed, parse_unsigned, push_int, push_nat, signed_of,
    unsigned_of,
};
use crate::header_defs::reals::digits_end;
use crate::header_defs::{Field, HeaderDef};
use crate::text::{
    char_is_digit, chars_of, collect, find, find_from, is_digit, join, joined, push_all, push_str,
    slice_of, split_blank, string_of, tokens, trim, trimmed, views,
};

verus! {

/// The data-file directive.
#[derive(Debug, Clone)]
pub enum DataFile {
    /// One file.
    SingleFile { filename: String },
    /// Numbered files: a `printf` format for the name, and the numbers to
    /// put into it.
    FileFormat { fmt_string: String, min: i32, max: i32, step: i32, sub_dim: Option<usize> },
    /// The files named on the lines that follow the directive.
    List { sub_dim: Option<usize>, file_paths: Vec<String> },
}

/// The model of a data-file directive.
pub enum DataFileView {
    SingleFile { filename: Seq<char> },
    FileFormat { fmt_string: Seq<char>, min: int, max: int, step: int, sub_dim: Option<nat> },
    List { sub_dim: Option<nat>, file_paths: Seq<Seq<char>> },
}

/// The model of an optional count.
pub open spec fn count_view(n: Option<usize>) -> Option<nat> {
    match n {
        Some(n) => Some(n as nat),
        None => None,
    }
}

impl View for DataFile {
    type V = DataFileView;

    open spec fn view(&self) -> DataFileView {
        match self {
            DataFile::SingleFile { filename } => DataFileView::SingleFile { filename: filename@ },
            DataFile::FileFormat { fmt_string, min, max, step, sub_dim } => {
                DataFileView::FileFormat {
                    fmt_string: fmt_string@,
                    min: *min as int,
                    max: *max as int,
                    step: *step as int,
                    sub_dim: count_view(*sub_dim),
                }
            },
            DataFile::List { sub_dim, file_paths } => DataFileView::List {
                sub_dim: count_view(*sub_dim),
                file_paths: views(file_paths@),
            },
        }
    }
}

/// Length of the longest prefix of `t` that is an optional `-` and then
/// one digit or more; 0 where `t` has no such prefix.
pub open spec fn integer_prefix(t: Seq<char>) -> int {
    let start: int = if t.len() > 0 && t[0] == '-' {
        1
    } else {
        0
    };
    let end = digits_end(t, start);
    if end > start {
        end
    } else {
        0
    }
}

/// Is the whole of `t` an optional `-` and then one digit or more?
pub open spec fn is_integer(t: Seq<char>) -> bool {
    t.len() > 0 && integer_prefix(t) == t.len()
}

/// Do the words from `k` on begin a numbered sequence: a name, two
/// integers, and a word that begins with an integer?
pub open spec fn sequence_at(words: Seq<Seq<char>>, k: int) -> bool {
    &&& 0 <= k
    &&& k + 3 < words.len()
    &&& is_integer(words[k + 1])
    &&& is_integer(words[k + 2])
    &&& integer_prefix(words[k + 3]) > 0
}

/// The first position at or after `k` where a numbered sequence begins,
/// or the number of words where none begins.
pub open spec fn sequence_from(words: Seq<Seq<char>>, k: int) -> int
    decreases words.len() - k,
{
    if k < 0 || k >= words.len() {
        words.len() as int
    } else if sequence_at(words, k) {
        k
    } else {
        sequence_from(words, k + 1)
    }
}

/// A number of the machine's 32-bit signed range.
pub open spec fn int32_of(t: Seq<char>) -> Option<int> {
    match signed_of(t) {
        Some(i) => if i32::MIN <= i <= i32::MAX {
            Some(i)
        } else {
            None
        },
        None => None,
    }
}

/// A count of the machine's word.
pub open spec fn word_count_of(t: Seq<char>) -> Option<nat> {
    match unsigned_of(t) {
        Some(n) => if n <= usize::MAX {
            Some(n)
        } else {
            None
        },
        None => None,
    }
}

/// The numbered sequence that begins at word `k`; no value where a number
/// is out of range.
pub open spec fn sequence_of(words: Seq<Seq<char>>, k: int) -> Option<DataFileView> {
    let last = words[k + 3];
    let cut = integer_prefix(last);
    let has_sub = cut == last.len() && k + 4 < words.len() && integer_prefix(words[k + 4]) > 0;
    let sub = if has_sub {
        word_count_of(words[k + 4].take(integer_prefix(words[k + 4])))
    } else {
        None
    };
    match (int32_of(words[k + 1]), int32_of(words[k + 2]), int32_of(last.take(cut))) {
        (Some(min), Some(max), Some(step)) => if has_sub && sub is None {
            None
        } else {
            Some(
                DataFileView::FileFormat {
                    fmt_string: words[k],
                    min,
                    max,
                    step,
                    sub_dim: sub,
                },
            )
        },
        _ => None,
    }
}

/// The list directive whose word `LIST` begins at `i`: one space may follow
/// the word, and one digit after that gives the sub-dimension.
pub open spec fn list_of(s: Seq<char>, i: int) -> DataFileView {
    let j = if i + 4 < s.len() && s[i + 4] == ' ' {
        i + 5
    } else {
        i + 4
    };
    DataFileView::List {
        sub_dim: if j < s.len() && is_digit(s[j]) {
            Some(digit_value(s[j]))
        } else {
            None
        },
        file_paths: Seq::empty(),
    }
}

/// What the text of a directive denotes. A numbered sequence where one
/// begins among its words; else a list where the text holds `LIST`; else
/// the trimmed text as the name of one file.
pub open spec fn directive_of(rest: Seq<char>) -> Option<DataFileView> {
    let s = trim(rest);
    let words = tokens(s);
    let k = sequence_from(words, 0);
    if k < words.len() {
        sequence_of(words, k)
    } else if find_from(s, "LIST"@, 0) < s.len() {
        Some(list_of(s, find_from(s, "LIST"@, 0)))
    } else {
        Some(DataFileView::SingleFile { filename: s })
    }
}

/// The text of an optional trailing count: a space and the number, or nothing.
pub open spec fn sub_dim_text(sub_dim: Option<nat>) -> Seq<char> {
    match sub_dim {
        Some(n) => " "@ + nat_text(n),
        None => Seq::empty(),
    }
}

/// The canonical text of a directive. The files of a list follow it, each
/// on a line of its own.
pub open spec fn directive_text(v: DataFileView) -> Seq<char> {
    match v {
        DataFileView::SingleFile { filename } => filename,
        DataFileView::FileFormat { fmt_string, min, max, step, sub_dim } => fmt_string + " "@
            + int_text(min) + " "@ + int_text(max) + " "@ + int_text(step) + sub_dim_text(sub_dim),
        DataFileView::List { sub_dim, file_paths } => "LIST"@ + sub_dim_text(sub_dim) + (
        if file_paths.len() > 0 {
            "\n"@ + join(file_paths, "\n"@)
        } else {
            Seq::empty()
        }),
    }
}

fn integer_prefix_len(t: &Vec<char>) -> (r: usize)
    ensures
        r == integer_prefix(t@),
        r <= t.len(),
{
    let start: usize = if t.len() > 0 && t[0] == '-' {
        1
    } else {
        0
    };
    let mut end: usize = start;
    while end < t.len() && char_is_digit(t[end])
        invariant
            start <= end <= t.len(),
            digits_end(t@, start as int) == digits_end(t@, end as int),
        decreases t.len() - end,
    {
        end += 1;
    }
    if end > start {
        end
    } else {
        0
    }
}

fn begins_sequence(words: &Vec<Vec<char>>, k: usize) -> (b: bool)
    ensures
        b == sequence_at(views(words@), k as int),
{
    if words.len() < 4 || k >= words.len() - 3 {
        return false;
    }
    assert(views(words@)[k + 1] == words@[k + 1]@);
    assert(views(words@)[k + 2] == words@[k + 2]@);
    assert(views(words@)[k + 3] == words@[k + 3]@);
    let a = &words[k + 1];
    let b = &words[k + 2];
    a.len() > 0 && integer_prefix_len(a) == a.len() && b.len() > 0 && integer_prefix_len(b)
        == b.len() && integer_prefix_len(&words[k + 3]) > 0
}

fn parse_int32(t: &Vec<char>) -> (r: Option<i32>)
    ensures
        r == match int32_of(t@) {
            Some(i) => Some(i as i32),
            None => None::<i32>,
        },
{
    match parse_signed(t, i32::MIN as i64, i32::MAX as i64) {
        Some(i) => Some(i as i32),
        None => None,
    }
}

fn parse_sequence(words: &Vec<Vec<char>>, k: usize) -> (r: Option<DataFile>)
    requires
        sequence_at(views(words@), k as int),
    ensures
        match r {
            Some(d) => sequence_of(views(words@), k as int) == Some(d@),
            None => sequence_of(views(words@), k as int) is None,
        },
{
    let ghost w = views(words@);
    assert(w.len() == words.len());
    assert(w[k as int] == words@[k as int]@);
    assert(w[k + 1] == words@[k + 1]@);
    assert(w[k + 2] == words@[k + 2]@);
    assert(w[k + 3] == words@[k + 3]@);
    let last = &words[k + 3];
    let cut = integer_prefix_len(last);
    let has_sub: bool = cut == last.len() && k + 4 < words.len() && integer_prefix_len(
        &words[k + 4],
    ) > 0;
    let mut sub_dim: Option<usize> = None;
    if k + 4 < words.len() {
        assert(w[k + 4] == words@[k + 4]@);
    }
    if has_sub {
        let sub_word = &words[k + 4];
        let head = slice_of(sub_word, 0, integer_prefix_len(sub_word));
        assert(head@ =~= w[k + 4].take(integer_prefix(w[k + 4])));
        match parse_unsigned(&head, usize::MAX as u64) {
            Some(n) => {
                sub_dim = Some(n as usize);
            },
            None => {},
        }
    }
    let step_word = slice_of(last, 0, cut);
    assert(step_word@ =~= w[k + 3].take(integer_prefix(w[k + 3])));
    match (parse_int32(&words[k + 1]), parse_int32(&words[k + 2]), parse_int32(&step_word)) {
        (Some(min), Some(max), Some(step)) => {
            if has_sub && sub_dim.is_none() {
                None
            } else {
                Some(
                    DataFile::FileFormat {
                        fmt_string: string_of(&words[k]),
                        min,
                        max,
                        step,
                        sub_dim,
                    },
                )
            }
        },
        _ => None,
    }
}

impl HeaderDef for DataFile {
    open spec fn prefixes() -> Seq<Seq<char>> {
        seq!["data file: "@, "datafile: "@]
    }

    open spec fn field() -> Field {
        Field::DataFile
    }

    open spec fn value_of(rest: Seq<char>) -> Option<DataFileView> {
        directive_of(rest)
    }

    open spec fn text_of(v: DataFileView) -> Seq<char> {
        directive_text(v)
    }

    fn patterns() -> (r: Vec<&'static str>) {
        let r = vec!["data file: ", "datafile: "];
        assert(views(r@) =~= Self::prefixes());
        r
    }

    fn tag() -> Field {
        Field::DataFile
    }

    fn parse_value(rest: &Vec<char>) -> Option<Self> {
        let s = trimmed(rest);
        let words = split_blank(&s);
        let mut k: usize = 0;
        while k < words.len()
            invariant
                0 <= k <= words.len(),
                views(words@) == tokens(trim(rest@)),
                sequence_from(views(words@), 0) == sequence_from(views(words@), k as int),
            decreases words.len() - k,
        {
            if begins_sequence(&words, k) {
                return parse_sequence(&words, k);
            }
            k += 1;
        }
        let word = chars_of("LIST");
        proof {
            reveal_strlit("LIST");
            crate::text::lemma_find_from_bounds(s@, "LIST"@, 0);
        }
        match find(&s, &word) {
            Some(i) => {
                let j: usize = if i + 4 < s.len() && s[i + 4] == ' ' {
                    i + 5
                } else {
                    i + 4
                };
                let sub_dim: Option<usize> = if j < s.len() && char_is_digit(s[j]) {
                    Some((s[j] as u32 - '0' as u32) as usize)
                } else {
                    None
                };
                let d = DataFile::List { sub_dim, file_paths: Vec::new() };
                assert(views(Seq::<String>::empty()) =~= Seq::<Seq<char>>::empty());
                Some(d)
            },
            None => Some(DataFile::SingleFile { filename: string_of(&s) }),
        }
    }

    fn value_text(&self) -> Vec<char> {
        let mut out: Vec<char> = Vec::new();
        match self {
            DataFile::SingleFile { filename } => {
                push_str(&mut out, filename.as_str());
            },
            DataFile::FileFormat { fmt_string, min, max, step, sub_dim } => {
                push_str(&mut out, fmt_string.as_str());
                push_str(&mut out, " ");
                push_int(&mut out, *min as i64);
                push_str(&mut out, " ");
                push_int(&mut out, *max as i64);
                push_str(&mut out, " ");
                push_int(&mut out, *step as i64);
                match sub_dim {
                    Some(n) => {
                        push_str(&mut out, " ");
                        push_nat(&mut out, *n as u64);
                    },
                    None => {},
                }
                assert(out@ =~= directive_text(self@));
            },
            DataFile::List { sub_dim, file_paths } => {
                push_str(&mut out, "LIST");
                match sub_dim {
                    Some(n) => {
                        push_str(&mut out, " ");
                        push_nat(&mut out, *n as u64);
                    },
                    None => {},
                }
                if file_paths.len() > 0 {
                    push_str(&mut out, "\n");
                    let mut names: Vec<Vec<char>> = Vec::new();
                    let mut i: usize = 0;
                    while i < file_paths.len()
                        invariant
                            0 <= i <= file_paths.len(),
                            names.len() == i,
                            forall|j: int| 0 <= j < i ==> (#[trigger] names@[j])@ == file_paths@[j]@,
                        decreases file_paths.len() - i,
                    {
                        names.push(chars_of(file_paths[i].as_str()));
                        i += 1;
                    }
                    assert(views(names@) =~= views(file_paths@));
                    let body = joined(&names, "\n");
                    push_all(&mut out, &body);
                }
                assert(out@ =~= directive_text(self@));
            },
        }
        out
    }
}

/// Why the files of a directive cannot be named.
#[derive(Debug, Clone, Copy, PartialEq, Eq, Structural)]
pub enum PathError {
    /// A bound of the sequence has no magnitude in 32 bits.
    IndexRange,
    /// The format asks for a field width or a precision of more than four
    /// digits, or for one that is taken from an argument (`*`).
    FormatWidth,
    /// The format cannot be applied to one integer.
    Format,
}

/// The magnitude of `i`.
pub open spec fn magnitude(i: int) -> int {
    if i < 0 {
        -i
    } else {
        i
    }
}

/// `lo`, `lo + by`, `lo + 2 * by` and so on, up to `hi` at most.
pub open spec fn ascending(lo: int, hi: int, by: int) -> Seq<int>
    recommends
        by > 0,
{
    if lo > hi {
        Seq::empty()
    } else {
        Seq::new(((hi - lo) / by + 1) as nat, |k: int| lo + k * by)
    }
}

/// The numbers of a sequence: from the magnitude of `min` to that of `max`
/// by steps of the magnitude of `step`, upwards where `step` is positive
/// and in the reverse order where it is negative; none where it is zero.
pub open spec fn indices(min: int, max: int, step: int) -> Seq<int> {
    if step > 0 {
        ascending(magnitude(min), magnitude(max), step)
    } else if step < 0 {
        ascending(magnitude(min), magnitude(max), -step).reverse()
    } else {
        Seq::empty()
    }
}

/// The integers of a vector.
pub open spec fn ints(v: Seq<i32>) -> Seq<int> {
    v.map_values(|i: i32| i as int)
}

fn ascending_indices(lo: i64, hi: i64, by: i64) -> (r: Vec<i32>)
    requires
        0 <= lo <= i32::MAX,
        0 <= hi <= i32::MAX,
        0 < by <= 0x8000_0000,
    ensures
        ints(r@) == ascending(lo as int, hi as int, by as int),
{
    let mut v: Vec<i32> = Vec::new();
    if lo > hi {
        assert(ints(v@) =~= Seq::<int>::empty());
        return v;
    }
    let mut cur: i64 = lo;
    assert(v.len() * by == 0) by (nonlinear_arith)
        requires
            v.len() == 0,
    ;
    while cur <= hi
        invariant
            0 <= lo <= hi <= i32::MAX,
            0 < by <= 0x8000_0000,
            lo <= cur <= hi + by,
            cur == lo + v.len() * by,
            forall|k: int| 0 <= k < v.len() ==> #[trigger] v@[k] as int == lo + k * by,
        decreases hi + by - cur,
    {
        let ghost n = v.len() as int;
        v.push(cur as i32);
        assert((n + 1) * by == n * by + by) by (nonlinear_arith);
        cur = cur + by;
    }
    proof {
        let n = v.len() as int;
        assert((n - 1) * by == n * by - by) by (nonlinear_arith);
        assert((hi - lo) / (by as int) == n - 1) by (nonlinear_arith)
            requires
                by > 0,
                (n - 1) * by <= hi - lo < n * by,
        ;
        assert(ints(v@) =~= ascending(lo as int, hi as int, by as int));
    }
    v
}

/// The numbers of a numbered sequence, in the order of its files. There
/// are none to give where a bound has no magnitude in 32 bits.
pub fn sequence_indices(min: i32, max: i32, step: i32) -> (r: Option<Vec<i32>>)
    ensures
        match r {
            Some(v) => ints(v@) == indices(min as int, max as int, step as int),
            None => step != 0 && (min == i32::MIN || max == i32::MIN),
        },
        r is None <==> step != 0 && (min == i32::MIN || max == i32::MIN),
{
    if step == 0 {
        let v: Vec<i32> = Vec::new();
        assert(ints(v@) =~= Seq::<int>::empty());
        return Some(v);
    }
    if min == i32::MIN || max == i32::MIN {
        return None;
    }
    let lo: i64 = if min < 0 {
        -(min as i64)
    } else {
        min as i64
    };
    let hi: i64 = if max < 0 {
        -(max as i64)
    } else {
        max as i64
    };
    if step > 0 {
        Some(ascending_indices(lo, hi, step as i64))
    } else {
        let up = ascending_indices(lo, hi, -(step as i64));
        let mut down: Vec<i32> = Vec::new();
        let n: usize = up.len();
        let mut i: usize = 0;
        while i < n
            invariant
                0 <= i <= n == up.len(),
                down.len() == i,
                forall|k: int| 0 <= k < i ==> #[trigger] down@[k] == up@[n - 1 - k],
            decreases n - i,
        {
            down.push(up[n - 1 - i]);
            i += 1;
        }
        assert(ints(down@) =~= ints(up@).reverse());
        Some(down)
    }
}

/// One of the flags of a `printf` conversion.
pub open spec fn is_flag(c: char) -> bool {
    c == '#' || c == '0' || c == '-' || c == ' ' || c == '+'
}

/// Index of the first character at or after `i` that is no flag.
pub open spec fn flags_end(s: Seq<char>, i: int) -> int
    decreases s.len() - i,
{
    if 0 <= i < s.len() && is_flag(s[i]) {
        flags_end(s, i + 1)
    } else {
        i
    }
}

/// Does the conversion that may begin with the `%` at `p` give its field
/// width and its precision in digits, four at most for each? A width or
/// a precision that is to be taken from an argument, written `*`, does
/// not fit: the one argument of a file name is its number.
pub open spec fn widths_fit_at(s: Seq<char>, p: int) -> bool {
    let a = flags_end(s, p + 1);
    if a < s.len() && s[a] == '*' {
        false
    } else {
        let b = digits_end(s, a);
        if b - a > 4 {
            false
        } else if b < s.len() && s[b] == '.' {
            if b + 1 < s.len() && s[b + 1] == '*' {
                false
            } else {
                digits_end(s, b + 1) - (b + 1) <= 4
            }
        } else {
            true
        }
    }
}

/// Does no conversion of the format ask for a width or a precision of more
/// than four digits, or for one that is taken from an argument?
pub open spec fn widths_fit(s: Seq<char>) -> bool {
    forall|p: int| 0 <= p < s.len() && s[p] == '%' ==> #[trigger] widths_fit_at(s, p)
}

fn check_widths_at(s: &Vec<char>, p: usize) -> (b: bool)
    requires
        p < s.len(),
    ensures
        b == widths_fit_at(s@, p as int),
{
    let n: usize = s.len();
    let mut a: usize = p + 1;
    while a < n && (s[a] == '#' || s[a] == '0' || s[a] == '-' || s[a] == ' ' || s[a] == '+')
        invariant
            p + 1 <= a <= n == s.len(),
            flags_end(s@, p + 1) == flags_end(s@, a as int),
        decreases n - a,
    {
        a += 1;
    }
    if a < n && s[a] == '*' {
        return false;
    }
    let mut b: usize = a;
    while b < n && char_is_digit(s[b])
        invariant
            a <= b <= n == s.len(),
            digits_end(s@, a as int) == digits_end(s@, b as int),
        decreases n - b,
    {
        b += 1;
    }
    if b - a > 4 {
        return false;
    }
    if b < n && s[b] == '.' {
        if b + 1 < n && s[b + 1] == '*' {
            return false;
        }
        let mut c: usize = b + 1;
        while c < n && char_is_digit(s[c])
            invariant
                b + 1 <= c <= n == s.len(),
                digits_end(s@, b + 1) == digits_end(s@, c as int),
            decreases n - c,
        {
            c += 1;
        }
        c - (b + 1) <= 4
    } else {
        true
    }
}

/// Checks the widths and precisions of a format.
pub fn check_widths(s: &Vec<char>) -> (b: bool)
    ensures
        b == widths_fit(s@),
{
    let mut p: usize = 0;
    while p < s.len()
        invariant
            0 <= p <= s.len(),
            forall|q: int| 0 <= q < p && s@[q] == '%' ==> #[trigger] widths_fit_at(s@, q),
        decreases s.len() - p,
    {
        if s[p] == '%' && !check_widths_at(s, p) {
            return false;
        }
        p += 1;
    }
    true
}

#[verifier::external_type_specification]
#[verifier::external_body]
pub struct ExPrintfError(sprintf::PrintfError);

/// What `sprintf::vsprintf` makes of a format and one 32-bit integer:
/// the text, or nothing where it reports an error.
pub uninterp spec fn sprintf_text(format: Seq<char>, index: int) -> Option<Seq<char>>;

/// `sprintf::vsprintf` with one argument, a 32-bit integer. The result is
/// the function's own, under the name `sprintf_text`; nothing more is
/// claimed of it. Left out are the formats on which the crate's parser
/// can overflow or run long: it adds up the digits of a width and of a
/// precision in 32 bits, after the flags of a conversion and after the
/// point that follows a width, be the width digits or `*`. `widths_fit`
/// admits four digits at each of these places and no `*` at either.
#[verifier::external_body]
fn sprintf_index(format: &str, index: i32) -> (r: Result<String, sprintf::PrintfError>)
    requires
        widths_fit(format@),
    ensures
        match r {
            Ok(s) => sprintf_text(format@, index as int) == Some(s@),
            Err(_) => sprintf_text(format@, index as int) is None,
        },
{
    sprintf::vsprintf(format, &[&index])
}

/// The files that a directive names, in order.
pub open spec fn paths_of(d: DataFileView) -> Result<Seq<Seq<char>>, PathError> {
    match d {
        DataFileView::SingleFile { filename } => Ok(seq![filename]),
        DataFileView::List { sub_dim, file_paths } => Ok(file_paths),
        DataFileView::FileFormat { fmt_string, min, max, step, sub_dim } => {
            if step != 0 && (min == i32::MIN || max == i32::MIN) {
                Err(PathError::IndexRange)
            } else if !widths_fit(fmt_string) {
                Err(PathError::FormatWidth)
            } else {
                match collect(
                    indices(min, max, step).map_values(|i: int| sprintf_text(fmt_string, i)),
                ) {
                    Some(names) => Ok(names),
                    None => Err(PathError::Format),
                }
            }
        },
    }
}

/// A copy of the strings.
pub fn copy_strings(v: &Vec<String>) -> (r: Vec<String>)
    ensures
        views(r@) == views(v@),
{
    let mut r: Vec<String> = Vec::new();
    let mut i: usize = 0;
    while i < v.len()
        invariant
            0 <= i <= v.len(),
            r.len() == i,
            forall|j: int| 0 <= j < i ==> (#[trigger] r@[j])@ == v@[j]@,
        decreases v.len() - i,
    {
        r.push(v[i].clone());
        i += 1;
    }
    assert(views(r@) =~= views(v@));
    r
}

/// The names that the format gives for the numbers, where it gives one for each.
fn format_names(format: &String, numbers: &Vec<i32>) -> (r: Option<Vec<String>>)
    requires
        widths_fit(format@),
    ensures
        match r {
            Some(v) => collect(ints(numbers@).map_values(|i: int| sprintf_text(format@, i)))
                == Some(views(v@)),
            None => collect(ints(numbers@).map_values(|i: int| sprintf_text(format@, i))) is None,
        },
{
    let ghost named = ints(numbers@).map_values(|i: int| sprintf_text(format@, i));
    let mut names: Vec<String> = Vec::new();
    let mut k: usize = 0;
    while k < numbers.len()
        invariant
            0 <= k <= numbers.len(),
            widths_fit(format@),
            named == ints(numbers@).map_values(|i: int| sprintf_text(format@, i)),
            names.len() == k,
            forall|j: int| 0 <= j < k ==> (#[trigger] named[j]) == Some(names@[j]@),
        decreases numbers.len() - k,
    {
        assert(ints(numbers@)[k as int] == numbers@[k as int]);
        match sprintf_index(format.as_str(), numbers[k]) {
            Ok(name) => names.push(name),
            Err(_) => {
                assert(named[k as int] is None);
                return None;
            },
        }
        k += 1;
    }
    assert(named.len() == numbers.len());
    assert(views(names@) =~= named.map_values(|o: Option<Seq<char>>| o->0));
    Some(names)
}

impl DataFile {
    /// The files that the directive names, in the order in which they hold
    /// the payload. Names stand as they are written: none is resolved
    /// against a directory here.
    pub fn paths(&self) -> (r: Result<Vec<String>, PathError>)
        ensures
            match r {
                Ok(v) => paths_of(self@) == Ok::<Seq<Seq<char>>, PathError>(views(v@)),
                Err(e) => paths_of(self@) == Err::<Seq<Seq<char>>, PathError>(e),
            },
    {
        match self {
            DataFile::SingleFile { filename } => {
                let mut v: Vec<String> = Vec::new();
                v.push(filename.clone());
                assert(views(v@) =~= seq![filename@]);
                Ok(v)
            },
            DataFile::List { sub_dim, file_paths } => Ok(copy_strings(file_paths)),
            DataFile::FileFormat { fmt_string, min, max, step, sub_dim } => {
                let numbers = match sequence_indices(*min, *max, *step) {
                    Some(v) => v,
                    None => {
                        return Err(PathError::IndexRange);
                    },
                };
                if !check_widths(&chars_of(fmt_string.as_str())) {
                    return Err(PathError::FormatWidth);
                }
                match format_names(fmt_string, &numbers) {
                    Some(names) => Ok(names),
                    None => Err(PathError::Format),
                }
            },
        }
    }
}

} // verus!
