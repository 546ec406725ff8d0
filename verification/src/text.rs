//! Character-level helpers that the header grammar is built from.
//!
//! Header text is handled as sequences of `char`. Every function here states
//! its result as a spec function over `Seq<char>`; the recursive definitions
//! peel off the last character, so that a left-to-right scan follows them
//! step by step.
use vstd::prelude::*;

verus! {

/// White space in the sense of `str::trim`: the Unicode `White_Space` code points.
pub open spec fn is_space(c: char) -> bool {
    let u = c as u32;
    ||| 0x09 <= u <= 0x0D
    ||| u == 0x20
    ||| u == 0x85
    ||| u == 0xA0
    ||| u == 0x1680
    ||| 0x2000 <= u <= 0x200A
    ||| u == 0x2028
    ||| u == 0x2029
    ||| u == 0x202F
    ||| u == 0x205F
    ||| u == 0x3000
}

/// ASCII white space: space, tab, line feed, form feed, carriage return.
pub open spec fn is_blank(c: char) -> bool {
    c == ' ' || c == '\t' || c == '\n' || c == '\x0C' || c == '\r'
}

pub open spec fn is_digit(c: char) -> bool {
    '0' <= c <= '9'
}

pub fn char_is_space(c: char) -> (b: bool)
    ensures
        b == is_space(c),
{
    let u: u32 = c as u32;
    (0x09 <= u && u <= 0x0D) || u == 0x20 || u == 0x85 || u == 0xA0 || u == 0x1680 || (0x2000 <= u
        && u <= 0x200A) || u == 0x2028 || u == 0x2029 || u == 0x202F || u == 0x205F || u == 0x3000
}

pub fn char_is_blank(c: char) -> (b: bool)
    ensures
        b == is_blank(c),
{
    c == ' ' || c == '\t' || c == '\n' || c == '\x0C' || c == '\r'
}

pub fn char_is_digit(c: char) -> (b: bool)
    ensures
        b == is_digit(c),
{
    '0' <= c && c <= '9'
}

/// The characters of a string slice.
pub fn chars_of(s: &str) -> (v: Vec<char>)
    ensures
        v@ == s@,
{
    let mut v: Vec<char> = Vec::new();
    for c in it: s.chars()
        invariant
            v@ == it.seq().take(it.index() as int),
            it.seq() == s@,
    {
        v.push(c);
    }
    v
}

/// `String::from_iter` over a vector of characters: the string that holds
/// exactly these characters, in this order.
#[verifier::external_body]
pub(crate) fn string_of(v: &Vec<char>) -> (s: String)
    ensures
        s@ == v@,
{
    String::from_iter(v.iter())
}

/// Index of the first character at or after `i` that is not white space.
pub open spec fn skip_space(s: Seq<char>, i: int) -> int
    decreases s.len() - i,
{
    if 0 <= i < s.len() && is_space(s[i]) {
        skip_space(s, i + 1)
    } else {
        i
    }
}

/// End of the text that is left of `[lo, j)` once trailing white space is dropped.
pub open spec fn drop_space(s: Seq<char>, lo: int, j: int) -> int
    decreases j,
{
    if 0 <= lo < j <= s.len() && is_space(s[j - 1]) {
        drop_space(s, lo, j - 1)
    } else {
        j
    }
}

/// `s` without leading and trailing white space.
pub open spec fn trim(s: Seq<char>) -> Seq<char> {
    let a = skip_space(s, 0);
    s.subrange(a, drop_space(s, a, s.len() as int))
}

/// A copy of `v[from..to]`.
pub fn slice_of(v: &Vec<char>, from: usize, to: usize) -> (r: Vec<char>)
    requires
        from <= to <= v.len(),
    ensures
        r@ == v@.subrange(from as int, to as int),
{
    let mut r: Vec<char> = Vec::new();
    let mut i: usize = from;
    while i < to
        invariant
            from <= i <= to <= v.len(),
            r@ == v@.subrange(from as int, i as int),
        decreases to - i,
    {
        r.push(v[i]);
        i += 1;
    }
    r
}

/// `str::trim` on a vector of characters.
pub fn trimmed(v: &Vec<char>) -> (r: Vec<char>)
    ensures
        r@ == trim(v@),
{
    let n: usize = v.len();
    let mut a: usize = 0;
    while a < n && char_is_space(v[a])
        invariant
            0 <= a <= n == v.len(),
            skip_space(v@, 0) == skip_space(v@, a as int),
        decreases n - a,
    {
        a += 1;
    }
    let mut b: usize = n;
    while b > a && char_is_space(v[b - 1])
        invariant
            a <= b <= n == v.len(),
            drop_space(v@, a as int, n as int) == drop_space(v@, a as int, b as int),
        decreases b,
    {
        b -= 1;
    }
    slice_of(v, a, b)
}

/// Does `s` begin with `p`?
pub fn starts_with(s: &Vec<char>, p: &Vec<char>) -> (b: bool)
    ensures
        b == p@.is_prefix_of(s@),
{
    if p.len() > s.len() {
        return false;
    }
    let mut i: usize = 0;
    while i < p.len()
        invariant
            0 <= i <= p.len() <= s.len(),
            forall|k: int| 0 <= k < i ==> s@[k] == p@[k],
        decreases p.len() - i,
    {
        if s[i] != p[i] {
            assert(s@.subrange(0, p@.len() as int)[i as int] == s@[i as int]);
            return false;
        }
        i += 1;
    }
    assert(p@ =~= s@.subrange(0, p@.len() as int));
    true
}

/// Are the two texts the same?
pub fn same_text(a: &Vec<char>, b: &Vec<char>) -> (r: bool)
    ensures
        r == (a@ == b@),
{
    if a.len() != b.len() {
        return false;
    }
    let mut i: usize = 0;
    while i < a.len()
        invariant
            0 <= i <= a.len() == b.len(),
            forall|k: int| 0 <= k < i ==> a@[k] == b@[k],
        decreases a.len() - i,
    {
        if a[i] != b[i] {
            return false;
        }
        i += 1;
    }
    assert(a@ =~= b@);
    true
}

/// Index of the first place at or after `i` where `p` occurs in `s`, or
/// `s.len()` where it occurs nowhere.
pub open spec fn find_from(s: Seq<char>, p: Seq<char>, i: int) -> int
    decreases s.len() - i,
{
    if i < 0 || i >= s.len() {
        s.len() as int
    } else if p.is_prefix_of(s.skip(i)) {
        i
    } else {
        find_from(s, p, i + 1)
    }
}

pub proof fn lemma_find_from_bounds(s: Seq<char>, p: Seq<char>, i: int)
    requires
        0 <= i <= s.len(),
    ensures
        i <= find_from(s, p, i) <= s.len(),
        find_from(s, p, i) < s.len() ==> p.is_prefix_of(s.skip(find_from(s, p, i))),
    decreases s.len() - i,
{
    if i < s.len() && !p.is_prefix_of(s.skip(i)) {
        lemma_find_from_bounds(s, p, i + 1);
    }
}

/// Position of the first occurrence of `p` in `s`.
pub fn find(s: &Vec<char>, p: &Vec<char>) -> (r: Option<usize>)
    ensures
        match r {
            Some(i) => i < s.len() && i == find_from(s@, p@, 0),
            None => find_from(s@, p@, 0) == s.len(),
        },
{
    let n: usize = s.len();
    let m: usize = p.len();
    let mut i: usize = 0;
    while i < n
        invariant
            0 <= i <= n == s.len(),
            m == p.len(),
            find_from(s@, p@, 0) == find_from(s@, p@, i as int),
        decreases n - i,
    {
        let mut hit: bool = m <= n - i;
        let mut k: usize = 0;
        while hit && k < m
            invariant
                0 <= k <= m == p.len(),
                i < n == s.len(),
                hit ==> m <= n - i,
                hit ==> forall|j: int| 0 <= j < k ==> s@[i + j] == p@[j],
                !hit ==> !p@.is_prefix_of(s@.skip(i as int)),
            decreases m - k, hit as int,
        {
            if s[i + k] != p[k] {
                hit = false;
                assert(s@.skip(i as int).subrange(0, m as int)[k as int] == s@[i + k]);
            } else {
                k += 1;
            }
        }
        if hit {
            assert(p@ =~= s@.skip(i as int).subrange(0, m as int));
            return Some(i);
        }
        i += 1;
    }
    None
}

/// The view of each item of a sequence.
pub open spec fn views<T: View>(v: Seq<T>) -> Seq<T::V> {
    v.map_values(|t: T| t@)
}

pub proof fn lemma_views_push<T: View>(v: Seq<T>, x: T)
    ensures
        views(v.push(x)) == views(v).push(x@),
{
    assert(views(v.push(x)) =~= views(v).push(x@));
}

pub proof fn lemma_views_remove<T: View>(v: Seq<T>, i: int)
    requires
        0 <= i < v.len(),
    ensures
        views(v.remove(i)) == views(v).remove(i),
{
    assert(views(v.remove(i)) =~= views(v).remove(i));
}

/// The maximal runs of non-blank characters of `s`, in order
/// (`str::split_ascii_whitespace`).
pub open spec fn tokens(s: Seq<char>) -> Seq<Seq<char>>
    decreases s.len(),
{
    if s.len() == 0 {
        Seq::empty()
    } else {
        let init = s.drop_last();
        let t = tokens(init);
        if is_blank(s.last()) {
            t
        } else if init.len() > 0 && !is_blank(init.last()) && t.len() > 0 {
            t.drop_last().push(t.last().push(s.last()))
        } else {
            t.push(seq![s.last()])
        }
    }
}

/// A token: not empty, and without a blank.
pub open spec fn is_token(t: Seq<char>) -> bool {
    t.len() > 0 && forall|i: int| 0 <= i < t.len() ==> !is_blank(#[trigger] t[i])
}

/// `str::split_ascii_whitespace`, collected.
pub fn split_blank(v: &Vec<char>) -> (r: Vec<Vec<char>>)
    ensures
        views(r@) == tokens(v@),
{
    let mut toks: Vec<Vec<char>> = Vec::new();
    let mut cur: Vec<char> = Vec::new();
    let mut i: usize = 0;
    assert(v@.take(0) =~= Seq::<char>::empty());
    assert(views(toks@) =~= tokens(v@.take(0)));
    while i < v.len()
        invariant
            0 <= i <= v.len(),
            cur.len() > 0 <==> (i > 0 && !is_blank(v@[i - 1])),
            tokens(v@.take(i as int)) == if cur.len() > 0 {
                views(toks@).push(cur@)
            } else {
                views(toks@)
            },
        decreases v.len() - i,
    {
        let c = v[i];
        proof {
            let s = v@.take(i + 1);
            assert(s.drop_last() =~= v@.take(i as int));
            assert(s.last() == c);
            if i > 0 {
                assert(v@.take(i as int).last() == v@[i - 1]);
            }
        }
        if char_is_blank(c) {
            if cur.len() > 0 {
                proof {
                    lemma_views_push(toks@, cur);
                }
                toks.push(cur);
                cur = Vec::new();
            }
        } else {
            proof {
                if cur.len() > 0 {
                    let t = views(toks@).push(cur@);
                    assert(t.drop_last() =~= views(toks@));
                    assert(t.last() == cur@);
                } else {
                    assert(cur@.push(c) =~= seq![c]);
                }
            }
            cur.push(c);
        }
        i += 1;
    }
    assert(v@.take(v.len() as int) =~= v@);
    if cur.len() > 0 {
        proof {
            lemma_views_push(toks@, cur);
        }
        toks.push(cur);
    }
    toks
}

/// The items with `sep` between each two neighbours.
pub open spec fn join(items: Seq<Seq<char>>, sep: Seq<char>) -> Seq<char>
    decreases items.len(),
{
    if items.len() == 0 {
        Seq::empty()
    } else if items.len() == 1 {
        items[0]
    } else {
        join(items.drop_last(), sep) + sep + items.last()
    }
}

/// Appends `src` to `out`.
pub fn push_all(out: &mut Vec<char>, src: &Vec<char>)
    ensures
        final(out)@ == old(out)@ + src@,
{
    let mut i: usize = 0;
    while i < src.len()
        invariant
            0 <= i <= src.len(),
            out@ == old(out)@ + src@.take(i as int),
        decreases src.len() - i,
    {
        out.push(src[i]);
        assert(src@.take(i + 1) =~= src@.take(i as int).push(src@[i as int]));
        i += 1;
    }
    assert(src@.take(src.len() as int) =~= src@);
}

/// Appends the characters of `s` to `out`.
pub fn push_str(out: &mut Vec<char>, s: &str)
    ensures
        final(out)@ == old(out)@ + s@,
{
    let v = chars_of(s);
    push_all(out, &v);
}

/// Is `v` the text `s`?
pub fn text_is(v: &Vec<char>, s: &str) -> (b: bool)
    ensures
        b == (v@ == s@),
{
    let t = chars_of(s);
    same_text(v, &t)
}

/// The lower-case form of an ASCII capital; any other character unchanged.
pub open spec fn lower_char(c: char) -> char {
    if 'A' <= c <= 'Z' {
        ((c as u32) + 32) as char
    } else {
        c
    }
}

/// `s` with its ASCII capitals in lower case.
pub open spec fn lower(s: Seq<char>) -> Seq<char> {
    s.map_values(|c: char| lower_char(c))
}

/// `v` with its ASCII capitals in lower case.
pub fn lowered(v: &Vec<char>) -> (r: Vec<char>)
    ensures
        r@ == lower(v@),
{
    let mut r: Vec<char> = Vec::new();
    let mut i: usize = 0;
    while i < v.len()
        invariant
            0 <= i <= v.len(),
            r.len() == i,
            forall|k: int| 0 <= k < i ==> r@[k] == lower_char(v@[k]),
        decreases v.len() - i,
    {
        let c = v[i];
        if 'A' <= c && c <= 'Z' {
            r.push(((c as u8) + 32) as char);
        } else {
            r.push(c);
        }
        i += 1;
    }
    assert(r@ =~= lower(v@));
    r
}

/// The items with `sep` between each two neighbours.
pub fn joined(items: &Vec<Vec<char>>, sep: &str) -> (r: Vec<char>)
    ensures
        r@ == join(views(items@), sep@),
{
    let mut r: Vec<char> = Vec::new();
    let mut i: usize = 0;
    assert(views(items@).take(0) =~= Seq::<Seq<char>>::empty());
    while i < items.len()
        invariant
            0 <= i <= items.len(),
            r@ == join(views(items@).take(i as int), sep@),
        decreases items.len() - i,
    {
        proof {
            let t = views(items@).take(i + 1);
            assert(t.drop_last() =~= views(items@).take(i as int));
            assert(t.last() == items@[i as int]@);
            if i == 0 {
                assert(t[0] == items@[0]@);
            }
        }
        if i > 0 {
            push_str(&mut r, sep);
        }
        push_all(&mut r, &items[i]);
        assert(r@ =~= join(views(items@).take(i + 1), sep@));
        i += 1;
    }
    assert(views(items@).take(items.len() as int) =~= views(items@));
    r
}

/// All the values, where every item has one.
pub open spec fn collect<A>(s: Seq<Option<A>>) -> Option<Seq<A>> {
    if forall|i: int| 0 <= i < s.len() ==> (#[trigger] s[i]) is Some {
        Some(s.map_values(|o: Option<A>| o->0))
    } else {
        None
    }
}

/// The state of a scan for lines: the lines that are complete, and what
/// has been read since the last line feed.
pub struct LineScan {
    pub done: Seq<Seq<char>>,
    pub open: Seq<char>,
}

/// `s` without a carriage return at its end.
pub open spec fn without_return(s: Seq<char>) -> Seq<char> {
    if s.len() > 0 && s.last() == '\r' {
        s.drop_last()
    } else {
        s
    }
}

/// The scan of `s` from left to right: a line feed ends a line, and a
/// carriage return just before it belongs to the line ending.
pub open spec fn scan_lines(s: Seq<char>) -> LineScan
    decreases s.len(),
{
    if s.len() == 0 {
        LineScan { done: Seq::empty(), open: Seq::empty() }
    } else {
        let before = scan_lines(s.drop_last());
        if s.last() == '\n' {
            LineScan { done: before.done.push(without_return(before.open)), open: Seq::empty() }
        } else {
            LineScan { done: before.done, open: before.open.push(s.last()) }
        }
    }
}

/// The lines of a text (`str::lines`): the line endings are left out, and
/// what follows the last line feed is a line if it is not empty.
pub open spec fn text_lines(s: Seq<char>) -> Seq<Seq<char>> {
    let scan = scan_lines(s);
    if scan.open.len() > 0 {
        scan.done.push(scan.open)
    } else {
        scan.done
    }
}

/// The lines of a text.
pub fn lines_of(s: &str) -> (r: Vec<String>)
    ensures
        views(r@) == text_lines(s@),
{
    let v = chars_of(s);
    let mut done: Vec<String> = Vec::new();
    let mut open: Vec<char> = Vec::new();
    let mut i: usize = 0;
    assert(v@.take(0) =~= Seq::<char>::empty());
    assert(views(done@) =~= Seq::<Seq<char>>::empty());
    while i < v.len()
        invariant
            0 <= i <= v.len(),
            scan_lines(v@.take(i as int)).done == views(done@),
            scan_lines(v@.take(i as int)).open == open@,
        decreases v.len() - i,
    {
        let c = v[i];
        proof {
            let t = v@.take(i + 1);
            assert(t.drop_last() =~= v@.take(i as int));
            assert(t.last() == c);
        }
        if c == '\n' {
            let n: usize = open.len();
            let end: usize = if n > 0 && open[n - 1] == '\r' {
                n - 1
            } else {
                n
            };
            let line = slice_of(&open, 0, end);
            assert(line@ =~= without_return(open@));
            let text = string_of(&line);
            proof {
                lemma_views_push(done@, text);
            }
            done.push(text);
            open = Vec::new();
        } else {
            open.push(c);
        }
        i += 1;
    }
    assert(v@.take(v.len() as int) =~= v@);
    if open.len() > 0 {
        let text = string_of(&open);
        proof {
            lemma_views_push(done@, text);
        }
        done.push(text);
    }
    done
}

/// Trimming leaves a text alone that neither begins nor ends with white space.
pub proof fn lemma_trim_identity(s: Seq<char>)
    requires
        s.len() > 0 ==> !is_space(s[0]) && !is_space(s.last()),
    ensures
        trim(s) == s,
{
    if s.len() > 0 {
        assert(skip_space(s, 0) == 0);
        assert(drop_space(s, 0, s.len() as int) == s.len());
        assert(s.subrange(0, s.len() as int) =~= s);
    } else {
        assert(skip_space(s, 0) == 0);
        assert(drop_space(s, 0, 0) == 0);
        assert(s.subrange(0, 0) =~= s);
    }
}

/// A token that follows the start of a text or a blank is a token of the text.
pub proof fn lemma_tokens_grow(s: Seq<char>, t: Seq<char>)
    requires
        s.len() == 0 || is_blank(s.last()),
        is_token(t),
    ensures
        tokens(s + t) == tokens(s).push(t),
    decreases t.len(),
{
    let x = s + t;
    let c = t.last();
    assert(x.last() == c);
    assert(!is_blank(t[t.len() - 1]));
    if t.len() == 1 {
        assert(x.drop_last() =~= s);
        assert(t =~= seq![c]);
        if s.len() > 0 {
            assert(x.drop_last().last() == s.last());
        }
    } else {
        let u = t.drop_last();
        assert(is_token(u)) by {
            assert forall|i: int| 0 <= i < u.len() implies !is_blank(#[trigger] u[i]) by {
                assert(u[i] == t[i]);
            }
        }
        lemma_tokens_grow(s, u);
        assert(x.drop_last() =~= s + u);
        assert((s + u).last() == u.last());
        assert(u.last() == t[t.len() - 2]);
        assert(!is_blank(t[t.len() - 2]));
        let before = tokens(s).push(u);
        assert(before.drop_last() =~= tokens(s));
        assert(before.last() == u);
        assert(u.push(c) =~= t);
    }
}

/// The tokens of tokens joined by single spaces are those tokens.
pub proof fn lemma_tokens_join(items: Seq<Seq<char>>)
    requires
        forall|i: int| 0 <= i < items.len() ==> is_token(#[trigger] items[i]),
    ensures
        tokens(join(items, seq![' '])) == items,
    decreases items.len(),
{
    if items.len() == 0 {
    } else if items.len() == 1 {
        lemma_tokens_grow(Seq::empty(), items[0]);
        assert(Seq::<char>::empty() + items[0] =~= items[0]);
        assert(Seq::<Seq<char>>::empty().push(items[0]) =~= items);
    } else {
        let init = items.drop_last();
        assert forall|i: int| 0 <= i < init.len() implies is_token(#[trigger] init[i]) by {
            assert(init[i] == items[i]);
        }
        lemma_tokens_join(init);
        let head = join(init, seq![' ']) + seq![' '];
        assert(head.last() == ' ');
        assert(head.drop_last() =~= join(init, seq![' ']));
        assert(tokens(head) == init);
        lemma_tokens_grow(head, items.last());
        assert(init.push(items.last()) =~= items);
    }
}

/// Is the text free of line feeds, and does it not end with a carriage return?
pub open spec fn is_line(s: Seq<char>) -> bool {
    &&& forall|i: int| 0 <= i < s.len() ==> #[trigger] s[i] != '\n'
    &&& (s.len() > 0 ==> s.last() != '\r')
}

/// The lines, each followed by a line feed.
pub open spec fn unlines(lines: Seq<Seq<char>>) -> Seq<char>
    decreases lines.len(),
{
    if lines.len() == 0 {
        Seq::empty()
    } else {
        unlines(lines.drop_last()) + lines.last().push('\n')
    }
}

/// Scanning on through a text without line feeds only grows the open line.
pub proof fn lemma_scan_lines_grow(s: Seq<char>, t: Seq<char>)
    requires
        forall|i: int| 0 <= i < t.len() ==> #[trigger] t[i] != '\n',
    ensures
        scan_lines(s + t).done == scan_lines(s).done,
        scan_lines(s + t).open == scan_lines(s).open + t,
    decreases t.len(),
{
    if t.len() == 0 {
        assert(s + t =~= s);
        assert(scan_lines(s).open + t =~= scan_lines(s).open);
    } else {
        let u = t.drop_last();
        assert forall|i: int| 0 <= i < u.len() implies #[trigger] u[i] != '\n' by {
            assert(u[i] == t[i]);
        }
        lemma_scan_lines_grow(s, u);
        assert((s + t).drop_last() =~= s + u);
        assert((s + t).last() == t[t.len() - 1]);
        assert((scan_lines(s).open + u).push(t.last()) =~= scan_lines(s).open + t);
    }
}

/// The lines of lines written one after the other are those lines.
pub proof fn lemma_text_lines_unlines(lines: Seq<Seq<char>>)
    requires
        forall|i: int| 0 <= i < lines.len() ==> is_line(#[trigger] lines[i]),
    ensures
        scan_lines(unlines(lines)).done == lines,
        scan_lines(unlines(lines)).open.len() == 0,
        text_lines(unlines(lines)) == lines,
    decreases lines.len(),
{
    if lines.len() > 0 {
        let init = lines.drop_last();
        let l = lines.last();
        assert forall|i: int| 0 <= i < init.len() implies is_line(#[trigger] init[i]) by {
            assert(init[i] == lines[i]);
        }
        lemma_text_lines_unlines(init);
        assert(is_line(lines[lines.len() - 1]));
        lemma_scan_lines_grow(unlines(init), l);
        let x = unlines(lines);
        assert(x.drop_last() =~= unlines(init) + l);
        assert(x.last() == '\n');
        assert(scan_lines(unlines(init)).open + l =~= l);
        assert(without_return(l) == l);
        assert(init.push(l) =~= lines);
    }
}

} // verus!
