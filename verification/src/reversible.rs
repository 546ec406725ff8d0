//! Fields read back what they write: the canonical text of a value denotes
//! that value. Here stand the optional fields; the mandatory fields and the
//! names of spaces and kinds stand with the laws of whole headers.
use vstd::prelude::*;
use crate::decimal::{
    digit_char, digit_value, int_text, lemma_int_text_round_trip, lemma_nat_text_round_trip,
    nat_text, signed_of,
};
use crate::header_defs::datafile::{
    directive_of, directive_text, integer_prefix, is_integer, list_of, sequence_at, sequence_from,
    sequence_of, word_count_of,
};
use crate::header_defs::{Comment, Content, DataFile, DataFileView};
use crate::header_defs::basic::{is_key_value, key_of, value_after};
use crate::text::{find_from, lemma_find_from_bounds, lemma_tokens_grow};
use crate::header_defs::enums::{centering_of, centering_text};
use crate::header_defs::{
    BlockSize, ByteSkip, Centering, Centerings, Dimension, HeaderDef, LineSkip, SampleUnits,
    SpaceDimension,
};
use crate::laws::{lemma_count_round_trip, lemma_join_ends, lemma_nat_text_plain, plain};
use crate::header_defs::reals::{
    all_admitted, class_of, digits_end, exponent_start, is_number, is_real, mantissa_end,
    real_word, reals_of, rule_admits, spells_infinity, spells_nan, unsigned_part, whole_end,
};
use crate::header_defs::quoted::{quoted, quoted_text, scan_quoted};
use crate::header_defs::vectors::{
    direction_of, direction_text, pieces, vector_of, vector_text,
};
use crate::header_defs::{MeasurementFrame, SpaceDirections, SpaceOrigin};
use crate::header_defs::{
    AxisMaxs, AxisMins, Labels, Max, Min, OldMax, OldMin, RealRule, SpaceUnits, Spacings,
    Thicknesses, Units,
};
use crate::text::{
    is_blank, is_digit, is_space, is_token, join, lemma_tokens_join, lemma_trim_identity, lower,
    lower_char, tokens, trim,
};

verus! {

/// A positive dimension of the machine's word reads back.
pub proof fn lemma_dimension_reversible(v: nat)
    requires
        0 < v <= usize::MAX,
    ensures
        Dimension::value_of(Dimension::text_of(v)) == Some(v),
{
    lemma_count_round_trip(v, usize::MAX as nat);
}

/// A block size of the machine's word reads back.
pub proof fn lemma_block_size_reversible(v: nat)
    requires
        v <= usize::MAX,
    ensures
        BlockSize::value_of(BlockSize::text_of(v)) == Some(v),
{
    lemma_count_round_trip(v, usize::MAX as nat);
}

/// A space dimension of the machine's word reads back.
pub proof fn lemma_space_dimension_reversible(v: nat)
    requires
        v <= usize::MAX,
    ensures
        SpaceDimension::value_of(SpaceDimension::text_of(v)) == Some(v),
{
    lemma_count_round_trip(v, usize::MAX as nat);
}

/// A line skip of the machine's word reads back.
pub proof fn lemma_line_skip_reversible(v: nat)
    requires
        v <= usize::MAX,
    ensures
        LineSkip::value_of(LineSkip::text_of(v)) == Some(v),
{
    lemma_count_round_trip(v, usize::MAX as nat);
}

/// A byte skip reads back: a number of bytes that a signed word can hold,
/// and the sentinel for a read from the end.
pub proof fn lemma_byte_skip_reversible(v: ByteSkip)
    requires
        v matches ByteSkip::skip(n) ==> n <= isize::MAX,
    ensures
        ByteSkip::value_of(ByteSkip::text_of(v)) == Some(v),
{
    match v {
        ByteSkip::skip(n) => {
            lemma_nat_text_round_trip(n as nat);
            lemma_nat_text_plain(n as nat);
            lemma_trim_identity(nat_text(n as nat));
        },
        ByteSkip::rev => {
            reveal_strlit("-1");
            let t = "-1"@;
            lemma_trim_identity(t);
            let d = t.drop_first();
            assert(d =~= seq!['1']);
            assert(d.drop_last() =~= Seq::<char>::empty());
            assert(crate::decimal::digits_value(d.drop_last()) == 0);
            assert(crate::decimal::digits_value(d) == 1);
            assert(signed_of(t) == Some(-1int));
        },
    }
}

/// Sample units without white space at their ends read back.
pub proof fn lemma_sample_units_reversible(v: Seq<char>)
    requires
        v.len() > 0 ==> !is_space(v[0]) && !is_space(v.last()),
    ensures
        SampleUnits::value_of(SampleUnits::text_of(v)) == Some(v),
{
    lemma_trim_identity(v);
}

/// The name of a centering reads back, is one word and is plain.
pub proof fn lemma_centering_reversible(c: Centering)
    ensures
        centering_of(centering_text(c)) == c,
        is_token(centering_text(c)),
        plain(centering_text(c)),
        !is_space(centering_text(c)[0]),
        !is_space(centering_text(c).last()),
{
    reveal_strlit("cell");
    reveal_strlit("node");
    reveal_strlit("none");
    assert("cell"@[0] == 'c' && "node"@[0] == 'n' && "none"@[0] == 'n');
    assert("node"@[2] == 'd' && "none"@[2] == 'n');
}

/// Centerings read back.
pub proof fn lemma_centerings_reversible(v: Seq<Centering>)
    ensures
        Centerings::value_of(Centerings::text_of(v)) == Some(v),
{
    reveal_strlit(" ");
    let words = v.map_values(|c: Centering| centering_text(c));
    let t = join(words, " "@);
    assert(" "@ =~= seq![' ']);
    assert forall|i: int| 0 <= i < words.len() implies is_token(#[trigger] words[i])
        && words[i].len() > 0 by {
        lemma_centering_reversible(v[i]);
    }
    if v.len() > 0 {
        lemma_join_ends(words, " "@);
        lemma_centering_reversible(v[0]);
        lemma_centering_reversible(v.last());
        assert(words[0] == centering_text(v[0]));
        assert(words.last() == centering_text(v.last()));
    }
    lemma_trim_identity(t);
    lemma_tokens_join(words);
    let read = words.map_values(|w: Seq<char>| centering_of(w));
    assert forall|i: int| 0 <= i < read.len() implies (#[trigger] read[i]) == v[i] by {
        lemma_centering_reversible(v[i]);
    }
    assert(read =~= v);
}

/// A character that a literal of a real number can hold: a digit, a
/// point, a sign, or an ASCII letter.
pub open spec fn is_literal_char(c: char) -> bool {
    is_digit(c) || c == '.' || c == '+' || c == '-' || ('a' <= c <= 'z') || ('A' <= c <= 'Z')
}

proof fn lemma_digits_end_bounds(s: Seq<char>, i: int)
    requires
        0 <= i <= s.len(),
    ensures
        i <= digits_end(s, i) <= s.len(),
    decreases s.len() - i,
{
    if i < s.len() && is_digit(s[i]) {
        lemma_digits_end_bounds(s, i + 1);
    }
}

proof fn lemma_digits_run(s: Seq<char>, i: int, k: int)
    requires
        0 <= i <= k < digits_end(s, i),
    ensures
        k < s.len(),
        is_digit(s[k]),
    decreases s.len() - i,
{
    if i < s.len() && is_digit(s[i]) {
        if k > i {
            lemma_digits_run(s, i + 1, k);
        }
    }
}

/// A decimal number is not empty and holds literal characters only.
proof fn lemma_number_chars(s: Seq<char>)
    requires
        is_number(s),
    ensures
        s.len() > 0,
        forall|k: int| 0 <= k < s.len() ==> is_literal_char(#[trigger] s[k]),
{
    let a = whole_end(s);
    lemma_digits_end_bounds(s, 0);
    let dot = a < s.len() && s[a] == '.';
    if dot {
        lemma_digits_end_bounds(s, a + 1);
    }
    let b = mantissa_end(s);
    assert forall|k: int| 0 <= k < s.len() implies is_literal_char(#[trigger] s[k]) by {
        if k < a {
            lemma_digits_run(s, 0, k);
        } else if dot && k == a {
        } else if k < b {
            lemma_digits_run(s, a + 1, k);
        } else if k == b {
        } else {
            let c = exponent_start(s, b);
            if k >= c {
                lemma_digits_run(s, c, k);
            }
        }
    }
}

/// A text whose lower-case form is a word of letters holds letters only.
proof fn lemma_lower_letters(s: Seq<char>, word: Seq<char>)
    requires
        lower(s) == word,
        forall|k: int| 0 <= k < word.len() ==> 'a' <= #[trigger] word[k] <= 'z',
    ensures
        s.len() == word.len(),
        forall|k: int| 0 <= k < s.len() ==> is_literal_char(#[trigger] s[k]),
{
    assert forall|k: int| 0 <= k < s.len() implies is_literal_char(#[trigger] s[k]) by {
        assert(lower(s)[k] == lower_char(s[k]));
        assert('a' <= word[k] <= 'z');
    }
}

/// The literal of a real number is not empty and holds literal
/// characters only: it is one word, plain, and trimming leaves it alone.
pub proof fn lemma_real_chars(s: Seq<char>)
    requires
        is_real(s),
    ensures
        s.len() > 0,
        forall|k: int| 0 <= k < s.len() ==> is_literal_char(#[trigger] s[k]),
        is_token(s),
        plain(s),
        trim(s) == s,
{
    reveal_strlit("inf");
    reveal_strlit("infinity");
    reveal_strlit("nan");
    let body = unsigned_part(s);
    if spells_infinity(s) {
        if lower(body) == "inf"@ {
            lemma_lower_letters(body, "inf"@);
        } else {
            lemma_lower_letters(body, "infinity"@);
        }
    } else if spells_nan(s) {
        lemma_lower_letters(body, "nan"@);
    } else {
        lemma_number_chars(body);
    }
    assert forall|k: int| 0 <= k < s.len() implies is_literal_char(#[trigger] s[k]) by {
        if body.len() == s.len() {
            assert(s[k] == body[k]);
        } else if k > 0 {
            assert(s[k] == body[k - 1]);
        }
    }
    assert forall|k: int| 0 <= k < s.len() implies !is_blank(#[trigger] s[k]) by {
        assert(is_literal_char(s[k]));
    }
    assert forall|k: int| 0 <= k < s.len() implies (#[trigger] s[k]) != '\n' && s[k] != '\r' by {
        assert(is_literal_char(s[k]));
    }
    assert(is_literal_char(s[0]));
    assert(is_literal_char(s[s.len() - 1]));
    lemma_trim_identity(s);
}

/// A literal reads back as the value of a field that holds one number.
pub proof fn lemma_scalar_real_reversible(v: Seq<char>)
    requires
        is_real(v),
    ensures
        Min::value_of(Min::text_of(v)) == Some(v),
        Max::value_of(Max::text_of(v)) == Some(v),
        OldMin::value_of(OldMin::text_of(v)) == Some(v),
        OldMax::value_of(OldMax::text_of(v)) == Some(v),
{
    lemma_real_chars(v);
}

/// Literals that obey a rule read back as a list under that rule.
pub proof fn lemma_reals_reversible(rule: RealRule, v: Seq<Seq<char>>)
    requires
        all_admitted(rule, v),
    ensures
        reals_of(rule, join(v, " "@)) == Some(v),
{
    reveal_strlit(" ");
    let t = join(v, " "@);
    assert(" "@ =~= seq![' ']);
    assert forall|i: int| 0 <= i < v.len() implies is_token(#[trigger] v[i]) && v[i].len()
        > 0 by {
        assert(rule_admits(rule, class_of(v[i])));
        lemma_real_chars(v[i]);
    }
    if v.len() > 0 {
        lemma_join_ends(v, " "@);
        assert(rule_admits(rule, class_of(v[0])));
        assert(rule_admits(rule, class_of(v[v.len() - 1])));
        lemma_real_chars(v[0]);
        lemma_real_chars(v.last());
        assert(is_literal_char(v[0][0]));
        assert(is_literal_char(v.last()[v.last().len() - 1]));
    }
    lemma_trim_identity(t);
    lemma_tokens_join(v);
    let read = v.map_values(|w: Seq<char>| real_word(rule, w));
    assert forall|i: int| 0 <= i < read.len() implies (#[trigger] read[i]) == Some(v[i]) by {
        assert(rule_admits(rule, class_of(v[i])));
    }
    assert(read.map_values(|o: Option<Seq<char>>| o->0) =~= v);
}

/// The lists of real numbers read back: spacings, thicknesses, axis mins
/// and axis maxs, each under its rule.
pub proof fn lemma_real_lists_reversible(v: Seq<Seq<char>>)
    ensures
        all_admitted(RealRule::BoundedNonZero, v) ==> Spacings::value_of(Spacings::text_of(v))
            == Some(v),
        all_admitted(RealRule::Any, v) ==> Thicknesses::value_of(Thicknesses::text_of(v)) == Some(
            v,
        ),
        all_admitted(RealRule::Bounded, v) ==> AxisMins::value_of(AxisMins::text_of(v)) == Some(v),
        all_admitted(RealRule::Bounded, v) ==> AxisMaxs::value_of(AxisMaxs::text_of(v)) == Some(v),
{
    if all_admitted(RealRule::BoundedNonZero, v) {
        lemma_reals_reversible(RealRule::BoundedNonZero, v);
    }
    if all_admitted(RealRule::Any, v) {
        lemma_reals_reversible(RealRule::Any, v);
    }
    if all_admitted(RealRule::Bounded, v) {
        lemma_reals_reversible(RealRule::Bounded, v);
    }
}

/// A text that can stand between quotes: not empty, and without a quote.
pub open spec fn is_quotable(t: Seq<char>) -> bool {
    t.len() > 0 && forall|i: int| 0 <= i < t.len() ==> #[trigger] t[i] != '"'
}

/// Scanning on through a text without quotes, inside an open quote, only
/// grows what the quote holds.
proof fn lemma_scan_quoted_run(s: Seq<char>, t: Seq<char>)
    requires
        scan_quoted(s).open is Some,
        forall|i: int| 0 <= i < t.len() ==> #[trigger] t[i] != '"',
    ensures
        scan_quoted(s + t).items == scan_quoted(s).items,
        scan_quoted(s + t).open == Some(scan_quoted(s).open->0 + t),
    decreases t.len(),
{
    if t.len() == 0 {
        assert(s + t =~= s);
        assert(scan_quoted(s).open->0 + t =~= scan_quoted(s).open->0);
    } else {
        let u = t.drop_last();
        assert forall|i: int| 0 <= i < u.len() implies #[trigger] u[i] != '"' by {
            assert(u[i] == t[i]);
        }
        lemma_scan_quoted_run(s, u);
        assert((s + t).drop_last() =~= s + u);
        assert((s + t).last() == t[t.len() - 1]);
        assert((scan_quoted(s).open->0 + u).push(t.last()) =~= scan_quoted(s).open->0 + t);
    }
}

/// A quoted text that follows a scan with no open quote is the next item.
proof fn lemma_scan_quoted_item(s: Seq<char>, t: Seq<char>)
    requires
        scan_quoted(s).open is None,
        is_quotable(t),
    ensures
        scan_quoted(s + (seq!['"'] + t + seq!['"'])).items == scan_quoted(s).items.push(t),
        scan_quoted(s + (seq!['"'] + t + seq!['"'])).open is None,
{
    let s1 = s.push('"');
    assert(s1.drop_last() =~= s);
    assert(scan_quoted(s1).open == Some(Seq::<char>::empty()));
    assert(scan_quoted(s1).items == scan_quoted(s).items);
    lemma_scan_quoted_run(s1, t);
    let s2 = s1 + t;
    assert(Seq::<char>::empty() + t =~= t);
    let s3 = s2.push('"');
    assert(s3.drop_last() =~= s2);
    assert(s3 =~= s + (seq!['"'] + t + seq!['"']));
}

/// The scan of quoted items with single spaces between them gives the
/// items, and leaves no quote open.
proof fn lemma_scan_quoted_join(v: Seq<Seq<char>>)
    requires
        forall|i: int| 0 <= i < v.len() ==> is_quotable(#[trigger] v[i]),
    ensures
        scan_quoted(quoted_text(v)).items == v,
        scan_quoted(quoted_text(v)).open is None,
    decreases v.len(),
{
    reveal_strlit(" ");
    assert(" "@ =~= seq![' ']);
    let q = v.map_values(|t: Seq<char>| seq!['"'] + t + seq!['"']);
    if v.len() == 0 {
    } else if v.len() == 1 {
        assert(is_quotable(v[0]));
        lemma_scan_quoted_item(Seq::empty(), v[0]);
        assert(Seq::<char>::empty() + q[0] =~= q[0]);
        assert(Seq::<Seq<char>>::empty().push(v[0]) =~= v);
    } else {
        let init = v.drop_last();
        assert forall|i: int| 0 <= i < init.len() implies is_quotable(#[trigger] init[i]) by {
            assert(init[i] == v[i]);
        }
        lemma_scan_quoted_join(init);
        let qi = init.map_values(|t: Seq<char>| seq!['"'] + t + seq!['"']);
        assert(q.drop_last() =~= qi);
        let head = join(qi, " "@).push(' ');
        assert(head.drop_last() =~= join(qi, " "@));
        assert(scan_quoted(head).items == init);
        assert(scan_quoted(head).open is None);
        assert(is_quotable(v[v.len() - 1]));
        lemma_scan_quoted_item(head, v.last());
        assert(join(q, " "@) =~= head + q.last());
        assert(init.push(v.last()) =~= v);
    }
}

/// Quoted lists read back, where each text can stand between quotes:
/// labels, units and space units.
pub proof fn lemma_quoted_reversible(v: Seq<Seq<char>>)
    requires
        forall|i: int| 0 <= i < v.len() ==> is_quotable(#[trigger] v[i]),
    ensures
        Labels::value_of(Labels::text_of(v)) == Some(v),
        Units::value_of(Units::text_of(v)) == Some(v),
        SpaceUnits::value_of(SpaceUnits::text_of(v)) == Some(v),
{
    reveal_strlit(" ");
    let q = v.map_values(|t: Seq<char>| seq!['"'] + t + seq!['"']);
    let t = quoted_text(v);
    if v.len() > 0 {
        assert forall|i: int| 0 <= i < q.len() implies (#[trigger] q[i]).len() > 0 by {
        }
        lemma_join_ends(q, " "@);
        assert(q[0][0] == '"');
        assert(q.last().last() == '"');
    }
    lemma_trim_identity(t);
    lemma_scan_quoted_join(v);
}

/// Does every character of the text satisfy `p`?
pub open spec fn all_chars(t: Seq<char>, p: spec_fn(char) -> bool) -> bool {
    forall|k: int| 0 <= k < t.len() ==> p(#[trigger] t[k])
}

/// Joined items hold only characters of the items and of the separator.
proof fn lemma_join_all(items: Seq<Seq<char>>, sep: Seq<char>, p: spec_fn(char) -> bool)
    requires
        all_chars(sep, p),
        forall|i: int| 0 <= i < items.len() ==> all_chars(#[trigger] items[i], p),
    ensures
        all_chars(join(items, sep), p),
    decreases items.len(),
{
    if items.len() > 1 {
        let init = items.drop_last();
        assert forall|i: int| 0 <= i < init.len() implies all_chars(#[trigger] init[i], p) by {
            assert(init[i] == items[i]);
        }
        lemma_join_all(init, sep, p);
        let a = join(init, sep);
        let l = items.last();
        assert(all_chars(items[items.len() - 1], p));
        let t = a + sep + l;
        assert forall|k: int| 0 <= k < t.len() implies p(#[trigger] t[k]) by {
            if k < a.len() {
                assert(t[k] == a[k]);
            } else if k < a.len() + sep.len() {
                assert(t[k] == sep[k - a.len()]);
            } else {
                assert(t[k] == l[k - a.len() - sep.len()]);
            }
        }
    } else if items.len() == 1 {
        assert(all_chars(items[0], p));
    }
}

/// Scanning on through a text without the separator only grows the last piece.
proof fn lemma_pieces_run(s: Seq<char>, t: Seq<char>, sep: char)
    requires
        forall|i: int| 0 <= i < t.len() ==> #[trigger] t[i] != sep,
    ensures
        pieces(s + t, sep).len() == pieces(s, sep).len() > 0,
        pieces(s + t, sep) == pieces(s, sep).drop_last().push(pieces(s, sep).last() + t),
    decreases t.len(),
{
    lemma_pieces_nonempty(s, sep);
    let p = pieces(s, sep);
    if t.len() == 0 {
        assert(s + t =~= s);
        assert(p.last() + t =~= p.last());
        assert(p.drop_last().push(p.last()) =~= p);
    } else {
        let u = t.drop_last();
        assert forall|i: int| 0 <= i < u.len() implies #[trigger] u[i] != sep by {
            assert(u[i] == t[i]);
        }
        lemma_pieces_run(s, u, sep);
        assert((s + t).drop_last() =~= s + u);
        assert((s + t).last() == t[t.len() - 1]);
        let pu = pieces(s + u, sep);
        assert(pu.drop_last() =~= p.drop_last());
        assert((p.last() + u).push(t.last()) =~= p.last() + t);
    }
}

proof fn lemma_pieces_nonempty(s: Seq<char>, sep: char)
    ensures
        pieces(s, sep).len() > 0,
    decreases s.len(),
{
    if s.len() > 0 {
        lemma_pieces_nonempty(s.drop_last(), sep);
    }
}

/// The pieces of items joined by the separator are the items, where there
/// is an item and none holds the separator.
proof fn lemma_pieces_join(v: Seq<Seq<char>>, sep: char)
    requires
        v.len() > 0,
        forall|i: int, k: int|
            0 <= i < v.len() && 0 <= k < v[i].len() ==> #[trigger] v[i][k] != sep,
    ensures
        pieces(join(v, seq![sep]), sep) == v,
    decreases v.len(),
{
    if v.len() == 1 {
        assert forall|k: int| 0 <= k < v[0].len() implies #[trigger] v[0][k] != sep by {
        }
        lemma_pieces_run(Seq::empty(), v[0], sep);
        assert(Seq::<char>::empty() + v[0] =~= v[0]);
        assert(pieces(Seq::empty(), sep) =~= seq![Seq::<char>::empty()]);
        assert(pieces(v[0], sep) =~= v);
    } else {
        let init = v.drop_last();
        assert forall|i: int, k: int|
            0 <= i < init.len() && 0 <= k < init[i].len() implies #[trigger] init[i][k]
            != sep by {
            assert(init[i] == v[i]);
        }
        lemma_pieces_join(init, sep);
        let head = join(init, seq![sep]).push(sep);
        assert(head.drop_last() =~= join(init, seq![sep]));
        assert(pieces(head, sep) == init.push(Seq::<char>::empty()));
        let l = v.last();
        assert forall|k: int| 0 <= k < l.len() implies #[trigger] l[k] != sep by {
            assert(v[v.len() - 1][k] != sep);
        }
        lemma_pieces_run(head, l, sep);
        assert(join(v, seq![sep]) =~= head + l);
        assert(init.push(Seq::<char>::empty()).drop_last() =~= init);
        assert(Seq::<char>::empty() + l =~= l);
        assert(init.push(l) =~= v);
    }
}

/// The entries of a vector: at least one, each the literal of a real number.
pub open spec fn is_vector(v: Seq<Seq<char>>) -> bool {
    v.len() > 0 && forall|i: int| 0 <= i < v.len() ==> is_real(#[trigger] v[i])
}

/// The literal of a vector reads back, and is one plain word between
/// round brackets.
pub proof fn lemma_vector_reversible(v: Seq<Seq<char>>)
    requires
        is_vector(v),
    ensures
        vector_of(vector_text(v)) == Some(v),
        is_token(vector_text(v)),
        plain(vector_text(v)),
        vector_text(v)[0] == '(',
        vector_text(v).last() == ')',
        trim(vector_text(v)) == vector_text(v),
{
    reveal_strlit(",");
    assert(","@ =~= seq![',']);
    let inner = join(v, ","@);
    let t = vector_text(v);
    let ok = |c: char| is_literal_char(c) || c == ',';
    assert forall|i: int| 0 <= i < v.len() implies all_chars(#[trigger] v[i], ok) && v[i].len()
        > 0 by {
        lemma_real_chars(v[i]);
    }
    assert(all_chars(","@, ok));
    lemma_join_all(v, ","@, ok);
    lemma_join_ends(v, ","@);
    assert(t[0] == '(');
    assert(t.last() == ')');
    assert forall|k: int| 0 <= k < t.len() implies !is_blank(#[trigger] t[k]) && t[k] != '\n'
        && t[k] != '\r' by {
        if 0 < k < t.len() - 1 {
            assert(t[k] == inner[k - 1]);
            assert(ok(inner[k - 1]));
        }
    }
    lemma_trim_identity(t);
    assert(t.subrange(1, t.len() - 1) =~= inner);
    assert forall|i: int, k: int|
        0 <= i < v.len() && 0 <= k < v[i].len() implies #[trigger] v[i][k] != ',' by {
        lemma_real_chars(v[i]);
        assert(is_literal_char(v[i][k]));
    }
    lemma_pieces_join(v, ',');
    let read = v.map_values(|p: Seq<char>| real_word(RealRule::Any, p));
    assert forall|i: int| 0 <= i < read.len() implies (#[trigger] read[i]) == Some(v[i]) by {
        assert(is_real(v[i]));
    }
    assert(read.map_values(|o: Option<Seq<char>>| o->0) =~= v);
}

/// A space origin reads back.
pub proof fn lemma_space_origin_reversible(v: Seq<Seq<char>>)
    requires
        is_vector(v),
    ensures
        SpaceOrigin::value_of(SpaceOrigin::text_of(v)) == Some(v),
{
    lemma_vector_reversible(v);
}

/// The word for a direction reads back, and is one word.
proof fn lemma_direction_reversible(d: Option<Seq<Seq<char>>>)
    requires
        d matches Some(v) ==> is_vector(v),
    ensures
        direction_of(direction_text(d)) == Some(d),
        is_token(direction_text(d)),
        !is_space(direction_text(d)[0]),
        !is_space(direction_text(d).last()),
{
    reveal_strlit("none");
    match d {
        Some(v) => {
            lemma_vector_reversible(v);
            assert("none"@[0] == 'n');
        },
        None => {
            lemma_trim_identity("none"@);
        },
    }
}

/// Space directions read back.
pub proof fn lemma_space_directions_reversible(v: Seq<Option<Seq<Seq<char>>>>)
    requires
        forall|i: int| 0 <= i < v.len() ==> ((#[trigger] v[i]) matches Some(x) ==> is_vector(x)),
    ensures
        SpaceDirections::value_of(SpaceDirections::text_of(v)) == Some(v),
{
    reveal_strlit(" ");
    assert(" "@ =~= seq![' ']);
    let words = v.map_values(|d: Option<Seq<Seq<char>>>| direction_text(d));
    let t = join(words, " "@);
    assert forall|i: int| 0 <= i < words.len() implies is_token(#[trigger] words[i])
        && words[i].len() > 0 by {
        lemma_direction_reversible(v[i]);
    }
    if v.len() > 0 {
        lemma_join_ends(words, " "@);
        lemma_direction_reversible(v[0]);
        lemma_direction_reversible(v.last());
        assert(words[0] == direction_text(v[0]));
        assert(words.last() == direction_text(v.last()));
    }
    lemma_trim_identity(t);
    lemma_tokens_join(words);
    let read = words.map_values(|w: Seq<char>| direction_of(w));
    assert forall|i: int| 0 <= i < read.len() implies (#[trigger] read[i]) == Some(v[i]) by {
        lemma_direction_reversible(v[i]);
    }
    assert(read.map_values(|o: Option<Option<Seq<Seq<char>>>>| o->0) =~= v);
}

/// A measurement frame reads back.
pub proof fn lemma_measurement_frame_reversible(v: Seq<Seq<Seq<char>>>)
    requires
        forall|i: int| 0 <= i < v.len() ==> is_vector(#[trigger] v[i]),
    ensures
        MeasurementFrame::value_of(MeasurementFrame::text_of(v)) == Some(v),
{
    reveal_strlit(" ");
    assert(" "@ =~= seq![' ']);
    let words = v.map_values(|x: Seq<Seq<char>>| vector_text(x));
    let t = join(words, " "@);
    assert forall|i: int| 0 <= i < words.len() implies is_token(#[trigger] words[i])
        && words[i].len() > 0 by {
        lemma_vector_reversible(v[i]);
    }
    if v.len() > 0 {
        lemma_join_ends(words, " "@);
        lemma_vector_reversible(v[0]);
        lemma_vector_reversible(v.last());
        assert(words[0] == vector_text(v[0]));
        assert(words.last() == vector_text(v.last()));
    }
    lemma_trim_identity(t);
    lemma_tokens_join(words);
    let read = words.map_values(|w: Seq<char>| vector_of(w));
    assert forall|i: int| 0 <= i < read.len() implies (#[trigger] read[i]) == Some(v[i]) by {
        lemma_vector_reversible(v[i]);
    }
    assert(read.map_values(|o: Option<Seq<Seq<char>>>| o->0) =~= v);
}

/// A run of digits that reaches the end of a text ends there.
proof fn lemma_all_digits_end(s: Seq<char>, i: int)
    requires
        0 <= i <= s.len(),
        forall|k: int| i <= k < s.len() ==> is_digit(#[trigger] s[k]),
    ensures
        digits_end(s, i) == s.len(),
    decreases s.len() - i,
{
    if i < s.len() {
        assert(is_digit(s[i]));
        lemma_all_digits_end(s, i + 1);
    }
}

/// The text of an integer is an integer as the directive takes it.
proof fn lemma_integer_text(i: int)
    ensures
        int_text(i).len() > 0,
        integer_prefix(int_text(i)) == int_text(i).len(),
        is_integer(int_text(i)),
        is_token(int_text(i)),
        !is_space(int_text(i).last()),
{
    lemma_int_text_round_trip(i);
    if i < 0 {
        let n = (-i) as nat;
        lemma_nat_text_round_trip(n);
        lemma_nat_text_plain(n);
        let t = seq!['-'] + nat_text(n);
        assert forall|k: int| 1 <= k < t.len() implies is_digit(#[trigger] t[k]) by {
            assert(t[k] == nat_text(n)[k - 1]);
            assert(is_digit(nat_text(n)[k - 1]));
        }
        lemma_all_digits_end(t, 1);
        assert(t.last() == nat_text(n).last());
    } else {
        let n = i as nat;
        lemma_nat_text_round_trip(n);
        lemma_nat_text_plain(n);
        let t = nat_text(n);
        assert(is_digit(t[0]));
        lemma_all_digits_end(t, 0);
    }
}

/// A directive that reads back: one file whose name is a single word
/// without `LIST`; a numbered sequence whose format is a single word and
/// whose numbers the record can hold; a list without files, with a
/// sub-dimension of one digit or none. (The files of a list stand on
/// lines of their own, and are read by the assembly.)
pub open spec fn is_reversible_directive(v: DataFileView) -> bool {
    match v {
        DataFileView::SingleFile { filename } => {
            &&& is_token(filename)
            &&& !is_space(filename[0])
            &&& !is_space(filename.last())
            &&& find_from(filename, "LIST"@, 0) >= filename.len()
        },
        DataFileView::FileFormat { fmt_string, min, max, step, sub_dim } => {
            &&& is_token(fmt_string)
            &&& !is_space(fmt_string[0])
            &&& i32::MIN <= min <= i32::MAX
            &&& i32::MIN <= max <= i32::MAX
            &&& i32::MIN <= step <= i32::MAX
            &&& (sub_dim matches Some(n) ==> n <= usize::MAX)
        },
        DataFileView::List { sub_dim, file_paths } => {
            &&& file_paths == Seq::<Seq<char>>::empty()
            &&& (sub_dim matches Some(n) ==> n < 10)
        },
    }
}

/// One file reads back.
proof fn lemma_single_file_reversible(f: Seq<char>)
    requires
        is_reversible_directive(DataFileView::SingleFile { filename: f }),
    ensures
        directive_of(f) == Some(DataFileView::SingleFile { filename: f }),
{
    lemma_trim_identity(f);
    lemma_tokens_grow(Seq::empty(), f);
    assert(Seq::<char>::empty() + f =~= f);
    let words = tokens(f);
    assert(words =~= seq![f]);
    assert(sequence_from(words, 0) == 1) by {
        reveal_with_fuel(sequence_from, 3);
    }
}

/// A numbered sequence reads back.
proof fn lemma_sequence_reversible(
    fmt: Seq<char>,
    min: int,
    max: int,
    step: int,
    sub_dim: Option<nat>,
)
    requires
        is_reversible_directive(
            DataFileView::FileFormat { fmt_string: fmt, min, max, step, sub_dim },
        ),
    ensures
        directive_of(
            directive_text(DataFileView::FileFormat { fmt_string: fmt, min, max, step, sub_dim }),
        ) == Some(DataFileView::FileFormat { fmt_string: fmt, min, max, step, sub_dim }),
{
    reveal_strlit(" ");
    assert(" "@ =~= seq![' ']);
    let v = DataFileView::FileFormat { fmt_string: fmt, min, max, step, sub_dim };
    let t = directive_text(v);
    lemma_integer_text(min);
    lemma_integer_text(max);
    lemma_integer_text(step);
    lemma_int_text_round_trip(min);
    lemma_int_text_round_trip(max);
    lemma_int_text_round_trip(step);
    let base = seq![fmt, int_text(min), int_text(max), int_text(step)];
    let items = match sub_dim {
        Some(n) => base.push(nat_text(n)),
        None => base,
    };
    match sub_dim {
        Some(n) => {
            lemma_integer_text(n as int);
            lemma_nat_text_round_trip(n);
            lemma_nat_text_plain(n);
        },
        None => {},
    }
    assert(t =~= join(items, " "@)) by {
        reveal_with_fuel(join, 6);
        let i4 = base;
        let i3 = i4.drop_last();
        let i2 = i3.drop_last();
        let i1 = i2.drop_last();
        assert(i1 =~= seq![fmt]);
        assert(join(i1, " "@) == fmt);
        assert(join(i2, " "@) =~= fmt + " "@ + int_text(min));
        assert(join(i3, " "@) =~= fmt + " "@ + int_text(min) + " "@ + int_text(max));
        assert(join(i4, " "@) =~= fmt + " "@ + int_text(min) + " "@ + int_text(max) + " "@
            + int_text(step));
        match sub_dim {
            Some(n) => {
                assert(items.drop_last() =~= base);
                assert(join(items, " "@) =~= join(base, " "@) + " "@ + nat_text(n));
            },
            None => {},
        }
    }
    assert forall|i: int| 0 <= i < items.len() implies is_token(#[trigger] items[i])
        && items[i].len() > 0 by {
    }
    lemma_join_ends(items, " "@);
    assert(t[0] == fmt[0]);
    assert(!is_space(t.last()));
    lemma_trim_identity(t);
    lemma_tokens_join(items);
    let words = tokens(trim(t));
    assert(words == items);
    assert(sequence_at(words, 0));
    assert(sequence_from(words, 0) == 0);
    let last = words[3];
    assert(last.take(integer_prefix(last)) =~= last);
    match sub_dim {
        Some(n) => {
            assert(words[4].take(integer_prefix(words[4])) =~= words[4]);
            assert(word_count_of(nat_text(n)) == Some(n));
        },
        None => {},
    }
    assert(sequence_of(words, 0) == Some(v));
}

/// A list directive without files reads back.
proof fn lemma_list_reversible(sub_dim: Option<nat>)
    requires
        sub_dim matches Some(n) ==> n < 10,
    ensures
        directive_of(
            directive_text(DataFileView::List { sub_dim, file_paths: Seq::empty() }),
        ) == Some(DataFileView::List { sub_dim, file_paths: Seq::empty() }),
{
    reveal_strlit(" ");
    reveal_strlit("LIST");
    assert(" "@ =~= seq![' ']);
    let v = DataFileView::List { sub_dim, file_paths: Seq::empty() };
    let t = directive_text(v);
    let word = "LIST"@;
    assert(is_token(word));
    match sub_dim {
        Some(n) => {
            let d = nat_text(n);
            lemma_nat_text_plain(n);
            assert(d =~= seq![digit_char(n)]);
            let items = seq![word, d];
            assert(t =~= join(items, " "@)) by {
                reveal_with_fuel(join, 3);
                assert(items.drop_last() =~= seq![word]);
            }
            assert forall|i: int| 0 <= i < items.len() implies is_token(#[trigger] items[i]) by {
            }
            assert(t[0] == 'L');
            assert(t.last() == d[0]);
            lemma_trim_identity(t);
            lemma_tokens_join(items);
            assert(sequence_from(tokens(t), 0) == 2) by {
                reveal_with_fuel(sequence_from, 4);
            }
            assert(t.skip(0) =~= t);
            assert(t.subrange(0, 4) =~= word);
            assert(find_from(t, word, 0) == 0);
            assert(t[4] == ' ');
            assert(t[5] == digit_char(n));
            assert(digit_value(digit_char(n)) == n);
            assert(list_of(t, 0) == v);
        },
        None => {
            assert(t =~= word);
            lemma_trim_identity(t);
            lemma_tokens_grow(Seq::empty(), word);
            assert(Seq::<char>::empty() + word =~= word);
            assert(tokens(t) =~= seq![word]);
            assert(sequence_from(tokens(t), 0) == 1) by {
                reveal_with_fuel(sequence_from, 3);
            }
            assert(t.skip(0) =~= t);
            assert(t.subrange(0, 4) =~= word);
            assert(find_from(t, word, 0) == 0);
            assert(list_of(t, 0) == v);
        },
    }
}

/// A data-file directive reads back.
pub proof fn lemma_data_file_reversible(v: DataFileView)
    requires
        is_reversible_directive(v),
    ensures
        DataFile::value_of(DataFile::text_of(v)) == Some(v),
{
    match v {
        DataFileView::SingleFile { filename } => {
            lemma_single_file_reversible(filename);
        },
        DataFileView::FileFormat { fmt_string, min, max, step, sub_dim } => {
            lemma_sequence_reversible(fmt_string, min, max, step, sub_dim);
        },
        DataFileView::List { sub_dim, file_paths } => {
            lemma_list_reversible(sub_dim);
            assert(directive_text(v) =~= directive_text(
                DataFileView::List { sub_dim, file_paths: Seq::empty() },
            ));
        },
    }
}

/// The text of a comment reads back, where the comment is not empty.
pub proof fn lemma_comment_reversible(v: Seq<char>)
    requires
        v.len() > 0,
    ensures
        Comment::value_of(Comment::text_of(v)) == Some(v),
{
    reveal_strlit(" ");
    let t = " "@ + v;
    assert(t.skip(1) =~= v);
}

/// The text of a content line reads back as it stands.
pub proof fn lemma_content_reversible(v: Seq<char>)
    ensures
        Content::value_of(Content::text_of(v)) == Some(v),
{
}

/// Where `p` occurs nowhere before `n`, and occurs at `n`, the first
/// place where it occurs at or after `i` is `n`.
proof fn lemma_find_first(s: Seq<char>, p: Seq<char>, i: int, n: int)
    requires
        0 <= i <= n < s.len(),
        p.is_prefix_of(s.skip(n)),
        forall|k: int| i <= k < n ==> !p.is_prefix_of(#[trigger] s.skip(k)),
    ensures
        find_from(s, p, i) == n,
    decreases n - i,
{
    if i < n {
        lemma_find_first(s, p, i + 1, n);
    }
}

/// A key-value line reads back as its key and its value, where the key
/// does not hold the separator.
pub proof fn lemma_key_value_reversible(key: Seq<char>, value: Seq<char>)
    requires
        !is_key_value(key),
    ensures
        is_key_value(key + ":="@ + value),
        key_of(key + ":="@ + value) == key,
        value_after(key + ":="@ + value) == value,
{
    reveal_strlit(":=");
    let sep = ":="@;
    let line = key + sep + value;
    let n = key.len() as int;
    assert(line.skip(n).subrange(0, 2) =~= sep);
    assert forall|k: int| 0 <= k < n implies !sep.is_prefix_of(#[trigger] line.skip(k)) by {
        if sep.is_prefix_of(line.skip(k)) {
            let cut = line.skip(k).subrange(0, 2);
            assert(cut[0] == line[k] && cut[1] == line[k + 1]);
            if k + 1 < n {
                assert(key.skip(k).subrange(0, 2) =~= sep);
                lemma_find_from_bounds(key, sep, 0);
                lemma_find_reaches(key, sep, 0, k);
            } else {
                assert(line[k + 1] == sep[0]);
            }
        }
    }
    lemma_find_first(line, sep, 0, n);
    assert(line.take(n) =~= key);
    assert(line.skip(n + 2) =~= value);
}

/// The first place where `p` occurs at or after `i` is no later than a
/// place where it occurs.
proof fn lemma_find_reaches(s: Seq<char>, p: Seq<char>, i: int, k: int)
    requires
        0 <= i <= k < s.len(),
        p.is_prefix_of(s.skip(k)),
    ensures
        find_from(s, p, i) <= k,
    decreases k - i,
{
    if i < k && !p.is_prefix_of(s.skip(i)) {
        lemma_find_reaches(s, p, i + 1, k);
    }
}

} // verus!
