//! What holds of the header grammar as a whole: fields that are written
//! can be read back, and a header of the mandatory fields alone survives
//! being written and assembled again.
use vstd::prelude::*;
use crate::decimal::{lemma_leading_zeros, lemma_nat_text_round_trip, nat_text, unsigned_of};
use crate::header::{
    blank_header, comments_of, header_text, key_values_of, line, pairs_text, scan_axes, scan_full,
    scan_full_after, scan_minimal, scan_scalars, scan_space, take_data_file, take_field,
    valid_header, without_comments, without_key_values, HeaderView, Scan, Taken,
};
use crate::header_defs::basic::count_of;
use crate::header_defs::enums::{dtype_of, encoding_of, endian_of, kind_of, kind_text, space_of};
use crate::header_defs::sizes::size_of_word;
use crate::header_defs::{
    AxisMaxs, AxisMins, ByteSkip, Centering, Centerings, Content, DataFileView, Kind, Kinds,
    Labels, LineSkip, Max, Min, OldMax, OldMin, SampleUnits, Space, SpaceDimension,
    SpaceDirections, SpaceOrigin, SpaceUnits, Spacings, Thicknesses, Units,
};
use crate::keyvalues::Pair;
use crate::header_defs::{
    line_matches, line_of, line_value, prefix_index, BlockSize, DType, Dimension, Encoding, Endian,
    Field, HeaderDef, HeaderError, Magic, Sizes,
};
use crate::text::{
    is_digit, is_line, is_space, is_token, join, lemma_text_lines_unlines, lemma_tokens_join,
    lemma_trim_identity, lower, text_lines, trim, unlines,
};

verus! {

/// A text without line feed and carriage return.
pub open spec fn plain(s: Seq<char>) -> bool {
    forall|i: int| 0 <= i < s.len() ==> (#[trigger] s[i]) != '\n' && s[i] != '\r'
}

pub proof fn lemma_plain_concat(a: Seq<char>, b: Seq<char>)
    requires
        plain(a),
        plain(b),
    ensures
        plain(a + b),
        is_line(a + b),
{
    assert forall|i: int| 0 <= i < (a + b).len() implies (#[trigger] (a + b)[i]) != '\n' && (a
        + b)[i] != '\r' by {
        if i < a.len() {
            assert((a + b)[i] == a[i]);
        } else {
            assert((a + b)[i] == b[i - a.len()]);
        }
    }
}

/// The digits of a number hold no line ending and no white space.
pub proof fn lemma_nat_text_plain(n: nat)
    ensures
        plain(nat_text(n)),
        nat_text(n).len() > 0,
        !is_space(nat_text(n)[0]),
        !is_space(nat_text(n).last()),
        is_token(nat_text(n)),
{
    lemma_nat_text_round_trip(n);
    let s = nat_text(n);
    assert forall|i: int| 0 <= i < s.len() implies (#[trigger] s[i]) != '\n' && s[i] != '\r' by {
        assert(is_digit(s[i]));
    }
    assert(is_digit(s[0]));
    assert(is_digit(s[s.len() - 1]));
}

/// A field that reads its own text back reads its own line back.
pub proof fn lemma_line_round_trip<T: HeaderDef>(v: T::V)
    requires
        T::prefixes().len() > 0,
        T::value_of(T::text_of(v)) == Some(v),
    ensures
        line_matches::<T>(line_of::<T>(v)),
        line_value::<T>(line_of::<T>(v)) == Ok::<T::V, HeaderError>(v),
{
    let p = T::prefixes()[0];
    let l = line_of::<T>(v);
    assert(l.subrange(0, p.len() as int) =~= p);
    assert(p.is_prefix_of(l));
    assert(prefix_index(T::prefixes(), l, 0) == 0);
    assert(l.skip(p.len() as int) =~= T::text_of(v));
}

/// Reading the text of a count gives the count back.
pub proof fn lemma_count_round_trip(n: nat, max: nat)
    requires
        n <= max,
    ensures
        count_of(nat_text(n), max) == Some(n),
{
    lemma_nat_text_plain(n);
    lemma_nat_text_round_trip(n);
    lemma_trim_identity(nat_text(n));
}

/// The magic line of a version reads back as that version.
pub proof fn lemma_magic_round_trip(v: nat)
    requires
        v <= 255,
    ensures
        Magic::value_of(Magic::text_of(v)) == Some(v),
        plain(Magic::text_of(v)),
{
    reveal_strlit("000");
    let z = "000"@;
    let d = nat_text(v);
    let t = z + d;
    lemma_nat_text_plain(v);
    lemma_nat_text_round_trip(v);
    lemma_leading_zeros(z, d);
    assert(t[0] == '0');
    assert(t.last() == d.last());
    lemma_trim_identity(t);
    assert forall|i: int| 0 <= i < t.len() implies is_digit(#[trigger] t[i]) by {
        if i >= 3 {
            assert(t[i] == d[i - 3]);
            assert(is_digit(d[i - 3]));
        }
    }
    assert(unsigned_of(t) == Some(v));
    assert(plain(z));
    lemma_plain_concat(z, d);
}

/// Reading the canonical name of an element type gives it back; the name
/// holds no line ending.
pub proof fn lemma_dtype_round_trip(v: DType)
    ensures
        DType::value_of(DType::text_of(v)) == Some(v),
        plain(DType::text_of(v)),
{
    reveal_strlit("signed char");
    reveal_strlit("int8");
    reveal_strlit("int8_t");
    reveal_strlit("uchar");
    reveal_strlit("unsigned char");
    reveal_strlit("uint8");
    reveal_strlit("uint8_t");
    reveal_strlit("short");
    reveal_strlit("short int");
    reveal_strlit("signed short");
    reveal_strlit("signed short int");
    reveal_strlit("int16");
    reveal_strlit("int16_t");
    reveal_strlit("ushort");
    reveal_strlit("unsigned short");
    reveal_strlit("unsigned short int");
    reveal_strlit("uint16");
    reveal_strlit("uint16_t");
    reveal_strlit("int");
    reveal_strlit("signed int");
    reveal_strlit("int32");
    reveal_strlit("int32_t");
    reveal_strlit("uint");
    reveal_strlit("unsigned int");
    reveal_strlit("uint32");
    reveal_strlit("uint32_t");
    reveal_strlit("longlong");
    reveal_strlit("long long");
    reveal_strlit("long long int");
    reveal_strlit("signed long long");
    reveal_strlit("signed long long int");
    reveal_strlit("int64");
    reveal_strlit("int64_t");
    reveal_strlit("ulonglong");
    reveal_strlit("unsigned long long");
    reveal_strlit("unsigned long long int");
    reveal_strlit("uint64");
    reveal_strlit("uint64_t");
    reveal_strlit("float");
    reveal_strlit("double");
    reveal_strlit("block");
    match v {
        DType::int8 => {
            let t = "int8"@;
            lemma_trim_identity(t);
            assert(dtype_of(t) == Some(v));
            assert(plain(t));
        },
        DType::uint8 => {
            let t = "uint8"@;
            lemma_trim_identity(t);
            assert(dtype_of(t) == Some(v));
            assert(plain(t));
        },
        DType::int16 => {
            let t = "int16"@;
            lemma_trim_identity(t);
            assert(dtype_of(t) == Some(v));
            assert(plain(t));
        },
        DType::uint16 => {
            let t = "uint16"@;
            lemma_trim_identity(t);
            assert(dtype_of(t) == Some(v));
            assert(plain(t));
        },
        DType::int32 => {
            let t = "int32"@;
            lemma_trim_identity(t);
            assert(dtype_of(t) == Some(v));
            assert(plain(t));
        },
        DType::uint32 => {
            let t = "uint32"@;
            lemma_trim_identity(t);
            assert(dtype_of(t) == Some(v));
            assert(plain(t));
        },
        DType::int64 => {
            let t = "int64"@;
            lemma_trim_identity(t);
            assert(dtype_of(t) == Some(v));
            assert(plain(t));
        },
        DType::uint64 => {
            let t = "uint64"@;
            lemma_trim_identity(t);
            assert(dtype_of(t) == Some(v));
            assert(plain(t));
        },
        DType::float => {
            let t = "float"@;
            lemma_trim_identity(t);
            assert(dtype_of(t) == Some(v));
            assert(plain(t));
        },
        DType::double => {
            let t = "double"@;
            lemma_trim_identity(t);
            assert(dtype_of(t) == Some(v));
            assert(plain(t));
        },
        DType::Block => {
            let t = "block"@;
            lemma_trim_identity(t);
            assert(dtype_of(t) == Some(v));
            assert(plain(t));
        },
    }
}

/// Reading the canonical name of an encoding gives it back; the name
/// holds no line ending.
pub proof fn lemma_encoding_round_trip(v: Encoding)
    ensures
        Encoding::value_of(Encoding::text_of(v)) == Some(v),
        plain(Encoding::text_of(v)),
{
    reveal_strlit("raw");
    reveal_strlit("txt");
    reveal_strlit("text");
    reveal_strlit("ascii");
    reveal_strlit("gz");
    reveal_strlit("gzip");
    reveal_strlit("bz2");
    reveal_strlit("bzip2");
    reveal_strlit("hex");
    match v {
        Encoding::raw => {
            let t = "raw"@;
            lemma_trim_identity(t);
            assert(lower(t) =~= t);
            assert(encoding_of(t) == Some(v));
            assert(plain(t));
        },
        Encoding::txt => {
            let t = "txt"@;
            lemma_trim_identity(t);
            assert(lower(t) =~= t);
            assert(encoding_of(t) == Some(v));
            assert(plain(t));
        },
        Encoding::hex => {
            let t = "hex"@;
            lemma_trim_identity(t);
            assert(lower(t) =~= t);
            assert(encoding_of(t) == Some(v));
            assert(plain(t));
        },
        Encoding::rawgz => {
            let t = "gzip"@;
            lemma_trim_identity(t);
            assert(lower(t) =~= t);
            assert(encoding_of(t) == Some(v));
            assert(plain(t));
        },
        Encoding::rawbz2 => {
            let t = "bzip2"@;
            lemma_trim_identity(t);
            assert(lower(t) =~= t);
            assert(encoding_of(t) == Some(v));
            assert(plain(t));
        },
    }
}

/// Reading the canonical name of a byte order gives it back; the name
/// holds no line ending.
pub proof fn lemma_endian_round_trip(v: Endian)
    ensures
        Endian::value_of(Endian::text_of(v)) == Some(v),
        plain(Endian::text_of(v)),
{
    reveal_strlit("big");
    reveal_strlit("little");
    match v {
        Endian::Big => {
            let t = "big"@;
            lemma_trim_identity(t);
            assert(lower(t) =~= t);
            assert(endian_of(t) == Some(v));
            assert(plain(t));
        },
        Endian::Little => {
            let t = "little"@;
            lemma_trim_identity(t);
            assert(lower(t) =~= t);
            assert(endian_of(t) == Some(v));
            assert(plain(t));
        },
    }
}

/// Reading the canonical name of a space gives it back; the name holds
/// no line ending.
pub proof fn lemma_space_round_trip(v: Space)
    ensures
        Space::value_of(Space::text_of(v)) == Some(v),
        plain(Space::text_of(v)),
{
    reveal_strlit("right-anterior-superior");
    reveal_strlit("ras");
    reveal_strlit("left-anterior-superior");
    reveal_strlit("las");
    reveal_strlit("left-posterior-superior");
    reveal_strlit("lps");
    reveal_strlit("right-anterior-superior-time");
    reveal_strlit("rast");
    reveal_strlit("left-anterior-superior-time");
    reveal_strlit("last");
    reveal_strlit("left-posterior-superior-time");
    reveal_strlit("lpst");
    reveal_strlit("scanner-xyz");
    reveal_strlit("scanner-xyz-time");
    reveal_strlit("3d-right-handed");
    reveal_strlit("3d-left-handed");
    reveal_strlit("3d-right-handed-time");
    reveal_strlit("3d-left-handed-time");
    reveal_strlit("3D-right-handed");
    reveal_strlit("3D-left-handed");
    reveal_strlit("3D-right-handed-time");
    reveal_strlit("3D-left-handed-time");
    match v {
        Space::RAS => {
            let t = "right-anterior-superior"@;
            lemma_trim_identity(t);
            assert(lower(t) =~= "right-anterior-superior"@);
            assert(space_of(lower(t)) == Some(v));
            assert(plain(t));
        },
        Space::LAS => {
            let t = "left-anterior-superior"@;
            lemma_trim_identity(t);
            assert(lower(t) =~= "left-anterior-superior"@);
            assert(space_of(lower(t)) == Some(v));
            assert(plain(t));
        },
        Space::LPS => {
            let t = "left-posterior-superior"@;
            lemma_trim_identity(t);
            assert(lower(t) =~= "left-posterior-superior"@);
            assert(space_of(lower(t)) == Some(v));
            assert(plain(t));
        },
        Space::RAST => {
            let t = "right-anterior-superior-time"@;
            lemma_trim_identity(t);
            assert(lower(t) =~= "right-anterior-superior-time"@);
            assert(space_of(lower(t)) == Some(v));
            assert(plain(t));
        },
        Space::LAST => {
            let t = "left-anterior-superior-time"@;
            lemma_trim_identity(t);
            assert(lower(t) =~= "left-anterior-superior-time"@);
            assert(space_of(lower(t)) == Some(v));
            assert(plain(t));
        },
        Space::LPST => {
            let t = "left-posterior-superior-time"@;
            lemma_trim_identity(t);
            assert(lower(t) =~= "left-posterior-superior-time"@);
            assert(space_of(lower(t)) == Some(v));
            assert(plain(t));
        },
        Space::scanner_xyz => {
            let t = "scanner-xyz"@;
            lemma_trim_identity(t);
            assert(lower(t) =~= "scanner-xyz"@);
            assert(space_of(lower(t)) == Some(v));
            assert(plain(t));
        },
        Space::scanner_xyz_time => {
            let t = "scanner-xyz-time"@;
            lemma_trim_identity(t);
            assert(lower(t) =~= "scanner-xyz-time"@);
            assert(space_of(lower(t)) == Some(v));
            assert(plain(t));
        },
        Space::_3D_right_handed => {
            let t = "3D-right-handed"@;
            lemma_trim_identity(t);
            assert(lower(t) =~= "3d-right-handed"@);
            assert(space_of(lower(t)) == Some(v));
            assert(plain(t));
        },
        Space::_3D_left_handed => {
            let t = "3D-left-handed"@;
            lemma_trim_identity(t);
            assert(lower(t) =~= "3d-left-handed"@);
            assert(space_of(lower(t)) == Some(v));
            assert(plain(t));
        },
        Space::_3D_right_handed_time => {
            let t = "3D-right-handed-time"@;
            lemma_trim_identity(t);
            assert(lower(t) =~= "3d-right-handed-time"@);
            assert(space_of(lower(t)) == Some(v));
            assert(plain(t));
        },
        Space::_3D_left_handed_time => {
            let t = "3D-left-handed-time"@;
            lemma_trim_identity(t);
            assert(lower(t) =~= "3d-left-handed-time"@);
            assert(space_of(lower(t)) == Some(v));
            assert(plain(t));
        },
    }
}

/// The ends of items joined by a separator are the ends of the first and
/// of the last item.
pub proof fn lemma_join_ends(items: Seq<Seq<char>>, sep: Seq<char>)
    requires
        items.len() > 0,
        forall|i: int| 0 <= i < items.len() ==> (#[trigger] items[i]).len() > 0,
    ensures
        join(items, sep).len() > 0,
        join(items, sep)[0] == items[0][0],
        join(items, sep).last() == items.last().last(),
    decreases items.len(),
{
    if items.len() > 1 {
        let init = items.drop_last();
        assert forall|i: int| 0 <= i < init.len() implies (#[trigger] init[i]).len() > 0 by {
            assert(init[i] == items[i]);
        }
        lemma_join_ends(init, sep);
        assert(init[0] == items[0]);
        assert(items[items.len() - 1].len() > 0);
    } else {
        assert(items[0].len() > 0);
    }
}

/// Plain items joined by a plain separator are plain.
pub proof fn lemma_join_plain(items: Seq<Seq<char>>, sep: Seq<char>)
    requires
        plain(sep),
        forall|i: int| 0 <= i < items.len() ==> plain(#[trigger] items[i]),
    ensures
        plain(join(items, sep)),
    decreases items.len(),
{
    if items.len() > 1 {
        let init = items.drop_last();
        assert forall|i: int| 0 <= i < init.len() implies plain(#[trigger] init[i]) by {
            assert(init[i] == items[i]);
        }
        lemma_join_plain(init, sep);
        lemma_plain_concat(join(init, sep), sep);
        assert(plain(items[items.len() - 1]));
        lemma_plain_concat(join(init, sep) + sep, items.last());
    } else if items.len() == 1 {
        assert(plain(items[0]));
    }
}

/// The sizes that fit the machine's word.
pub open spec fn sizes_fit(v: Seq<nat>) -> bool {
    forall|i: int| 0 <= i < v.len() ==> 0 < #[trigger] v[i] <= usize::MAX
}

/// The text of sizes reads back as those sizes.
pub proof fn lemma_sizes_round_trip(v: Seq<nat>)
    requires
        v.len() > 0,
        sizes_fit(v),
    ensures
        Sizes::value_of(Sizes::text_of(v)) == Some(v),
        plain(Sizes::text_of(v)),
{
    reveal_strlit(" ");
    let words = v.map_values(|n: nat| nat_text(n));
    let t = join(words, " "@);
    assert(" "@ =~= seq![' ']);
    assert forall|i: int| 0 <= i < words.len() implies is_token(#[trigger] words[i]) && plain(
        words[i],
    ) && words[i].len() > 0 by {
        lemma_nat_text_plain(v[i]);
    }
    lemma_join_ends(words, " "@);
    lemma_nat_text_plain(v[0]);
    lemma_nat_text_plain(v.last());
    assert(words[0] == nat_text(v[0]));
    assert(words.last() == nat_text(v.last()));
    lemma_trim_identity(t);
    lemma_tokens_join(words);
    assert(plain(" "@));
    lemma_join_plain(words, " "@);
    let sized = words.map_values(|w: Seq<char>| size_of_word(w));
    assert forall|i: int| 0 <= i < sized.len() implies (#[trigger] sized[i]) == Some(v[i]) by {
        lemma_nat_text_round_trip(v[i]);
        assert(0 < v[i] <= usize::MAX);
    }
    assert(sized.map_values(|o: Option<nat>| o->0) =~= v);
}

/// Reading the canonical name of a kind gives it back; the name is one
/// word and holds no line ending.
pub proof fn lemma_kind_round_trip(v: Kind)
    ensures
        kind_of(trim(kind_text(v))) == Some(v),
        is_token(kind_text(v)),
        plain(kind_text(v)),
        !is_space(kind_text(v)[0]),
        !is_space(kind_text(v).last()),
{
    reveal_strlit("domain");
    reveal_strlit("space");
    reveal_strlit("time");
    reveal_strlit("list");
    reveal_strlit("point");
    reveal_strlit("vector");
    reveal_strlit("covariant-vector");
    reveal_strlit("normal");
    reveal_strlit("stub");
    reveal_strlit("scalar");
    reveal_strlit("complex");
    reveal_strlit("2-vector");
    reveal_strlit("3-color");
    reveal_strlit("RGB-color");
    reveal_strlit("HSV-color");
    reveal_strlit("XYZ-color");
    reveal_strlit("4-color");
    reveal_strlit("RGBA-color");
    reveal_strlit("3-vector");
    reveal_strlit("3-gradient");
    reveal_strlit("3-normal");
    reveal_strlit("4-vector");
    reveal_strlit("quaternion");
    reveal_strlit("2D-symmetric-matrix");
    reveal_strlit("2D-masked-symmetric-matrix");
    reveal_strlit("2D-matrix");
    reveal_strlit("2D-masked-matrix");
    reveal_strlit("3D-symmetric-matrix");
    reveal_strlit("3D-masked-symmetric-matrix");
    reveal_strlit("3D-matrix");
    reveal_strlit("3D-masked-matrix");
    reveal_strlit("none");
    match v {
        Kind::domain => {
            let t = "domain"@;
            lemma_trim_identity(t);
            assert(kind_of(t) == Some(v));
            assert(is_token(t));
            assert(plain(t));
        },
        Kind::space => {
            let t = "space"@;
            lemma_trim_identity(t);
            assert(kind_of(t) == Some(v));
            assert(is_token(t));
            assert(plain(t));
        },
        Kind::time => {
            let t = "time"@;
            lemma_trim_identity(t);
            assert(kind_of(t) == Some(v));
            assert(is_token(t));
            assert(plain(t));
        },
        Kind::list => {
            let t = "list"@;
            lemma_trim_identity(t);
            assert(kind_of(t) == Some(v));
            assert(is_token(t));
            assert(plain(t));
        },
        Kind::point => {
            let t = "point"@;
            lemma_trim_identity(t);
            assert(kind_of(t) == Some(v));
            assert(is_token(t));
            assert(plain(t));
        },
        Kind::vector => {
            let t = "vector"@;
            lemma_trim_identity(t);
            assert(kind_of(t) == Some(v));
            assert(is_token(t));
            assert(plain(t));
        },
        Kind::covariant_vector => {
            let t = "covariant-vector"@;
            lemma_trim_identity(t);
            assert(kind_of(t) == Some(v));
            assert(is_token(t));
            assert(plain(t));
        },
        Kind::normal => {
            let t = "normal"@;
            lemma_trim_identity(t);
            assert(kind_of(t) == Some(v));
            assert(is_token(t));
            assert(plain(t));
        },
        Kind::stub => {
            let t = "stub"@;
            lemma_trim_identity(t);
            assert(kind_of(t) == Some(v));
            assert(is_token(t));
            assert(plain(t));
        },
        Kind::scalar => {
            let t = "scalar"@;
            lemma_trim_identity(t);
            assert(kind_of(t) == Some(v));
            assert(is_token(t));
            assert(plain(t));
        },
        Kind::complex => {
            let t = "complex"@;
            lemma_trim_identity(t);
            assert(kind_of(t) == Some(v));
            assert(is_token(t));
            assert(plain(t));
        },
        Kind::_2_vector => {
            let t = "2-vector"@;
            lemma_trim_identity(t);
            assert(kind_of(t) == Some(v));
            assert(is_token(t));
            assert(plain(t));
        },
        Kind::_3_color => {
            let t = "3-color"@;
            lemma_trim_identity(t);
            assert(kind_of(t) == Some(v));
            assert(is_token(t));
            assert(plain(t));
        },
        Kind::RGB_color => {
            let t = "RGB-color"@;
            lemma_trim_identity(t);
            assert(kind_of(t) == Some(v));
            assert(is_token(t));
            assert(plain(t));
        },
        Kind::HSV_color => {
            let t = "HSV-color"@;
            lemma_trim_identity(t);
            assert(kind_of(t) == Some(v));
            assert(is_token(t));
            assert(plain(t));
        },
        Kind::XYZ_color => {
            let t = "XYZ-color"@;
            lemma_trim_identity(t);
            assert(kind_of(t) == Some(v));
            assert(is_token(t));
            assert(plain(t));
        },
        Kind::_4_color => {
            let t = "4-color"@;
            lemma_trim_identity(t);
            assert(kind_of(t) == Some(v));
            assert(is_token(t));
            assert(plain(t));
        },
        Kind::RGBA_color => {
            let t = "RGBA-color"@;
            lemma_trim_identity(t);
            assert(kind_of(t) == Some(v));
            assert(is_token(t));
            assert(plain(t));
        },
        Kind::_3_vector => {
            let t = "3-vector"@;
            lemma_trim_identity(t);
            assert(kind_of(t) == Some(v));
            assert(is_token(t));
            assert(plain(t));
        },
        Kind::_3_gradient => {
            let t = "3-gradient"@;
            lemma_trim_identity(t);
            assert(kind_of(t) == Some(v));
            assert(is_token(t));
            assert(plain(t));
        },
        Kind::_3_normal => {
            let t = "3-normal"@;
            lemma_trim_identity(t);
            assert(kind_of(t) == Some(v));
            assert(is_token(t));
            assert(plain(t));
        },
        Kind::_4_vector => {
            let t = "4-vector"@;
            lemma_trim_identity(t);
            assert(kind_of(t) == Some(v));
            assert(is_token(t));
            assert(plain(t));
        },
        Kind::quaternion => {
            let t = "quaternion"@;
            lemma_trim_identity(t);
            assert(kind_of(t) == Some(v));
            assert(is_token(t));
            assert(plain(t));
        },
        Kind::_2D_symmetric_matrix => {
            let t = "2D-symmetric-matrix"@;
            lemma_trim_identity(t);
            assert(kind_of(t) == Some(v));
            assert(is_token(t));
            assert(plain(t));
        },
        Kind::_2D_masked_symmetric_matrix => {
            let t = "2D-masked-symmetric-matrix"@;
            lemma_trim_identity(t);
            assert(kind_of(t) == Some(v));
            assert(is_token(t));
            assert(plain(t));
        },
        Kind::_2D_matrix => {
            let t = "2D-matrix"@;
            lemma_trim_identity(t);
            assert(kind_of(t) == Some(v));
            assert(is_token(t));
            assert(plain(t));
        },
        Kind::_2D_masked_matrix => {
            let t = "2D-masked-matrix"@;
            lemma_trim_identity(t);
            assert(kind_of(t) == Some(v));
            assert(is_token(t));
            assert(plain(t));
        },
        Kind::_3D_symmetric_matrix => {
            let t = "3D-symmetric-matrix"@;
            lemma_trim_identity(t);
            assert(kind_of(t) == Some(v));
            assert(is_token(t));
            assert(plain(t));
        },
        Kind::_3D_masked_symmetric_matrix => {
            let t = "3D-masked-symmetric-matrix"@;
            lemma_trim_identity(t);
            assert(kind_of(t) == Some(v));
            assert(is_token(t));
            assert(plain(t));
        },
        Kind::_3D_matrix => {
            let t = "3D-matrix"@;
            lemma_trim_identity(t);
            assert(kind_of(t) == Some(v));
            assert(is_token(t));
            assert(plain(t));
        },
        Kind::_3D_masked_matrix => {
            let t = "3D-masked-matrix"@;
            lemma_trim_identity(t);
            assert(kind_of(t) == Some(v));
            assert(is_token(t));
            assert(plain(t));
        },
        Kind::none => {
            let t = "none"@;
            lemma_trim_identity(t);
            assert(kind_of(t) == Some(v));
            assert(is_token(t));
            assert(plain(t));
        },
    }
}

/// The text of kinds reads back as those kinds.
pub proof fn lemma_kinds_round_trip(v: Seq<Kind>)
    ensures
        Kinds::value_of(Kinds::text_of(v)) == Some(v),
        plain(Kinds::text_of(v)),
{
    reveal_strlit(" ");
    let words = v.map_values(|k: Kind| kind_text(k));
    let t = join(words, " "@);
    assert(" "@ =~= seq![' ']);
    assert forall|i: int| 0 <= i < words.len() implies is_token(#[trigger] words[i]) && plain(
        words[i],
    ) && words[i].len() > 0 by {
        lemma_kind_round_trip(v[i]);
    }
    if v.len() > 0 {
        lemma_join_ends(words, " "@);
        lemma_kind_round_trip(v[0]);
        lemma_kind_round_trip(v.last());
        assert(words[0] == kind_text(v[0]));
        assert(words.last() == kind_text(v.last()));
    }
    lemma_trim_identity(t);
    lemma_tokens_join(words);
    assert(plain(" "@));
    lemma_join_plain(words, " "@);
    let named = words.map_values(|w: Seq<char>| kind_of(trim(w)));
    assert forall|i: int| 0 <= i < named.len() implies (#[trigger] named[i]) == Some(v[i]) by {
        lemma_kind_round_trip(v[i]);
    }
    assert(named.map_values(|o: Option<Kind>| o->0) =~= v);
}

/// Does the header hold the mandatory fields only?
pub open spec fn is_minimal(h: HeaderView) -> bool {
    &&& h.content is None
    &&& h.min is None
    &&& h.max is None
    &&& h.old_min is None
    &&& h.old_max is None
    &&& h.line_skip is None
    &&& h.byte_skip is None
    &&& h.sample_units is None
    &&& h.spacings is None
    &&& h.thicknesses is None
    &&& h.axis_mins is None
    &&& h.axis_maxs is None
    &&& h.centerings is None
    &&& h.labels is None
    &&& h.units is None
    &&& h.kinds is None
    &&& h.space is None
    &&& h.space_dimension is None
    &&& h.space_units is None
    &&& h.space_origin is None
    &&& h.space_directions is None
    &&& h.data_file is None
    &&& h.key_vals == Seq::<Pair>::empty()
    &&& h.comments == Seq::<Seq<char>>::empty()
}

/// Can the numbers of the mandatory fields be held in the record?
pub open spec fn representable(h: HeaderView) -> bool {
    &&& h.magic <= 255
    &&& h.dimension <= usize::MAX
    &&& sizes_fit(h.sizes)
    &&& (h.block_size matches Some(b) ==> b <= usize::MAX)
}

/// The lines of a header of the mandatory fields.
pub open spec fn minimal_lines(h: HeaderView) -> Seq<Seq<char>> {
    let front = seq![
        line_of::<Magic>(h.magic),
        line_of::<Dimension>(h.dimension),
        line_of::<DType>(h.dtype),
    ];
    let block = match h.block_size {
        Some(b) => seq![line_of::<BlockSize>(b)],
        None => Seq::empty(),
    };
    front + block + seq![
        line_of::<Encoding>(h.encoding),
        line_of::<Endian>(h.endian),
        line_of::<Sizes>(h.sizes),
    ]
}

/// The text of a header of the mandatory fields is its lines, one after
/// the other.
pub proof fn lemma_minimal_text(h: HeaderView)
    requires
        is_minimal(h),
    ensures
        header_text(h) == unlines(minimal_lines(h)),
{
    reveal_with_fuel(unlines, 8);
    let l = minimal_lines(h);
    let e = Seq::<char>::empty();
    assert(unlines(Seq::<Seq<char>>::empty()) == e);
    assert(pairs_text(Seq::<Pair>::empty()) == e);
    match h.block_size {
        Some(b) => {
            assert(l =~= seq![
                line_of::<Magic>(h.magic),
                line_of::<Dimension>(h.dimension),
                line_of::<DType>(h.dtype),
                line_of::<BlockSize>(b),
                line_of::<Encoding>(h.encoding),
                line_of::<Endian>(h.endian),
                line_of::<Sizes>(h.sizes),
            ]);
            let l6 = l.drop_last();
            let l5 = l6.drop_last();
            let l4 = l5.drop_last();
            let l3 = l4.drop_last();
            let l2 = l3.drop_last();
            let l1 = l2.drop_last();
            assert(l1.drop_last() =~= Seq::<Seq<char>>::empty());
            assert(unlines(l1) =~= line(l[0]));
            assert(unlines(l2) =~= line(l[0]) + line(l[1]));
            assert(unlines(l3) =~= line(l[0]) + line(l[1]) + line(l[2]));
            assert(unlines(l4) =~= line(l[0]) + line(l[1]) + line(l[2]) + line(l[3]));
            assert(unlines(l5) =~= line(l[0]) + line(l[1]) + line(l[2]) + line(l[3]) + line(l[4]));
            assert(unlines(l6) =~= line(l[0]) + line(l[1]) + line(l[2]) + line(l[3]) + line(l[4])
                + line(l[5]));
            assert(unlines(l) =~= line(l[0]) + line(l[1]) + line(l[2]) + line(l[3]) + line(l[4])
                + line(l[5]) + line(l[6]));
            assert(header_text(h) =~= unlines(l));
        },
        None => {
            assert(l =~= seq![
                line_of::<Magic>(h.magic),
                line_of::<Dimension>(h.dimension),
                line_of::<DType>(h.dtype),
                line_of::<Encoding>(h.encoding),
                line_of::<Endian>(h.endian),
                line_of::<Sizes>(h.sizes),
            ]);
            let l5 = l.drop_last();
            let l4 = l5.drop_last();
            let l3 = l4.drop_last();
            let l2 = l3.drop_last();
            let l1 = l2.drop_last();
            assert(l1.drop_last() =~= Seq::<Seq<char>>::empty());
            assert(unlines(l1) =~= line(l[0]));
            assert(unlines(l2) =~= line(l[0]) + line(l[1]));
            assert(unlines(l3) =~= line(l[0]) + line(l[1]) + line(l[2]));
            assert(unlines(l4) =~= line(l[0]) + line(l[1]) + line(l[2]) + line(l[3]));
            assert(unlines(l5) =~= line(l[0]) + line(l[1]) + line(l[2]) + line(l[3]) + line(l[4]));
            assert(unlines(l) =~= line(l[0]) + line(l[1]) + line(l[2]) + line(l[3]) + line(l[4])
                + line(l[5]));
            assert(header_text(h) =~= unlines(l));
        },
    }
}

/// The canonical line of this field reads back as the value that was
/// written, and holds no line ending.
pub proof fn lemma_magic_line(v: nat)
    requires
        v <= 255,
    ensures
        line_value::<Magic>(line_of::<Magic>(v)) == Ok::<nat, HeaderError>(v),
        is_line(line_of::<Magic>(v)),
{
    reveal_strlit("NRRD");
    lemma_magic_round_trip(v);
    lemma_line_round_trip::<Magic>(v);
    assert(plain("NRRD"@));
    lemma_plain_concat("NRRD"@, Magic::text_of(v));
}

/// The canonical line of this field reads back as the value that was
/// written, and holds no line ending.
pub proof fn lemma_dimension_line(v: nat)
    requires
        0 < v <= usize::MAX,
    ensures
        line_value::<Dimension>(line_of::<Dimension>(v)) == Ok::<nat, HeaderError>(v),
        is_line(line_of::<Dimension>(v)),
{
    reveal_strlit("dimension: ");
    lemma_count_round_trip(v, usize::MAX as nat);
    lemma_nat_text_plain(v);
    lemma_line_round_trip::<Dimension>(v);
    assert(plain("dimension: "@));
    lemma_plain_concat("dimension: "@, Dimension::text_of(v));
}

/// The canonical line of this field reads back as the value that was
/// written, and holds no line ending.
pub proof fn lemma_dtype_line(v: DType)
    ensures
        line_value::<DType>(line_of::<DType>(v)) == Ok::<DType, HeaderError>(v),
        is_line(line_of::<DType>(v)),
{
    reveal_strlit("type: ");
    lemma_dtype_round_trip(v);
    lemma_line_round_trip::<DType>(v);
    assert(plain("type: "@));
    lemma_plain_concat("type: "@, DType::text_of(v));
}

/// The canonical line of this field reads back as the value that was
/// written, and holds no line ending.
pub proof fn lemma_blocksize_line(v: nat)
    requires
        v <= usize::MAX,
    ensures
        line_value::<BlockSize>(line_of::<BlockSize>(v)) == Ok::<nat, HeaderError>(v),
        is_line(line_of::<BlockSize>(v)),
{
    reveal_strlit("block size: ");
    lemma_count_round_trip(v, usize::MAX as nat);
    lemma_nat_text_plain(v);
    lemma_line_round_trip::<BlockSize>(v);
    assert(plain("block size: "@));
    lemma_plain_concat("block size: "@, BlockSize::text_of(v));
}

/// The canonical line of this field reads back as the value that was
/// written, and holds no line ending.
pub proof fn lemma_encoding_line(v: Encoding)
    ensures
        line_value::<Encoding>(line_of::<Encoding>(v)) == Ok::<Encoding, HeaderError>(v),
        is_line(line_of::<Encoding>(v)),
{
    reveal_strlit("encoding: ");
    lemma_encoding_round_trip(v);
    lemma_line_round_trip::<Encoding>(v);
    assert(plain("encoding: "@));
    lemma_plain_concat("encoding: "@, Encoding::text_of(v));
}

/// The canonical line of this field reads back as the value that was
/// written, and holds no line ending.
pub proof fn lemma_endian_line(v: Endian)
    ensures
        line_value::<Endian>(line_of::<Endian>(v)) == Ok::<Endian, HeaderError>(v),
        is_line(line_of::<Endian>(v)),
{
    reveal_strlit("endian: ");
    lemma_endian_round_trip(v);
    lemma_line_round_trip::<Endian>(v);
    assert(plain("endian: "@));
    lemma_plain_concat("endian: "@, Endian::text_of(v));
}

/// The canonical line of this field reads back as the value that was
/// written, and holds no line ending.
pub proof fn lemma_sizes_line(v: Seq<nat>)
    requires
        v.len() > 0,
        sizes_fit(v),
    ensures
        line_value::<Sizes>(line_of::<Sizes>(v)) == Ok::<Seq<nat>, HeaderError>(v),
        is_line(line_of::<Sizes>(v)),
{
    reveal_strlit("sizes: ");
    lemma_sizes_round_trip(v);
    lemma_line_round_trip::<Sizes>(v);
    assert(plain("sizes: "@));
    lemma_plain_concat("sizes: "@, Sizes::text_of(v));
}

/// Each mandatory field of a valid header reads its own line back, and
/// the line holds no line ending.
pub proof fn lemma_mandatory_lines(h: HeaderView)
    requires
        valid_header(h),
        representable(h),
    ensures
        line_value::<Magic>(line_of::<Magic>(h.magic)) == Ok::<nat, HeaderError>(h.magic),
        line_value::<Dimension>(line_of::<Dimension>(h.dimension)) == Ok::<nat, HeaderError>(
            h.dimension,
        ),
        line_value::<DType>(line_of::<DType>(h.dtype)) == Ok::<DType, HeaderError>(h.dtype),
        h.block_size matches Some(b) ==> line_value::<BlockSize>(line_of::<BlockSize>(b)) == Ok::<
            nat,
            HeaderError,
        >(b) && is_line(line_of::<BlockSize>(b)),
        line_value::<Encoding>(line_of::<Encoding>(h.encoding)) == Ok::<Encoding, HeaderError>(
            h.encoding,
        ),
        line_value::<Endian>(line_of::<Endian>(h.endian)) == Ok::<Endian, HeaderError>(h.endian),
        line_value::<Sizes>(line_of::<Sizes>(h.sizes)) == Ok::<Seq<nat>, HeaderError>(h.sizes),
        is_line(line_of::<Magic>(h.magic)),
        is_line(line_of::<Dimension>(h.dimension)),
        is_line(line_of::<DType>(h.dtype)),
        is_line(line_of::<Encoding>(h.encoding)),
        is_line(line_of::<Endian>(h.endian)),
        is_line(line_of::<Sizes>(h.sizes)),
{
    lemma_magic_line(h.magic);
    lemma_dimension_line(h.dimension);
    lemma_dtype_line(h.dtype);
    match h.block_size {
        Some(b) => {
            lemma_blocksize_line(b);
        },
        None => {},
    }
    lemma_encoding_line(h.encoding);
    lemma_endian_line(h.endian);
    lemma_sizes_line(h.sizes);
}

/// One step of an assembly from the front: the first line holds the field,
/// and is taken.
pub proof fn lemma_front_step<T: HeaderDef>(
    s: Scan,
    set: spec_fn(HeaderView, T::V) -> HeaderView,
    v: T::V,
)
    requires
        s.error is None,
        s.lines.len() > 0,
        line_value::<T>(s.lines[0]) == Ok::<T::V, HeaderError>(v),
    ensures
        s.front::<T>(set) == (Scan {
            header: set(s.header, v),
            lines: s.lines.drop_first(),
            error: None,
        }),
{
}

/// The first three steps of the assembly of a header of the mandatory
/// fields: magic, dimension and type.
proof fn lemma_minimal_scan_front(h: HeaderView, rest: Seq<Seq<char>>) -> (s: Scan)
    requires
        valid_header(h),
        representable(h),
    ensures
        s.error is None,
        s.lines == rest,
        s.header == (HeaderView {
            magic: h.magic,
            dimension: h.dimension,
            dtype: h.dtype,
            ..blank_header()
        }),
        s == (Scan {
            header: blank_header(),
            lines: seq![
                line_of::<Magic>(h.magic),
                line_of::<Dimension>(h.dimension),
                line_of::<DType>(h.dtype),
            ] + rest,
            error: None,
        }).front::<Magic>(|h: HeaderView, v: nat| HeaderView { magic: v, ..h }).front::<
            Dimension,
        >(|h: HeaderView, v: nat| HeaderView { dimension: v, ..h }).front::<DType>(
            |h: HeaderView, v: DType| HeaderView { dtype: v, ..h },
        ),
{
    lemma_magic_line(h.magic);
    lemma_dimension_line(h.dimension);
    lemma_dtype_line(h.dtype);
    let l = seq![
        line_of::<Magic>(h.magic),
        line_of::<Dimension>(h.dimension),
        line_of::<DType>(h.dtype),
    ] + rest;
    let s0 = Scan { header: blank_header(), lines: l, error: None };
    let set1 = |h: HeaderView, v: nat| HeaderView { magic: v, ..h };
    let set2 = |h: HeaderView, v: nat| HeaderView { dimension: v, ..h };
    let set3 = |h: HeaderView, v: DType| HeaderView { dtype: v, ..h };
    assert(l[0] == line_of::<Magic>(h.magic));
    lemma_front_step::<Magic>(s0, set1, h.magic);
    let s1 = s0.front::<Magic>(set1);
    assert(s1.lines =~= seq![line_of::<Dimension>(h.dimension), line_of::<DType>(h.dtype)] + rest);
    assert(s1.lines[0] == line_of::<Dimension>(h.dimension));
    lemma_front_step::<Dimension>(s1, set2, h.dimension);
    let s2 = s1.front::<Dimension>(set2);
    assert(s2.lines =~= seq![line_of::<DType>(h.dtype)] + rest);
    assert(s2.lines[0] == line_of::<DType>(h.dtype));
    lemma_front_step::<DType>(s2, set3, h.dtype);
    let s3 = s2.front::<DType>(set3);
    assert(s3.lines =~= rest);
    s3
}

/// The last three steps of the assembly of a header of the mandatory
/// fields: encoding, endian and sizes.
proof fn lemma_minimal_scan_back(h: HeaderView, s: Scan, rest: Seq<Seq<char>>) -> (r: Scan)
    requires
        valid_header(h),
        representable(h),
        s.error is None,
        s.lines == seq![
            line_of::<Encoding>(h.encoding),
            line_of::<Endian>(h.endian),
            line_of::<Sizes>(h.sizes),
        ] + rest,
        s.header.dimension == h.dimension,
    ensures
        r.error is None,
        r.lines == rest,
        r.header == (HeaderView {
            encoding: h.encoding,
            endian: h.endian,
            sizes: h.sizes,
            ..s.header
        }),
        r == ({
            let t = s.front::<Encoding>(
                |h: HeaderView, v: Encoding| HeaderView { encoding: v, ..h },
            ).front::<Endian>(|h: HeaderView, v: Endian| HeaderView { endian: v, ..h }).front::<
                Sizes,
            >(|h: HeaderView, v: Seq<nat>| HeaderView { sizes: v, ..h });
            t.counted(Field::Sizes, Some(t.header.sizes.len()))
        }),
{
    lemma_encoding_line(h.encoding);
    lemma_endian_line(h.endian);
    lemma_sizes_line(h.sizes);
    let set5 = |h: HeaderView, v: Encoding| HeaderView { encoding: v, ..h };
    let set6 = |h: HeaderView, v: Endian| HeaderView { endian: v, ..h };
    let set7 = |h: HeaderView, v: Seq<nat>| HeaderView { sizes: v, ..h };
    assert(s.lines[0] == line_of::<Encoding>(h.encoding));
    lemma_front_step::<Encoding>(s, set5, h.encoding);
    let s5 = s.front::<Encoding>(set5);
    assert(s5.lines =~= seq![line_of::<Endian>(h.endian), line_of::<Sizes>(h.sizes)] + rest);
    assert(s5.lines[0] == line_of::<Endian>(h.endian));
    lemma_front_step::<Endian>(s5, set6, h.endian);
    let s6 = s5.front::<Endian>(set6);
    assert(s6.lines =~= seq![line_of::<Sizes>(h.sizes)] + rest);
    assert(s6.lines[0] == line_of::<Sizes>(h.sizes));
    lemma_front_step::<Sizes>(s6, set7, h.sizes);
    let s7 = s6.front::<Sizes>(set7);
    assert(s7.lines =~= rest);
    assert(s7.header.dimension == h.dimension);
    s7.counted(Field::Sizes, Some(s7.header.sizes.len()))
}

/// Assembling the mandatory fields from the lines of a header of the
/// mandatory fields, with other lines after them, gives that header and
/// leaves the other lines.
pub proof fn lemma_minimal_scan_then(h: HeaderView, rest: Seq<Seq<char>>)
    requires
        is_minimal(h),
        valid_header(h),
        representable(h),
    ensures
        scan_minimal(minimal_lines(h) + rest) == (Scan { header: h, lines: rest, error: None }),
{
    let l = minimal_lines(h) + rest;
    let back = seq![
        line_of::<Encoding>(h.encoding),
        line_of::<Endian>(h.endian),
        line_of::<Sizes>(h.sizes),
    ];
    match h.block_size {
        Some(b) => {
            let after = seq![line_of::<BlockSize>(b)] + (back + rest);
            assert(l =~= seq![
                line_of::<Magic>(h.magic),
                line_of::<Dimension>(h.dimension),
                line_of::<DType>(h.dtype),
            ] + after);
            let s3 = lemma_minimal_scan_front(h, after);
            lemma_blocksize_line(b);
            let set4 = |h: HeaderView, v: nat| HeaderView { block_size: Some(v), ..h };
            assert(s3.lines[0] == line_of::<BlockSize>(b));
            lemma_front_step::<BlockSize>(s3, set4, b);
            let s4 = s3.front::<BlockSize>(set4);
            assert(s4.lines =~= back + rest);
            let r = lemma_minimal_scan_back(h, s4, rest);
            assert(r.header == h);
            assert(scan_minimal(l) == r);
        },
        None => {
            assert(l =~= seq![
                line_of::<Magic>(h.magic),
                line_of::<Dimension>(h.dimension),
                line_of::<DType>(h.dtype),
            ] + (back + rest));
            let s3 = lemma_minimal_scan_front(h, back + rest);
            let r = lemma_minimal_scan_back(h, s3, rest);
            assert(r.header == h);
            assert(scan_minimal(l) == r);
        },
    }
}

/// Assembling the mandatory fields from the lines of a header that holds
/// nothing else gives that header and leaves no line.
pub proof fn lemma_minimal_scan(h: HeaderView)
    requires
        is_minimal(h),
        valid_header(h),
        representable(h),
    ensures
        scan_minimal(minimal_lines(h)) == (Scan {
            header: h,
            lines: Seq::empty(),
            error: None,
        }),
{
    lemma_minimal_scan_then(h, Seq::empty());
    assert(minimal_lines(h) + Seq::<Seq<char>>::empty() =~= minimal_lines(h));
}

/// Where no line is left, this stage of the assembly finds nothing.
proof fn lemma_scalars_of_nothing(h: HeaderView)
    requires
        is_minimal(h),
    ensures
        scan_scalars(Scan { header: h, lines: Seq::empty(), error: None }) == (Scan {
            header: h,
            lines: Seq::empty(),
            error: None,
        }),
{
    let none = Seq::<Seq<char>>::empty();
    assert(take_field::<Content>(none) == Ok::<Taken<Seq<char>>, HeaderError>(
        Taken { value: None, rest: none },
    ));
    assert(take_field::<Min>(none) == Ok::<Taken<Seq<char>>, HeaderError>(
        Taken { value: None, rest: none },
    ));
    assert(take_field::<Max>(none) == Ok::<Taken<Seq<char>>, HeaderError>(
        Taken { value: None, rest: none },
    ));
    assert(take_field::<OldMin>(none) == Ok::<Taken<Seq<char>>, HeaderError>(
        Taken { value: None, rest: none },
    ));
    assert(take_field::<OldMax>(none) == Ok::<Taken<Seq<char>>, HeaderError>(
        Taken { value: None, rest: none },
    ));
    assert(take_field::<LineSkip>(none) == Ok::<Taken<nat>, HeaderError>(
        Taken { value: None, rest: none },
    ));
    assert(take_field::<ByteSkip>(none) == Ok::<Taken<ByteSkip>, HeaderError>(
        Taken { value: None, rest: none },
    ));
    assert(take_field::<SampleUnits>(none) == Ok::<Taken<Seq<char>>, HeaderError>(
        Taken { value: None, rest: none },
    ));
}

/// Where no line is left, this stage of the assembly finds nothing.
proof fn lemma_axes_of_nothing(h: HeaderView)
    requires
        is_minimal(h),
    ensures
        scan_axes(Scan { header: h, lines: Seq::empty(), error: None }) == (Scan {
            header: h,
            lines: Seq::empty(),
            error: None,
        }),
{
    let none = Seq::<Seq<char>>::empty();
    assert(take_field::<Spacings>(none) == Ok::<Taken<Seq<Seq<char>>>, HeaderError>(
        Taken { value: None, rest: none },
    ));
    assert(take_field::<Thicknesses>(none) == Ok::<Taken<Seq<Seq<char>>>, HeaderError>(
        Taken { value: None, rest: none },
    ));
    assert(take_field::<AxisMins>(none) == Ok::<Taken<Seq<Seq<char>>>, HeaderError>(
        Taken { value: None, rest: none },
    ));
    assert(take_field::<AxisMaxs>(none) == Ok::<Taken<Seq<Seq<char>>>, HeaderError>(
        Taken { value: None, rest: none },
    ));
    assert(take_field::<Centerings>(none) == Ok::<Taken<Seq<Centering>>, HeaderError>(
        Taken { value: None, rest: none },
    ));
    assert(take_field::<Labels>(none) == Ok::<Taken<Seq<Seq<char>>>, HeaderError>(
        Taken { value: None, rest: none },
    ));
    assert(take_field::<Units>(none) == Ok::<Taken<Seq<Seq<char>>>, HeaderError>(
        Taken { value: None, rest: none },
    ));
    assert(take_field::<Kinds>(none) == Ok::<Taken<Seq<Kind>>, HeaderError>(
        Taken { value: None, rest: none },
    ));
}

/// Where no line is left, this stage of the assembly finds nothing.
proof fn lemma_space_of_nothing(h: HeaderView)
    requires
        is_minimal(h),
    ensures
        scan_space(Scan { header: h, lines: Seq::empty(), error: None }) == (Scan {
            header: h,
            lines: Seq::empty(),
            error: None,
        }),
{
    let none = Seq::<Seq<char>>::empty();
    assert(take_field::<Space>(none) == Ok::<Taken<Space>, HeaderError>(
        Taken { value: None, rest: none },
    ));
    assert(take_field::<SpaceDimension>(none) == Ok::<Taken<nat>, HeaderError>(
        Taken { value: None, rest: none },
    ));
    assert(take_field::<SpaceUnits>(none) == Ok::<Taken<Seq<Seq<char>>>, HeaderError>(
        Taken { value: None, rest: none },
    ));
    assert(take_field::<SpaceOrigin>(none) == Ok::<Taken<Seq<Seq<char>>>, HeaderError>(
        Taken { value: None, rest: none },
    ));
    assert(take_field::<SpaceDirections>(none) == Ok::<Taken<Seq<Option<Seq<Seq<char>>>>>, HeaderError>(
        Taken { value: None, rest: none },
    ));
}

/// Where no line is left, the optional fields, the key-value pairs, the
/// comments and the data file are all absent.
pub proof fn lemma_scan_of_nothing(h: HeaderView)
    requires
        is_minimal(h),
    ensures
        scan_full_after(Scan { header: h, lines: Seq::empty(), error: None }) == (Scan {
            header: h,
            lines: Seq::empty(),
            error: None,
        }),
{
    let none = Seq::<Seq<char>>::empty();
    lemma_scalars_of_nothing(h);
    lemma_axes_of_nothing(h);
    lemma_space_of_nothing(h);
    assert(take_data_file(none) == Ok::<Taken<DataFileView>, HeaderError>(
        Taken { value: None, rest: none },
    ));
    assert(key_values_of(none) == Seq::<Pair>::empty());
    assert(comments_of(none) == Seq::<Seq<char>>::empty());
    reveal(Seq::filter);
    assert(without_key_values(none) =~= none);
    assert(without_comments(none) =~= none);
}

/// The lines of a header of the mandatory fields hold no line ending.
pub proof fn lemma_minimal_lines_plain(h: HeaderView)
    requires
        valid_header(h),
        representable(h),
    ensures
        forall|i: int| 0 <= i < minimal_lines(h).len() ==> is_line(#[trigger] minimal_lines(h)[i]),
{
    lemma_mandatory_lines(h);
    let l = minimal_lines(h);
    match h.block_size {
        Some(b) => {
            assert(l =~= seq![
                line_of::<Magic>(h.magic),
                line_of::<Dimension>(h.dimension),
                line_of::<DType>(h.dtype),
                line_of::<BlockSize>(b),
                line_of::<Encoding>(h.encoding),
                line_of::<Endian>(h.endian),
                line_of::<Sizes>(h.sizes),
            ]);
        },
        None => {
            assert(l =~= seq![
                line_of::<Magic>(h.magic),
                line_of::<Dimension>(h.dimension),
                line_of::<DType>(h.dtype),
                line_of::<Encoding>(h.encoding),
                line_of::<Endian>(h.endian),
                line_of::<Sizes>(h.sizes),
            ]);
        },
    }
}

/// A header of the mandatory fields survives being written and assembled
/// again: the assembly of its text gives the header back and leaves no
/// line, so that writing the result gives the same text once more.
pub proof fn lemma_minimal_round_trip(h: HeaderView)
    requires
        is_minimal(h),
        valid_header(h),
        representable(h),
    ensures
        scan_full(text_lines(header_text(h))) == (Scan {
            header: h,
            lines: Seq::empty(),
            error: None,
        }),
        header_text(scan_full(text_lines(header_text(h))).header) == header_text(h),
{
    lemma_minimal_text(h);
    let l = minimal_lines(h);
    lemma_minimal_lines_plain(h);
    lemma_text_lines_unlines(l);
    lemma_minimal_scan(h);
    lemma_scan_of_nothing(h);
}

} // verus!
