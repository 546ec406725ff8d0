//! Files that were written read back: the bytes of the files of a header
//! of the mandatory fields hold that header, and a payload that gives the
//! elements again.
use vstd::prelude::*;
use vstd::utf8::{
    decode_utf8, encode_utf8, encode_utf8_decode_utf8, encode_utf8_valid_utf8, is_ascii_chars,
    is_ascii_chars_encode_utf8, valid_utf8,
};
use crate::decimal::{lemma_nat_text_round_trip, nat_text};
use crate::elements::{
    bytes_of, elements_of, fits, lemma_bytes_of_chunks, lemma_elements_round_trip, Elements,
};
use crate::header::{
    comments_of, first_line, header_text, key_values_of, line, scan_axes, scan_full,
    scan_full_after, scan_scalars, scan_space, take_data_file, take_field, valid_header,
    without_comments, without_key_values, HeaderView, Scan, Taken, NRRD,
};
use crate::header_defs::basic::is_key_value;
use crate::header_defs::datafile::paths_of;
use crate::header_defs::{
    line_matches, line_value, prefix_index, AxisMaxs, AxisMins, ByteSkip, Centering,
    Centerings, Comment, Content, DataFile, DataFileView, HeaderError, Kind, Kinds, Labels,
    LineSkip, Max, Min, OldMax, OldMin, PathError, SampleUnits, Space, SpaceDimension,
    SpaceDirections, SpaceOrigin, SpaceUnits, Spacings, Thicknesses, Units,
};
use crate::keyvalues::Pair;
use crate::reversible::lemma_data_file_reversible;
use crate::header_defs::{
    line_of, BlockSize, DType, Dimension, Encoding, Endian, HeaderDef, Magic, Sizes,
};
use crate::io::{after_lines, blank_line_from, ByteStream, CodecError};
use crate::laws::{
    is_minimal, lemma_line_round_trip, lemma_minimal_lines_plain, lemma_minimal_round_trip,
    lemma_minimal_scan_then, lemma_minimal_text, minimal_lines, representable,
};
use crate::payload::{
    chunk_of, chunks_of, detached_plan_of, is_supported, plan_of, stream_content, ReadPlan,
};
use crate::text::{
    find_from, is_digit, is_line, is_space, is_token, join, lemma_find_from_bounds,
    lemma_text_lines_unlines, text_lines, unlines,
};
use crate::{elements_outcome, header_bytes, header_end, header_scan, payload_of, NrrdError};

verus! {

/// A text of ASCII characters without a line feed.
pub open spec fn tame(s: Seq<char>) -> bool {
    forall|i: int| 0 <= i < s.len() ==> (#[trigger] s[i]) != '\n' && '\0' <= s[i] <= '\u{7f}'
}

/// A line that is not empty, does not begin with a carriage return, and
/// is tame.
pub open spec fn solid(s: Seq<char>) -> bool {
    s.len() > 0 && s[0] != '\r' && tame(s)
}

/// The bytes of an ASCII text.
pub open spec fn ascii_bytes(s: Seq<char>) -> Seq<u8> {
    s.map_values(|c: char| c as u8)
}

proof fn lemma_tame_concat(a: Seq<char>, b: Seq<char>)
    requires
        tame(a),
        tame(b),
    ensures
        tame(a + b),
{
    assert forall|i: int| 0 <= i < (a + b).len() implies (#[trigger] (a + b)[i]) != '\n' && '\0'
        <= (a + b)[i] <= '\u{7f}' by {
        if i < a.len() {
            assert((a + b)[i] == a[i]);
        } else {
            assert((a + b)[i] == b[i - a.len()]);
        }
    }
}

proof fn lemma_nat_text_tame(n: nat)
    ensures
        tame(nat_text(n)),
{
    lemma_nat_text_round_trip(n);
    let s = nat_text(n);
    assert forall|i: int| 0 <= i < s.len() implies (#[trigger] s[i]) != '\n' && '\0' <= s[i]
        <= '\u{7f}' by {
        assert(is_digit(s[i]));
    }
}

proof fn lemma_join_tame(items: Seq<Seq<char>>, sep: Seq<char>)
    requires
        tame(sep),
        forall|i: int| 0 <= i < items.len() ==> tame(#[trigger] items[i]),
    ensures
        tame(join(items, sep)),
    decreases items.len(),
{
    if items.len() > 1 {
        let init = items.drop_last();
        assert forall|i: int| 0 <= i < init.len() implies tame(#[trigger] init[i]) by {
            assert(init[i] == items[i]);
        }
        lemma_join_tame(init, sep);
        lemma_tame_concat(join(init, sep), sep);
        assert(tame(items[items.len() - 1]));
        lemma_tame_concat(join(init, sep) + sep, items.last());
    } else if items.len() == 1 {
        assert(tame(items[0]));
    }
}

/// A line that begins with a solid prefix and goes on with a tame text.
proof fn lemma_solid_line(p: Seq<char>, t: Seq<char>)
    requires
        solid(p),
        tame(t),
    ensures
        solid(p + t),
{
    lemma_tame_concat(p, t);
    assert((p + t)[0] == p[0]);
}

/// The canonical names of types, encodings and byte orders are tame.
proof fn lemma_names_tame(d: DType, e: Encoding, o: Endian)
    ensures
        tame(DType::text_of(d)),
        tame(Encoding::text_of(e)),
        tame(Endian::text_of(o)),
{
    reveal_strlit("int8");
    reveal_strlit("uint8");
    reveal_strlit("int16");
    reveal_strlit("uint16");
    reveal_strlit("int32");
    reveal_strlit("uint32");
    reveal_strlit("int64");
    reveal_strlit("uint64");
    reveal_strlit("float");
    reveal_strlit("double");
    reveal_strlit("block");
    reveal_strlit("raw");
    reveal_strlit("txt");
    reveal_strlit("hex");
    reveal_strlit("gzip");
    reveal_strlit("bzip2");
    reveal_strlit("big");
    reveal_strlit("little");
}

/// The lines of a header of the mandatory fields are solid.
proof fn lemma_minimal_lines_solid(h: HeaderView)
    requires
        valid_header(h),
    ensures
        forall|i: int| 0 <= i < minimal_lines(h).len() ==> solid(#[trigger] minimal_lines(h)[i]),
{
    reveal_strlit("NRRD");
    reveal_strlit("000");
    reveal_strlit("dimension: ");
    reveal_strlit("type: ");
    reveal_strlit("block size: ");
    reveal_strlit("encoding: ");
    reveal_strlit("endian: ");
    reveal_strlit("sizes: ");
    reveal_strlit(" ");
    lemma_names_tame(h.dtype, h.encoding, h.endian);
    lemma_nat_text_tame(h.magic);
    lemma_tame_concat("000"@, nat_text(h.magic));
    lemma_solid_line("NRRD"@, Magic::text_of(h.magic));
    lemma_nat_text_tame(h.dimension);
    lemma_solid_line("dimension: "@, nat_text(h.dimension));
    lemma_solid_line("type: "@, DType::text_of(h.dtype));
    lemma_solid_line("encoding: "@, Encoding::text_of(h.encoding));
    lemma_solid_line("endian: "@, Endian::text_of(h.endian));
    let words = h.sizes.map_values(|n: nat| nat_text(n));
    assert forall|i: int| 0 <= i < words.len() implies tame(#[trigger] words[i]) by {
        lemma_nat_text_tame(h.sizes[i]);
    }
    lemma_join_tame(words, " "@);
    lemma_solid_line("sizes: "@, Sizes::text_of(h.sizes));
    let l = minimal_lines(h);
    match h.block_size {
        Some(b) => {
            lemma_nat_text_tame(b);
            lemma_solid_line("block size: "@, nat_text(b));
            assert(l =~= seq![
                line_of::<Magic>(h.magic),
                line_of::<Dimension>(h.dimension),
                line_of::<DType>(h.dtype),
                line_of::<BlockSize>(b),
                line_of::<Encoding>(h.encoding),
                line_of::<Endian>(h.endian),
                line_of::<Sizes>(h.sizes),
            ]);
        },
        None => {
            assert(l =~= seq![
                line_of::<Magic>(h.magic),
                line_of::<Dimension>(h.dimension),
                line_of::<DType>(h.dtype),
                line_of::<Encoding>(h.encoding),
                line_of::<Endian>(h.endian),
                line_of::<Sizes>(h.sizes),
            ]);
        },
    }
}

/// Solid lines, one after the other, are ASCII text.
proof fn lemma_unlines_ascii(lines: Seq<Seq<char>>)
    requires
        forall|i: int| 0 <= i < lines.len() ==> solid(#[trigger] lines[i]),
    ensures
        is_ascii_chars(unlines(lines)),
    decreases lines.len(),
{
    if lines.len() > 0 {
        let init = lines.drop_last();
        assert forall|i: int| 0 <= i < init.len() implies solid(#[trigger] init[i]) by {
            assert(init[i] == lines[i]);
        }
        lemma_unlines_ascii(init);
        let a = unlines(init);
        let l = lines.last();
        assert(solid(lines[lines.len() - 1]));
        let t = a + l.push('\n');
        assert forall|i: int| 0 <= i < t.len() implies '\0' <= #[trigger] t[i] <= '\u{7f}' by {
            if i < a.len() {
                assert(t[i] == a[i]);
            } else if i < a.len() + l.len() {
                assert(t[i] == l[i - a.len()]);
            }
        }
    }
}

/// A scan for the blank line passes over a solid line: from the start of
/// the line it goes on at the start of the next.
proof fn lemma_blank_scan_line(s: Seq<u8>, start: int, i: int, line: Seq<char>)
    requires
        solid(line),
        0 <= start <= i <= start + line.len() < s.len(),
        s.subrange(start, start + line.len()) == ascii_bytes(line),
        s[start + line.len()] == 10,
    ensures
        blank_line_from(s, i, start) == blank_line_from(
            s,
            start + line.len() + 1,
            start + line.len() + 1,
        ),
    decreases start + line.len() - i,
{
    let n = line.len() as int;
    if i < start + n {
        let c = line[i - start];
        assert(s.subrange(start, start + n)[i - start] == s[i]);
        assert(ascii_bytes(line)[i - start] == c as u8);
        assert(c != '\n' && '\0' <= c <= '\u{7f}');
        assert(s[i] != 10);
        lemma_blank_scan_line(s, start, i + 1, line);
    } else {
        assert(s.subrange(start, start + n)[0] == s[start]);
        assert(ascii_bytes(line)[0] == line[0] as u8);
        assert(line[0] != '\r' && '\0' <= line[0] <= '\u{7f}');
        assert(s[start] != 13);
    }
}

/// A scan for the blank line passes over solid lines: from the start of
/// their bytes it goes on after them.
proof fn lemma_blank_scan_lines(lines: Seq<Seq<char>>, tail: Seq<u8>)
    requires
        forall|i: int| 0 <= i < lines.len() ==> solid(#[trigger] lines[i]),
    ensures
        blank_line_from(ascii_bytes(unlines(lines)) + tail, 0, 0) == blank_line_from(
            ascii_bytes(unlines(lines)) + tail,
            unlines(lines).len() as int,
            unlines(lines).len() as int,
        ),
    decreases lines.len(),
{
    if lines.len() > 0 {
        let init = lines.drop_last();
        let l = lines.last();
        assert forall|i: int| 0 <= i < init.len() implies solid(#[trigger] init[i]) by {
            assert(init[i] == lines[i]);
        }
        assert(solid(lines[lines.len() - 1]));
        let a = ascii_bytes(unlines(init));
        let rest = ascii_bytes(l) + seq![10u8] + tail;
        lemma_blank_scan_lines(init, rest);
        let s = ascii_bytes(unlines(lines)) + tail;
        assert(s =~= a + rest);
        let start = a.len() as int;
        assert(s.subrange(start, start + l.len()) =~= ascii_bytes(l));
        assert(s[start + l.len()] == 10);
        lemma_blank_scan_line(s, start, start, l);
    }
}

/// The bytes of a file that begins with the text of a header of the
/// mandatory fields and a blank line hold that header, and the header
/// ends after the blank line.
proof fn lemma_file_header(h: HeaderView, stored: Seq<u8>)
    requires
        is_minimal(h),
        valid_header(h),
        representable(h),
    ensures
        ({
            let t = encode_utf8(header_text(h));
            let file = t + seq![10u8] + stored;
            &&& header_scan(file, 0) == Ok::<Scan, NrrdError>(
                Scan { header: h, lines: Seq::empty(), error: None },
            )
            &&& header_end(file, 0) == t.len() + 1
            &&& file.skip(t.len() as int + 1) == stored
        }),
{
    let text = header_text(h);
    let lines = minimal_lines(h);
    lemma_minimal_text(h);
    lemma_minimal_lines_solid(h);
    lemma_unlines_ascii(lines);
    is_ascii_chars_encode_utf8(text);
    let t = encode_utf8(text);
    assert(t =~= ascii_bytes(text));
    let tail = seq![10u8] + stored;
    let file = t + seq![10u8] + stored;
    assert(file =~= ascii_bytes(unlines(lines)) + tail);
    lemma_blank_scan_lines(lines, tail);
    let n = t.len() as int;
    assert(file[n] == 10);
    assert(blank_line_from(file, n, n) == Some((n, n + 1)));
    assert(blank_line_from(file, 0, 0) == Some((n, n + 1)));
    assert(file.subrange(0, n) =~= t);
    assert(header_bytes(file, 0) == t);
    assert(file.skip(n + 1) =~= stored);
    lemma_header_text_scan(h);
}

/// The UTF-8 bytes of the text of a header of the mandatory fields are
/// valid, and the assembly of the lines of what they decode to gives the
/// header and leaves no line.
proof fn lemma_header_text_scan(h: HeaderView)
    requires
        is_minimal(h),
        valid_header(h),
        representable(h),
    ensures
        valid_utf8(encode_utf8(header_text(h))),
        decode_utf8(encode_utf8(header_text(h))) == header_text(h),
        crate::header::scan_full(crate::text::text_lines(header_text(h))) == (Scan {
            header: h,
            lines: Seq::empty(),
            error: None,
        }),
{
    encode_utf8_valid_utf8(header_text(h));
    encode_utf8_decode_utf8(header_text(h));
    lemma_minimal_round_trip(h);
}

/// The payload of an attached header without skips, read from the place
/// where the stored payload begins, is what the stored payload decodes to.
proof fn lemma_file_payload(h: HeaderView, file: Seq<u8>, pos: int, payload: Seq<u8>)
    requires
        is_minimal(h),
        h.dtype != DType::Block,
        is_supported(h.encoding),
        0 <= pos <= file.len(),
        payload.len() == NRRD::spec_expected_bytes(h),
        NRRD::spec_expected_bytes(h) <= usize::MAX,
        stream_content(h.encoding, file.skip(pos)) == Ok::<Seq<u8>, CodecError>(payload),
    ensures
        payload_of(h, file, pos, Seq::empty()) == Ok::<Seq<u8>, CodecError>(payload),
{
    let total = NRRD::spec_expected_bytes(h);
    let plan = ReadPlan {
        total: total as usize,
        per_file: total as usize,
        line_skip: 0,
        byte_skip: 0,
        tail: false,
        encoding: h.encoding,
    };
    assert(plan_of(h, 1) == Ok::<ReadPlan, CodecError>(plan));
    assert(after_lines(file, pos, 0) == pos);
    assert(payload.subrange(0, total as int) =~= payload);
    assert(chunk_of(plan, file, pos) == Ok::<Seq<u8>, CodecError>(payload));
}

/// The bytes of elements hold a whole number of elements, and stand for them.
proof fn lemma_payload_elements(d: DType, endian: Endian, values: Seq<int>)
    requires
        d != DType::Block,
        forall|i: int| 0 <= i < values.len() ==> fits(d, #[trigger] values[i]),
    ensures
        bytes_of(d, endian, values).len() as int % d.spec_size() as int == 0,
        elements_of(d, endian, bytes_of(d, endian, values)) == values,
{
    lemma_elements_round_trip(d, endian, values);
    lemma_bytes_of_chunks(d, endian, values);
    let w = d.spec_size() as int;
    let n = values.len() as int;
    assert((n * w) % w == 0) by (nonlinear_arith)
        requires
            w > 0,
            n >= 0,
    ;
}

/// The bytes of an attached file that holds the text of a header of the
/// mandatory fields, a blank line and a stored payload read back as that
/// header and the payload; and where the payload is the bytes of
/// elements, whatever `read_nrrd_to` gives for the file is those elements.
pub proof fn lemma_attached_file_reads_back(h: HeaderView, values: Seq<int>, stored: Seq<u8>)
    requires
        is_minimal(h),
        valid_header(h),
        representable(h),
        h.dtype != DType::Block,
        is_supported(h.encoding),
        forall|i: int| 0 <= i < values.len() ==> fits(h.dtype, #[trigger] values[i]),
        bytes_of(h.dtype, h.endian, values).len() == NRRD::spec_expected_bytes(h),
        NRRD::spec_expected_bytes(h) <= usize::MAX,
        stream_content(h.encoding, stored) == Ok::<Seq<u8>, CodecError>(
            bytes_of(h.dtype, h.endian, values),
        ),
    ensures
        ({
            let file = encode_utf8(header_text(h)) + seq![10u8] + stored;
            let payload = bytes_of(h.dtype, h.endian, values);
            &&& header_scan(file, 0) == Ok::<Scan, NrrdError>(
                Scan { header: h, lines: Seq::empty(), error: None },
            )
            &&& payload_of(h, file, header_end(file, 0), Seq::empty()) == Ok::<
                Seq<u8>,
                CodecError,
            >(payload)
            &&& elements_of(h.dtype, h.endian, payload) == values
            &&& forall|r: Result<(Elements, NRRD), NrrdError>|
                elements_outcome(file, 0, Seq::empty(), r) ==> {
                    &&& r matches Ok(x)
                    &&& x.1@ == h
                    &&& x.0@.dtype == h.dtype
                    &&& x.0@.values == values
                }
        }),
{
    let t = encode_utf8(header_text(h));
    let file = t + seq![10u8] + stored;
    let payload = bytes_of(h.dtype, h.endian, values);
    lemma_file_header(h, stored);
    lemma_file_payload(h, file, t.len() as int + 1, payload);
    lemma_payload_elements(h.dtype, h.endian, values);
    assert(crate::payload::stream_views(Seq::<ByteStream>::empty()) =~= Seq::<
        (Seq<u8>, int),
    >::empty());
}


/// A text that begins with another character than `line` does is no
/// prefix of it.
proof fn lemma_not_prefix(p: Seq<char>, line: Seq<char>)
    requires
        p.len() > 0,
        line.len() > 0,
        p[0] != line[0],
    ensures
        !p.is_prefix_of(line),
{
    if p.is_prefix_of(line) {
        assert(line.subrange(0, p.len() as int)[0] == line[0]);
    }
}

/// A line that begins with `d` holds none of these fields.
proof fn lemma_directive_not_scalars(line: Seq<char>)
    requires
        line.len() > 0,
        line[0] == 'd',
    ensures
        !line_matches::<Content>(line),
        !line_matches::<Min>(line),
        !line_matches::<Max>(line),
        !line_matches::<OldMin>(line),
        !line_matches::<OldMax>(line),
        !line_matches::<LineSkip>(line),
        !line_matches::<ByteSkip>(line),
        !line_matches::<SampleUnits>(line),
{
    reveal_with_fuel(prefix_index, 3);
    reveal_strlit("content: ");
    lemma_not_prefix("content: "@, line);
    reveal_strlit("min: ");
    lemma_not_prefix("min: "@, line);
    reveal_strlit("max: ");
    lemma_not_prefix("max: "@, line);
    reveal_strlit("old min: ");
    lemma_not_prefix("old min: "@, line);
    reveal_strlit("oldmin: ");
    lemma_not_prefix("oldmin: "@, line);
    reveal_strlit("old max: ");
    lemma_not_prefix("old max: "@, line);
    reveal_strlit("oldmax: ");
    lemma_not_prefix("oldmax: "@, line);
    reveal_strlit("line skip: ");
    lemma_not_prefix("line skip: "@, line);
    reveal_strlit("lineskip: ");
    lemma_not_prefix("lineskip: "@, line);
    reveal_strlit("byte skip: ");
    lemma_not_prefix("byte skip: "@, line);
    reveal_strlit("byteskip: ");
    lemma_not_prefix("byteskip: "@, line);
    reveal_strlit("sample units: ");
    lemma_not_prefix("sample units: "@, line);
    reveal_strlit("sampleunits: ");
    lemma_not_prefix("sampleunits: "@, line);
}

/// Where the one line holds none of its fields, this stage of an
/// assembly leaves header and line as they are.
proof fn lemma_scalars_pass(h: HeaderView, d: Seq<char>)
    requires
        h.content is None,
        h.min is None,
        h.max is None,
        h.old_min is None,
        h.old_max is None,
        h.line_skip is None,
        h.byte_skip is None,
        h.sample_units is None,
        !line_matches::<Content>(d),
        !line_matches::<Min>(d),
        !line_matches::<Max>(d),
        !line_matches::<OldMin>(d),
        !line_matches::<OldMax>(d),
        !line_matches::<LineSkip>(d),
        !line_matches::<ByteSkip>(d),
        !line_matches::<SampleUnits>(d),
    ensures
        scan_scalars(Scan { header: h, lines: seq![d], error: None }) == (Scan {
            header: h,
            lines: seq![d],
            error: None,
        }),
{
    let one = seq![d];
    reveal_with_fuel(first_line, 3);
    assert(first_line::<Content>(one, 0) == 1);
    assert(take_field::<Content>(one) == Ok::<Taken<Seq<char>>, HeaderError>(
        Taken { value: None, rest: one },
    ));
    assert(first_line::<Min>(one, 0) == 1);
    assert(take_field::<Min>(one) == Ok::<Taken<Seq<char>>, HeaderError>(
        Taken { value: None, rest: one },
    ));
    assert(first_line::<Max>(one, 0) == 1);
    assert(take_field::<Max>(one) == Ok::<Taken<Seq<char>>, HeaderError>(
        Taken { value: None, rest: one },
    ));
    assert(first_line::<OldMin>(one, 0) == 1);
    assert(take_field::<OldMin>(one) == Ok::<Taken<Seq<char>>, HeaderError>(
        Taken { value: None, rest: one },
    ));
    assert(first_line::<OldMax>(one, 0) == 1);
    assert(take_field::<OldMax>(one) == Ok::<Taken<Seq<char>>, HeaderError>(
        Taken { value: None, rest: one },
    ));
    assert(first_line::<LineSkip>(one, 0) == 1);
    assert(take_field::<LineSkip>(one) == Ok::<Taken<nat>, HeaderError>(
        Taken { value: None, rest: one },
    ));
    assert(first_line::<ByteSkip>(one, 0) == 1);
    assert(take_field::<ByteSkip>(one) == Ok::<Taken<ByteSkip>, HeaderError>(
        Taken { value: None, rest: one },
    ));
    assert(first_line::<SampleUnits>(one, 0) == 1);
    assert(take_field::<SampleUnits>(one) == Ok::<Taken<Seq<char>>, HeaderError>(
        Taken { value: None, rest: one },
    ));
}

/// A line that begins with `d` holds none of these fields.
proof fn lemma_directive_not_axes(line: Seq<char>)
    requires
        line.len() > 0,
        line[0] == 'd',
    ensures
        !line_matches::<Spacings>(line),
        !line_matches::<Thicknesses>(line),
        !line_matches::<AxisMins>(line),
        !line_matches::<AxisMaxs>(line),
        !line_matches::<Centerings>(line),
        !line_matches::<Labels>(line),
        !line_matches::<Units>(line),
        !line_matches::<Kinds>(line),
{
    reveal_with_fuel(prefix_index, 3);
    reveal_strlit("spacings: ");
    lemma_not_prefix("spacings: "@, line);
    reveal_strlit("thicknesses: ");
    lemma_not_prefix("thicknesses: "@, line);
    reveal_strlit("axis mins: ");
    lemma_not_prefix("axis mins: "@, line);
    reveal_strlit("axismins: ");
    lemma_not_prefix("axismins: "@, line);
    reveal_strlit("axis maxs: ");
    lemma_not_prefix("axis maxs: "@, line);
    reveal_strlit("axismaxs: ");
    lemma_not_prefix("axismaxs: "@, line);
    reveal_strlit("centerings: ");
    lemma_not_prefix("centerings: "@, line);
    reveal_strlit("centers: ");
    lemma_not_prefix("centers: "@, line);
    reveal_strlit("labels: ");
    lemma_not_prefix("labels: "@, line);
    reveal_strlit("units: ");
    lemma_not_prefix("units: "@, line);
    reveal_strlit("kinds: ");
    lemma_not_prefix("kinds: "@, line);
}

/// Where the one line holds none of its fields, this stage of an
/// assembly leaves header and line as they are.
proof fn lemma_axes_pass(h: HeaderView, d: Seq<char>)
    requires
        h.spacings is None,
        h.thicknesses is None,
        h.axis_mins is None,
        h.axis_maxs is None,
        h.centerings is None,
        h.labels is None,
        h.units is None,
        h.kinds is None,
        !line_matches::<Spacings>(d),
        !line_matches::<Thicknesses>(d),
        !line_matches::<AxisMins>(d),
        !line_matches::<AxisMaxs>(d),
        !line_matches::<Centerings>(d),
        !line_matches::<Labels>(d),
        !line_matches::<Units>(d),
        !line_matches::<Kinds>(d),
    ensures
        scan_axes(Scan { header: h, lines: seq![d], error: None }) == (Scan {
            header: h,
            lines: seq![d],
            error: None,
        }),
{
    let one = seq![d];
    reveal_with_fuel(first_line, 3);
    assert(first_line::<Spacings>(one, 0) == 1);
    assert(take_field::<Spacings>(one) == Ok::<Taken<Seq<Seq<char>>>, HeaderError>(
        Taken { value: None, rest: one },
    ));
    assert(first_line::<Thicknesses>(one, 0) == 1);
    assert(take_field::<Thicknesses>(one) == Ok::<Taken<Seq<Seq<char>>>, HeaderError>(
        Taken { value: None, rest: one },
    ));
    assert(first_line::<AxisMins>(one, 0) == 1);
    assert(take_field::<AxisMins>(one) == Ok::<Taken<Seq<Seq<char>>>, HeaderError>(
        Taken { value: None, rest: one },
    ));
    assert(first_line::<AxisMaxs>(one, 0) == 1);
    assert(take_field::<AxisMaxs>(one) == Ok::<Taken<Seq<Seq<char>>>, HeaderError>(
        Taken { value: None, rest: one },
    ));
    assert(first_line::<Centerings>(one, 0) == 1);
    assert(take_field::<Centerings>(one) == Ok::<Taken<Seq<Centering>>, HeaderError>(
        Taken { value: None, rest: one },
    ));
    assert(first_line::<Labels>(one, 0) == 1);
    assert(take_field::<Labels>(one) == Ok::<Taken<Seq<Seq<char>>>, HeaderError>(
        Taken { value: None, rest: one },
    ));
    assert(first_line::<Units>(one, 0) == 1);
    assert(take_field::<Units>(one) == Ok::<Taken<Seq<Seq<char>>>, HeaderError>(
        Taken { value: None, rest: one },
    ));
    assert(first_line::<Kinds>(one, 0) == 1);
    assert(take_field::<Kinds>(one) == Ok::<Taken<Seq<Kind>>, HeaderError>(
        Taken { value: None, rest: one },
    ));
}

/// A line that begins with `d` holds none of these fields.
proof fn lemma_directive_not_space(line: Seq<char>)
    requires
        line.len() > 0,
        line[0] == 'd',
    ensures
        !line_matches::<Space>(line),
        !line_matches::<SpaceDimension>(line),
        !line_matches::<SpaceUnits>(line),
        !line_matches::<SpaceOrigin>(line),
        !line_matches::<SpaceDirections>(line),
{
    reveal_with_fuel(prefix_index, 3);
    reveal_strlit("space: ");
    lemma_not_prefix("space: "@, line);
    reveal_strlit("space dimension: ");
    lemma_not_prefix("space dimension: "@, line);
    reveal_strlit("space units: ");
    lemma_not_prefix("space units: "@, line);
    reveal_strlit("space origin: ");
    lemma_not_prefix("space origin: "@, line);
    reveal_strlit("space directions: ");
    lemma_not_prefix("space directions: "@, line);
}

/// Where the one line holds none of its fields, this stage of an
/// assembly leaves header and line as they are.
proof fn lemma_space_pass(h: HeaderView, d: Seq<char>)
    requires
        h.space is None,
        h.space_dimension is None,
        h.space_units is None,
        h.space_origin is None,
        h.space_directions is None,
        !line_matches::<Space>(d),
        !line_matches::<SpaceDimension>(d),
        !line_matches::<SpaceUnits>(d),
        !line_matches::<SpaceOrigin>(d),
        !line_matches::<SpaceDirections>(d),
    ensures
        scan_space(Scan { header: h, lines: seq![d], error: None }) == (Scan {
            header: h,
            lines: seq![d],
            error: None,
        }),
{
    let one = seq![d];
    reveal_with_fuel(first_line, 3);
    assert(first_line::<Space>(one, 0) == 1);
    assert(take_field::<Space>(one) == Ok::<Taken<Space>, HeaderError>(
        Taken { value: None, rest: one },
    ));
    assert(first_line::<SpaceDimension>(one, 0) == 1);
    assert(take_field::<SpaceDimension>(one) == Ok::<Taken<nat>, HeaderError>(
        Taken { value: None, rest: one },
    ));
    assert(first_line::<SpaceUnits>(one, 0) == 1);
    assert(take_field::<SpaceUnits>(one) == Ok::<Taken<Seq<Seq<char>>>, HeaderError>(
        Taken { value: None, rest: one },
    ));
    assert(first_line::<SpaceOrigin>(one, 0) == 1);
    assert(take_field::<SpaceOrigin>(one) == Ok::<Taken<Seq<Seq<char>>>, HeaderError>(
        Taken { value: None, rest: one },
    ));
    assert(first_line::<SpaceDirections>(one, 0) == 1);
    assert(take_field::<SpaceDirections>(one) == Ok::<Taken<Seq<Option<Seq<Seq<char>>>>>, HeaderError>(
        Taken { value: None, rest: one },
    ));
}

/// The name of a data file that a written header can hold: one word of
/// ASCII characters, without `LIST` and without `=`.
pub open spec fn is_plain_name(name: Seq<char>) -> bool {
    &&& is_token(name)
    &&& tame(name)
    &&& !is_space(name[0])
    &&& !is_space(name.last())
    &&& find_from(name, "LIST"@, 0) >= name.len()
    &&& forall|i: int| 0 <= i < name.len() ==> #[trigger] name[i] != '='
}

/// The directive of one file.
pub open spec fn single_file(name: Seq<char>) -> DataFileView {
    DataFileView::SingleFile { filename: name }
}

/// What holds of the line of the directive of one file with a plain name.
proof fn lemma_directive_line(name: Seq<char>)
    requires
        is_plain_name(name),
    ensures
        line_of::<DataFile>(single_file(name)).len() > 0,
        line_of::<DataFile>(single_file(name))[0] == 'd',
        solid(line_of::<DataFile>(single_file(name))),
        is_line(line_of::<DataFile>(single_file(name))),
        line_matches::<DataFile>(line_of::<DataFile>(single_file(name))),
        line_value::<DataFile>(line_of::<DataFile>(single_file(name))) == Ok::<
            DataFileView,
            HeaderError,
        >(single_file(name)),
        !is_key_value(line_of::<DataFile>(single_file(name))),
        !line_matches::<Comment>(line_of::<DataFile>(single_file(name))),
{
    reveal_strlit("data file: ");
    reveal_strlit(":=");
    reveal_strlit("#");
    let v = single_file(name);
    let p = "data file: "@;
    let d = line_of::<DataFile>(v);
    assert(d == p + name);
    assert(d[0] == p[0]);
    lemma_data_file_reversible(v);
    lemma_line_round_trip::<DataFile>(v);
    assert(tame(p));
    lemma_solid_line(p, name);
    assert(d.last() == name.last());
    assert forall|i: int| 0 <= i < d.len() implies #[trigger] d[i] != '=' by {
        if i < p.len() {
            assert(d[i] == p[i]);
        } else {
            assert(d[i] == name[i - p.len()]);
        }
    }
    let sep = ":="@;
    lemma_find_from_bounds(d, sep, 0);
    let at = find_from(d, sep, 0);
    if at < d.len() {
        assert(d.skip(at).subrange(0, 2)[1] == d[at + 1]);
    }
    reveal_with_fuel(prefix_index, 3);
    lemma_not_prefix("#"@, d);
}

/// The header that holds, beyond the mandatory fields, the directive of
/// one file.
pub open spec fn is_detached_minimal(h: HeaderView, name: Seq<char>) -> bool {
    &&& h.data_file == Some(single_file(name))
    &&& is_minimal(HeaderView { data_file: None, ..h })
}

/// After the mandatory fields, the one line of the directive is read as
/// the data file, and no line is left.
proof fn lemma_directive_scan(h: HeaderView, name: Seq<char>)
    requires
        is_detached_minimal(h, name),
        is_plain_name(name),
    ensures
        scan_full_after(
            Scan {
                header: HeaderView { data_file: None, ..h },
                lines: seq![line_of::<DataFile>(single_file(name))],
                error: None,
            },
        ) == (Scan { header: h, lines: Seq::empty(), error: None }),
{
    let h0 = HeaderView { data_file: None, ..h };
    let d = line_of::<DataFile>(single_file(name));
    let one = seq![d];
    let s0 = Scan { header: h0, lines: one, error: None };
    lemma_directive_line(name);
    lemma_directive_not_scalars(d);
    lemma_directive_not_axes(d);
    lemma_directive_not_space(d);
    lemma_scalars_pass(h0, d);
    lemma_axes_pass(h0, d);
    lemma_space_pass(h0, d);
    assert(scan_space(scan_axes(scan_scalars(s0))) == s0);
    assert(one.drop_last() =~= Seq::<Seq<char>>::empty());
    assert(one.last() == d);
    assert(key_values_of(one) == Seq::<Pair>::empty()) by {
        reveal_with_fuel(key_values_of, 2);
    }
    assert(comments_of(one) == Seq::<Seq<char>>::empty()) by {
        reveal_with_fuel(comments_of, 2);
    }
    reveal(Seq::filter);
    assert(one.drop_last().filter(|l: Seq<char>| !is_key_value(l)) =~= Seq::<Seq<char>>::empty());
    assert(without_key_values(one) =~= one);
    assert(one.drop_last().filter(|l: Seq<char>| !line_matches::<Comment>(l)) =~= Seq::<
        Seq<char>,
    >::empty());
    assert(without_comments(one) =~= one);
    let s4 = s0.key_values();
    assert(s4 == s0);
    let s5 = s4.comments();
    assert(s5 == s0);
    assert(first_line::<DataFile>(one, 0) == 0);
    assert(one.remove(0) =~= Seq::<Seq<char>>::empty());
    assert(take_data_file(one) == Ok::<Taken<DataFileView>, HeaderError>(
        Taken { value: Some(single_file(name)), rest: Seq::empty() },
    ));
}

/// The text of a header of the mandatory fields and the directive of one
/// file is the lines of the mandatory fields and the line of the directive.
proof fn lemma_detached_text(h: HeaderView, name: Seq<char>)
    requires
        is_detached_minimal(h, name),
    ensures
        header_text(h) == unlines(
            minimal_lines(HeaderView { data_file: None, ..h }).push(
                line_of::<DataFile>(single_file(name)),
            ),
        ),
{
    let h0 = HeaderView { data_file: None, ..h };
    let d = line_of::<DataFile>(single_file(name));
    lemma_minimal_text(h0);
    let l = minimal_lines(h0).push(d);
    assert(l.drop_last() =~= minimal_lines(h0));
    assert(header_text(h) =~= header_text(h0) + line(d));
}

/// A header of the mandatory fields and the directive of one file with a
/// plain name survives being written and assembled again.
pub proof fn lemma_detached_round_trip(h: HeaderView, name: Seq<char>)
    requires
        is_detached_minimal(h, name),
        is_plain_name(name),
        valid_header(h),
        representable(h),
    ensures
        scan_full(text_lines(header_text(h))) == (Scan {
            header: h,
            lines: Seq::empty(),
            error: None,
        }),
{
    let h0 = HeaderView { data_file: None, ..h };
    let d = line_of::<DataFile>(single_file(name));
    let l = minimal_lines(h0).push(d);
    lemma_detached_text(h, name);
    lemma_directive_line(name);
    lemma_minimal_lines_plain(h0);
    assert forall|i: int| 0 <= i < l.len() implies is_line(#[trigger] l[i]) by {
        if i < minimal_lines(h0).len() {
            assert(l[i] == minimal_lines(h0)[i]);
        }
    }
    lemma_text_lines_unlines(l);
    assert(l =~= minimal_lines(h0) + seq![d]);
    lemma_minimal_scan_then(h0, seq![d]);
    lemma_directive_scan(h, name);
}

/// The bytes of the header file of a detached raster hold the header.
proof fn lemma_detached_file_header(h: HeaderView, name: Seq<char>)
    requires
        is_detached_minimal(h, name),
        is_plain_name(name),
        valid_header(h),
        representable(h),
    ensures
        header_scan(encode_utf8(header_text(h)), 0) == Ok::<Scan, NrrdError>(
            Scan { header: h, lines: Seq::empty(), error: None },
        ),
{
    let h0 = HeaderView { data_file: None, ..h };
    let d = line_of::<DataFile>(single_file(name));
    let l = minimal_lines(h0).push(d);
    let text = header_text(h);
    lemma_detached_text(h, name);
    lemma_directive_line(name);
    lemma_minimal_lines_solid(h0);
    assert forall|i: int| 0 <= i < l.len() implies solid(#[trigger] l[i]) by {
        if i < minimal_lines(h0).len() {
            assert(l[i] == minimal_lines(h0)[i]);
        }
    }
    lemma_unlines_ascii(l);
    is_ascii_chars_encode_utf8(text);
    encode_utf8_valid_utf8(text);
    encode_utf8_decode_utf8(text);
    let t = encode_utf8(text);
    assert(t =~= ascii_bytes(text));
    lemma_blank_scan_lines(l, Seq::empty());
    assert(ascii_bytes(unlines(l)) + Seq::<u8>::empty() =~= t);
    assert(blank_line_from(t, t.len() as int, t.len() as int) is None);
    assert(t.skip(0) =~= t);
    assert(header_bytes(t, 0) == t);
    lemma_detached_round_trip(h, name);
}

/// The payload of a detached header without skips, read from the one
/// stream of its one file, is what the stored payload decodes to.
proof fn lemma_detached_payload(h: HeaderView, name: Seq<char>, stored: Seq<u8>, payload: Seq<u8>)
    requires
        is_detached_minimal(h, name),
        h.dtype != DType::Block,
        is_supported(h.encoding),
        payload.len() == NRRD::spec_expected_bytes(h),
        NRRD::spec_expected_bytes(h) <= usize::MAX,
        stream_content(h.encoding, stored) == Ok::<Seq<u8>, CodecError>(payload),
    ensures
        forall|bytes: Seq<u8>, pos: int|
            #[trigger] payload_of(h, bytes, pos, seq![(stored, 0int)]) == Ok::<
                Seq<u8>,
                CodecError,
            >(payload),
{
    let total = NRRD::spec_expected_bytes(h);
    let plan = ReadPlan {
        total: total as usize,
        per_file: total as usize,
        line_skip: 0,
        byte_skip: 0,
        tail: false,
        encoding: h.encoding,
    };
    let files = seq![(stored, 0int)];
    assert(plan_of(h, 1) == Ok::<ReadPlan, CodecError>(plan));
    assert(paths_of(single_file(name)) == Ok::<Seq<Seq<char>>, PathError>(seq![name]));
    assert(detached_plan_of(h, 1) == Ok::<ReadPlan, CodecError>(plan));
    assert(after_lines(stored, 0, 0) == 0);
    assert(stored.skip(0) =~= stored);
    assert(payload.subrange(0, total as int) =~= payload);
    assert(chunk_of(plan, stored, 0) == Ok::<Seq<u8>, CodecError>(payload));
    assert(files.drop_last() =~= Seq::<(Seq<u8>, int)>::empty());
    assert(files.last() == (stored, 0int));
    assert(Seq::<u8>::empty() + payload =~= payload);
    assert(chunks_of(plan, files) == Ok::<Seq<u8>, CodecError>(payload)) by {
        reveal_with_fuel(chunks_of, 2);
    }
}

/// The header file and the data file of a detached raster read back: the
/// bytes of the text of a header of the mandatory fields and the directive
/// of one file hold that header, and whatever `read_nrrd_to` gives for
/// them and the stream of the stored payload is the elements whose bytes
/// the payload is.
pub proof fn lemma_detached_files_read_back(
    h: HeaderView,
    name: Seq<char>,
    values: Seq<int>,
    files: Seq<ByteStream>,
)
    requires
        is_detached_minimal(h, name),
        is_plain_name(name),
        valid_header(h),
        representable(h),
        h.dtype != DType::Block,
        is_supported(h.encoding),
        forall|i: int| 0 <= i < values.len() ==> fits(h.dtype, #[trigger] values[i]),
        bytes_of(h.dtype, h.endian, values).len() == NRRD::spec_expected_bytes(h),
        NRRD::spec_expected_bytes(h) <= usize::MAX,
        files.len() == 1,
        files[0].position() == 0,
        stream_content(h.encoding, files[0].bytes()) == Ok::<Seq<u8>, CodecError>(
            bytes_of(h.dtype, h.endian, values),
        ),
    ensures
        header_scan(encode_utf8(header_text(h)), 0) == Ok::<Scan, NrrdError>(
            Scan { header: h, lines: Seq::empty(), error: None },
        ),
        forall|r: Result<(Elements, NRRD), NrrdError>|
            elements_outcome(encode_utf8(header_text(h)), 0, files, r) ==> {
                &&& r matches Ok(x)
                &&& x.1@ == h
                &&& x.0@.dtype == h.dtype
                &&& x.0@.values == values
            },
{
    let payload = bytes_of(h.dtype, h.endian, values);
    lemma_detached_file_header(h, name);
    lemma_detached_payload(h, name, files[0].bytes(), payload);
    lemma_payload_elements(h.dtype, h.endian, values);
    assert(crate::payload::stream_views(files) =~= seq![(files[0].bytes(), 0int)]);
}

} // verus!
