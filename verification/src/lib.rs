//! A codec for the NRRD raster format: the grammar of its text header and
//! the reading and writing of its binary payload.
//!
//! Everything works on values held in memory. A header is assembled from
//! the lines of its text and written back as canonical text; a payload is
//! read from and written to streams of bytes. Opening files, and resolving
//! the paths that a detached header names, is left to the caller.
use vstd::prelude::*;
use vstd::utf8::{decode_utf8, encode_utf8, valid_utf8};

pub mod text;
pub mod decimal;
pub mod header_defs;
pub mod keyvalues;
pub mod header;
pub mod io;
pub mod elements;
pub mod payload;
pub mod laws;
pub mod leftover;
pub mod listed;
pub mod listing;
pub mod reversible;
pub mod validity;
pub mod written;

pub use crate::header::{Header, HeaderView, NRRDType, NRRD};
pub use crate::listing::parse_list_input;

use crate::elements::{
    bytes_of, decode_elements, elements_of, lemma_elements_round_trip, Elements,
};
use crate::header::{header_text, scan_full, valid_header, Scan};
use crate::header_defs::{DType, DataFile, DataFileView, Encoding, Endian, HeaderError};
use crate::io::{append_bytes, blank_line_from, read_until_blank, ByteStream, CodecError};
use crate::payload::{
    chunk_of, chunks_of, detached_plan_of, plan_of, read_attached, read_detached, stored_as,
    stream_content, stream_views,
};
use crate::text::{chars_of, lines_of, string_of, text_lines, views};

verus! {

/// Why a file was refused.
#[derive(Debug, Clone, Copy, PartialEq, Eq, Structural)]
pub enum NrrdError {
    /// The header is not UTF-8 text.
    NotUtf8,
    /// The header text is refused.
    Header(HeaderError),
    /// The payload cannot be read or written.
    Codec(CodecError),
}

/// `String::from_utf8`: the text that the bytes encode, exactly where the
/// bytes are valid UTF-8.
#[verifier::external_body]
fn utf8_string(bytes: Vec<u8>) -> (r: Option<String>)
    ensures
        match r {
            Some(s) => valid_utf8(bytes@) && s@ == decode_utf8(bytes@),
            None => !valid_utf8(bytes@),
        },
{
    String::from_utf8(bytes).ok()
}

/// The bytes of the header part of a stream read from `pos`: what stands
/// before the first blank line, or all that is left where there is none.
pub open spec fn header_bytes(bytes: Seq<u8>, pos: int) -> Seq<u8> {
    match blank_line_from(bytes, pos, pos) {
        Some(b) => bytes.subrange(pos, b.0),
        None => bytes.skip(pos),
    }
}

/// Where the header part of a stream read from `pos` ends: after the
/// first blank line, or at the end of the stream.
pub open spec fn header_end(bytes: Seq<u8>, pos: int) -> int {
    match blank_line_from(bytes, pos, pos) {
        Some(b) => b.1,
        None => bytes.len() as int,
    }
}

/// The assembly of the header that a stream holds from `pos` on.
pub open spec fn header_scan(bytes: Seq<u8>, pos: int) -> Result<Scan, NrrdError> {
    let head = header_bytes(bytes, pos);
    if !valid_utf8(head) {
        Err(NrrdError::NotUtf8)
    } else {
        let s = scan_full(text_lines(decode_utf8(head)));
        match s.error {
            Some(e) => Err(NrrdError::Header(e)),
            None => Ok(s),
        }
    }
}

/// Reads the header of a stream and gives, with it, the lines that no
/// field consumed: lines of fields that are not known here. The stream is
/// left after the header's blank line.
pub fn read_header_lines(nrrd: &mut ByteStream) -> (r: Result<(NRRD, Vec<String>), NrrdError>)
    ensures
        final(nrrd).bytes() == old(nrrd).bytes(),
        final(nrrd).position() == header_end(old(nrrd).bytes(), old(nrrd).position() as int),
        match header_scan(old(nrrd).bytes(), old(nrrd).position() as int) {
            Ok(s) => {
                &&& r matches Ok(x)
                &&& x.0@ == s.header
                &&& views(x.1@) == s.lines
                &&& valid_header(x.0@)
            },
            Err(e) => r matches Err(x) && x == e,
        },
{
    let (head, _offset) = read_until_blank(nrrd);
    let text = match utf8_string(head) {
        Some(t) => t,
        None => {
            return Err(NrrdError::NotUtf8);
        },
    };
    let lines = lines_of(text.as_str());
    let mut header_lines: Vec<&str> = Vec::new();
    let mut i: usize = 0;
    while i < lines.len()
        invariant
            0 <= i <= lines.len(),
            header_lines.len() == i,
            forall|k: int| 0 <= k < i ==> (#[trigger] header_lines@[k])@ == lines@[k]@,
        decreases lines.len() - i,
    {
        header_lines.push(lines[i].as_str());
        i += 1;
    }
    assert(views(header_lines@) =~= views(lines@));
    let h = match NRRD::from_lines_full(&mut header_lines) {
        Ok(h) => h,
        Err(e) => {
            return Err(NrrdError::Header(e));
        },
    };
    let mut rest: Vec<String> = Vec::new();
    let mut k: usize = 0;
    while k < header_lines.len()
        invariant
            0 <= k <= header_lines.len(),
            rest.len() == k,
            forall|j: int| 0 <= j < k ==> (#[trigger] rest@[j])@ == header_lines@[j]@,
        decreases header_lines.len() - k,
    {
        rest.push(string_of(&chars_of(header_lines[k])));
        k += 1;
    }
    assert(views(rest@) =~= views(header_lines@));
    Ok((h, rest))
}

/// Reads only the header of a stream. Lines of fields that are not known
/// here are passed over.
pub fn read_header(nrrd: &mut ByteStream) -> (r: Result<NRRD, NrrdError>)
    ensures
        final(nrrd).bytes() == old(nrrd).bytes(),
        final(nrrd).position() == header_end(old(nrrd).bytes(), old(nrrd).position() as int),
        match header_scan(old(nrrd).bytes(), old(nrrd).position() as int) {
            Ok(s) => r matches Ok(h) && h@ == s.header && valid_header(h@),
            Err(e) => r matches Err(x) && x == e,
        },
{
    match read_header_lines(nrrd) {
        Ok((h, _)) => Ok(h),
        Err(e) => Err(e),
    }
}

/// The payload of the header `h`, which was read from a stream that now
/// stands at `pos`: from that stream where the header names no data file,
/// else from the streams of the data files, which must be as many as the
/// directive names.
pub open spec fn payload_of(
    h: HeaderView,
    bytes: Seq<u8>,
    pos: int,
    files: Seq<(Seq<u8>, int)>,
) -> Result<Seq<u8>, CodecError> {
    if h.data_file is Some {
        match detached_plan_of(h, files.len()) {
            Err(e) => Err(e),
            Ok(plan) => chunks_of(plan, files),
        }
    } else {
        match plan_of(h, 1) {
            Err(e) => Err(e),
            Ok(plan) => chunk_of(plan, bytes, pos),
        }
    }
}

/// Is `r` the outcome of reading header and payload from the stream with
/// the given bytes, from `pos` on, and from the streams `before` of the
/// data files, which are left as `after`? A header that is refused leaves
/// the streams of the data files untouched; a payload that is read has
/// exactly the bytes that the header promises.
pub open spec fn payload_outcome(
    bytes: Seq<u8>,
    pos: int,
    before: Seq<ByteStream>,
    after: Seq<ByteStream>,
    r: Result<(Vec<u8>, NRRD), NrrdError>,
) -> bool {
    match header_scan(bytes, pos) {
        Err(e) => r matches Err(x) && x == e && after == before,
        Ok(s) => match payload_of(s.header, bytes, header_end(bytes, pos), stream_views(before)) {
            Ok(b) => {
                &&& r matches Ok(x)
                &&& x.0@ == b
                &&& x.1@ == s.header
                &&& b.len() == NRRD::spec_expected_bytes(s.header)
            },
            Err(e) => r matches Err(x) && x == NrrdError::Codec(e),
        },
    }
}

/// Is `r` the outcome of reading header and elements from the stream with
/// the given bytes, from `pos` on, and from the streams of the data files?
/// The elements are those that the bytes of the payload stand for, in the
/// type and the byte order that the header names.
pub open spec fn elements_outcome(
    bytes: Seq<u8>,
    pos: int,
    files: Seq<ByteStream>,
    r: Result<(Elements, NRRD), NrrdError>,
) -> bool {
    match header_scan(bytes, pos) {
        Err(e) => r matches Err(x) && x == e,
        Ok(s) => match payload_of(s.header, bytes, header_end(bytes, pos), stream_views(files)) {
            Err(e) => r matches Err(x) && x == NrrdError::Codec(e),
            Ok(b) => if s.header.dtype == DType::Block {
                r matches Err(x) && x == NrrdError::Codec(CodecError::BlockElements)
            } else if b.len() as int % s.header.dtype.spec_size() as int != 0 {
                r matches Err(x) && x == NrrdError::Codec(CodecError::Length)
            } else {
                &&& r matches Ok(x)
                &&& x.1@ == s.header
                &&& x.0@.dtype == s.header.dtype
                &&& x.0@.values == elements_of(s.header.dtype, s.header.endian, b)
            },
        },
    }
}

/// Reads the header of a stream and all the bytes of its payload. For a
/// detached header `filepaths` holds the streams of its data files, in the
/// order of the header's paths and as many as the directive names; for an
/// attached one it is not looked at.
pub fn read_payload(filepath: &mut ByteStream, filepaths: &mut Vec<ByteStream>) -> (r: Result<
    (Vec<u8>, NRRD),
    NrrdError,
>)
    ensures
        final(filepath).bytes() == old(filepath).bytes(),
        final(filepaths).len() == old(filepaths).len(),
        payload_outcome(
            old(filepath).bytes(),
            old(filepath).position() as int,
            old(filepaths)@,
            final(filepaths)@,
            r,
        ),
{
    let h = match read_header(filepath) {
        Ok(h) => h,
        Err(e) => {
            return Err(e);
        },
    };
    let read = if h.data_file.is_some() {
        read_detached(&h, filepaths)
    } else {
        read_attached(&h, filepath)
    };
    match read {
        Ok(bytes) => Ok((bytes, h)),
        Err(e) => Err(NrrdError::Codec(e)),
    }
}

/// Reads the header of a stream and the elements of its payload, in the
/// type and the byte order that the header names.
pub fn read_nrrd_to(filepath: &mut ByteStream, filepaths: &mut Vec<ByteStream>) -> (r: Result<
    (Elements, NRRD),
    NrrdError,
>)
    ensures
        final(filepath).bytes() == old(filepath).bytes(),
        final(filepaths).len() == old(filepaths).len(),
        elements_outcome(
            old(filepath).bytes(),
            old(filepath).position() as int,
            old(filepaths)@,
            r,
        ),
{
    let (bytes, h) = match read_payload(filepath, filepaths) {
        Ok(x) => x,
        Err(e) => {
            return Err(e);
        },
    };
    match decode_elements(bytes.as_slice(), h.dtype, h.endian) {
        Ok(elements) => Ok((elements, h)),
        Err(e) => Err(NrrdError::Codec(e)),
    }
}

impl NRRD {
    /// `read_payload` as a function of the record.
    pub fn read_payload(filepath: &mut ByteStream, filepaths: &mut Vec<ByteStream>) -> (r: Result<
        (Vec<u8>, NRRD),
        NrrdError,
    >)
        ensures
            final(filepath).bytes() == old(filepath).bytes(),
            final(filepaths).len() == old(filepaths).len(),
            payload_outcome(
                old(filepath).bytes(),
                old(filepath).position() as int,
                old(filepaths)@,
                final(filepaths)@,
                r,
            ),
    {
        crate::read_payload(filepath, filepaths)
    }

    /// `read_nrrd_to` as a function of the record.
    pub fn read_to(filepath: &mut ByteStream, filepaths: &mut Vec<ByteStream>) -> (r: Result<
        (Elements, NRRD),
        NrrdError,
    >)
        ensures
            final(filepath).bytes() == old(filepath).bytes(),
            final(filepaths).len() == old(filepaths).len(),
            elements_outcome(
                old(filepath).bytes(),
                old(filepath).position() as int,
                old(filepaths)@,
                r,
            ),
    {
        crate::read_nrrd_to(filepath, filepaths)
    }
}

/// What was written for a raster: the header as it was written, the bytes
/// of the header file, and the bytes of the data file of a detached header.
pub struct Written {
    pub header: NRRD,
    pub header_file: Vec<u8>,
    pub data_file: Option<Vec<u8>>,
}

/// The header that is written for a payload: the reference header with
/// the type, byte order and encoding of the payload, without skips and
/// block size, and with a data file of the given name or none.
pub open spec fn written_header(
    h: HeaderView,
    dtype: DType,
    endian: Endian,
    encoding: Encoding,
    data_file: Option<Seq<char>>,
) -> HeaderView {
    HeaderView {
        dtype,
        endian,
        encoding,
        block_size: None,
        byte_skip: None,
        line_skip: None,
        data_file: match data_file {
            Some(name) => Some(DataFileView::SingleFile { filename: name }),
            None => None,
        },
        ..h
    }
}

/// Writes a raster. The reference header gives what does not depend on
/// the payload; type, byte order and encoding are set from the request,
/// and skips are cleared. An attached raster is one file: the header
/// text, a blank line, and the payload in its encoding. A detached one is
/// two: the header text, whose data file is `data_file_name`, and the
/// payload in its encoding. The stored payload decodes to the bytes of
/// the elements again.
pub fn write_nrrd(
    ref_header: NRRD,
    data: &Elements,
    endian: Endian,
    attached: bool,
    encoding: Encoding,
    data_file_name: &str,
) -> (r: Result<Written, NrrdError>)
    ensures
        ({
            let hv = written_header(
                ref_header@,
                data@.dtype,
                endian,
                encoding,
                if attached {
                    None
                } else {
                    Some(data_file_name@)
                },
            );
            let payload = bytes_of(data@.dtype, endian, data@.values);
            if NRRD::spec_expected_bytes(hv) > usize::MAX {
                r matches Err(e) && e == NrrdError::Codec(CodecError::PayloadSize)
            } else if payload.len() != NRRD::spec_expected_bytes(hv) {
                r matches Err(e) && e == NrrdError::Codec(CodecError::Length)
            } else {
                match stored_as(encoding, payload) {
                    Err(e) => r matches Err(x) && x == NrrdError::Codec(e),
                    Ok(stored) => {
                        &&& r matches Ok(w)
                        &&& w.header@ == hv
                        &&& stream_content(encoding, stored) == Ok::<Seq<u8>, CodecError>(payload)
                        &&& elements_of(data@.dtype, endian, payload) == data@.values
                        &&& if attached {
                            &&& w.header_file@ == encode_utf8(header_text(hv)) + seq![10u8] + stored
                            &&& w.data_file is None
                        } else {
                            &&& w.header_file@ == encode_utf8(header_text(hv))
                            &&& w.data_file matches Some(d)
                            &&& d@ == stored
                        }
                    },
                }
            }
        }),
{
    let mut h = ref_header;
    h.dtype = data.dtype();
    h.endian = endian;
    h.encoding = encoding;
    h.block_size = None;
    h.byte_skip = None;
    h.line_skip = None;
    if attached {
        h.data_file = None;
    } else {
        h.data_file = Some(
            DataFile::SingleFile { filename: string_of(&chars_of(data_file_name)) },
        );
    }
    let bytes = data.to_bytes(endian);
    proof {
        data.lemma_values_fit();
        lemma_elements_round_trip(data@.dtype, endian, data@.values);
    }
    match h.expected_bytes() {
        None => {
            return Err(NrrdError::Codec(CodecError::PayloadSize));
        },
        Some(n) => {
            if n != bytes.len() {
                return Err(NrrdError::Codec(CodecError::Length));
            }
        },
    }
    let text = h.to_string();
    let mut header_file: Vec<u8> = Vec::new();
    append_bytes(&mut header_file, text.as_str().as_bytes());
    if attached {
        let ghost before = header_file@;
        let mut body: Vec<u8> = Vec::new();
        match encoding.write_payload(&mut body, bytes.as_slice()) {
            Ok(_) => {},
            Err(e) => {
                return Err(NrrdError::Codec(e));
            },
        }
        header_file.push(10u8);
        append_bytes(&mut header_file, body.as_slice());
        assert(header_file@ =~= before + seq![10u8] + body@);
        Ok(Written { header: h, header_file, data_file: None })
    } else {
        let mut data_file: Vec<u8> = Vec::new();
        match encoding.write_payload(&mut data_file, bytes.as_slice()) {
            Ok(_) => {},
            Err(e) => {
                return Err(NrrdError::Codec(e));
            },
        }
        Ok(Written { header: h, header_file, data_file: Some(data_file) })
    }
}

} // verus!
