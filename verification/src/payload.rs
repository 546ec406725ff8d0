//! The payload codec: how many bytes a header promises, how they divide
//! among the files of a detached header, and how they are read from and
//! written to streams in the three encodings.
use vstd::prelude::*;
use crate::header::{HeaderView, NRRD};
use crate::elements::{
    bytes_of, decode_elements, elements_of, lemma_bytes_of_chunks, lemma_elements_round_trip,
    Elements,
};
use crate::header_defs::datafile::paths_of;
use crate::header_defs::{ByteSkip, DType, Encoding, Endian};
use crate::text::views;
use crate::io::{
    after_lines, append_bytes, bzip2_decoded, bzip2_encoded, copy_range, decode_bzip2,
    decode_gzip, gzip_decoded, gzip_encoded, skip_lines, write_bzip2, write_gzip, write_raw,
    ByteStream, CodecError,
};

verus! {

/// `num_traits::Euclid::div_rem_euclid` on machine words: the quotient
/// and the remainder of the division, which panics for a divisor of zero.
#[verifier::external_body]
fn div_rem(n: usize, d: usize) -> (r: (usize, usize))
    requires
        d != 0,
    ensures
        r.0 == n / d,
        r.1 == n % d,
{
    num_traits::Euclid::div_rem_euclid(&n, &d)
}

/// How the payload of a header is to be read from each of its files.
#[derive(Debug, Clone, Copy, PartialEq, Eq, Structural)]
pub struct ReadPlan {
    /// The bytes of the whole payload.
    pub total: usize,
    /// The bytes that each file holds of it.
    pub per_file: usize,
    /// The lines to pass over at the start of each stream.
    pub line_skip: usize,
    /// The decoded bytes to pass over after that.
    pub byte_skip: usize,
    /// Is the payload the end of each stream?
    pub tail: bool,
    pub encoding: Encoding,
}

/// Can payloads of this encoding be read and written?
pub open spec fn is_supported(e: Encoding) -> bool {
    e == Encoding::raw || e == Encoding::rawgz || e == Encoding::rawbz2
}

/// The lines that the header asks to pass over.
pub open spec fn line_skip_of(h: HeaderView) -> nat {
    match h.line_skip {
        Some(n) => n,
        None => 0,
    }
}

/// The bytes that the header asks to pass over.
pub open spec fn byte_skip_of(h: HeaderView) -> nat {
    match h.byte_skip {
        Some(b) => b.spec_to_skip(),
        None => 0,
    }
}

/// Does the header ask for a read from the end?
pub open spec fn reads_tail(h: HeaderView) -> bool {
    h.byte_skip == Some(ByteSkip::rev)
}

/// The plan for reading the payload of `h` from `n_files` streams. All
/// that can be refused without looking at a stream is refused here: a
/// payload whose size is unknown or does not fit, an encoding that is not
/// supported, a read from the end of a compressed stream, no file, and a
/// payload that does not divide evenly among the files.
pub open spec fn plan_of(h: HeaderView, n_files: nat) -> Result<ReadPlan, CodecError> {
    let total = NRRD::spec_expected_bytes(h);
    if (h.dtype == DType::Block && h.block_size is None) || total > usize::MAX {
        Err(CodecError::PayloadSize)
    } else if !is_supported(h.encoding) {
        Err(CodecError::UnsupportedEncoding)
    } else if reads_tail(h) && h.encoding != Encoding::raw {
        Err(CodecError::TailNeedsRaw)
    } else if n_files == 0 {
        Err(CodecError::FileCount)
    } else if total % n_files != 0 {
        Err(CodecError::UnevenSplit)
    } else {
        Ok(
            ReadPlan {
                total: total as usize,
                per_file: (total / n_files) as usize,
                line_skip: line_skip_of(h) as usize,
                byte_skip: byte_skip_of(h) as usize,
                tail: reads_tail(h),
                encoding: h.encoding,
            },
        )
    }
}

/// The plan for reading the payload of a detached header from `n_files`
/// streams. The directive must say which files it names, and name as
/// many as there are streams; then the plan is that of `plan_of`. Like
/// that plan, this one looks at no stream.
pub open spec fn detached_plan_of(h: HeaderView, n_files: nat) -> Result<ReadPlan, CodecError> {
    match h.data_file {
        None => Err(CodecError::FileCount),
        Some(d) => match paths_of(d) {
            Err(e) => Err(CodecError::Directive(e)),
            Ok(names) => if names.len() != n_files {
                Err(CodecError::FileCount)
            } else {
                plan_of(h, n_files)
            },
        },
    }
}

/// Whatever refuses the plan for a number of streams refuses the plan of
/// a detached header for that number: a payload that does not divide
/// evenly, or a read from the end of a compressed stream, is refused
/// before any file is read.
pub proof fn lemma_detached_plan_refused(h: HeaderView, n_files: nat)
    requires
        plan_of(h, n_files) is Err,
    ensures
        detached_plan_of(h, n_files) is Err,
{
}

/// What a stream holds once its encoding is undone.
pub open spec fn stream_content(encoding: Encoding, stream: Seq<u8>) -> Result<Seq<u8>, CodecError> {
    match encoding {
        Encoding::raw => Ok(stream),
        Encoding::rawgz => match gzip_decoded(stream) {
            Some(c) => Ok(c),
            None => Err(CodecError::Corrupt),
        },
        Encoding::rawbz2 => match bzip2_decoded(stream) {
            Some(c) => Ok(c),
            None => Err(CodecError::Corrupt),
        },
        _ => Err(CodecError::UnsupportedEncoding),
    }
}

/// The part of the payload that one stream holds, read from `pos`: the
/// lines to skip are passed over; then either the end of the whole stream
/// is taken, or the rest is decoded, the bytes to skip are passed over,
/// and the part is taken from there. The stream must hold all of the part.
pub open spec fn chunk_of(plan: ReadPlan, stream: Seq<u8>, pos: int) -> Result<Seq<u8>, CodecError> {
    let start = after_lines(stream, pos, plan.line_skip as nat);
    if plan.tail {
        if stream.len() >= plan.per_file {
            Ok(stream.skip(stream.len() - plan.per_file))
        } else {
            Err(CodecError::ShortPayload)
        }
    } else {
        match stream_content(plan.encoding, stream.skip(start)) {
            Err(e) => Err(e),
            Ok(content) => if plan.byte_skip > content.len() {
                Err(CodecError::SkipPastEnd)
            } else if content.len() - plan.byte_skip < plan.per_file {
                Err(CodecError::ShortPayload)
            } else {
                Ok(content.subrange(plan.byte_skip as int, plan.byte_skip + plan.per_file))
            },
        }
    }
}

/// A stream as the codec sees it: its bytes and its read position.
pub open spec fn stream_view(f: ByteStream) -> (Seq<u8>, int) {
    (f.bytes(), f.position() as int)
}

/// The payload that the streams hold together: their parts, one after the
/// other in the order of the streams. The first stream that cannot give
/// its part decides the error.
pub open spec fn chunks_of(plan: ReadPlan, streams: Seq<(Seq<u8>, int)>) -> Result<
    Seq<u8>,
    CodecError,
>
    decreases streams.len(),
{
    if streams.len() == 0 {
        Ok(Seq::empty())
    } else {
        match chunks_of(plan, streams.drop_last()) {
            Err(e) => Err(e),
            Ok(head) => match chunk_of(plan, streams.last().0, streams.last().1) {
                Err(e) => Err(e),
                Ok(c) => Ok(head + c),
            },
        }
    }
}

/// Every part has the length that the plan gives it, so the payload of
/// `n` streams has `n` times that length.
pub proof fn lemma_chunks_len(plan: ReadPlan, streams: Seq<(Seq<u8>, int)>)
    ensures
        chunks_of(plan, streams) matches Ok(b) ==> b.len() == streams.len() * plan.per_file,
    decreases streams.len(),
{
    if streams.len() > 0 {
        lemma_chunks_len(plan, streams.drop_last());
        let n = streams.len() as int - 1;
        assert((n + 1) * plan.per_file == n * plan.per_file + plan.per_file) by (nonlinear_arith);
    } else {
        assert(0 * plan.per_file == 0) by (nonlinear_arith);
    }
}

impl NRRD {
    /// Plans the read of the payload of a detached header from `n_files`
    /// streams, before any of them is looked at.
    pub fn detached_plan(&self, n_files: usize) -> (r: Result<ReadPlan, CodecError>)
        ensures
            r == detached_plan_of(self@, n_files as nat),
    {
        match &self.data_file {
            None => Err(CodecError::FileCount),
            Some(d) => match d.paths() {
                Err(e) => Err(CodecError::Directive(e)),
                Ok(names) => {
                    assert(views(names@).len() == names.len());
                    if names.len() != n_files {
                        Err(CodecError::FileCount)
                    } else {
                        self.read_plan(n_files)
                    }
                },
            },
        }
    }

    /// Plans the read of the payload from `n_files` streams, before any of
    /// them is looked at.
    pub fn read_plan(&self, n_files: usize) -> (r: Result<ReadPlan, CodecError>)
        ensures
            r == plan_of(self@, n_files as nat),
    {
        let total = match self.expected_bytes() {
            Some(n) => n,
            None => {
                return Err(CodecError::PayloadSize);
            },
        };
        match self.encoding {
            Encoding::raw | Encoding::rawgz | Encoding::rawbz2 => {},
            _ => {
                return Err(CodecError::UnsupportedEncoding);
            },
        }
        let line_skip: usize = match &self.line_skip {
            Some(ls) => ls.to_skip(),
            None => 0,
        };
        let (byte_skip, tail): (usize, bool) = match &self.byte_skip {
            Some(bs) => (bs.to_skip(), bs.read_tail()),
            None => (0, false),
        };
        if tail && self.encoding != Encoding::raw {
            return Err(CodecError::TailNeedsRaw);
        }
        if n_files == 0 {
            return Err(CodecError::FileCount);
        }
        let (per_file, rem) = div_rem(total, n_files);
        if rem != 0 {
            return Err(CodecError::UnevenSplit);
        }
        Ok(ReadPlan { total, per_file, line_skip, byte_skip, tail, encoding: self.encoding })
    }
}

/// The part of a decoded stream that the plan asks for.
fn take_part(content: &Vec<u8>, plan: &ReadPlan) -> (r: Result<Vec<u8>, CodecError>)
    ensures
        r matches Ok(v) ==> {
            &&& plan.byte_skip <= content.len()
            &&& content.len() - plan.byte_skip >= plan.per_file
            &&& v@ == content@.subrange(plan.byte_skip as int, plan.byte_skip + plan.per_file)
        },
        r matches Err(e) ==> if plan.byte_skip > content.len() {
            e == CodecError::SkipPastEnd
        } else {
            e == CodecError::ShortPayload && content.len() - plan.byte_skip < plan.per_file
        },
{
    if plan.byte_skip > content.len() {
        return Err(CodecError::SkipPastEnd);
    }
    if content.len() - plan.byte_skip < plan.per_file {
        return Err(CodecError::ShortPayload);
    }
    Ok(copy_range(content, plan.byte_skip, plan.byte_skip + plan.per_file))
}

/// Reads the part of the payload that one stream holds. Nothing is
/// allotted for the part before the stream is known to hold it.
pub fn read_chunk(plan: &ReadPlan, f: &mut ByteStream) -> (r: Result<Vec<u8>, CodecError>)
    ensures
        final(f).bytes() == old(f).bytes(),
        match chunk_of(*plan, old(f).bytes(), old(f).position() as int) {
            Ok(c) => r matches Ok(v) && v@ == c,
            Err(e) => r matches Err(x) && x == e,
        },
{
    let ghost stream = f.bytes();
    skip_lines(f, plan.line_skip);
    let n: usize = f.len();
    let start: usize = f.pos();
    if plan.tail {
        if n < plan.per_file {
            return Err(CodecError::ShortPayload);
        }
        let part = f.slice(n - plan.per_file, n);
        assert(part@ =~= stream.skip(stream.len() - plan.per_file));
        f.seek(n as u64);
        return Ok(part);
    }
    let rest = f.slice(start, n);
    assert(rest@ =~= stream.skip(start as int));
    f.seek(n as u64);
    match plan.encoding {
        Encoding::raw => take_part(&rest, plan),
        Encoding::rawgz => match decode_gzip(rest.as_slice()) {
            Some(content) => take_part(&content, plan),
            None => Err(CodecError::Corrupt),
        },
        Encoding::rawbz2 => match decode_bzip2(rest.as_slice()) {
            Some(content) => take_part(&content, plan),
            None => Err(CodecError::Corrupt),
        },
        _ => Err(CodecError::UnsupportedEncoding),
    }
}

/// The streams as the codec sees them.
pub open spec fn stream_views(files: Seq<ByteStream>) -> Seq<(Seq<u8>, int)> {
    files.map_values(|f: ByteStream| stream_view(f))
}

/// Reads the payload of an attached header from the stream that held the
/// header; the stream stands after the header's blank line. The payload
/// has exactly the bytes that the header promises.
pub fn read_attached(h: &NRRD, f: &mut ByteStream) -> (r: Result<Vec<u8>, CodecError>)
    ensures
        final(f).bytes() == old(f).bytes(),
        match plan_of(h@, 1) {
            Err(e) => r matches Err(x) && x == e && final(f).position() == old(f).position(),
            Ok(plan) => match chunk_of(plan, old(f).bytes(), old(f).position() as int) {
                Ok(c) => r matches Ok(v) && v@ == c && c.len() == NRRD::spec_expected_bytes(h@),
                Err(e) => r matches Err(x) && x == e,
            },
        },
{
    let plan = match h.read_plan(1) {
        Ok(p) => p,
        Err(e) => {
            return Err(e);
        },
    };
    read_chunk(&plan, f)
}

/// Reads the payload of a detached header from the streams of its files,
/// which are given in the order of the header's paths: as many streams
/// as the directive names files. Each stream holds an equal part, and the
/// parts follow one another in that order; the payload has exactly the
/// bytes that the header promises. Where the plan is refused no stream is
/// touched.
pub fn read_detached(h: &NRRD, files: &mut Vec<ByteStream>) -> (r: Result<Vec<u8>, CodecError>)
    ensures
        final(files).len() == old(files).len(),
        forall|i: int|
            0 <= i < old(files).len() ==> (#[trigger] final(files)[i]).bytes()
                == old(files)[i].bytes(),
        match detached_plan_of(h@, old(files).len() as nat) {
            Err(e) => r matches Err(x) && x == e && final(files)@ == old(files)@,
            Ok(plan) => match chunks_of(plan, stream_views(old(files)@)) {
                Ok(b) => r matches Ok(v) && v@ == b && b.len() == NRRD::spec_expected_bytes(h@),
                Err(e) => r matches Err(x) && x == e,
            },
        },
{
    let plan = match h.detached_plan(files.len()) {
        Ok(p) => p,
        Err(e) => {
            return Err(e);
        },
    };
    let ghost streams = stream_views(files@);
    let n: usize = files.len();
    let mut bytes: Vec<u8> = Vec::new();
    let mut i: usize = 0;
    assert(streams.take(0) =~= Seq::<(Seq<u8>, int)>::empty());
    while i < n
        invariant
            0 <= i <= n == files.len() == old(files).len() == streams.len(),
            plan_of(h@, n as nat) == Ok::<ReadPlan, CodecError>(plan),
            detached_plan_of(h@, n as nat) == Ok::<ReadPlan, CodecError>(plan),
            streams == stream_views(old(files)@),
            forall|k: int| 0 <= k < n ==> (#[trigger] files[k]).bytes() == old(files)[k].bytes(),
            forall|k: int| i <= k < n ==> #[trigger] files[k] == old(files)[k],
            chunks_of(plan, streams.take(i as int)) == Ok::<Seq<u8>, CodecError>(bytes@),
        decreases n - i,
    {
        proof {
            let t = streams.take(i + 1);
            assert(t.drop_last() =~= streams.take(i as int));
            assert(t.last() == stream_view(old(files)[i as int]));
        }
        let ghost before = files@;
        let part = read_chunk(&plan, &mut files[i]);
        assert(forall|k: int| 0 <= k < n && k != i ==> files@[k] == before[k]);
        match part {
            Ok(c) => {
                append_bytes(&mut bytes, c.as_slice());
            },
            Err(e) => {
                proof {
                    assert(chunks_of(plan, streams.take(i + 1)) == Err::<Seq<u8>, CodecError>(e));
                    lemma_chunks_fail(plan, streams, i + 1);
                }
                return Err(e);
            },
        }
        i += 1;
    }
    proof {
        assert(streams.take(n as int) =~= streams);
        lemma_chunks_len(plan, streams);
        let total = NRRD::spec_expected_bytes(h@);
        assert(n * (total / (n as nat)) == total) by (nonlinear_arith)
            requires
                n > 0,
                total % (n as nat) == 0,
        ;
    }
    Ok(bytes)
}

/// Once the parts of the first `k` streams cannot be had, the payload cannot.
pub proof fn lemma_chunks_fail(plan: ReadPlan, streams: Seq<(Seq<u8>, int)>, k: int)
    requires
        0 <= k <= streams.len(),
        chunks_of(plan, streams.take(k)) is Err,
    ensures
        chunks_of(plan, streams) == chunks_of(plan, streams.take(k)),
    decreases streams.len(),
{
    if k == streams.len() {
        assert(streams.take(k) =~= streams);
    } else {
        assert(streams.drop_last().take(k) =~= streams.take(k));
        lemma_chunks_fail(plan, streams.drop_last(), k);
    }
}

/// What a payload becomes in the given encoding, where it can be written.
pub open spec fn stored_as(encoding: Encoding, payload: Seq<u8>) -> Result<Seq<u8>, CodecError> {
    match encoding {
        Encoding::raw => Ok(payload),
        Encoding::rawgz => match gzip_encoded(payload) {
            Some(s) => Ok(s),
            None => Err(CodecError::Compression),
        },
        Encoding::rawbz2 => match bzip2_encoded(payload) {
            Some(s) => Ok(s),
            None => Err(CodecError::Compression),
        },
        _ => Err(CodecError::UnsupportedEncoding),
    }
}

impl Encoding {
    /// Appends the payload to `f` in this encoding. What is appended
    /// decodes to the payload again. Nothing is appended where the
    /// encoding cannot be written.
    pub fn write_payload(&self, f: &mut Vec<u8>, payload: &[u8]) -> (r: Result<(), CodecError>)
        ensures
            match stored_as(*self, payload@) {
                Ok(stored) => {
                    &&& r is Ok
                    &&& final(f)@ == old(f)@ + stored
                    &&& stream_content(*self, stored) == Ok::<Seq<u8>, CodecError>(payload@)
                },
                Err(e) => r == Err::<(), CodecError>(e) && final(f)@ == old(f)@,
            },
    {
        match self {
            Encoding::raw => {
                write_raw(f, payload);
                Ok(())
            },
            Encoding::rawgz => write_gzip(f, payload),
            Encoding::rawbz2 => write_bzip2(f, payload),
            _ => Err(CodecError::UnsupportedEncoding),
        }
    }
}

/// Is the size of the payload known, and does it fit the machine's word?
pub open spec fn size_is_known(h: HeaderView) -> bool {
    !(h.dtype == DType::Block && h.block_size is None) && NRRD::spec_expected_bytes(h)
        <= usize::MAX
}

/// A read from the end of a compressed stream is refused by the plan, which
/// looks at no stream: nothing is decoded before the refusal.
pub proof fn lemma_tail_needs_raw(h: HeaderView, n_files: nat)
    requires
        reads_tail(h),
        h.encoding == Encoding::rawgz || h.encoding == Encoding::rawbz2,
    ensures
        plan_of(h, n_files) is Err,
        size_is_known(h) ==> plan_of(h, n_files) == Err::<ReadPlan, CodecError>(
            CodecError::TailNeedsRaw,
        ),
{
}

/// A payload that does not divide evenly among its files is refused by the
/// plan, which looks at no stream: no file is read before the refusal.
pub proof fn lemma_uneven_split(h: HeaderView, n_files: nat)
    requires
        n_files > 0,
        NRRD::spec_expected_bytes(h) % n_files != 0,
    ensures
        plan_of(h, n_files) is Err,
        size_is_known(h) && is_supported(h.encoding) && !reads_tail(h) ==> plan_of(h, n_files)
            == Err::<ReadPlan, CodecError>(CodecError::UnevenSplit),
{
}

/// The payload of streams that follow one another is the payload of the
/// first streams followed by that of the rest: the parts stand in the
/// order of the streams.
pub proof fn lemma_chunks_in_order(
    plan: ReadPlan,
    a: Seq<(Seq<u8>, int)>,
    b: Seq<(Seq<u8>, int)>,
)
    requires
        chunks_of(plan, a + b) is Ok,
    ensures
        chunks_of(plan, a) is Ok,
        chunks_of(plan, b) is Ok,
        chunks_of(plan, a + b)->Ok_0 == chunks_of(plan, a)->Ok_0 + chunks_of(plan, b)->Ok_0,
    decreases b.len(),
{
    if b.len() == 0 {
        assert(a + b =~= a);
        assert(chunks_of(plan, a)->Ok_0 + Seq::<u8>::empty() =~= chunks_of(plan, a)->Ok_0);
    } else {
        assert((a + b).drop_last() =~= a + b.drop_last());
        assert((a + b).last() == b.last());
        lemma_chunks_in_order(plan, a, b.drop_last());
        let x = chunks_of(plan, a)->Ok_0;
        let y = chunks_of(plan, b.drop_last())->Ok_0;
        let c = chunk_of(plan, b.last().0, b.last().1)->Ok_0;
        assert((x + y) + c =~= x + (y + c));
    }
}

/// What is stored of a payload in a supported encoding decodes to the
/// payload, as far as the raw encoding goes; for the compressed ones this
/// is what `Encoding::write_payload` ensures of what it wrote.
pub proof fn lemma_raw_round_trip(payload: Seq<u8>)
    ensures
        stored_as(Encoding::raw, payload) == Ok::<Seq<u8>, CodecError>(payload),
        stream_content(Encoding::raw, payload) == Ok::<Seq<u8>, CodecError>(payload),
{
}

/// The elements that a stored payload stands for: its encoding is undone,
/// and the bytes are read in the given type and byte order.
pub open spec fn decoded(stored: Seq<u8>, dtype: DType, endian: Endian, encoding: Encoding) -> Result<
    Seq<int>,
    CodecError,
> {
    match stream_content(encoding, stored) {
        Err(e) => Err(e),
        Ok(bytes) => if dtype == DType::Block {
            Err(CodecError::BlockElements)
        } else if bytes.len() as int % dtype.spec_size() as int != 0 {
            Err(CodecError::Length)
        } else {
            Ok(elements_of(dtype, endian, bytes))
        },
    }
}

/// Encodes elements: their bytes in the given byte order, stored in the
/// given encoding. What is stored decodes to exactly these elements.
pub fn encode(data: &Elements, endian: Endian, encoding: Encoding) -> (r: Result<
    Vec<u8>,
    CodecError,
>)
    ensures
        match stored_as(encoding, bytes_of(data@.dtype, endian, data@.values)) {
            Ok(stored) => {
                &&& r matches Ok(v)
                &&& v@ == stored
                &&& decoded(stored, data@.dtype, endian, encoding) == Ok::<Seq<int>, CodecError>(
                    data@.values,
                )
            },
            Err(e) => r matches Err(x) && x == e,
        },
{
    let bytes = data.to_bytes(endian);
    proof {
        data.lemma_values_fit();
        lemma_bytes_of_chunks(data@.dtype, endian, data@.values);
        lemma_elements_round_trip(data@.dtype, endian, data@.values);
        let w = data@.dtype.spec_size() as int;
        let n = data@.values.len() as int;
        assert((n * w) % w == 0) by (nonlinear_arith)
            requires
                w > 0,
        ;
    }
    let mut stored: Vec<u8> = Vec::new();
    match encoding.write_payload(&mut stored, bytes.as_slice()) {
        Ok(_) => {
            assert(stored@ =~= stored_as(encoding, bytes@)->Ok_0);
            Ok(stored)
        },
        Err(e) => Err(e),
    }
}

/// Decodes a stored payload into elements of the given type and byte order.
pub fn decode(stored: &[u8], dtype: DType, endian: Endian, encoding: Encoding) -> (r: Result<
    Elements,
    CodecError,
>)
    ensures
        match decoded(stored@, dtype, endian, encoding) {
            Ok(values) => r matches Ok(e) && e@.dtype == dtype && e@.values == values,
            Err(e) => r matches Err(x) && x == e,
        },
{
    match encoding {
        Encoding::raw => decode_elements(stored, dtype, endian),
        Encoding::rawgz => match decode_gzip(stored) {
            Some(bytes) => decode_elements(bytes.as_slice(), dtype, endian),
            None => Err(CodecError::Corrupt),
        },
        Encoding::rawbz2 => match decode_bzip2(stored) {
            Some(bytes) => decode_elements(bytes.as_slice(), dtype, endian),
            None => Err(CodecError::Corrupt),
        },
        _ => Err(CodecError::UnsupportedEncoding),
    }
}

} // verus!
