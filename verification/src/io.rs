//! Streams of bytes held in memory, and what a header asks of them: where
//! the header ends, lines and bytes to pass over, reads from the end, and
//! the three encodings of a payload.
use vstd::prelude::*;
use std::io::Read;
use std::io::Write;
use crate::header_defs::PathError;

verus! {

/// Why a payload could not be read or written.
#[derive(Debug, Clone, Copy, PartialEq, Eq, Structural)]
pub enum CodecError {
    /// The stream ends before the bytes to pass over do.
    SkipPastEnd,
    /// The stream holds fewer bytes than the header promises.
    ShortPayload,
    /// The compressed stream is refused by its decoder.
    Corrupt,
    /// The encoder reported an error.
    Compression,
    /// The encoding is neither raw, gzip nor bzip2.
    UnsupportedEncoding,
    /// A read from the end is asked for with a compressed encoding.
    TailNeedsRaw,
    /// The payload does not divide evenly among the files.
    UnevenSplit,
    /// A detached header names no file, or not as many as were handed in.
    FileCount,
    /// The data-file directive of a detached header does not say which
    /// files it names.
    Directive(PathError),
    /// The size of the payload does not fit the machine's word, or the
    /// header is of type `block` without a block size.
    PayloadSize,
    /// The bytes are not as many as the header's shape and type ask for.
    Length,
    /// Elements of type `block` have no numeric value.
    BlockElements,
}

/// A stream of bytes with a read position, as a file offers it.
pub struct ByteStream {
    data: Vec<u8>,
    pos: usize,
}

impl ByteStream {
    #[verifier::type_invariant]
    spec fn inv(self) -> bool {
        self.pos <= self.data.len()
    }

    /// All the bytes of the stream.
    pub closed spec fn bytes(&self) -> Seq<u8> {
        self.data@
    }

    /// The read position.
    pub closed spec fn position(&self) -> nat {
        self.pos as nat
    }

    /// The bytes from the read position on.
    pub open spec fn rest(&self) -> Seq<u8> {
        self.bytes().skip(self.position() as int)
    }

    /// A stream over `data`, positioned at its start.
    pub fn new(data: Vec<u8>) -> (s: ByteStream)
        ensures
            s.bytes() == data@,
            s.position() == 0,
    {
        ByteStream { data, pos: 0 }
    }

    /// The number of bytes of the stream.
    pub fn len(&self) -> (n: usize)
        ensures
            n == self.bytes().len(),
            self.position() <= n,
    {
        proof {
            use_type_invariant(self);
        }
        self.data.len()
    }

    /// The read position.
    pub fn pos(&self) -> (n: usize)
        ensures
            n == self.position(),
            n <= self.bytes().len(),
    {
        proof {
            use_type_invariant(self);
        }
        self.pos
    }

    /// Moves the read position to `to`, or to the end where `to` lies beyond it.
    pub fn seek(&mut self, to: u64)
        ensures
            final(self).bytes() == old(self).bytes(),
            final(self).position() == if to <= old(self).bytes().len() {
                to as nat
            } else {
                old(self).bytes().len()
            },
    {
        if to <= self.data.len() as u64 {
            self.pos = to as usize;
        } else {
            self.pos = self.data.len();
        }
    }

    /// A copy of the bytes from `from` up to `to`.
    pub fn slice(&self, from: usize, to: usize) -> (r: Vec<u8>)
        requires
            from <= to <= self.bytes().len(),
        ensures
            r@ == self.bytes().subrange(from as int, to as int),
    {
        copy_range(&self.data, from, to)
    }

    /// The byte at `i`.
    pub fn byte(&self, i: usize) -> (b: u8)
        requires
            i < self.bytes().len(),
        ensures
            b == self.bytes()[i as int],
    {
        self.data[i]
    }
}

/// Where the first blank line at or after the line that begins at `start`
/// lies, scanning from `i`: the index of its first byte and the index after
/// its last. A blank line is a line feed, or a carriage return and a line feed.
pub open spec fn blank_line_from(s: Seq<u8>, i: int, start: int) -> Option<(int, int)>
    decreases s.len() - i,
{
    if i < 0 || i >= s.len() {
        None
    } else if s[i] == 10 {
        if i == start || (i == start + 1 && s[start] == 13) {
            Some((start, i + 1))
        } else {
            blank_line_from(s, i + 1, i + 1)
        }
    } else {
        blank_line_from(s, i + 1, start)
    }
}

/// A copy of `data[from..to]`.
pub fn copy_range(data: &Vec<u8>, from: usize, to: usize) -> (r: Vec<u8>)
    requires
        from <= to <= data.len(),
    ensures
        r@ == data@.subrange(from as int, to as int),
{
    let mut r: Vec<u8> = Vec::new();
    let mut i: usize = from;
    while i < to
        invariant
            from <= i <= to <= data.len(),
            r@ == data@.subrange(from as int, i as int),
        decreases to - i,
    {
        r.push(data[i]);
        i += 1;
    }
    r
}

/// Reads the header part of a stream: the lines up to the first blank
/// line. The result is these lines, and the offset from where the read
/// began to the byte after the blank line, where there is one. The stream
/// is left after the blank line, or at its end.
pub fn read_until_blank(file: &mut ByteStream) -> (r: (Vec<u8>, Option<u64>))
    ensures
        final(file).bytes() == old(file).bytes(),
        match blank_line_from(
            old(file).bytes(),
            old(file).position() as int,
            old(file).position() as int,
        ) {
            Some(b) => {
                &&& r.0@ == old(file).bytes().subrange(old(file).position() as int, b.0)
                &&& r.1 == Some((b.1 - old(file).position()) as u64)
                &&& final(file).position() == b.1
            },
            None => {
                &&& r.0@ == old(file).rest()
                &&& r.1 is None
                &&& final(file).position() == old(file).bytes().len()
            },
        },
{
    proof {
        use_type_invariant(&*file);
    }
    let begin: usize = file.pos;
    let n: usize = file.data.len();
    let mut start: usize = begin;
    let mut i: usize = begin;
    while i < n
        invariant
            begin <= start <= i <= n == file.data.len(),
            file.data@ == old(file).data@,
            file.pos == begin == old(file).pos,
            blank_line_from(file.data@, begin as int, begin as int) == blank_line_from(
                file.data@,
                i as int,
                start as int,
            ),
        decreases n - i,
    {
        if file.data[i] == 10 {
            if i == start || (i == start + 1 && file.data[start] == 13) {
                let acc = copy_range(&file.data, begin, start);
                file.pos = i + 1;
                return (acc, Some((i + 1 - begin) as u64));
            }
            start = i + 1;
        }
        i += 1;
    }
    let acc = copy_range(&file.data, begin, n);
    file.pos = n;
    (acc, None)
}

/// The index after `n` lines that begin at `i`, or the end of the stream
/// where it holds fewer.
pub open spec fn after_lines(s: Seq<u8>, i: int, n: nat) -> int
    decreases s.len() - i,
{
    if n == 0 || i < 0 || i >= s.len() {
        i
    } else if s[i] == 10 {
        after_lines(s, i + 1, (n - 1) as nat)
    } else {
        after_lines(s, i + 1, n)
    }
}

/// Advances the stream to the byte after the `n_lines`th line from its
/// position, or to its end; gives the number of bytes passed over.
pub fn skip_lines(f: &mut ByteStream, n_lines: usize) -> (bytes: usize)
    ensures
        final(f).bytes() == old(f).bytes(),
        final(f).position() == after_lines(
            old(f).bytes(),
            old(f).position() as int,
            n_lines as nat,
        ),
        bytes == final(f).position() - old(f).position(),
{
    proof {
        use_type_invariant(&*f);
    }
    let begin: usize = f.pos;
    let n: usize = f.data.len();
    let mut left: usize = n_lines;
    let mut i: usize = begin;
    while left > 0 && i < n
        invariant
            begin <= i <= n == f.data.len(),
            f.data@ == old(f).data@,
            f.pos == begin == old(f).pos,
            after_lines(f.data@, begin as int, n_lines as nat) == after_lines(
                f.data@,
                i as int,
                left as nat,
            ),
        decreases n - i,
    {
        if f.data[i] == 10 {
            left -= 1;
        }
        i += 1;
    }
    f.pos = i;
    i - begin
}

/// The smaller of two numbers.
pub open spec fn least(a: int, b: int) -> int {
    if a <= b {
        a
    } else {
        b
    }
}

/// `dst` with `src` written over its beginning.
pub open spec fn overwritten(dst: Seq<u8>, src: Seq<u8>) -> Seq<u8>
    recommends
        src.len() <= dst.len(),
{
    src + dst.skip(src.len() as int)
}

/// Copies `data[from..from + count]` over the beginning of `dst`.
fn copy_over(dst: &mut Vec<u8>, data: &Vec<u8>, from: usize, count: usize)
    requires
        from + count <= data.len(),
        count <= old(dst).len(),
    ensures
        final(dst)@ == overwritten(old(dst)@, data@.subrange(from as int, from + count)),
{
    let mut k: usize = 0;
    while k < count
        invariant
            0 <= k <= count <= dst.len(),
            from + count <= data.len(),
            dst.len() == old(dst).len(),
            forall|j: int| 0 <= j < k ==> dst@[j] == data@[from + j],
            forall|j: int| k <= j < dst.len() ==> dst@[j] == old(dst)@[j],
        decreases count - k,
    {
        dst.set(k, data[from + k]);
        k += 1;
    }
    assert(dst@ =~= overwritten(old(dst)@, data@.subrange(from as int, from + count)));
}

/// Reads the end of the stream into the beginning of `bytes`: as many
/// bytes as `bytes` holds, or the whole stream where it is shorter. Gives
/// the number of bytes read, and leaves the stream at its end if any was.
pub fn read_tail(f: &mut ByteStream, bytes: &mut Vec<u8>) -> (read: usize)
    ensures
        final(f).bytes() == old(f).bytes(),
        read == least(old(bytes).len() as int, old(f).bytes().len() as int),
        final(bytes)@ == overwritten(
            old(bytes)@,
            old(f).bytes().skip(old(f).bytes().len() - read),
        ),
        final(f).position() == if read == 0 {
            old(f).position()
        } else {
            old(f).bytes().len()
        },
{
    proof {
        use_type_invariant(&*f);
    }
    let file_len: usize = f.data.len();
    let want: usize = bytes.len();
    if want == 0 || file_len == 0 {
        assert(bytes@ =~= overwritten(bytes@, f.data@.skip(file_len as int)));
        return 0;
    }
    let to_read: usize = if want <= file_len {
        want
    } else {
        file_len
    };
    copy_over(bytes, &f.data, file_len - to_read, to_read);
    assert(f.data@.subrange(file_len - to_read, file_len as int) =~= f.data@.skip(
        file_len - to_read,
    ));
    f.pos = file_len;
    to_read
}

/// Passes over `bytes_to_skip` bytes of the stream, then reads into the
/// beginning of `decompressed` until it is full or the stream ends. Gives
/// the number of bytes read. Nothing is read where the stream ends before
/// the bytes to pass over do.
pub fn read_with_skip(reader: &mut ByteStream, decompressed: &mut Vec<u8>, bytes_to_skip: usize) -> (r:
    Result<usize, CodecError>)
    ensures
        final(reader).bytes() == old(reader).bytes(),
        match r {
            Ok(written) => {
                &&& bytes_to_skip <= old(reader).rest().len()
                &&& written == least(
                    old(decompressed).len() as int,
                    old(reader).rest().len() - bytes_to_skip,
                )
                &&& final(decompressed)@ == overwritten(
                    old(decompressed)@,
                    old(reader).rest().subrange(bytes_to_skip as int, bytes_to_skip + written),
                )
                &&& final(reader).position() == old(reader).position() + bytes_to_skip + written
            },
            Err(e) => {
                &&& e == CodecError::SkipPastEnd
                &&& bytes_to_skip > old(reader).rest().len()
                &&& final(decompressed)@ == old(decompressed)@
                &&& final(reader).position() == old(reader).position()
            },
        },
{
    proof {
        use_type_invariant(&*reader);
    }
    let left: usize = reader.data.len() - reader.pos;
    if bytes_to_skip > left {
        return Err(CodecError::SkipPastEnd);
    }
    let from: usize = reader.pos + bytes_to_skip;
    let avail: usize = left - bytes_to_skip;
    let written: usize = if decompressed.len() <= avail {
        decompressed.len()
    } else {
        avail
    };
    copy_over(decompressed, &reader.data, from, written);
    assert(reader.data@.subrange(from as int, from + written) =~= reader.data@.skip(
        reader.pos as int,
    ).subrange(bytes_to_skip as int, bytes_to_skip + written));
    reader.pos = from + written;
    Ok(written)
}

/// Reads raw bytes: moves to `seek_to_raw` where one is given, then reads
/// as `read_with_skip` does.
pub fn read_raw(
    f: &mut ByteStream,
    seek_to_raw: Option<u64>,
    bytes: &mut Vec<u8>,
    bytes_to_skip: usize,
) -> (r: Result<usize, CodecError>)
    ensures
        final(f).bytes() == old(f).bytes(),
        ({
            let start: int = match seek_to_raw {
                Some(to) => least(to as int, old(f).bytes().len() as int),
                None => old(f).position() as int,
            };
            let rest = old(f).bytes().skip(start);
            match r {
                Ok(written) => {
                    &&& bytes_to_skip <= rest.len()
                    &&& written == least(old(bytes).len() as int, rest.len() - bytes_to_skip)
                    &&& final(bytes)@ == overwritten(
                        old(bytes)@,
                        rest.subrange(bytes_to_skip as int, bytes_to_skip + written),
                    )
                },
                Err(e) => {
                    &&& e == CodecError::SkipPastEnd
                    &&& bytes_to_skip > rest.len()
                    &&& final(bytes)@ == old(bytes)@
                },
            }
        }),
{
    match seek_to_raw {
        Some(to) => f.seek(to),
        None => {},
    }
    read_with_skip(f, bytes, bytes_to_skip)
}

/// The gzip stream that `flate2` makes of a payload at its default level,
/// where it makes one.
pub uninterp spec fn gzip_encoded(payload: Seq<u8>) -> Option<Seq<u8>>;

/// The payload that `flate2` reads from a gzip stream, where it accepts it.
pub uninterp spec fn gzip_decoded(stream: Seq<u8>) -> Option<Seq<u8>>;

/// The bzip2 stream that `bzip2` makes of a payload at its fastest level,
/// where it makes one.
pub uninterp spec fn bzip2_encoded(payload: Seq<u8>) -> Option<Seq<u8>>;

/// The payload that `bzip2` reads from a bzip2 stream, where it accepts it.
pub uninterp spec fn bzip2_decoded(stream: Seq<u8>) -> Option<Seq<u8>>;

/// `flate2::write::GzEncoder` over a vector, at the default level: one
/// `write_all` of the payload, then `finish`. The result is the encoder's
/// own, under the name `gzip_encoded`. Of it this is claimed: gzip is
/// lossless, so the stream decodes to the payload.
#[verifier::external_body]
fn gzip_encode(payload: &[u8]) -> (r: Option<Vec<u8>>)
    ensures
        match r {
            Some(v) => gzip_encoded(payload@) == Some(v@) && gzip_decoded(v@) == Some(payload@),
            None => gzip_encoded(payload@) is None,
        },
{
    let mut enc = flate2::write::GzEncoder::new(Vec::new(), flate2::Compression::default());
    enc.write_all(payload).ok()?;
    enc.finish().ok()
}

/// `flate2::write::GzDecoder` over a vector: one `write_all` of the
/// stream, then `finish`, which checks the stream's checksum. The result
/// is the decoder's own, under the name `gzip_decoded`.
#[verifier::external_body]
fn gzip_decode(stream: &[u8]) -> (r: Option<Vec<u8>>)
    ensures
        match r {
            Some(v) => gzip_decoded(stream@) == Some(v@),
            None => gzip_decoded(stream@) is None,
        },
{
    let mut dec = flate2::write::GzDecoder::new(Vec::new());
    dec.write_all(stream).ok()?;
    dec.finish().ok()
}

/// `bzip2::write::BzEncoder` over a vector, at the fastest level: one
/// `write_all` of the payload, then `finish`. The result is the encoder's
/// own, under the name `bzip2_encoded`. Of it this is claimed: bzip2 is
/// lossless, so the stream decodes to the payload.
#[verifier::external_body]
fn bzip2_encode(payload: &[u8]) -> (r: Option<Vec<u8>>)
    ensures
        match r {
            Some(v) => bzip2_encoded(payload@) == Some(v@) && bzip2_decoded(v@) == Some(payload@),
            None => bzip2_encoded(payload@) is None,
        },
{
    let mut enc = bzip2::write::BzEncoder::new(Vec::new(), bzip2::Compression::fast());
    enc.write_all(payload).ok()?;
    enc.finish().ok()
}

/// `bzip2::read::BzDecoder` over a slice, read to its end. The result is
/// the decoder's own, under the name `bzip2_decoded`.
#[verifier::external_body]
fn bzip2_decode(stream: &[u8]) -> (r: Option<Vec<u8>>)
    ensures
        match r {
            Some(v) => bzip2_decoded(stream@) == Some(v@),
            None => bzip2_decoded(stream@) is None,
        },
{
    let mut out = Vec::new();
    bzip2::read::BzDecoder::new(stream).read_to_end(&mut out).ok()?;
    Some(out)
}

/// The whole payload of a gzip stream, where the decoder accepts it.
pub fn decode_gzip(stream: &[u8]) -> (r: Option<Vec<u8>>)
    ensures
        match r {
            Some(v) => gzip_decoded(stream@) == Some(v@),
            None => gzip_decoded(stream@) is None,
        },
{
    gzip_decode(stream)
}

/// The whole payload of a bzip2 stream, where the decoder accepts it.
pub fn decode_bzip2(stream: &[u8]) -> (r: Option<Vec<u8>>)
    ensures
        match r {
            Some(v) => bzip2_decoded(stream@) == Some(v@),
            None => bzip2_decoded(stream@) is None,
        },
{
    bzip2_decode(stream)
}

/// What reading `count` bytes at the most gives, after `skip` bytes of
/// `content` are passed over.
pub open spec fn skipped_read(content: Seq<u8>, skip: nat, count: nat) -> Result<Seq<u8>, CodecError> {
    if skip > content.len() {
        Err(CodecError::SkipPastEnd)
    } else {
        Ok(content.subrange(skip as int, skip + least(count as int, content.len() - skip)))
    }
}

/// Reads from a decoded stream into the beginning of `bytes`.
fn read_decoded(content: Vec<u8>, bytes: &mut Vec<u8>, bytes_to_skip: usize) -> (r: Result<
    usize,
    CodecError,
>)
    ensures
        match skipped_read(content@, bytes_to_skip as nat, old(bytes).len() as nat) {
            Ok(read) => r == Ok::<usize, CodecError>(read.len() as usize) && final(bytes)@
                == overwritten(old(bytes)@, read),
            Err(e) => r == Err::<usize, CodecError>(e) && final(bytes)@ == old(bytes)@,
        },
{
    let mut inner = ByteStream::new(content);
    assert(inner.rest() =~= content@);
    read_with_skip(&mut inner, bytes, bytes_to_skip)
}

/// The start of a read: the place sought, or the position of the stream.
pub open spec fn read_start(f: ByteStream, seek_to: Option<u64>) -> int {
    match seek_to {
        Some(to) => least(to as int, f.bytes().len() as int),
        None => f.position() as int,
    }
}

/// Reads a gzip stream: moves to `seek_to_raw_compressed` where one is
/// given, decodes the stream from there to its end, passes over
/// `bytes_to_skip` decoded bytes and reads into the beginning of
/// `decompressed`. Gives the number of bytes read.
pub fn read_gzip(
    f: &mut ByteStream,
    seek_to_raw_compressed: Option<u64>,
    decompressed: &mut Vec<u8>,
    bytes_to_skip: usize,
) -> (r: Result<usize, CodecError>)
    ensures
        final(f).bytes() == old(f).bytes(),
        match gzip_decoded(old(f).bytes().skip(read_start(*old(f), seek_to_raw_compressed))) {
            None => r == Err::<usize, CodecError>(CodecError::Corrupt) && final(decompressed)@
                == old(decompressed)@,
            Some(content) => match skipped_read(
                content,
                bytes_to_skip as nat,
                old(decompressed).len() as nat,
            ) {
                Ok(read) => r == Ok::<usize, CodecError>(read.len() as usize) && final(decompressed)@ == overwritten(old(decompressed)@, read),
                Err(e) => r == Err::<usize, CodecError>(e) && final(decompressed)@ == old(decompressed)@,
            },
        },
{
    match seek_to_raw_compressed {
        Some(to) => f.seek(to),
        None => {},
    }
    let from: usize = f.pos();
    let n: usize = f.len();
    let stream = copy_range(&f.data, from, n);
    assert(stream@ =~= f.bytes().skip(from as int));
    f.seek(n as u64);
    match gzip_decode(stream.as_slice()) {
        None => Err(CodecError::Corrupt),
        Some(content) => read_decoded(content, decompressed, bytes_to_skip),
    }
}

/// Reads a bzip2 stream, as `read_gzip` reads a gzip stream.
pub fn read_bzip2(
    f: &mut ByteStream,
    seek_to_raw_compressed: Option<u64>,
    decompressed: &mut Vec<u8>,
    bytes_to_skip: usize,
) -> (r: Result<usize, CodecError>)
    ensures
        final(f).bytes() == old(f).bytes(),
        match bzip2_decoded(old(f).bytes().skip(read_start(*old(f), seek_to_raw_compressed))) {
            None => r == Err::<usize, CodecError>(CodecError::Corrupt) && final(decompressed)@
                == old(decompressed)@,
            Some(content) => match skipped_read(
                content,
                bytes_to_skip as nat,
                old(decompressed).len() as nat,
            ) {
                Ok(read) => r == Ok::<usize, CodecError>(read.len() as usize) && final(decompressed)@ == overwritten(old(decompressed)@, read),
                Err(e) => r == Err::<usize, CodecError>(e) && final(decompressed)@ == old(decompressed)@,
            },
        },
{
    match seek_to_raw_compressed {
        Some(to) => f.seek(to),
        None => {},
    }
    let from: usize = f.pos();
    let n: usize = f.len();
    let stream = copy_range(&f.data, from, n);
    assert(stream@ =~= f.bytes().skip(from as int));
    f.seek(n as u64);
    match bzip2_decode(stream.as_slice()) {
        None => Err(CodecError::Corrupt),
        Some(content) => read_decoded(content, decompressed, bytes_to_skip),
    }
}

/// Appends `src` to `out`.
pub fn append_bytes(out: &mut Vec<u8>, src: &[u8])
    ensures
        final(out)@ == old(out)@ + src@,
{
    let mut i: usize = 0;
    while i < src.len()
        invariant
            0 <= i <= src.len(),
            out@ == old(out)@ + src@.take(i as int),
        decreases src.len() - i,
    {
        out.push(src[i]);
        assert(src@.take(i + 1) =~= src@.take(i as int).push(src@[i as int]));
        i += 1;
    }
    assert(src@.take(src.len() as int) =~= src@);
}

/// Writes the payload as it is.
pub fn write_raw(f: &mut Vec<u8>, payload: &[u8])
    ensures
        final(f)@ == old(f)@ + payload@,
{
    append_bytes(f, payload);
}

/// Writes the payload as a gzip stream. What is written decodes to the
/// payload. Nothing is written where the encoder fails.
pub fn write_gzip(f: &mut Vec<u8>, payload: &[u8]) -> (r: Result<(), CodecError>)
    ensures
        match r {
            Ok(_) => {
                &&& gzip_encoded(payload@) matches Some(stream)
                &&& final(f)@ == old(f)@ + stream
                &&& gzip_decoded(stream) == Some(payload@)
            },
            Err(e) => {
                &&& e == CodecError::Compression
                &&& gzip_encoded(payload@) is None
                &&& final(f)@ == old(f)@
            },
        },
{
    match gzip_encode(payload) {
        Some(stream) => {
            append_bytes(f, stream.as_slice());
            Ok(())
        },
        None => Err(CodecError::Compression),
    }
}

/// Writes the payload as a bzip2 stream. What is written decodes to the
/// payload. Nothing is written where the encoder fails.
pub fn write_bzip2(f: &mut Vec<u8>, payload: &[u8]) -> (r: Result<(), CodecError>)
    ensures
        match r {
            Ok(_) => {
                &&& bzip2_encoded(payload@) matches Some(stream)
                &&& final(f)@ == old(f)@ + stream
                &&& bzip2_decoded(stream) == Some(payload@)
            },
            Err(e) => {
                &&& e == CodecError::Compression
                &&& bzip2_encoded(payload@) is None
                &&& final(f)@ == old(f)@
            },
        },
{
    match bzip2_encode(payload) {
        Some(stream) => {
            append_bytes(f, stream.as_slice());
            Ok(())
        },
        None => Err(CodecError::Compression),
    }
}

} // verus!
