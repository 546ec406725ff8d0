use nrrd_rs::elements::{decode_elements, Elements};
use nrrd_rs::header_defs::{
    BlockSize, ByteSkip, DType, DataFile, Encoding, Endian, LineSkip, PathError,
};
use nrrd_rs::io::{
    read_bzip2, read_gzip, read_raw, read_tail, read_until_blank, read_with_skip, skip_lines,
    write_bzip2, write_gzip, write_raw, ByteStream, CodecError,
};
use nrrd_rs::payload::{decode, encode, read_attached, read_chunk, read_detached, ReadPlan};
use nrrd_rs::{read_header, read_header_lines, read_nrrd_to, read_payload, write_nrrd, NrrdError, NRRD};
use std::io::{Read, Write};

fn gz(payload: &[u8]) -> Vec<u8> {
    let mut out = Vec::new();
    write_gzip(&mut out, payload).unwrap();
    out
}

fn bz(payload: &[u8]) -> Vec<u8> {
    let mut out = Vec::new();
    write_bzip2(&mut out, payload).unwrap();
    out
}

#[test]
fn header_ends_at_the_first_blank_line() {
    let mut f = ByteStream::new(b"NRRD0004\ntype: float\n\npayload\n\nmore".to_vec());
    let (head, off) = read_until_blank(&mut f);
    assert_eq!(head, b"NRRD0004\ntype: float\n".to_vec());
    assert_eq!(off, Some(22));
    assert_eq!(f.pos(), 22);
    let (next, off) = read_until_blank(&mut f);
    assert_eq!(next, b"payload\n".to_vec());
    assert_eq!(off, Some(9));
    assert_eq!(f.pos(), 31);
    let (last, off) = read_until_blank(&mut f);
    assert_eq!(last, b"more".to_vec());
    assert_eq!(off, None);
    assert_eq!(f.pos(), f.len());
    let mut crlf = ByteStream::new(b"a\r\nb\r\n\r\nrest".to_vec());
    let (head, off) = read_until_blank(&mut crlf);
    assert_eq!(head, b"a\r\nb\r\n".to_vec());
    assert_eq!(off, Some(8));
    let mut first = ByteStream::new(b"\nrest".to_vec());
    assert_eq!(read_until_blank(&mut first), (vec![], Some(1)));
    let mut empty = ByteStream::new(vec![]);
    assert_eq!(read_until_blank(&mut empty), (vec![], None));
    let mut lone = ByteStream::new(b"a\r\n\rb\n".to_vec());
    assert_eq!(read_until_blank(&mut lone), (b"a\r\n\rb\n".to_vec(), None));
}

#[test]
fn lines_are_passed_over() {
    let mut f = ByteStream::new(b"one\ntwo\nthree".to_vec());
    assert_eq!(skip_lines(&mut f, 0), 0);
    assert_eq!(f.pos(), 0);
    assert_eq!(skip_lines(&mut f, 1), 4);
    assert_eq!(f.pos(), 4);
    assert_eq!(skip_lines(&mut f, 5), 9);
    assert_eq!(f.pos(), 13);
    assert_eq!(skip_lines(&mut f, 1), 0);
    let mut g = ByteStream::new(b"\n\n\nx".to_vec());
    assert_eq!(skip_lines(&mut g, 2), 2);
}

#[test]
fn the_end_of_a_stream_is_read() {
    let mut f = ByteStream::new(vec![1, 2, 3, 4, 5]);
    let mut two = vec![0u8; 2];
    assert_eq!(read_tail(&mut f, &mut two), 2);
    assert_eq!(two, vec![4, 5]);
    assert_eq!(f.pos(), 5);
    let mut many = vec![9u8; 7];
    assert_eq!(read_tail(&mut f, &mut many), 5);
    assert_eq!(many, vec![1, 2, 3, 4, 5, 9, 9]);
    let mut none: Vec<u8> = vec![];
    f.seek(1);
    assert_eq!(read_tail(&mut f, &mut none), 0);
    assert_eq!(f.pos(), 1);
    let mut empty = ByteStream::new(vec![]);
    assert_eq!(read_tail(&mut empty, &mut many), 0);
    assert_eq!(many, vec![1, 2, 3, 4, 5, 9, 9]);
}

#[test]
fn bytes_are_passed_over_before_a_read() {
    let mut f = ByteStream::new(vec![1, 2, 3, 4, 5, 6]);
    let mut buf = vec![0u8; 3];
    assert_eq!(read_with_skip(&mut f, &mut buf, 2), Ok(3));
    assert_eq!(buf, vec![3, 4, 5]);
    assert_eq!(f.pos(), 5);
    let mut more = vec![7u8; 3];
    assert_eq!(read_with_skip(&mut f, &mut more, 0), Ok(1));
    assert_eq!(more, vec![6, 7, 7]);
    assert_eq!(read_with_skip(&mut f, &mut more, 0), Ok(0));
    assert_eq!(read_with_skip(&mut f, &mut more, 1), Err(CodecError::SkipPastEnd));
    assert_eq!(more, vec![6, 7, 7]);
    let mut g = ByteStream::new(vec![1, 2, 3]);
    assert_eq!(read_with_skip(&mut g, &mut more, 3), Ok(0));
    assert_eq!(g.pos(), 3);
    let mut r = ByteStream::new(vec![1, 2, 3, 4]);
    assert_eq!(read_raw(&mut r, Some(1), &mut buf, 1), Ok(2));
    assert_eq!(buf, vec![3, 4, 5]);
    assert_eq!(read_raw(&mut r, Some(99), &mut buf, 0), Ok(0));
    assert_eq!(read_raw(&mut r, Some(0), &mut buf, 5), Err(CodecError::SkipPastEnd));
}

#[test]
fn every_encoding_gives_the_payload_back() {
    let samples: Vec<Vec<u8>> = vec![
        vec![],
        vec![0],
        (0..=255u8).collect(),
        vec![7u8; 10_000],
        (0..50_000u32).map(|i| (i * 2654435761u32 >> 24) as u8).collect(),
    ];
    for payload in samples {
        let mut raw = Vec::new();
        write_raw(&mut raw, &payload);
        assert_eq!(raw, payload);
        for encoding in [Encoding::raw, Encoding::rawgz, Encoding::rawbz2] {
            let mut stored = b"kept".to_vec();
            encoding.write_payload(&mut stored, &payload).unwrap();
            assert_eq!(&stored[..4], b"kept");
            let mut f = ByteStream::new(stored);
            f.seek(4);
            let mut back = vec![1u8; payload.len()];
            let read = match encoding {
                Encoding::raw => read_raw(&mut f, None, &mut back, 0),
                Encoding::rawgz => read_gzip(&mut f, None, &mut back, 0),
                _ => read_bzip2(&mut f, None, &mut back, 0),
            };
            assert_eq!(read, Ok(payload.len()));
            assert_eq!(back, payload);
        }
    }
    let mut out = Vec::new();
    assert_eq!(Encoding::txt.write_payload(&mut out, &[1]), Err(CodecError::UnsupportedEncoding));
    assert_eq!(Encoding::hex.write_payload(&mut out, &[1]), Err(CodecError::UnsupportedEncoding));
    assert!(out.is_empty());
}

#[test]
fn compressed_streams_are_those_of_their_formats() {
    let payload: Vec<u8> = (0..2000u32).map(|i| (i % 7) as u8).collect();
    let stored = gz(&payload);
    assert_eq!(&stored[..2], &[0x1f, 0x8b]);
    let mut back = Vec::new();
    flate2::read::GzDecoder::new(&stored[..]).read_to_end(&mut back).unwrap();
    assert_eq!(back, payload);
    let stored = bz(&payload);
    assert_eq!(&stored[..3], b"BZh");
    let mut back = Vec::new();
    bzip2::read::BzDecoder::new(&stored[..]).read_to_end(&mut back).unwrap();
    assert_eq!(back, payload);
    let mut enc = flate2::write::GzEncoder::new(Vec::new(), flate2::Compression::best());
    enc.write_all(&payload).unwrap();
    let mut f = ByteStream::new(enc.finish().unwrap());
    let mut buf = vec![0u8; 10];
    assert_eq!(read_gzip(&mut f, None, &mut buf, 7), Ok(10));
    assert_eq!(buf, payload[7..17].to_vec());
}

#[test]
fn skips_count_decoded_bytes() {
    let payload: Vec<u8> = (0..100u8).collect();
    let mut f = ByteStream::new(gz(&payload));
    let mut buf = vec![0u8; 10];
    assert_eq!(read_gzip(&mut f, Some(0), &mut buf, 90), Ok(10));
    assert_eq!(buf, (90..100u8).collect::<Vec<u8>>());
    assert_eq!(read_gzip(&mut f, Some(0), &mut buf, 95), Ok(5));
    assert_eq!(&buf[..5], &[95, 96, 97, 98, 99]);
    assert_eq!(read_gzip(&mut f, Some(0), &mut buf, 101), Err(CodecError::SkipPastEnd));
    let mut b = ByteStream::new(bz(&payload));
    assert_eq!(read_bzip2(&mut b, None, &mut buf, 50), Ok(10));
    assert_eq!(buf, (50..60u8).collect::<Vec<u8>>());
}

#[test]
fn corrupt_streams_are_refused() {
    let mut f = ByteStream::new(b"not a gzip stream at all".to_vec());
    let mut buf = vec![5u8; 4];
    assert_eq!(read_gzip(&mut f, None, &mut buf, 0), Err(CodecError::Corrupt));
    assert_eq!(buf, vec![5u8; 4]);
    let mut g = ByteStream::new(b"not a bzip2 stream at all".to_vec());
    assert_eq!(read_bzip2(&mut g, None, &mut buf, 0), Err(CodecError::Corrupt));
    let mut cut = gz(&[1, 2, 3, 4, 5, 6, 7, 8]);
    cut.truncate(cut.len() - 4);
    let mut h = ByteStream::new(cut);
    assert_eq!(read_gzip(&mut h, None, &mut buf, 0), Err(CodecError::Corrupt));
    let mut empty = ByteStream::new(vec![]);
    assert_eq!(read_gzip(&mut empty, None, &mut buf, 0), Err(CodecError::Corrupt));
}

#[test]
fn elements_of_every_type_and_order() {
    let bytes: Vec<u8> = vec![0x01, 0x02, 0x03, 0x04, 0xfe, 0xff, 0xff, 0xff];
    assert_eq!(
        decode_elements(&bytes, DType::uint8, Endian::Big),
        Ok(Elements::UInt8(vec![1, 2, 3, 4, 254, 255, 255, 255]))
    );
    assert_eq!(
        decode_elements(&bytes, DType::int8, Endian::Little),
        Ok(Elements::Int8(vec![1, 2, 3, 4, -2, -1, -1, -1]))
    );
    assert_eq!(
        decode_elements(&bytes, DType::uint16, Endian::Big),
        Ok(Elements::UInt16(vec![0x0102, 0x0304, 0xfeff, 0xffff]))
    );
    assert_eq!(
        decode_elements(&bytes, DType::uint16, Endian::Little),
        Ok(Elements::UInt16(vec![0x0201, 0x0403, 0xfffe, 0xffff]))
    );
    assert_eq!(
        decode_elements(&bytes, DType::int16, Endian::Big),
        Ok(Elements::Int16(vec![0x0102, 0x0304, -257, -1]))
    );
    assert_eq!(
        decode_elements(&bytes, DType::int16, Endian::Little),
        Ok(Elements::Int16(vec![0x0201, 0x0403, -2, -1]))
    );
    assert_eq!(
        decode_elements(&bytes, DType::uint32, Endian::Big),
        Ok(Elements::UInt32(vec![0x01020304, 0xfeffffff]))
    );
    assert_eq!(
        decode_elements(&bytes, DType::uint32, Endian::Little),
        Ok(Elements::UInt32(vec![0x04030201, 0xfffffffe]))
    );
    assert_eq!(
        decode_elements(&bytes, DType::int32, Endian::Big),
        Ok(Elements::Int32(vec![0x01020304, -16777217]))
    );
    assert_eq!(
        decode_elements(&bytes, DType::int32, Endian::Little),
        Ok(Elements::Int32(vec![0x04030201, -2]))
    );
    assert_eq!(
        decode_elements(&bytes, DType::uint64, Endian::Big),
        Ok(Elements::UInt64(vec![0x01020304feffffff]))
    );
    assert_eq!(
        decode_elements(&bytes, DType::uint64, Endian::Little),
        Ok(Elements::UInt64(vec![0xfffffffe04030201]))
    );
    assert_eq!(
        decode_elements(&bytes, DType::int64, Endian::Big),
        Ok(Elements::Int64(vec![0x01020304feffffff]))
    );
    assert_eq!(
        decode_elements(&bytes, DType::int64, Endian::Little),
        Ok(Elements::Int64(vec![i64::from_le_bytes([0x01, 0x02, 0x03, 0x04, 0xfe, 0xff, 0xff, 0xff])]))
    );
    assert_eq!(
        decode_elements(&1.5f32.to_be_bytes(), DType::float, Endian::Big),
        Ok(Elements::Float(vec![1.5f32.to_bits()]))
    );
    assert_eq!(
        decode_elements(&(-2.25f64).to_le_bytes(), DType::double, Endian::Little),
        Ok(Elements::Double(vec![(-2.25f64).to_bits()]))
    );
    assert_eq!(decode_elements(&bytes, DType::Block, Endian::Big), Err(CodecError::BlockElements));
    assert_eq!(decode_elements(&bytes[..7], DType::int16, Endian::Big), Err(CodecError::Length));
    assert_eq!(decode_elements(&bytes[..6], DType::double, Endian::Big), Err(CodecError::Length));
    assert_eq!(decode_elements(&[], DType::double, Endian::Big), Ok(Elements::Double(vec![])));
}

#[test]
fn elements_are_written_as_std_writes_them() {
    let e = Elements::Int16(vec![0, 1, -1, i16::MIN, i16::MAX, 258]);
    let be: Vec<u8> = [0i16, 1, -1, i16::MIN, i16::MAX, 258].iter().flat_map(|x| x.to_be_bytes()).collect();
    let le: Vec<u8> = [0i16, 1, -1, i16::MIN, i16::MAX, 258].iter().flat_map(|x| x.to_le_bytes()).collect();
    assert_eq!(e.to_bytes(Endian::Big), be);
    assert_eq!(e.to_bytes(Endian::Little), le);
    let q = Elements::Int64(vec![i64::MIN, -1, 0x0102030405060708]);
    let be: Vec<u8> = [i64::MIN, -1, 0x0102030405060708].iter().flat_map(|x| x.to_be_bytes()).collect();
    assert_eq!(q.to_bytes(Endian::Big), be);
    let u = Elements::UInt32(vec![0xdeadbeef]);
    assert_eq!(u.to_bytes(Endian::Big), vec![0xde, 0xad, 0xbe, 0xef]);
    assert_eq!(u.to_bytes(Endian::Little), vec![0xef, 0xbe, 0xad, 0xde]);
    let f = Elements::Double(vec![1.5f64.to_bits()]);
    assert_eq!(f.to_bytes(Endian::Little), 1.5f64.to_le_bytes().to_vec());
    assert_eq!(Elements::Int8(vec![-1, 1]).to_bytes(Endian::Big), vec![255, 1]);
    assert_eq!(f.dtype(), DType::double);
    assert_eq!(q.len(), 3);
}

#[test]
fn elements_survive_their_bytes() {
    let all = vec![
        Elements::Int8(vec![i8::MIN, -1, 0, 1, i8::MAX]),
        Elements::UInt8(vec![0, 1, 255]),
        Elements::Int16(vec![i16::MIN, -1, 0, 1, i16::MAX]),
        Elements::UInt16(vec![0, 1, u16::MAX]),
        Elements::Int32(vec![i32::MIN, -1, 0, 1, i32::MAX]),
        Elements::UInt32(vec![0, 1, u32::MAX]),
        Elements::Int64(vec![i64::MIN, -1, 0, 1, i64::MAX]),
        Elements::UInt64(vec![0, 1, u64::MAX]),
        Elements::Float(vec![0, 1.5f32.to_bits(), f32::NAN.to_bits(), u32::MAX]),
        Elements::Double(vec![0, 1.5f64.to_bits(), f64::NEG_INFINITY.to_bits(), u64::MAX]),
    ];
    for e in all {
        for endian in [Endian::Big, Endian::Little] {
            let bytes = e.to_bytes(endian);
            assert_eq!(bytes.len(), e.len() * e.dtype().size());
            assert_eq!(decode_elements(&bytes, e.dtype(), endian), Ok(e.clone()));
        }
    }
}

fn header(dtype: DType, dims: &[usize], encoding: Encoding) -> NRRD {
    let mut h = NRRD::new_from_type_dims(dtype, dims);
    h.encoding = encoding;
    h
}

/// A header whose directive lists `n` files.
fn detached(dtype: DType, dims: &[usize], encoding: Encoding, n: usize) -> NRRD {
    let mut h = header(dtype, dims, encoding);
    h.data_file = Some(DataFile::List {
        sub_dim: None,
        file_paths: (0..n).map(|i| format!("part_{}.raw", i)).collect(),
    });
    h
}

#[test]
fn plans_are_refused_before_any_stream_is_read() {
    let h = header(DType::uint16, &[3, 4], Encoding::raw);
    let plan = h.read_plan(3).unwrap();
    assert_eq!(
        plan,
        ReadPlan { total: 24, per_file: 8, line_skip: 0, byte_skip: 0, tail: false, encoding: Encoding::raw }
    );
    assert_eq!(h.read_plan(1).unwrap().per_file, 24);
    assert_eq!(h.read_plan(5), Err(CodecError::UnevenSplit));
    assert_eq!(h.read_plan(0), Err(CodecError::FileCount));
    assert_eq!(header(DType::uint16, &[3, 4], Encoding::txt).read_plan(1), Err(CodecError::UnsupportedEncoding));
    assert_eq!(header(DType::uint16, &[3, 4], Encoding::hex).read_plan(1), Err(CodecError::UnsupportedEncoding));
    assert_eq!(header(DType::Block, &[3, 4], Encoding::raw).read_plan(1), Err(CodecError::PayloadSize));
    assert_eq!(header(DType::uint16, &[usize::MAX], Encoding::raw).read_plan(1), Err(CodecError::PayloadSize));
    let mut skipping = header(DType::uint8, &[6], Encoding::rawgz);
    skipping.line_skip = Some(LineSkip::new(2));
    skipping.byte_skip = Some(ByteSkip::skip(5));
    let plan = skipping.read_plan(2).unwrap();
    assert_eq!((plan.per_file, plan.line_skip, plan.byte_skip, plan.tail), (3, 2, 5, false));
    let mut blocks = header(DType::Block, &[3], Encoding::raw);
    blocks.block_size = Some(BlockSize::new(5));
    assert_eq!(blocks.read_plan(1).unwrap().total, 15);
}

#[test]
fn a_read_from_the_end_needs_the_raw_encoding() {
    for encoding in [Encoding::rawgz, Encoding::rawbz2] {
        let mut h = header(DType::uint8, &[4], encoding);
        h.byte_skip = Some(ByteSkip::rev);
        assert_eq!(h.read_plan(1), Err(CodecError::TailNeedsRaw));
        let mut f = ByteStream::new(b"this is no compressed stream".to_vec());
        f.seek(3);
        assert_eq!(read_attached(&h, &mut f), Err(CodecError::TailNeedsRaw));
        assert_eq!(f.pos(), 3);
        let mut files = vec![ByteStream::new(gz(&[1, 2, 3, 4]))];
        h.data_file = Some(DataFile::SingleFile { filename: "a.raw.gz".to_string() });
        assert_eq!(read_detached(&h, &mut files), Err(CodecError::TailNeedsRaw));
        assert_eq!(files[0].pos(), 0);
    }
    let mut raw = header(DType::uint8, &[4], Encoding::raw);
    raw.byte_skip = Some(ByteSkip::rev);
    let mut f = ByteStream::new(b"some junk in front\n1234".to_vec());
    assert_eq!(read_attached(&raw, &mut f), Ok(b"1234".to_vec()));
    let mut short = ByteStream::new(b"123".to_vec());
    assert_eq!(read_attached(&raw, &mut short), Err(CodecError::ShortPayload));
}

#[test]
fn detached_payload_is_the_parts_in_order() {
    let h = detached(DType::uint16, &[2, 3], Encoding::raw, 3);
    let mut files = vec![
        ByteStream::new(vec![1, 2, 3, 4]),
        ByteStream::new(vec![5, 6, 7, 8, 99]),
        ByteStream::new(vec![9, 10, 11, 12]),
    ];
    let bytes = read_detached(&h, &mut files).unwrap();
    assert_eq!(bytes, vec![1, 2, 3, 4, 5, 6, 7, 8, 9, 10, 11, 12]);
    assert_eq!(bytes.len(), h.expected_bytes().unwrap());
    let mut swapped = vec![
        ByteStream::new(vec![9, 10, 11, 12]),
        ByteStream::new(vec![1, 2, 3, 4]),
        ByteStream::new(vec![5, 6, 7, 8]),
    ];
    assert_eq!(read_detached(&h, &mut swapped).unwrap(), vec![9, 10, 11, 12, 1, 2, 3, 4, 5, 6, 7, 8]);
    let single = detached(DType::uint16, &[2, 3], Encoding::raw, 1);
    let mut one = vec![ByteStream::new((1..=12).collect())];
    assert_eq!(read_detached(&single, &mut one).unwrap(), (1..=12).collect::<Vec<u8>>());
}

#[test]
fn uneven_split_fails_before_any_stream_is_read() {
    let h = detached(DType::uint16, &[2, 3], Encoding::raw, 5);
    let mut files: Vec<ByteStream> = (0..5).map(|_| ByteStream::new(vec![0u8; 12])).collect();
    assert_eq!(read_detached(&h, &mut files), Err(CodecError::UnevenSplit));
    assert!(files.iter().all(|f| f.pos() == 0));
    assert_eq!(h.detached_plan(5), Err(CodecError::UnevenSplit));
    let empty = detached(DType::uint16, &[2, 3], Encoding::raw, 0);
    let mut none: Vec<ByteStream> = vec![];
    assert_eq!(read_detached(&empty, &mut none), Err(CodecError::FileCount));
    let h7 = detached(DType::uint16, &[2, 3], Encoding::raw, 7);
    let mut seven: Vec<ByteStream> = (0..7).map(|_| ByteStream::new(vec![0u8; 12])).collect();
    assert_eq!(read_detached(&h7, &mut seven), Err(CodecError::UnevenSplit));
}

#[test]
fn a_short_part_refuses_the_payload() {
    let h = detached(DType::uint16, &[2, 3], Encoding::raw, 2);
    let mut files = vec![
        ByteStream::new(vec![1, 2, 3, 4, 5, 6]),
        ByteStream::new(vec![7, 8, 9, 10, 11]),
    ];
    assert_eq!(read_detached(&h, &mut files), Err(CodecError::ShortPayload));
    let gzh = detached(DType::uint8, &[4], Encoding::rawgz, 2);
    let mut bad = vec![ByteStream::new(gz(&[1, 2])), ByteStream::new(b"junk".to_vec())];
    assert_eq!(read_detached(&gzh, &mut bad), Err(CodecError::Corrupt));
    let mut short = vec![ByteStream::new(gz(&[1, 2])), ByteStream::new(gz(&[3]))];
    assert_eq!(read_detached(&gzh, &mut short), Err(CodecError::ShortPayload));
}

#[test]
fn parts_with_lines_and_bytes_to_pass_over() {
    let mut h = detached(DType::uint8, &[2, 2], Encoding::rawbz2, 2);
    h.line_skip = Some(LineSkip::new(1));
    h.byte_skip = Some(ByteSkip::skip(3));
    let mut first = b"a line\n".to_vec();
    first.extend(bz(&[0, 0, 0, 1, 2, 77]));
    let mut second = b"\n".to_vec();
    second.extend(bz(&[0, 0, 0, 3, 4]));
    let mut files = vec![ByteStream::new(first), ByteStream::new(second)];
    assert_eq!(read_detached(&h, &mut files), Ok(vec![1, 2, 3, 4]));
    let plan = h.read_plan(2).unwrap();
    let mut past = ByteStream::new({
        let mut v = b"x\n".to_vec();
        v.extend(bz(&[0, 0]));
        v
    });
    assert_eq!(read_chunk(&plan, &mut past), Err(CodecError::SkipPastEnd));
}

#[test]
fn attached_files_are_read_whole() {
    let text = "NRRD0004\ndimension: 2\ntype: uint16\nencoding: raw\nendian: big\nsizes: 2 2\n\n";
    let mut file = text.as_bytes().to_vec();
    file.extend([0u8, 1, 0, 2, 0, 3, 1, 0]);
    let mut f = ByteStream::new(file.clone());
    let h = read_header(&mut f).unwrap();
    assert_eq!(f.pos(), text.len());
    assert_eq!(h.shape(), &vec![2, 2]);
    let mut f = ByteStream::new(file.clone());
    let (bytes, _h) = read_payload(&mut f, &mut vec![]).unwrap();
    assert_eq!(bytes, vec![0u8, 1, 0, 2, 0, 3, 1, 0]);
    let mut f = ByteStream::new(file.clone());
    let (elements, h) = read_nrrd_to(&mut f, &mut vec![]).unwrap();
    assert_eq!(elements, Elements::UInt16(vec![1, 2, 3, 256]));
    assert_eq!(h.endian, Endian::Big);
    file.pop();
    let mut f = ByteStream::new(file);
    assert_eq!(read_payload(&mut f, &mut vec![]).err(), Some(NrrdError::Codec(CodecError::ShortPayload)));
}

#[test]
fn headers_with_unknown_lines_and_bad_text() {
    let text = "NRRD0004\r\ndimension: 1\r\ntype: int8\r\nencoding: raw\r\nendian: little\r\nsizes: 3\r\nfuture field: 1\r\n\r\nabc";
    let mut f = ByteStream::new(text.as_bytes().to_vec());
    let (h, rest) = read_header_lines(&mut f).unwrap();
    assert_eq!(rest, vec!["future field: 1".to_string()]);
    assert_eq!(f.pos(), text.len() - 3);
    assert_eq!(read_attached(&h, &mut f), Ok(b"abc".to_vec()));
    let mut bad = ByteStream::new(vec![b'N', b'R', b'R', b'D', 0xff, b'\n', b'\n']);
    assert_eq!(read_header(&mut bad).err(), Some(NrrdError::NotUtf8));
    let mut wrong = ByteStream::new(b"NRRD0004\ndimension: x\n\n".to_vec());
    assert_eq!(
        read_header(&mut wrong).err(),
        Some(NrrdError::Header(nrrd_rs::header_defs::HeaderError::Malformed(
            nrrd_rs::header_defs::Field::Dimension
        )))
    );
    let mut blocks = ByteStream::new(
        b"NRRD0004\ndimension: 1\ntype: block\nblock size: 2\nencoding: raw\nendian: little\nsizes: 2\n\nabcd".to_vec(),
    );
    assert_eq!(
        read_nrrd_to(&mut blocks, &mut vec![]).err(),
        Some(NrrdError::Codec(CodecError::BlockElements))
    );
}

#[test]
fn literacy_attached_minimal() {
    let attached = true;
    let dims = [2, 3, 4];
    let n = dims.iter().product::<usize>();
    let data: Vec<_> = (0..n).map(|x| x as f64).collect();
    let elements = Elements::Double(data.iter().map(|x| x.to_bits()).collect());
    let encodings = [Encoding::raw, Encoding::rawgz, Encoding::rawbz2];
    for encoding in encodings {
        let nrrd = NRRD::new_from_type_dims(DType::double, &dims);
        let written = write_nrrd(nrrd, &elements, Endian::Little, attached, encoding, "test_out").unwrap();
        assert!(written.data_file.is_none());
        let mut file = ByteStream::new(written.header_file);
        let (data_, ..) = read_nrrd_to(&mut file, &mut vec![]).unwrap();
        let data_ = match data_ {
            Elements::Double(bits) => bits.into_iter().map(|b| f64::from_bits(b) as i8).collect::<Vec<i8>>(),
            other => panic!("{:?}", other),
        };
        let data_ = data_.into_iter().map(|x| x as f64).collect::<Vec<f64>>();
        assert_eq!(data_, data);
    }
}

#[test]
fn literacy_detached_minimal() {
    let attached = false;
    let dims = [2, 3, 4];
    let n = dims.iter().product::<usize>();
    let data: Vec<_> = (0..n).map(|x| x as f64).collect();
    let elements = Elements::Double(data.iter().map(|x| x.to_bits()).collect());
    let encodings = [Encoding::raw, Encoding::rawgz, Encoding::rawbz2];
    for encoding in encodings {
        let nrrd = NRRD::new_from_type_dims(DType::double, &dims);
        let name = format!("test_out.{}", encoding.file_ext());
        let written = write_nrrd(nrrd, &elements, Endian::Big, attached, encoding, &name).unwrap();
        let text = String::from_utf8(written.header_file.clone()).unwrap();
        assert!(text.ends_with(&format!("data file: {}\n", name)));
        let mut file = ByteStream::new(written.header_file);
        let header = read_header(&mut ByteStream::new(text.into_bytes())).unwrap();
        match header.data_file.as_ref().unwrap() {
            DataFile::SingleFile { filename } => assert_eq!(filename, &name),
            other => panic!("{:?}", other),
        }
        let mut files = vec![ByteStream::new(written.data_file.unwrap())];
        let (data_, nrrd) = read_nrrd_to(&mut file, &mut files).unwrap();
        assert_eq!(nrrd.encoding, encoding);
        let data_ = match data_ {
            Elements::Double(bits) => bits.into_iter().map(|b| f64::from_bits(b) as i8).collect::<Vec<i8>>(),
            other => panic!("{:?}", other),
        };
        let data_ = data_.into_iter().map(|x| x as f64).collect::<Vec<f64>>();
        assert_eq!(data_, data);
    }
}

#[test]
fn writing_sets_what_the_payload_decides() {
    let mut reference = NRRD::new_from_type_dims(DType::Block, &[2, 2]);
    reference.block_size = Some(BlockSize::new(3));
    reference.byte_skip = Some(ByteSkip::rev);
    reference.line_skip = Some(LineSkip::new(4));
    reference.data_file = Some(DataFile::SingleFile { filename: "stale.raw".to_string() });
    reference.content = Some(nrrd_rs::header_defs::Content::new("kept".to_string()));
    let data = Elements::Int16(vec![1, -2, 3, -4]);
    let w = write_nrrd(reference, &data, Endian::Big, true, Encoding::raw, "unused").unwrap();
    let mut expected = b"NRRD0004\ndimension: 2\ntype: int16\nencoding: raw\nendian: big\ncontent: kept\nsizes: 2 2\n\n".to_vec();
    expected.extend([0u8, 1, 0xff, 0xfe, 0, 3, 0xff, 0xfc]);
    assert_eq!(w.header_file, expected);
    assert_eq!(w.header.dtype, DType::int16);
    assert!(w.header.block_size.is_none());
    assert!(w.header.byte_skip.is_none());
    assert!(w.header.line_skip.is_none());
    assert!(w.header.data_file.is_none());
}

#[test]
fn writing_is_refused_where_the_payload_does_not_fit() {
    let data = Elements::UInt8(vec![1, 2, 3]);
    let h = || NRRD::new_from_type_dims(DType::uint8, &[2, 2]);
    assert_eq!(
        write_nrrd(h(), &data, Endian::Little, true, Encoding::raw, "x").err(),
        Some(NrrdError::Codec(CodecError::Length))
    );
    let four = Elements::UInt8(vec![1, 2, 3, 4]);
    assert_eq!(
        write_nrrd(h(), &four, Endian::Little, false, Encoding::txt, "x").err(),
        Some(NrrdError::Codec(CodecError::UnsupportedEncoding))
    );
    assert_eq!(
        write_nrrd(NRRD::new_from_type_dims(DType::uint8, &[usize::MAX, 2]), &four, Endian::Little, true, Encoding::raw, "x").err(),
        Some(NrrdError::Codec(CodecError::PayloadSize))
    );
    let ok = write_nrrd(h(), &four, Endian::Little, false, Encoding::raw, "x.raw").unwrap();
    assert_eq!(ok.data_file, Some(vec![1, 2, 3, 4]));
    assert_eq!(
        String::from_utf8(ok.header_file).unwrap(),
        "NRRD0004\ndimension: 2\ntype: uint8\nencoding: raw\nendian: little\nsizes: 2 2\ndata file: x.raw\n"
    );
}

#[test]
fn reading_as_functions_of_the_record() {
    let text = "NRRD0004\ndimension: 1\ntype: int16\nencoding: raw\nendian: little\nsizes: 2\ndata file: a.raw\n";
    let mut header = ByteStream::new(text.as_bytes().to_vec());
    let mut files = vec![ByteStream::new(vec![1, 0, 0xff, 0xff])];
    let (bytes, h) = NRRD::read_payload(&mut header, &mut files).unwrap();
    assert_eq!(bytes, vec![1, 0, 0xff, 0xff]);
    assert_eq!(h.dtype, DType::int16);
    let mut header = ByteStream::new(text.as_bytes().to_vec());
    let mut files = vec![ByteStream::new(vec![1, 0, 0xff, 0xff])];
    let (elements, _h) = NRRD::read_to(&mut header, &mut files).unwrap();
    assert_eq!(elements, Elements::Int16(vec![1, -1]));
    let mut header = ByteStream::new(text.as_bytes().to_vec());
    let mut two = vec![ByteStream::new(vec![1]), ByteStream::new(vec![0, 0xff, 0xff])];
    assert_eq!(
        NRRD::read_payload(&mut header, &mut two).err(),
        Some(NrrdError::Codec(CodecError::FileCount))
    );
    assert_eq!(two[0].pos(), 0);
}

#[test]
fn decoding_what_was_encoded_gives_the_elements() {
    let buffers = vec![
        Elements::Int8(vec![i8::MIN, -1, 0, 1, i8::MAX]),
        Elements::UInt8((0..=255u8).collect()),
        Elements::Int16(vec![i16::MIN, -2, 0, 2, i16::MAX]),
        Elements::UInt16(vec![0, 258, u16::MAX]),
        Elements::Int32(vec![i32::MIN, -3, 0, 3, i32::MAX]),
        Elements::UInt32(vec![0, 0x01020304, u32::MAX]),
        Elements::Int64(vec![i64::MIN, -4, 0, 4, i64::MAX]),
        Elements::UInt64(vec![0, 0x0102030405060708, u64::MAX]),
        Elements::Float((0..100).map(|i| (i as f32 * 0.25).to_bits()).collect()),
        Elements::Double((0..100).map(|i| (i as f64 / 3.0).to_bits()).collect()),
        Elements::Double(vec![]),
    ];
    for b in &buffers {
        for encoding in [Encoding::raw, Encoding::rawgz, Encoding::rawbz2] {
            for endian in [Endian::Big, Endian::Little] {
                let stored = encode(b, endian, encoding).unwrap();
                assert_eq!(decode(&stored, b.dtype(), endian, encoding), Ok(b.clone()));
            }
        }
        assert_eq!(encode(b, Endian::Big, Encoding::hex), Err(CodecError::UnsupportedEncoding));
    }
    assert_eq!(decode(&[1, 2, 3], DType::int16, Endian::Big, Encoding::raw), Err(CodecError::Length));
    assert_eq!(decode(&[1, 2], DType::int16, Endian::Big, Encoding::rawgz), Err(CodecError::Corrupt));
    assert_eq!(decode(&[1, 2], DType::int16, Endian::Big, Encoding::txt), Err(CodecError::UnsupportedEncoding));
    assert_eq!(decode(&[1, 2], DType::Block, Endian::Big, Encoding::raw), Err(CodecError::BlockElements));
    assert_eq!(decode(&[1, 2], DType::uint16, Endian::Big, Encoding::raw), Ok(Elements::UInt16(vec![258])));
}

#[test]
fn a_header_that_promises_too_much_is_refused_without_allotting_it() {
    let text = format!(
        "NRRD0004\ndimension: 1\ntype: uint8\nencoding: raw\nendian: little\nsizes: {}\n\nabc",
        usize::MAX
    );
    let mut f = ByteStream::new(text.into_bytes());
    assert_eq!(
        read_payload(&mut f, &mut vec![]).err(),
        Some(NrrdError::Codec(CodecError::ShortPayload))
    );
    let text = format!(
        "NRRD0004\ndimension: 1\ntype: uint8\nencoding: gzip\nendian: little\nsizes: {}\nbyte skip: 1\n\n",
        usize::MAX
    );
    let mut file = text.into_bytes();
    file.extend(gz(&[1, 2, 3]));
    let mut f = ByteStream::new(file);
    assert_eq!(
        read_payload(&mut f, &mut vec![]).err(),
        Some(NrrdError::Codec(CodecError::ShortPayload))
    );
    let mut tail = NRRD::new_from_type_dims(DType::uint8, &[usize::MAX]);
    tail.byte_skip = Some(ByteSkip::rev);
    let mut f = ByteStream::new(vec![1, 2, 3]);
    assert_eq!(read_attached(&tail, &mut f), Err(CodecError::ShortPayload));
}

#[test]
fn a_plan_made_by_hand_is_held_to_the_encodings() {
    let plan = ReadPlan { total: 2, per_file: 2, line_skip: 0, byte_skip: 0, tail: false, encoding: Encoding::hex };
    let mut f = ByteStream::new(vec![1, 2, 3]);
    assert_eq!(read_chunk(&plan, &mut f), Err(CodecError::UnsupportedEncoding));
    let raw = ReadPlan { total: 2, per_file: 2, line_skip: 0, byte_skip: 1, tail: false, encoding: Encoding::raw };
    let mut f = ByteStream::new(vec![1, 2, 3]);
    assert_eq!(read_chunk(&raw, &mut f), Ok(vec![2, 3]));
}

#[test]
fn streams_must_be_as_many_as_the_directive_names() {
    let h = detached(DType::uint16, &[2, 3], Encoding::raw, 3);
    for n in [0usize, 1, 2, 4, 6, 12] {
        let mut files: Vec<ByteStream> = (0..n).map(|_| ByteStream::new(vec![7u8; 12])).collect();
        assert_eq!(read_detached(&h, &mut files), Err(CodecError::FileCount), "{}", n);
        assert!(files.iter().all(|f| f.pos() == 0));
        assert_eq!(h.detached_plan(n), Err(CodecError::FileCount));
    }
    assert_eq!(h.detached_plan(3).unwrap().per_file, 4);
    let attached = header(DType::uint16, &[2, 3], Encoding::raw);
    let mut one = vec![ByteStream::new(vec![7u8; 12])];
    assert_eq!(read_detached(&attached, &mut one), Err(CodecError::FileCount));
    let mut sequence = header(DType::uint8, &[4], Encoding::raw);
    sequence.data_file = Some(DataFile::FileFormat {
        fmt_string: "s%d.raw".to_string(),
        min: 1,
        max: 4,
        step: 1,
        sub_dim: None,
    });
    assert_eq!(sequence.detached_plan(4).unwrap().per_file, 1);
    assert_eq!(sequence.detached_plan(2), Err(CodecError::FileCount));
    let text = "NRRD0004\ndimension: 1\ntype: uint8\nencoding: raw\nendian: little\nsizes: 4\ndata file: s%d.raw 1 4 1\n";
    let mut f = ByteStream::new(text.as_bytes().to_vec());
    let mut two = vec![ByteStream::new(vec![1, 2]), ByteStream::new(vec![3, 4])];
    assert_eq!(read_payload(&mut f, &mut two).err(), Some(NrrdError::Codec(CodecError::FileCount)));
    let mut f = ByteStream::new(text.as_bytes().to_vec());
    let mut four: Vec<ByteStream> = (1..=4u8).map(|i| ByteStream::new(vec![i])).collect();
    assert_eq!(read_payload(&mut f, &mut four).unwrap().0, vec![1, 2, 3, 4]);
}

#[test]
fn a_directive_that_names_no_files_refuses_the_read() {
    let mut h = header(DType::uint8, &[4], Encoding::raw);
    for (format, min, error) in [
        ("plain.raw", 0, PathError::Format),
        ("%*d", 0, PathError::FormatWidth),
        ("%d", i32::MIN, PathError::IndexRange),
    ] {
        h.data_file = Some(DataFile::FileFormat {
            fmt_string: format.to_string(),
            min,
            max: 1,
            step: 1,
            sub_dim: None,
        });
        let mut files = vec![ByteStream::new(vec![1, 2]), ByteStream::new(vec![3, 4])];
        assert_eq!(read_detached(&h, &mut files), Err(CodecError::Directive(error)));
        assert!(files.iter().all(|f| f.pos() == 0));
    }
}

#[test]
fn written_files_read_back_for_every_type_and_encoding() {
    let buffers = vec![
        Elements::Int8(vec![-3, -2, -1, 0, 1, 2]),
        Elements::UInt8(vec![0, 1, 2, 253, 254, 255]),
        Elements::Int16(vec![i16::MIN, -1, 0, 1, 2, i16::MAX]),
        Elements::UInt16(vec![0, 1, 2, 3, 4, u16::MAX]),
        Elements::Int32(vec![i32::MIN, -1, 0, 1, 2, i32::MAX]),
        Elements::UInt32(vec![0, 1, 2, 3, 4, u32::MAX]),
        Elements::Int64(vec![i64::MIN, -1, 0, 1, 2, i64::MAX]),
        Elements::UInt64(vec![0, 1, 2, 3, 4, u64::MAX]),
        Elements::Float((0..6).map(|i| (i as f32 - 2.5).to_bits()).collect()),
        Elements::Double((0..6).map(|i| (i as f64 * 1.5).to_bits()).collect()),
    ];
    for data in &buffers {
        for encoding in [Encoding::raw, Encoding::rawgz, Encoding::rawbz2] {
            for endian in [Endian::Big, Endian::Little] {
                let reference = || NRRD::new_from_type_dims(DType::uint8, &[2, 3]);
                let w = write_nrrd(reference(), data, endian, true, encoding, "unused").unwrap();
                let mut file = ByteStream::new(w.header_file);
                let (back, h) = read_nrrd_to(&mut file, &mut vec![]).unwrap();
                assert_eq!(&back, data);
                assert_eq!((h.dtype, h.endian, h.encoding), (data.dtype(), endian, encoding));
                let name = format!("data.{}", encoding.file_ext());
                let w = write_nrrd(reference(), data, endian, false, encoding, &name).unwrap();
                let mut header = ByteStream::new(w.header_file);
                let mut files = vec![ByteStream::new(w.data_file.unwrap())];
                let (back, h) = read_nrrd_to(&mut header, &mut files).unwrap();
                assert_eq!(&back, data);
                assert_eq!(h.shape(), &vec![2, 3]);
            }
        }
    }
}
