use nrrd_rs::header::{read_comments, read_data_file, read_front, read_header_def, read_key_values};
use nrrd_rs::header_defs::{
    ByteSkip, Content, DType, DataFile, Dimension, Encoding, Endian, Field, HeaderDef,
    HeaderError, Kind, Magic, Sizes, Space,
};
use nrrd_rs::keyvalues::KeyValues;
use nrrd_rs::header_defs::Value;
use nrrd_rs::{Header, NRRD};

const DETACHED_LIST: &str = "NRRD0004\n\
dimension: 3\n\
type: short\n\
encoding: raw\n\
endian: little\n\
sizes: 4 5 2\n\
# a comment\n\
#\n\
content: a test volume\n\
min: 0\n\
max: 255\n\
old min: -1.5\n\
old max: 1.5\n\
line skip: 0\n\
byte skip: 0\n\
sample units: HU\n\
spacings: 1.5 1.5 3\n\
thicknesses: 1 1 3\n\
axis mins: 0 0 0\n\
axis maxs: 6 7.5 6\n\
centerings: cell cell node\n\
labels: \"x\" \"y\" \"z\"\n\
units: \"mm\" \"mm\" \"mm\"\n\
kinds: domain domain domain\n\
space: left-posterior-superior\n\
space dimension: 3\n\
space units: \"mm\" \"mm\" \"mm\"\n\
space origin: (0,0,0)\n\
space directions: (1.5,0,0) (0,1.5,0) (0,0,3)\n\
subject:=phantom\n\
operator:=nobody\n\
data file: LIST\n\
slice_0.raw\n\
slice_1.raw\n";

const DETACHED_MULTI: &str = "NRRD0004\n\
dimension: 3\n\
type: uchar\n\
encoding: raw\n\
endian: little\n\
sizes: 2 2 4\n\
data file: slice_%02d.raw 1 4 1\n";

fn lines_of(text: &str) -> Vec<&str> {
    text.lines().collect()
}

#[test]
fn header_read_header() {
    let mut header_lines = lines_of(DETACHED_LIST);
    let _h = Header::full_from_lines(&mut header_lines).unwrap();
    // this means we accounted for every line in the string
    assert!(header_lines.is_empty());
}

#[test]
fn lib_read_header() {
    let mut header_lines = lines_of(DETACHED_LIST);
    let h = NRRD::from_lines_full(&mut header_lines).unwrap();
    assert!(header_lines.is_empty());
    assert_eq!(h.magic.version, 4);
    assert_eq!(h.dimension.dim(), 3);
    assert_eq!(h.dtype, DType::int16);
    assert_eq!(h.encoding, Encoding::raw);
    assert_eq!(h.endian, Endian::Little);
    assert_eq!(h.shape(), &vec![4, 5, 2]);
    assert_eq!(h.content.as_ref().unwrap().content(), "a test volume");
    assert_eq!(h.min.as_ref().unwrap().min().text(), "0");
    assert_eq!(h.old_max.as_ref().unwrap().max().text(), "1.5");
    assert_eq!(h.byte_skip, Some(ByteSkip::skip(0)));
    assert_eq!(h.kinds.as_ref().unwrap().kinds(), &vec![Kind::domain; 3]);
    assert_eq!(h.space, Some(Space::LPS));
    assert_eq!(h.comments, vec!["# a comment".to_string()]);
    assert_eq!(h.key_vals.len(), 2);
    assert_eq!(h.key_vals.entries()[0].key, "operator");
    assert_eq!(h.key_vals.entries()[1].value.val, "phantom");
    match h.data_file.as_ref().unwrap() {
        DataFile::List { sub_dim, file_paths } => {
            assert_eq!(*sub_dim, None);
            assert_eq!(file_paths, &vec!["slice_0.raw".to_string(), "slice_1.raw".to_string()]);
        },
        other => panic!("{:?}", other),
    }
}

#[test]
fn header_resolve_detached() {
    let mut header_lines = lines_of(DETACHED_MULTI);
    let h = Header::full_from_lines(&mut header_lines).unwrap();
    assert!(header_lines.is_empty());
    println!("{}", h.to_string());
    let paths = h.data_file.as_ref().unwrap().paths();
    println!("{:?}", paths);
}

#[test]
fn lib_resolve_detached() {
    let mut header_lines = lines_of(DETACHED_MULTI);
    let h = NRRD::from_lines_full(&mut header_lines).unwrap();
    assert!(header_lines.is_empty());
    let paths = h.data_file.as_ref().unwrap().paths().unwrap();
    assert_eq!(paths, vec!["slice_01.raw", "slice_02.raw", "slice_03.raw", "slice_04.raw"]);
}

#[test]
fn full_text_is_written_in_the_canonical_order() {
    let mut header_lines = lines_of(DETACHED_LIST);
    let h = NRRD::from_lines_full(&mut header_lines).unwrap();
    let expected = "NRRD0004\n\
# a comment\n\
dimension: 3\n\
type: int16\n\
encoding: raw\n\
endian: little\n\
content: a test volume\n\
min: 0\n\
max: 255\n\
old min: -1.5\n\
old max: 1.5\n\
line skip: 0\n\
byte skip: 0\n\
sample units: HU\n\
sizes: 4 5 2\n\
spacings: 1.5 1.5 3\n\
thicknesses: 1 1 3\n\
axis mins: 0 0 0\n\
axis maxs: 6 7.5 6\n\
centerings: cell cell node\n\
labels: \"x\" \"y\" \"z\"\n\
units: \"mm\" \"mm\" \"mm\"\n\
kinds: domain domain domain\n\
space: left-posterior-superior\n\
space dimension: 3\n\
space units: \"mm\" \"mm\" \"mm\"\n\
space origin: (0,0,0)\n\
space directions: (1.5,0,0) (0,1.5,0) (0,0,3)\n\
operator:=nobody\n\
subject:=phantom\n\
data file: LIST\n\
slice_0.raw\n\
slice_1.raw\n";
    assert_eq!(h.to_string(), expected);
}

#[test]
fn optional_fields_are_found_in_any_order() {
    let text = "NRRD0005\ndimension: 2\ntype: float\nencoding: gzip\nendian: big\nsizes: 3 4\n\
kinds: domain domain\nk:=v\nspace: RAS\ncontent: c\n# note\nbyteskip: -1\n";
    let mut lines = lines_of(text);
    let h = NRRD::from_lines_full(&mut lines).unwrap();
    assert!(lines.is_empty());
    assert_eq!(
        h.to_string(),
        "NRRD0005\n# note\ndimension: 2\ntype: float\nencoding: gzip\nendian: big\ncontent: c\n\
byte skip: -1\nsizes: 3 4\nkinds: domain domain\nspace: right-anterior-superior\nk:=v\n"
    );
}

#[test]
fn minimal_header_survives_writing_and_reading() {
    for (dtype, dims) in [
        (DType::uint8, vec![1usize]),
        (DType::double, vec![2, 3, 4]),
        (DType::int64, vec![usize::MAX, 1]),
    ] {
        let h = NRRD::new_from_type_dims(dtype, &dims);
        let text = h.to_string();
        let mut lines = lines_of(&text);
        let again = NRRD::from_lines_full(&mut lines).unwrap();
        assert!(lines.is_empty());
        assert_eq!(again.to_string(), text);
        assert_eq!(again.dtype, dtype);
        assert_eq!(again.shape(), &dims);
    }
    let mut blocks = NRRD::new_from_type_dims(DType::Block, &[5]);
    blocks.block_size = Some(nrrd_rs::header_defs::BlockSize::new(12));
    blocks.magic = Magic { version: 255 };
    blocks.encoding = Encoding::rawbz2;
    blocks.endian = Endian::Big;
    let text = blocks.to_string();
    assert_eq!(
        text,
        "NRRD000255\ndimension: 1\ntype: block\nblock size: 12\nencoding: bzip2\nendian: big\nsizes: 5\n"
    );
    let mut lines = lines_of(&text);
    let again = NRRD::from_lines_full(&mut lines).unwrap();
    assert!(lines.is_empty());
    assert_eq!(again.to_string(), text);
}

#[test]
fn new_headers() {
    let h = NRRD::new_from_dims::<u16>(&[2, 3]);
    assert_eq!(
        h.to_string(),
        "NRRD0004\ndimension: 2\ntype: uint16\nencoding: raw\nendian: little\nsizes: 2 3\n"
    );
    assert_eq!(NRRD::new_from_dims::<i8>(&[1]).dtype, DType::int8);
    assert_eq!(NRRD::new_from_dims::<i64>(&[1]).dtype, DType::int64);
    let f = NRRD::new_from_type_dims(DType::float, &[2, 3, 4]);
    assert_eq!(f.shape(), &vec![2, 3, 4]);
    assert_eq!(f.element_size(), 4);
    assert_eq!(f.expected_bytes(), Some(96));
    assert!(f.data_file.is_none());
    assert!(f.comments.is_empty());
    assert_eq!(f.key_vals.len(), 0);
}

#[test]
fn element_size_of_blocks_is_the_block_size() {
    let mut h = NRRD::new_from_type_dims(DType::Block, &[3]);
    assert_eq!(h.expected_bytes(), None);
    h.block_size = Some(nrrd_rs::header_defs::BlockSize::new(7));
    assert_eq!(h.element_size(), 7);
    assert_eq!(h.expected_bytes(), Some(21));
    let big = NRRD::new_from_type_dims(DType::uint16, &[usize::MAX]);
    assert_eq!(big.expected_bytes(), None);
    let zero = NRRD::new_from_type_dims(DType::uint16, &[usize::MAX, 0]);
    assert_eq!(zero.expected_bytes(), Some(0));
}

#[test]
fn sizes_must_number_the_dimension() {
    let mut lines = vec!["NRRD0004", "dimension: 3", "type: float", "encoding: raw", "endian: little", "sizes: 4 5"];
    let before = lines.clone();
    assert_eq!(NRRD::from_lines_full(&mut lines).err(), Some(HeaderError::AxisCount(Field::Sizes)));
    assert_eq!(lines, before);
    assert_eq!(NRRD::from_lines_minimal(&mut lines).err(), Some(HeaderError::AxisCount(Field::Sizes)));
    assert_eq!(lines, before);
}

#[test]
fn per_axis_fields_must_number_the_dimension() {
    let head = ["NRRD0004", "dimension: 2", "type: float", "encoding: raw", "endian: little", "sizes: 4 5"];
    for (line, field) in [
        ("spacings: 1 1 1", Field::Spacings),
        ("thicknesses: 1", Field::Thicknesses),
        ("axis mins: 0", Field::AxisMins),
        ("axis maxs: 1 2 3", Field::AxisMaxs),
        ("centerings: cell", Field::Centerings),
        ("labels: \"x\"", Field::Labels),
        ("units: \"mm\"", Field::Units),
        ("kinds: domain", Field::Kinds),
        ("space directions: none", Field::SpaceDirections),
    ] {
        let mut lines: Vec<&str> = head.to_vec();
        lines.push(line);
        let before = lines.clone();
        assert_eq!(NRRD::from_lines_full(&mut lines).err(), Some(HeaderError::AxisCount(field)));
        assert_eq!(lines, before);
    }
}

#[test]
fn mandatory_fields_stand_at_the_front_in_order() {
    let mut none: Vec<&str> = vec![];
    assert_eq!(NRRD::from_lines_minimal(&mut none).err(), Some(HeaderError::NoLines));
    assert_eq!(NRRD::from_lines_full(&mut none).err(), Some(HeaderError::NoLines));
    let good = ["NRRD0004", "dimension: 1", "type: block", "block size: 4", "encoding: raw", "endian: little", "sizes: 4"];
    let fields = [
        Field::Magic, Field::Dimension, Field::Type, Field::BlockSize, Field::Encoding,
        Field::Endian, Field::Sizes,
    ];
    for missing in 0..good.len() {
        let mut lines: Vec<&str> = good.to_vec();
        lines.remove(missing);
        let before = lines.clone();
        assert_eq!(
            NRRD::from_lines_minimal(&mut lines).err(),
            Some(HeaderError::Missing(fields[missing]))
        );
        assert_eq!(lines, before);
    }
    let mut swapped = vec!["NRRD0004", "type: float", "dimension: 1", "encoding: raw", "endian: little", "sizes: 4"];
    assert_eq!(NRRD::from_lines_minimal(&mut swapped).err(), Some(HeaderError::Missing(Field::Dimension)));
    let mut commented = vec!["NRRD0004", "# early", "dimension: 1", "type: float", "encoding: raw", "endian: little", "sizes: 4"];
    assert_eq!(NRRD::from_lines_full(&mut commented).err(), Some(HeaderError::Missing(Field::Dimension)));
    let mut bad = vec!["NRRD0004", "dimension: 1", "type: real", "encoding: raw", "endian: little", "sizes: 4"];
    assert_eq!(NRRD::from_lines_minimal(&mut bad).err(), Some(HeaderError::Malformed(Field::Type)));
    let mut plain = vec!["NRRD0004", "dimension: 1", "type: float", "block size: 4", "encoding: raw", "endian: little", "sizes: 4"];
    assert_eq!(NRRD::from_lines_minimal(&mut plain).err(), Some(HeaderError::Missing(Field::Encoding)));
}

#[test]
fn minimal_assembly_leaves_what_follows() {
    let mut lines = vec!["NRRD0004", "dimension: 1", "type: float", "encoding: raw", "endian: little", "sizes: 4", "content: x", "junk"];
    let h = NRRD::from_lines_minimal(&mut lines).unwrap();
    assert_eq!(lines, vec!["content: x", "junk"]);
    assert!(h.content.is_none());
    assert!(h.block_size.is_none());
}

#[test]
fn unknown_and_repeated_fields_are_left() {
    let mut lines = vec![
        "NRRD0004", "dimension: 1", "type: float", "encoding: raw", "endian: little", "sizes: 4",
        "measurement frame: (1,0) (0,1)", "content: first", "content: second", "number: 1",
    ];
    let h = NRRD::from_lines_full(&mut lines).unwrap();
    assert_eq!(h.content.as_ref().unwrap().content(), "first");
    assert_eq!(lines, vec!["measurement frame: (1,0) (0,1)", "content: second", "number: 1"]);
}

#[test]
fn malformed_optional_field_refuses_the_header() {
    let mut lines = vec![
        "NRRD0004", "dimension: 1", "type: float", "encoding: raw", "endian: little", "sizes: 4",
        "content: fine", "line skip: many",
    ];
    let before = lines.clone();
    assert_eq!(NRRD::from_lines_full(&mut lines).err(), Some(HeaderError::Malformed(Field::LineSkip)));
    assert_eq!(lines, before);
}

#[test]
fn list_takes_every_line_that_follows_it() {
    let mut lines = vec![
        "NRRD0004", "dimension: 1", "type: float", "encoding: raw", "endian: little", "sizes: 4",
        "unknown: 1", "data file: LIST 1", "a.raw", "space: RAS", "b.raw",
    ];
    let h = NRRD::from_lines_full(&mut lines).unwrap();
    // a known field among the files is read as that field, before the list is
    assert_eq!(h.space, Some(Space::RAS));
    assert_eq!(lines, vec!["unknown: 1"]);
    match h.data_file.unwrap() {
        DataFile::List { sub_dim, file_paths } => {
            assert_eq!(sub_dim, Some(1));
            assert_eq!(file_paths, vec!["a.raw".to_string(), "b.raw".to_string()]);
        },
        other => panic!("{:?}", other),
    }
}

#[test]
fn readers_take_one_line_each() {
    let mut lines = vec!["content: a", "dimension: 3", "content: b"];
    let c: Option<Content> = read_header_def(&mut lines).unwrap();
    assert_eq!(c.unwrap().content(), "a");
    assert_eq!(lines, vec!["dimension: 3", "content: b"]);
    let s: Option<Sizes> = read_header_def(&mut lines).unwrap();
    assert!(s.is_none());
    assert_eq!(lines.len(), 2);
    let d: Dimension = read_front(&mut lines).unwrap();
    assert_eq!(d.dim(), 3);
    assert_eq!(lines, vec!["content: b"]);
    assert_eq!(read_front::<Dimension>(&mut lines).err(), Some(HeaderError::Missing(Field::Dimension)));
    assert_eq!(lines, vec!["content: b"]);
    let mut bad = vec!["x", "dimension: none"];
    assert_eq!(
        read_header_def::<Dimension>(&mut bad).err(),
        Some(HeaderError::Malformed(Field::Dimension))
    );
    assert_eq!(bad, vec!["x", "dimension: none"]);
}

#[test]
fn sweeps_of_key_values_and_comments() {
    let mut lines = vec!["b:=1", "other", "a:=2", "# c1", "b:=3", "#", "#x", "# c2"];
    let kv = read_key_values(&mut lines);
    assert_eq!(lines, vec!["other", "# c1", "#", "#x", "# c2"]);
    assert_eq!(kv.len(), 2);
    assert_eq!(kv.entries()[0].key, "a");
    assert_eq!(kv.entries()[0].value.val, "2");
    assert_eq!(kv.entries()[1].key, "b");
    assert_eq!(kv.entries()[1].value.val, "3");
    let comments = read_comments(&mut lines);
    assert_eq!(lines, vec!["other"]);
    assert_eq!(comments, vec!["# c1".to_string(), "# c2".to_string()]);
}

#[test]
fn data_file_reader() {
    let mut lines = vec!["x", "data file: a.raw", "y"];
    match read_data_file(&mut lines).unwrap().unwrap() {
        DataFile::SingleFile { filename } => assert_eq!(filename, "a.raw"),
        other => panic!("{:?}", other),
    }
    assert_eq!(lines, vec!["x", "y"]);
    assert!(read_data_file(&mut lines).unwrap().is_none());
    let mut listed = vec!["x", "datafile: LIST", "y", "z"];
    match read_data_file(&mut listed).unwrap().unwrap() {
        DataFile::List { file_paths, .. } => assert_eq!(file_paths, vec!["y", "z"]),
        other => panic!("{:?}", other),
    }
    assert_eq!(listed, vec!["x"]);
    let mut bad = vec!["data file: s%d 1 99999999999 1"];
    assert_eq!(read_data_file(&mut bad).err(), Some(HeaderError::Malformed(Field::DataFile)));
    assert_eq!(bad.len(), 1);
}

#[test]
fn key_values_are_kept_by_ascending_key() {
    let mut kv = KeyValues::new();
    for (k, v) in [("m", "1"), ("a", "2"), ("z", "3"), ("ab", "4"), ("m", "5"), ("", "6"), ("B", "7")] {
        kv.insert(k.to_string(), Value { val: v.to_string() });
    }
    let keys: Vec<&str> = kv.entries().iter().map(|e| e.key.as_str()).collect();
    assert_eq!(keys, vec!["", "B", "a", "ab", "m", "z"]);
    let values: Vec<&str> = kv.entries().iter().map(|e| e.value.val.as_str()).collect();
    assert_eq!(values, vec!["6", "7", "2", "4", "5", "3"]);
    let mut sorted = keys.clone();
    sorted.sort();
    assert_eq!(keys, sorted);
}

#[test]
fn minimal_assembly_under_its_other_name() {
    let mut lines = vec!["NRRD0004", "dimension: 1", "type: float", "encoding: raw", "endian: little", "sizes: 4", "content: x"];
    let h = Header::minimal_from_lines(&mut lines).unwrap();
    assert_eq!(lines, vec!["content: x"]);
    assert_eq!(h.dtype, DType::float);
    assert_eq!(h.element_size(), 4);
}

#[test]
fn lines_of_files_leave_with_their_list_whatever_they_hold() {
    let mut lines = vec![
        "NRRD0004", "dimension: 1", "type: float", "encoding: raw", "endian: little", "sizes: 4",
        "content: c", "k:=v", "# note", "space: RAS", "data file: LIST",
        "a.raw", "content: looks like a field", "odd:=name", "#hash", "data file: b.raw", "",
        "kinds: domain",
    ];
    let h = NRRD::from_lines_full(&mut lines).unwrap();
    assert!(lines.is_empty());
    assert_eq!(h.content.as_ref().unwrap().content(), "c");
    assert_eq!(h.kinds.as_ref().unwrap().kinds(), &vec![Kind::domain]);
    assert_eq!(h.key_vals.len(), 2);
    match h.data_file.unwrap() {
        DataFile::List { file_paths, .. } => assert_eq!(
            file_paths,
            vec!["a.raw", "content: looks like a field", "data file: b.raw", ""]
        ),
        other => panic!("{:?}", other),
    }
}
