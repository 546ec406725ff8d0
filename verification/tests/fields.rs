use nrrd_rs::header_defs::{
    AxisMaxs, AxisMins, BlockSize, ByteSkip, Centering, Centerings, Comment, Content, DType,
    Dimension, Encoding, Endian, Field, HeaderDef, HeaderError, Kind, Kinds, Labels, LineSkip,
    Magic, Max, MeasurementFrame, Min, NrrdVec, OldMax, OldMin, Real, RealClass, SampleUnits,
    Sizes, Space, SpaceDimension, SpaceDirections, SpaceOrigin, SpaceUnits, Spacings,
    Thicknesses, Units, Value,
};

#[test]
fn magic_reads_version_and_writes_three_zeros() {
    let m = Magic::from_str("NRRD0004").unwrap();
    assert_eq!(m.version, 4);
    assert_eq!(m.to_string(), "NRRD0004");
    assert_eq!(Magic::from_str("NRRD0005").unwrap().version, 5);
    assert_eq!(Magic { version: 12 }.to_string(), "NRRD00012");
    assert_eq!(Magic::from_str("NRRD00012").unwrap().version, 12);
    assert_eq!(Magic::default().version, 4);
}

#[test]
fn magic_refuses_what_is_no_version() {
    assert_eq!(Magic::from_str("NRRD").err(), Some(HeaderError::Malformed(Field::Magic)));
    assert_eq!(Magic::from_str("NRRD000x").err(), Some(HeaderError::Malformed(Field::Magic)));
    assert_eq!(Magic::from_str("NRRD256").err(), Some(HeaderError::Malformed(Field::Magic)));
    assert_eq!(Magic::from_str("nrrd0004").err(), Some(HeaderError::Missing(Field::Magic)));
    assert_eq!(Magic::from_str(" NRRD0004").err(), Some(HeaderError::Missing(Field::Magic)));
}

#[test]
fn prefixes_are_matched_at_the_start_only() {
    assert!(Dimension::matches("dimension: 3"));
    assert!(!Dimension::matches("space dimension: 3"));
    assert!(!Dimension::matches("Dimension: 3"));
    assert!(!Dimension::matches("dimension:3"));
    assert!(SpaceDimension::matches("space dimension: 3"));
    assert!(Space::matches("space: RAS"));
    assert!(!Space::matches("space dimension: 3"));
    assert!(Units::matches("units: \"mm\""));
    assert!(!Units::matches("space units: \"mm\""));
    assert!(Min::matches("min: 1"));
    assert!(!Min::matches("old min: 1"));
    assert!(OldMin::matches("old min: 1"));
    assert!(OldMin::matches("oldmin: 1"));
    assert!(OldMax::matches("old max: 1"));
    assert!(OldMax::matches("oldmax: 1"));
    assert!(Comment::matches("# a comment"));
}

#[test]
fn idx_is_the_length_of_the_matched_prefix() {
    assert_eq!(Dimension::idx("dimension: 3"), Some(11));
    assert_eq!(BlockSize::idx("block size: 8"), Some(12));
    assert_eq!(BlockSize::idx("blocksize: 8"), Some(11));
    assert_eq!(BlockSize::idx("size: 8"), None);
    assert_eq!(Magic::idx("NRRD0004"), Some(4));
}

#[test]
fn patterns_give_the_canonical_prefix_first() {
    assert_eq!(BlockSize::patterns(), vec!["block size: ", "blocksize: "]);
    assert_eq!(LineSkip::patterns(), vec!["line skip: ", "lineskip: "]);
    assert_eq!(ByteSkip::patterns(), vec!["byte skip: ", "byteskip: "]);
    assert_eq!(SampleUnits::patterns(), vec!["sample units: ", "sampleunits: "]);
    assert_eq!(AxisMins::patterns(), vec!["axis mins: ", "axismins: "]);
    assert_eq!(AxisMaxs::patterns(), vec!["axis maxs: ", "axismaxs: "]);
    assert_eq!(Centerings::patterns(), vec!["centerings: ", "centers: "]);
    assert_eq!(Value::patterns(), vec![":="]);
    assert_eq!(Magic::tag(), Field::Magic);
    assert_eq!(Sizes::tag(), Field::Sizes);
}

#[test]
fn dimension_is_a_positive_integer() {
    let d = Dimension::from_str("dimension: 3").unwrap();
    assert_eq!(d.dim(), 3);
    assert_eq!(d.to_string(), "dimension: 3");
    assert_eq!(Dimension::from_str("dimension:  +16 ").unwrap().dim(), 16);
    assert_eq!(Dimension::from_str("dimension: 007").unwrap().dim(), 7);
    assert_eq!(Dimension::from_str("dimension: 0").err(), Some(HeaderError::Malformed(Field::Dimension)));
    assert_eq!(Dimension::from_str("dimension: -1").err(), Some(HeaderError::Malformed(Field::Dimension)));
    assert_eq!(Dimension::from_str("dimension: three").err(), Some(HeaderError::Malformed(Field::Dimension)));
    assert_eq!(Dimension::from_str("dimension: ").err(), Some(HeaderError::Malformed(Field::Dimension)));
    assert_eq!(Dimension::from_str("dimension: 3 4").err(), Some(HeaderError::Malformed(Field::Dimension)));
    assert_eq!(
        Dimension::from_str("dimension: 99999999999999999999999999").err(),
        Some(HeaderError::Malformed(Field::Dimension))
    );
    assert_eq!(Dimension::from_str("sizes: 3").err(), Some(HeaderError::Missing(Field::Dimension)));
    assert_eq!(Dimension::new(5).to_string(), "dimension: 5");
}

#[test]
fn counts_read_and_write() {
    assert_eq!(BlockSize::from_str("blocksize: 12").unwrap().size(), 12);
    assert_eq!(BlockSize::new(12).to_string(), "block size: 12");
    assert_eq!(SpaceDimension::from_str("space dimension: 3").unwrap().dim(), 3);
    assert_eq!(SpaceDimension::new(3).to_string(), "space dimension: 3");
    assert_eq!(LineSkip::from_str("lineskip: 2").unwrap().to_skip(), 2);
    assert_eq!(LineSkip::from_str("line skip: 0").unwrap().to_skip(), 0);
    assert_eq!(LineSkip::new(2).to_string(), "line skip: 2");
    assert_eq!(LineSkip::from_str("line skip: -2").err(), Some(HeaderError::Malformed(Field::LineSkip)));
    assert_eq!(
        Dimension::new(usize::MAX).to_string(),
        format!("dimension: {}", usize::MAX)
    );
    assert_eq!(
        Dimension::from_str(&format!("dimension: {}", usize::MAX)).unwrap().dim(),
        usize::MAX
    );
}

#[test]
fn byte_skip_has_a_sentinel_for_reads_from_the_end() {
    let b = ByteSkip::from_str("byte skip: 16").unwrap();
    assert_eq!(b, ByteSkip::skip(16));
    assert_eq!(b.to_skip(), 16);
    assert!(!b.read_tail());
    let t = ByteSkip::from_str("byteskip: -1").unwrap();
    assert_eq!(t, ByteSkip::rev);
    assert_eq!(t.to_skip(), 0);
    assert!(t.read_tail());
    assert_eq!(ByteSkip::from_str("byte skip: -7").unwrap(), ByteSkip::rev);
    assert_eq!(ByteSkip::rev.to_string(), "byte skip: -1");
    assert_eq!(ByteSkip::skip(16).to_string(), "byte skip: 16");
    assert_eq!(ByteSkip::from_str("byte skip: x").err(), Some(HeaderError::Malformed(Field::ByteSkip)));
    assert_eq!(
        ByteSkip::from_str("byte skip: 99999999999999999999").err(),
        Some(HeaderError::Malformed(Field::ByteSkip))
    );
    assert_eq!(
        ByteSkip::from_str(&format!("byte skip: {}", isize::MAX)).unwrap(),
        ByteSkip::skip(isize::MAX as usize)
    );
    assert_eq!(ByteSkip::from_str(&format!("byte skip: {}", isize::MIN)).unwrap(), ByteSkip::rev);
}

#[test]
fn content_is_kept_as_it_stands() {
    let c = Content::from_str("content:  two  words ").unwrap();
    assert_eq!(c.content(), " two  words ");
    assert_eq!(c.to_string(), "content:  two  words ");
    assert_eq!(Content::new("x".to_string()).to_string(), "content: x");
    let u = SampleUnits::from_str("sampleunits:  HU ").unwrap();
    assert_eq!(u.units(), "HU");
    assert_eq!(u.to_string(), "sample units: HU");
}

#[test]
fn comment_text_begins_after_the_second_character() {
    let c = Comment::from_str("# a comment").unwrap();
    assert_eq!(c.val, "a comment");
    assert_eq!(c.to_string(), "# a comment");
    assert_eq!(Comment::from_str("#xy").unwrap().val, "y");
    assert_eq!(Comment::from_str("#").err(), Some(HeaderError::Malformed(Field::Comment)));
    assert_eq!(Comment::from_str("# ").err(), Some(HeaderError::Malformed(Field::Comment)));
    assert_eq!(Comment::from_str("#x").err(), Some(HeaderError::Malformed(Field::Comment)));
    assert_eq!(Comment::from_str("not").err(), Some(HeaderError::Missing(Field::Comment)));
}

#[test]
fn key_value_lines_part_at_the_first_separator() {
    assert!(Value::matches_key_value("key:=value"));
    assert!(Value::matches_key_value(":="));
    assert!(!Value::matches_key_value("key: value"));
    assert!(!Value::matches_key_value("key=:value"));
    assert_eq!(Value::key("key:=value"), "key");
    assert_eq!(Value::key("a b:=c:=d"), "a b");
    assert_eq!(Value::from_str("a b:=c:=d").unwrap().val, "c:=d");
    assert_eq!(Value::from_str("k:=").unwrap().val, "");
    assert_eq!(Value::key(":=v"), "");
    assert_eq!(Value::from_str("none").err(), Some(HeaderError::Missing(Field::KeyValue)));
    assert_eq!(Value { val: "v".to_string() }.to_string(), ":=v");
}

#[test]
fn type_names_have_many_spellings_and_one_canonical() {
    let cases: [(&str, DType, &str); 14] = [
        ("signed char", DType::int8, "int8"),
        ("uchar", DType::uint8, "uint8"),
        ("uint8_t", DType::uint8, "uint8"),
        ("short int", DType::int16, "int16"),
        ("unsigned short", DType::uint16, "uint16"),
        ("int", DType::int32, "int32"),
        ("signed int", DType::int32, "int32"),
        ("unsigned int", DType::uint32, "uint32"),
        ("long long", DType::int64, "int64"),
        ("signed long long int", DType::int64, "int64"),
        ("ulonglong", DType::uint64, "uint64"),
        ("float", DType::float, "float"),
        ("double", DType::double, "double"),
        ("block", DType::Block, "block"),
    ];
    for (name, dtype, canonical) in cases {
        let line = format!("type: {}", name);
        let d = DType::from_str(&line).unwrap();
        assert_eq!(d, dtype);
        assert_eq!(d.to_string(), format!("type: {}", canonical));
        assert_eq!(DType::from_str(&d.to_string()).unwrap(), dtype);
    }
    assert_eq!(DType::from_str("type:   ushort  ").unwrap(), DType::uint16);
    assert_eq!(DType::from_str("type: FLOAT").err(), Some(HeaderError::Malformed(Field::Type)));
    assert_eq!(DType::from_str("type: long").err(), Some(HeaderError::Malformed(Field::Type)));
}

#[test]
fn type_sizes_in_bytes() {
    assert_eq!(DType::int8.size(), 1);
    assert_eq!(DType::uint8.size(), 1);
    assert_eq!(DType::int16.size(), 2);
    assert_eq!(DType::uint16.size(), 2);
    assert_eq!(DType::int32.size(), 4);
    assert_eq!(DType::uint32.size(), 4);
    assert_eq!(DType::int64.size(), 8);
    assert_eq!(DType::uint64.size(), 8);
    assert_eq!(DType::float.size(), 4);
    assert_eq!(DType::double.size(), 8);
    assert_eq!(DType::Block.size(), 1);
}

#[test]
fn encodings_are_read_in_any_case() {
    assert_eq!(Encoding::from_str("encoding: raw").unwrap(), Encoding::raw);
    assert_eq!(Encoding::from_str("encoding: RAW").unwrap(), Encoding::raw);
    assert_eq!(Encoding::from_str("encoding: gz").unwrap(), Encoding::rawgz);
    assert_eq!(Encoding::from_str("encoding: GZip").unwrap(), Encoding::rawgz);
    assert_eq!(Encoding::from_str("encoding: bz2").unwrap(), Encoding::rawbz2);
    assert_eq!(Encoding::from_str("encoding: bzip2").unwrap(), Encoding::rawbz2);
    assert_eq!(Encoding::from_str("encoding: text").unwrap(), Encoding::txt);
    assert_eq!(Encoding::from_str("encoding: ascii").unwrap(), Encoding::txt);
    assert_eq!(Encoding::from_str("encoding: txt").unwrap(), Encoding::txt);
    assert_eq!(Encoding::from_str("encoding: hex").unwrap(), Encoding::hex);
    assert_eq!(Encoding::from_str("encoding: zip").err(), Some(HeaderError::Malformed(Field::Encoding)));
    assert_eq!(Encoding::raw.to_string(), "encoding: raw");
    assert_eq!(Encoding::rawgz.to_string(), "encoding: gzip");
    assert_eq!(Encoding::rawbz2.to_string(), "encoding: bzip2");
    assert_eq!(Encoding::txt.to_string(), "encoding: txt");
    assert_eq!(Encoding::hex.to_string(), "encoding: hex");
    assert_eq!(Encoding::raw.file_ext(), "raw");
    assert_eq!(Encoding::rawgz.file_ext(), "raw.gz");
    assert_eq!(Encoding::rawbz2.file_ext(), "raw.bz2");
}

#[test]
fn endian_reads_and_writes() {
    assert_eq!(Endian::from_str("endian: big").unwrap(), Endian::Big);
    assert_eq!(Endian::from_str("endian: Little").unwrap(), Endian::Little);
    assert_eq!(Endian::Big.to_string(), "endian: big");
    assert_eq!(Endian::Little.to_string(), "endian: little");
    assert_eq!(Endian::from_str("endian: middle").err(), Some(HeaderError::Malformed(Field::Endian)));
}

#[test]
fn space_names_long_and_short() {
    assert_eq!(Space::from_str("space: RAS").unwrap(), Space::RAS);
    assert_eq!(Space::from_str("space: right-anterior-superior").unwrap(), Space::RAS);
    assert_eq!(Space::from_str("space: Left-Posterior-Superior").unwrap(), Space::LPS);
    assert_eq!(Space::from_str("space: lpst").unwrap(), Space::LPST);
    assert_eq!(Space::from_str("space: 3D-right-handed").unwrap(), Space::_3D_right_handed);
    assert_eq!(Space::from_str("space: scanner-xyz-time").unwrap(), Space::scanner_xyz_time);
    assert_eq!(Space::RAS.to_string(), "space: right-anterior-superior");
    assert_eq!(Space::LAST.to_string(), "space: left-anterior-superior-time");
    assert_eq!(Space::_3D_left_handed_time.to_string(), "space: 3D-left-handed-time");
    assert_eq!(
        Space::from_str(&Space::_3D_left_handed_time.to_string()).unwrap(),
        Space::_3D_left_handed_time
    );
    assert_eq!(Space::from_str("space: up").err(), Some(HeaderError::Malformed(Field::Space)));
}

#[test]
fn kinds_one_for_each_word() {
    let k = Kinds::from_str("kinds: domain  3-vector RGB-color none").unwrap();
    assert_eq!(k.kinds(), &vec![Kind::domain, Kind::_3_vector, Kind::RGB_color, Kind::none]);
    assert_eq!(k.to_string(), "kinds: domain 3-vector RGB-color none");
    assert_eq!(Kinds::from_str("kinds: domain colour").err(), Some(HeaderError::Malformed(Field::Kinds)));
    assert_eq!(Kinds::from_str("kinds: Domain").err(), Some(HeaderError::Malformed(Field::Kinds)));
    assert_eq!(Kinds::from_str("kinds: ").unwrap().kinds().len(), 0);
    assert_eq!(Kind::from_str(" covariant-vector "), Ok(Kind::covariant_vector));
    assert_eq!(Kind::from_str("nothing"), Err(HeaderError::Malformed(Field::Kinds)));
    assert_eq!(Kind::_3D_masked_symmetric_matrix.to_string(), "3D-masked-symmetric-matrix");
    assert_eq!(
        Kinds::from_vec(vec![Kind::complex, Kind::domain]).to_string(),
        "kinds: complex domain"
    );
}

#[test]
fn every_kind_reads_its_own_name() {
    let all = [
        Kind::domain, Kind::space, Kind::time, Kind::list, Kind::point, Kind::vector,
        Kind::covariant_vector, Kind::normal, Kind::stub, Kind::scalar, Kind::complex,
        Kind::_2_vector, Kind::_3_color, Kind::RGB_color, Kind::HSV_color, Kind::XYZ_color,
        Kind::_4_color, Kind::RGBA_color, Kind::_3_vector, Kind::_3_gradient, Kind::_3_normal,
        Kind::_4_vector, Kind::quaternion, Kind::_2D_symmetric_matrix,
        Kind::_2D_masked_symmetric_matrix, Kind::_2D_matrix, Kind::_2D_masked_matrix,
        Kind::_3D_symmetric_matrix, Kind::_3D_masked_symmetric_matrix, Kind::_3D_matrix,
        Kind::_3D_masked_matrix, Kind::none,
    ];
    for k in all {
        assert_eq!(Kind::from_str(&k.to_string()), Ok(k));
    }
}

#[test]
fn centerings_default_to_unknown() {
    let c = Centerings::from_str("centers: cell node ??? none Cell").unwrap();
    assert_eq!(
        c.centerings(),
        &vec![
            Centering::Cell,
            Centering::Node,
            Centering::Unknown,
            Centering::Unknown,
            Centering::Unknown
        ]
    );
    assert_eq!(c.to_string(), "centerings: cell node none none none");
    assert_eq!(Centering::Cell.to_string(), "cell");
}

#[test]
fn sizes_are_positive() {
    let s = Sizes::from_str("sizes: 4 5  6").unwrap();
    assert_eq!(s.shape(), &vec![4, 5, 6]);
    assert_eq!(s.len(), 3);
    assert_eq!(s.n_elements(), 120);
    assert_eq!(s.checked_n_elements(), Some(120));
    assert_eq!(s.to_string(), "sizes: 4 5 6");
    assert_eq!(Sizes::from_str("sizes: 4 0 6").err(), Some(HeaderError::Malformed(Field::Sizes)));
    assert_eq!(Sizes::from_str("sizes: 4 -5").err(), Some(HeaderError::Malformed(Field::Sizes)));
    assert_eq!(Sizes::from_str("sizes: 4 x").err(), Some(HeaderError::Malformed(Field::Sizes)));
    assert_eq!(Sizes::from_str("sizes: 4,5").err(), Some(HeaderError::Malformed(Field::Sizes)));
    assert_eq!(Sizes::from_str("sizes: ").unwrap().len(), 0);
    assert_eq!(Sizes::new(&[]).n_elements(), 1);
    assert_eq!(Sizes::new(&[7, 0, 3]).checked_n_elements(), Some(0));
    assert_eq!(Sizes::new(&[usize::MAX, 2]).checked_n_elements(), None);
    assert_eq!(Sizes::new(&[usize::MAX, 2, 0]).checked_n_elements(), Some(0));
    assert_eq!(Sizes::new(&[usize::MAX, 1]).checked_n_elements(), Some(usize::MAX));
}

#[test]
fn quoted_lists() {
    let l = Labels::from_str("labels: \"x\" \"the y\"  \"z\"").unwrap();
    assert_eq!(l.labels(), &vec!["x".to_string(), "the y".to_string(), "z".to_string()]);
    assert_eq!(l.to_string(), "labels: \"x\" \"the y\" \"z\"");
    let u = Units::from_str("units: \"mm\" junk \"s\"").unwrap();
    assert_eq!(u.units(), &vec!["mm".to_string(), "s".to_string()]);
    let s = SpaceUnits::from_str("space units: \"mm\" \"mm\" \"mm\"").unwrap();
    assert_eq!(s.units().len(), 3);
    assert_eq!(SpaceUnits::new_mm(2).to_string(), "space units: \"mm\" \"mm\"");
    assert_eq!(Labels::from_str("labels: none").unwrap().labels().len(), 0);
    assert_eq!(Labels::from_str("labels: \"open").unwrap().labels().len(), 0);
    // an empty pair of quotes closes nothing: its second quote opens the next text
    assert_eq!(Labels::from_str("labels: \"\" \"x\"").unwrap().labels(), &vec![" ".to_string()]);
    assert_eq!(
        Labels::from_vec(vec!["a".to_string(), "b c".to_string()]).to_string(),
        "labels: \"a\" \"b c\""
    );
}

#[test]
fn real_literals() {
    for good in [
        "0", "1", "-1", "+1", "1.5", "1.", ".5", "-.5", "1e5", "1E5", "1e+5", "1.5e-3", "inf",
        "-inf", "+Infinity", "nan", "NaN", "-nan", "007", "0.0",
    ] {
        assert!(Real::from_str(good).is_some(), "{}", good);
        assert_eq!(Real::from_str(good).unwrap().text(), good);
    }
    for bad in [
        "", ".", "+", "-", "e5", "1e", "1e+", "1.5.2", "1,5", " 1", "1 ", "0x10", "infinit",
        "na", "1f", "--1", "1e5.5", ".e1",
    ] {
        assert!(Real::from_str(bad).is_none(), "{}", bad);
    }
    assert_eq!(Real::from_str("inf").unwrap().class(), RealClass::Infinite);
    assert_eq!(Real::from_str("-Infinity").unwrap().class(), RealClass::Infinite);
    assert_eq!(Real::from_str("NaN").unwrap().class(), RealClass::NotANumber);
    assert_eq!(Real::from_str("0").unwrap().class(), RealClass::Zero);
    assert_eq!(Real::from_str("-0.000e7").unwrap().class(), RealClass::Zero);
    assert_eq!(Real::from_str("0.001").unwrap().class(), RealClass::Finite);
    assert_eq!(Real::from_str("1e0").unwrap().class(), RealClass::Finite);
}

#[test]
fn real_literals_are_those_that_std_reads() {
    for text in [
        "0", "1", "-1", "+1", "1.5", "1.", ".5", "1e5", "1E5", "1e+5", "1.5e-3", "inf", "-inf",
        "+Infinity", "nan", "NaN", "", ".", "+", "e5", "1e", "1e+", "1.5.2", " 1", "1 ", "0x10",
        "infinit", "1f", "--1", "1e5.5", ".e1", "1_000", "+.e", "+inf", "iNf", "infinity",
    ] {
        assert_eq!(Real::from_str(text).is_some(), text.parse::<f64>().is_ok(), "{:?}", text);
    }
}

#[test]
fn scalar_reals() {
    assert_eq!(Min::from_str("min:  -1.5e3 ").unwrap().min().text(), "-1.5e3");
    assert_eq!(Min::from_str("min: -1.5e3").unwrap().to_string(), "min: -1.5e3");
    assert_eq!(Max::from_str("max: 255").unwrap().to_string(), "max: 255");
    assert_eq!(OldMin::from_str("oldmin: 0").unwrap().to_string(), "old min: 0");
    assert_eq!(OldMax::from_str("old max: inf").unwrap().to_string(), "old max: inf");
    assert_eq!(Min::from_str("min: one").err(), Some(HeaderError::Malformed(Field::Min)));
    assert_eq!(Max::from_str("max: 1 2").err(), Some(HeaderError::Malformed(Field::Max)));
    assert_eq!(Min::new(Real::from_str("2").unwrap()).to_string(), "min: 2");
}

#[test]
fn lists_of_reals_obey_their_rules() {
    let s = Spacings::from_str("spacings: 1.5 2 NaN").unwrap();
    assert_eq!(s.spacings().len(), 3);
    assert_eq!(s.to_string(), "spacings: 1.5 2 NaN");
    assert_eq!(Spacings::from_str("spacings: 1 0").err(), Some(HeaderError::Malformed(Field::Spacings)));
    assert_eq!(Spacings::from_str("spacings: 1 0.0e3").err(), Some(HeaderError::Malformed(Field::Spacings)));
    assert_eq!(Spacings::from_str("spacings: 1 inf").err(), Some(HeaderError::Malformed(Field::Spacings)));
    assert_eq!(Spacings::from_str("spacings: 1 x").err(), Some(HeaderError::Malformed(Field::Spacings)));
    assert_eq!(Thicknesses::from_str("thicknesses: 0 inf nan").unwrap().thicknesses().len(), 3);
    assert_eq!(Thicknesses::from_str("thicknesses: 0 one").err(), Some(HeaderError::Malformed(Field::Thicknesses)));
    assert_eq!(AxisMins::from_str("axismins: 0 -1.5 nan").unwrap().to_string(), "axis mins: 0 -1.5 nan");
    assert_eq!(AxisMins::from_str("axis mins: 0 -inf").err(), Some(HeaderError::Malformed(Field::AxisMins)));
    assert_eq!(AxisMaxs::from_str("axis maxs: 0 9").unwrap().maxs().len(), 2);
    assert_eq!(AxisMaxs::from_str("axismaxs: Infinity").err(), Some(HeaderError::Malformed(Field::AxisMaxs)));
}

#[test]
fn coordinate_vectors() {
    let v = NrrdVec::from_str(" (1,0.5,-2e3) ").unwrap();
    assert_eq!(v.entries().len(), 3);
    assert_eq!(v.entries()[1].text(), "0.5");
    assert_eq!(v.to_string(), "(1,0.5,-2e3)");
    assert!(NrrdVec::from_str("(1)").is_some());
    for bad in ["", "()", "(", ")", "1,2", "(1,2", "1,2)", "(1,,2)", "(1, 2)", "(1,2,)", "(a)", "[1,2]"] {
        assert!(NrrdVec::from_str(bad).is_none(), "{}", bad);
    }
    let o = SpaceOrigin::from_str("space origin: (0,0,0)").unwrap();
    assert_eq!(o.origin().entries().len(), 3);
    assert_eq!(o.to_string(), "space origin: (0,0,0)");
    assert_eq!(SpaceOrigin::from_str("space origin: 0 0 0").err(), Some(HeaderError::Malformed(Field::SpaceOrigin)));
    assert_eq!(SpaceOrigin::new(NrrdVec::from_str("(1,2)").unwrap()).to_string(), "space origin: (1,2)");
}

#[test]
fn space_directions_may_be_none() {
    let d = SpaceDirections::from_str("space directions: none (1,0,0) (0,1,0)  (0,0,1)").unwrap();
    assert_eq!(d.len(), 4);
    assert!(d.directions()[0].is_none());
    assert_eq!(d.directions()[2].as_ref().unwrap().to_string(), "(0,1,0)");
    assert_eq!(d.to_string(), "space directions: none (1,0,0) (0,1,0) (0,0,1)");
    assert_eq!(
        SpaceDirections::from_str("space directions: None (1,0)").err(),
        Some(HeaderError::Malformed(Field::SpaceDirections))
    );
    let mut built = SpaceDirections::new();
    built.extend_none();
    built.extend_with(NrrdVec::from_str("(1,0)").unwrap());
    assert_eq!(built.to_string(), "space directions: none (1,0)");
    let m = MeasurementFrame::from_str("measurement frame: (1,0) (0,1)").unwrap();
    assert_eq!(m.frame_vecs().len(), 2);
    assert_eq!(m.to_string(), "measurement frame: (1,0) (0,1)");
    assert_eq!(
        MeasurementFrame::from_str("measurement frame: (1,0) none").err(),
        Some(HeaderError::Malformed(Field::MeasurementFrame))
    );
}

#[test]
fn lists_of_reals_are_built_under_their_rules() {
    let reals = |texts: &[&str]| texts.iter().map(|t| Real::from_str(t).unwrap()).collect::<Vec<Real>>();
    assert_eq!(Spacings::from_reals(reals(&["1", "2.5"])).unwrap().to_string(), "spacings: 1 2.5");
    assert!(Spacings::from_reals(reals(&["1", "0"])).is_none());
    assert!(Spacings::from_reals(reals(&["inf"])).is_none());
    assert!(Spacings::from_reals(reals(&["nan"])).is_some());
    assert!(Thicknesses::from_reals(reals(&["0", "inf"])).is_some());
    assert!(AxisMins::from_reals(reals(&["0", "-inf"])).is_none());
    assert_eq!(AxisMaxs::from_reals(reals(&["0", "9"])).unwrap().to_string(), "axis maxs: 0 9");
    assert_eq!(NrrdVec::from_reals(reals(&["1", "2"])).to_string(), "(1,2)");
}
