use nrrd_rs::header_defs::datafile::{check_widths, sequence_indices};
use nrrd_rs::header_defs::{DataFile, Field, HeaderDef, HeaderError, PathError};

fn single(name: &str) -> DataFile {
    DataFile::SingleFile { filename: name.to_string() }
}

fn sequence(fmt: &str, min: i32, max: i32, step: i32) -> DataFile {
    DataFile::FileFormat { fmt_string: fmt.to_string(), min, max, step, sub_dim: None }
}

#[test]
fn indices_ascend_for_a_positive_step() {
    assert_eq!(sequence_indices(0, 9, 2), Some(vec![0, 2, 4, 6, 8]));
    assert_eq!(sequence_indices(1, 5, 1), Some(vec![1, 2, 3, 4, 5]));
    assert_eq!(sequence_indices(3, 3, 7), Some(vec![3]));
    assert_eq!(sequence_indices(0, 10, 5), Some(vec![0, 5, 10]));
}

#[test]
fn indices_descend_for_a_negative_step() {
    assert_eq!(sequence_indices(0, 9, -2), Some(vec![8, 6, 4, 2, 0]));
    assert_eq!(sequence_indices(1, 5, -1), Some(vec![5, 4, 3, 2, 1]));
    assert_eq!(sequence_indices(0, 10, -5), Some(vec![10, 5, 0]));
}

#[test]
fn indices_use_the_magnitudes_of_the_bounds() {
    assert_eq!(sequence_indices(-2, -6, 2), Some(vec![2, 4, 6]));
    assert_eq!(sequence_indices(-2, 6, -2), Some(vec![6, 4, 2]));
    assert_eq!(sequence_indices(5, 1, 1), Some(vec![]));
    assert_eq!(sequence_indices(5, 1, -1), Some(vec![]));
}

#[test]
fn a_step_of_zero_gives_no_index() {
    assert_eq!(sequence_indices(0, 9, 0), Some(vec![]));
    assert_eq!(sequence_indices(i32::MIN, 9, 0), Some(vec![]));
}

#[test]
fn bounds_without_magnitude_are_refused() {
    assert_eq!(sequence_indices(i32::MIN, 9, 1), None);
    assert_eq!(sequence_indices(0, i32::MIN, -1), None);
    assert_eq!(sequence_indices(i32::MAX, i32::MAX, i32::MIN), Some(vec![i32::MAX]));
    assert_eq!(sequence_indices(i32::MAX - 1, i32::MAX, i32::MAX), Some(vec![i32::MAX - 1]));
    assert_eq!(sequence(" %d", i32::MIN, 1, 1).paths(), Err(PathError::IndexRange));
}

#[test]
fn paths_of_a_single_file_and_of_a_list() {
    assert_eq!(single("data.raw").paths(), Ok(vec!["data.raw".to_string()]));
    let list = DataFile::List {
        sub_dim: Some(2),
        file_paths: vec!["b.raw".to_string(), "a.raw".to_string()],
    };
    assert_eq!(list.paths(), Ok(vec!["b.raw".to_string(), "a.raw".to_string()]));
}

#[test]
fn paths_of_a_numbered_sequence() {
    assert_eq!(
        sequence("img_%03d.raw", 0, 9, 2).paths(),
        Ok(vec![
            "img_000.raw".to_string(),
            "img_002.raw".to_string(),
            "img_004.raw".to_string(),
            "img_006.raw".to_string(),
            "img_008.raw".to_string()
        ])
    );
    assert_eq!(
        sequence("s%d.raw.gz", 0, 9, -2).paths(),
        Ok(vec![
            "s8.raw.gz".to_string(),
            "s6.raw.gz".to_string(),
            "s4.raw.gz".to_string(),
            "s2.raw.gz".to_string(),
            "s0.raw.gz".to_string()
        ])
    );
    assert_eq!(sequence("%x", 255, 255, 1).paths(), Ok(vec!["ff".to_string()]));
    assert_eq!(sequence("%d", 0, 9, 0).paths(), Ok(vec![]));
}

#[test]
fn formats_that_cannot_take_one_integer() {
    assert_eq!(sequence("plain.raw", 0, 1, 1).paths(), Err(PathError::Format));
    assert_eq!(sequence("%d_%d.raw", 0, 1, 1).paths(), Err(PathError::Format));
    assert_eq!(sequence("%s.raw", 0, 1, 1).paths(), Err(PathError::Format));
    assert_eq!(sequence("%q", 0, 1, 1).paths(), Err(PathError::Format));
    assert_eq!(sequence("%", 0, 1, 1).paths(), Err(PathError::Format));
}

#[test]
fn widths_of_more_than_four_digits_are_refused() {
    assert_eq!(sequence("%12345d", 0, 1, 1).paths(), Err(PathError::FormatWidth));
    assert_eq!(sequence("%.12345d", 0, 1, 1).paths(), Err(PathError::FormatWidth));
    assert_eq!(sequence("%012345d", 0, 1, 1).paths(), Err(PathError::FormatWidth));
    assert_eq!(sequence("%1234567890d", 0, 1, 1).paths(), Err(PathError::FormatWidth));
    let chars = |s: &str| s.chars().collect::<Vec<char>>();
    assert!(check_widths(&chars("/data/20240101123456/img_%03d.raw")));
    assert!(check_widths(&chars("%1234d")));
    assert!(check_widths(&chars("%-0 +#1234.1234d")));
    assert!(!check_widths(&chars("%12345d")));
    assert!(!check_widths(&chars("a%db%5.00000d")));
    assert!(check_widths(&chars("")));
    assert!(check_widths(&chars("%")));
    let names = sequence("/data/20240101123456/img_%03d.raw", 7, 7, 1).paths().unwrap();
    assert_eq!(names, vec!["/data/20240101123456/img_007.raw".to_string()]);
    let wide = sequence("%12d|%-4d|%04d", 5, 5, 1).paths();
    assert_eq!(wide, Err(PathError::Format));
    assert_eq!(sequence("%6d", 42, 42, 1).paths(), Ok(vec!["    42".to_string()]));
    assert_eq!(sequence("%-6d|", 42, 42, 1).paths(), Ok(vec!["42    |".to_string()]));
    assert_eq!(sequence("%+d", 42, 42, 1).paths(), Ok(vec!["+42".to_string()]));
    assert_eq!(sequence("%1234d", 1, 1, 1).paths().unwrap()[0].len(), 1234);
}

#[test]
fn directive_of_one_file() {
    match DataFile::from_str("data file:  ./data/the file.raw ").unwrap() {
        DataFile::SingleFile { filename } => assert_eq!(filename, "./data/the file.raw"),
        other => panic!("{:?}", other),
    }
    assert_eq!(single("a.raw").to_string(), "data file: a.raw");
    match DataFile::from_str("datafile: a.raw").unwrap() {
        DataFile::SingleFile { filename } => assert_eq!(filename, "a.raw"),
        other => panic!("{:?}", other),
    }
    assert_eq!(DataFile::from_str("file: a.raw").err(), Some(HeaderError::Missing(Field::DataFile)));
}

#[test]
fn directive_of_a_numbered_sequence() {
    match DataFile::from_str("data file: img_%03d.raw 0 9 2").unwrap() {
        DataFile::FileFormat { fmt_string, min, max, step, sub_dim } => {
            assert_eq!(fmt_string, "img_%03d.raw");
            assert_eq!((min, max, step, sub_dim), (0, 9, 2, None));
        },
        other => panic!("{:?}", other),
    }
    match DataFile::from_str("datafile: s%d.raw  -1   10 -3 2").unwrap() {
        DataFile::FileFormat { fmt_string, min, max, step, sub_dim } => {
            assert_eq!(fmt_string, "s%d.raw");
            assert_eq!((min, max, step, sub_dim), (-1, 10, -3, Some(2)));
        },
        other => panic!("{:?}", other),
    }
    assert_eq!(
        DataFile::FileFormat {
            fmt_string: "s%d.raw".to_string(),
            min: -1,
            max: 10,
            step: -3,
            sub_dim: Some(2)
        }
        .to_string(),
        "data file: s%d.raw -1 10 -3 2"
    );
    assert_eq!(sequence("s%d.raw", 0, 9, 1).to_string(), "data file: s%d.raw 0 9 1");
    assert_eq!(
        DataFile::from_str("data file: s%d.raw 0 99999999999 1").err(),
        Some(HeaderError::Malformed(Field::DataFile))
    );
    assert_eq!(
        DataFile::from_str("data file: s%d.raw 0 9 1 -2").err(),
        Some(HeaderError::Malformed(Field::DataFile))
    );
}

#[test]
fn directive_of_a_list() {
    match DataFile::from_str("data file: LIST").unwrap() {
        DataFile::List { sub_dim, file_paths } => {
            assert_eq!(sub_dim, None);
            assert!(file_paths.is_empty());
        },
        other => panic!("{:?}", other),
    }
    match DataFile::from_str("datafile: LIST 3").unwrap() {
        DataFile::List { sub_dim, .. } => assert_eq!(sub_dim, Some(3)),
        other => panic!("{:?}", other),
    }
    match DataFile::from_str("datafile: LIST3").unwrap() {
        DataFile::List { sub_dim, .. } => assert_eq!(sub_dim, Some(3)),
        other => panic!("{:?}", other),
    }
    match DataFile::from_str("datafile: LIST  3").unwrap() {
        DataFile::List { sub_dim, .. } => assert_eq!(sub_dim, None),
        other => panic!("{:?}", other),
    }
    let list = DataFile::List {
        sub_dim: Some(2),
        file_paths: vec!["a.raw".to_string(), "b.raw".to_string()],
    };
    assert_eq!(list.to_string(), "data file: LIST 2\na.raw\nb.raw");
    let bare = DataFile::List { sub_dim: None, file_paths: vec![] };
    assert_eq!(bare.to_string(), "data file: LIST");
    let unnumbered = DataFile::List { sub_dim: None, file_paths: vec!["a.raw".to_string()] };
    assert_eq!(unnumbered.to_string(), "data file: LIST\na.raw");
}

/// What the two patterns of the directive's grammar make of a text.
fn by_pattern(text: &str) -> String {
    let s = text.trim();
    let seq = regex::Regex::new(r"(?:(\S+))\s+(-?\d+)\s+(-?\d+)\s+(-?\d+)(?:\s+(-?\d+))?").unwrap();
    if let Some(c) = seq.captures(s) {
        let min = c.get(2).unwrap().as_str().parse::<i32>();
        let max = c.get(3).unwrap().as_str().parse::<i32>();
        let step = c.get(4).unwrap().as_str().parse::<i32>();
        let sub = c.get(5).map(|m| m.as_str().parse::<usize>());
        return match (min, max, step, sub) {
            (Ok(a), Ok(b), Ok(c2), None) => {
                format!("seq {} {} {} {} None", c.get(1).unwrap().as_str(), a, b, c2)
            },
            (Ok(a), Ok(b), Ok(c2), Some(Ok(d))) => {
                format!("seq {} {} {} {} Some({})", c.get(1).unwrap().as_str(), a, b, c2, d)
            },
            _ => "error".to_string(),
        };
    }
    let list = regex::Regex::new(r"LIST ?(\d)?").unwrap();
    if let Some(c) = list.captures(s) {
        return match c.get(1) {
            Some(d) => format!("list Some({})", d.as_str()),
            None => "list None".to_string(),
        };
    }
    format!("single {}", s)
}

fn by_library(text: &str) -> String {
    let line = format!("data file: {}", text);
    match DataFile::from_str(&line) {
        Err(_) => "error".to_string(),
        Ok(DataFile::SingleFile { filename }) => format!("single {}", filename),
        Ok(DataFile::FileFormat { fmt_string, min, max, step, sub_dim }) => {
            format!("seq {} {} {} {} {:?}", fmt_string, min, max, step, sub_dim)
        },
        Ok(DataFile::List { sub_dim, .. }) => format!("list {:?}", sub_dim),
    }
}

#[test]
fn directive_grammar_agrees_with_its_patterns() {
    for text in [
        "a.raw",
        "img_%03d.raw 0 9 2",
        "img_%03d.raw 0 9 2 3",
        "img_%03d.raw 0 9",
        "my file %d.raw 0 9 1",
        "a 1 2 3abc",
        "a 1x 2 3 4",
        "a 1 2 3 4 5",
        "a 1 2 3 x",
        "a 1 2 3 4x",
        "a 1 2 3x 4",
        "a -1 -2 -3 4",
        "a - 1 2 3",
        "a 1 2 -",
        "a +1 2 3",
        "1 2 3 4",
        "1 2 3",
        "LIST",
        "LIST 3",
        "LIST3",
        "LIST  3",
        "LIST 12",
        "MYLIST.raw",
        "the LIST 7 of files",
        "list",
        "a 99999999999 2 3",
        "a 1 2 3 -4",
        "",
        "a\t1\t2\t3",
        "x LIST 1 2 3",
    ] {
        assert_eq!(by_library(text), by_pattern(text), "{:?}", text);
    }
}

#[test]
fn widths_taken_from_an_argument_are_refused() {
    for format in ["%*d", "%.*d", "%*.*d", "%*.99999999999d", "%-*d", "%4.*d", "%*%%d", "a%db%*.1d"] {
        assert_eq!(sequence(format, 0, 0, 1).paths(), Err(PathError::FormatWidth), "{}", format);
        assert!(!check_widths(&format.chars().collect()), "{}", format);
    }
    match DataFile::from_str("data file: %*.99999999999d 0 0 1").unwrap() {
        d @ DataFile::FileFormat { .. } => assert_eq!(d.paths(), Err(PathError::FormatWidth)),
        other => panic!("{:?}", other),
    }
    let chars = |s: &str| s.chars().collect::<Vec<char>>();
    assert!(check_widths(&chars("star*_%03d.raw")));
    assert!(check_widths(&chars("%d*")));
    assert!(check_widths(&chars("%4.4d")));
    assert!(!check_widths(&chars("%4.44444d")));
    assert_eq!(sequence("star*_%02d", 3, 3, 1).paths(), Ok(vec!["star*_03".to_string()]));
}
