//! The field grammar registry: for every header field, the line prefixes that
//! announce it, what the text after the prefix denotes, and its canonical text.
use vstd::prelude::*;
use crate::text::{chars_of, push_all, starts_with, string_of, views};

pub mod basic;
pub mod datafile;
pub mod enums;
pub mod quoted;
pub mod reals;
pub mod sizes;
pub mod vectors;

pub use datafile::{DataFile, DataFileView, PathError};
pub use enums::{Centering, Centerings, DType, Encoding, Endian, Kind, Kinds, Space};
pub use quoted::{Labels, SpaceUnits, Units};
pub use reals::{AxisMaxs, AxisMins, Max, Min, OldMax, OldMin, Real, RealClass, RealRule, Spacings, Thicknesses};
pub use sizes::Sizes;
pub use vectors::{MeasurementFrame, NrrdVec, SpaceDirections, SpaceOrigin};
pub use basic::{BlockSize, ByteSkip, Comment, Content, Dimension, LineSkip, Magic, SampleUnits, SpaceDimension, Value};

verus! {

/// The fields of a header, as errors name them.
#[derive(Debug, Clone, Copy, PartialEq, Eq, Structural)]
pub enum Field {
    Magic,
    Dimension,
    Type,
    BlockSize,
    Encoding,
    Endian,
    Sizes,
    Content,
    Min,
    Max,
    OldMin,
    OldMax,
    LineSkip,
    ByteSkip,
    SampleUnits,
    Spacings,
    Thicknesses,
    AxisMins,
    AxisMaxs,
    Centerings,
    Labels,
    Units,
    Kinds,
    Space,
    SpaceDimension,
    SpaceUnits,
    SpaceOrigin,
    SpaceDirections,
    MeasurementFrame,
    DataFile,
    Comment,
    KeyValue,
}

/// Why a header text was refused.
#[derive(Debug, Clone, Copy, PartialEq, Eq, Structural)]
pub enum HeaderError {
    /// There is no line at all.
    NoLines,
    /// The line that should hold this field does not begin with its prefix.
    Missing(Field),
    /// The text after the prefix is not a value of this field.
    Malformed(Field),
    /// A per-axis field does not have one entry for each axis.
    AxisCount(Field),
}

/// Position in `prefixes`, at or after `k`, of the first prefix that `line`
/// begins with; `prefixes.len()` where there is none.
pub open spec fn prefix_index(prefixes: Seq<Seq<char>>, line: Seq<char>, k: int) -> int
    decreases prefixes.len() - k,
{
    if k < 0 || k >= prefixes.len() {
        prefixes.len() as int
    } else if prefixes[k].is_prefix_of(line) {
        k
    } else {
        prefix_index(prefixes, line, k + 1)
    }
}

/// Length of the first of `prefixes` that `line` begins with.
pub open spec fn matched_len(prefixes: Seq<Seq<char>>, line: Seq<char>) -> Option<int> {
    let k = prefix_index(prefixes, line, 0);
    if k < prefixes.len() {
        Some(prefixes[k].len() as int)
    } else {
        None
    }
}

/// Does `line` begin with one of the prefixes of `T`?
pub open spec fn line_matches<T: HeaderDef>(line: Seq<char>) -> bool {
    matched_len(T::prefixes(), line) is Some
}

/// What a whole line denotes as a field `T`.
pub open spec fn line_value<T: HeaderDef>(line: Seq<char>) -> Result<T::V, HeaderError> {
    match matched_len(T::prefixes(), line) {
        None => Err(HeaderError::Missing(T::field())),
        Some(n) => match T::value_of(line.skip(n)) {
            Some(v) => Ok(v),
            None => Err(HeaderError::Malformed(T::field())),
        },
    }
}

/// The canonical line of a value: the first prefix, then the value's text.
pub open spec fn line_of<T: HeaderDef>(v: T::V) -> Seq<char> {
    T::prefixes()[0] + T::text_of(v)
}

/// A header field: what announces it, how its value is read and written.
pub trait HeaderDef: View + Sized {
    /// The literal prefixes that announce the field, the canonical one first.
    spec fn prefixes() -> Seq<Seq<char>>;

    /// The name of the field in errors.
    spec fn field() -> Field;

    /// What the text after the prefix denotes, if it denotes a value.
    spec fn value_of(rest: Seq<char>) -> Option<Self::V>;

    /// The canonical text of a value, without the prefix.
    spec fn text_of(v: Self::V) -> Seq<char>;

    fn patterns() -> (r: Vec<&'static str>)
        ensures
            r.len() > 0,
            views(r@) == Self::prefixes(),
    ;

    fn tag() -> (f: Field)
        ensures
            f == Self::field(),
    ;

    fn parse_value(rest: &Vec<char>) -> (r: Option<Self>)
        ensures
            match r {
                Some(v) => Self::value_of(rest@) == Some(v@),
                None => Self::value_of(rest@) is None,
            },
    ;

    fn value_text(&self) -> (r: Vec<char>)
        ensures
            r@ == Self::text_of(self@),
    ;

    /// Index of the first character after the prefix that `s` begins with.
    fn idx(s: &str) -> (r: Option<usize>)
        ensures
            match r {
                Some(n) => n <= s@.len() && matched_len(Self::prefixes(), s@) == Some(n as int),
                None => matched_len(Self::prefixes(), s@) is None,
            },
    {
        let line = chars_of(s);
        let pats = Self::patterns();
        let mut k: usize = 0;
        while k < pats.len()
            invariant
                0 <= k <= pats.len(),
                views(pats@) == Self::prefixes(),
                line@ == s@,
                prefix_index(Self::prefixes(), s@, 0) == prefix_index(Self::prefixes(), s@, k as int),
            decreases pats.len() - k,
        {
            let p = chars_of(pats[k]);
            assert(views(pats@)[k as int] == pats@[k as int]@);
            if starts_with(&line, &p) {
                return Some(p.len());
            }
            k += 1;
        }
        None
    }

    /// Does `s` begin with one of the prefixes?
    fn matches(s: &str) -> (b: bool)
        ensures
            b == (matched_len(Self::prefixes(), s@) is Some),
    {
        Self::idx(s).is_some()
    }

    /// Reads a whole line as this field.
    fn from_str(s: &str) -> (r: Result<Self, HeaderError>)
        ensures
            match matched_len(Self::prefixes(), s@) {
                None => r matches Err(e) && e == HeaderError::Missing(Self::field()),
                Some(n) => match Self::value_of(s@.skip(n)) {
                    Some(v) => r matches Ok(x) && x@ == v,
                    None => r matches Err(e) && e == HeaderError::Malformed(Self::field()),
                },
            },
    {
        match Self::idx(s) {
            None => Err(HeaderError::Missing(Self::tag())),
            Some(n) => {
                let line = chars_of(s);
                let rest = crate::text::slice_of(&line, n, line.len());
                assert(rest@ =~= s@.skip(n as int));
                match Self::parse_value(&rest) {
                    Some(v) => Ok(v),
                    None => Err(HeaderError::Malformed(Self::tag())),
                }
            },
        }
    }

    /// The canonical line of this value.
    fn to_string(&self) -> (r: String)
        ensures
            r@ == Self::prefixes()[0] + Self::text_of(self@),
    {
        let pats = Self::patterns();
        let mut out = chars_of(pats[0]);
        assert(views(pats@)[0] == pats@[0]@);
        let text = self.value_text();
        push_all(&mut out, &text);
        string_of(&out)
    }
}

} // verus!
