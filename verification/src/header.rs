//! The header record: how it is assembled from the lines of a header text,
//! and how it is written back as canonical text.
use vstd::prelude::*;
use crate::header_defs::{
    line_matches, line_of, line_value, AxisMaxs, AxisMins, BlockSize, ByteSkip, Centering,
    Centerings, Comment, Content, DType, DataFile, DataFileView, Dimension, Encoding, Endian,
    Field, HeaderDef, HeaderError, Kind, Kinds, Labels, LineSkip, Magic, Max, Min, OldMax, OldMin,
    SampleUnits, Sizes, Space, SpaceDimension, SpaceDirections, SpaceOrigin, SpaceUnits, Spacings,
    Thicknesses, Units, Value,
};
use crate::header_defs::basic::{is_key_value, key_of, value_after};
use crate::header_defs::sizes::{all_positive, product};
use crate::keyvalues::{keys_ascend, pair_of, put, Entry, KeyValues, Pair};
use crate::text::{
    chars_of, lemma_views_push, lemma_views_remove, push_str, string_of, unlines, views,
};

verus! {

/// The model of an optional value.
pub open spec fn opt_view<T: View>(o: Option<T>) -> Option<T::V> {
    match o {
        Some(t) => Some(t@),
        None => None,
    }
}

/// The model of a header: the value of every field.
pub struct HeaderView {
    pub magic: nat,
    pub dimension: nat,
    pub dtype: DType,
    pub block_size: Option<nat>,
    pub encoding: Encoding,
    pub endian: Endian,
    pub content: Option<Seq<char>>,
    pub min: Option<Seq<char>>,
    pub max: Option<Seq<char>>,
    pub old_min: Option<Seq<char>>,
    pub old_max: Option<Seq<char>>,
    pub data_file: Option<DataFileView>,
    pub line_skip: Option<nat>,
    pub byte_skip: Option<ByteSkip>,
    pub sample_units: Option<Seq<char>>,
    pub sizes: Seq<nat>,
    pub spacings: Option<Seq<Seq<char>>>,
    pub thicknesses: Option<Seq<Seq<char>>>,
    pub axis_mins: Option<Seq<Seq<char>>>,
    pub axis_maxs: Option<Seq<Seq<char>>>,
    pub centerings: Option<Seq<Centering>>,
    pub labels: Option<Seq<Seq<char>>>,
    pub units: Option<Seq<Seq<char>>>,
    pub kinds: Option<Seq<Kind>>,
    pub space: Option<Space>,
    pub space_dimension: Option<nat>,
    pub space_units: Option<Seq<Seq<char>>>,
    pub space_origin: Option<Seq<Seq<char>>>,
    pub space_directions: Option<Seq<Option<Seq<Seq<char>>>>>,
    pub key_vals: Seq<Pair>,
    pub comments: Seq<Seq<char>>,
}

/// A header.
#[derive(Debug, Clone)]
pub struct NRRD {
    /* BASIC FIELDS */
    pub magic: Magic,
    pub dimension: Dimension,
    pub dtype: DType,
    pub block_size: Option<BlockSize>,
    pub encoding: Encoding,
    pub endian: Endian,
    pub content: Option<Content>,
    pub min: Option<Min>,
    pub max: Option<Max>,
    pub old_min: Option<OldMin>,
    pub old_max: Option<OldMax>,
    pub data_file: Option<DataFile>,
    pub line_skip: Option<LineSkip>,
    pub byte_skip: Option<ByteSkip>,
    pub sample_units: Option<SampleUnits>,
    /* PER-AXIS FIELDS */
    pub sizes: Sizes,
    pub spacings: Option<Spacings>,
    pub thicknesses: Option<Thicknesses>,
    pub axis_mins: Option<AxisMins>,
    pub axis_maxs: Option<AxisMaxs>,
    pub centerings: Option<Centerings>,
    pub labels: Option<Labels>,
    pub units: Option<Units>,
    pub kinds: Option<Kinds>,
    /* SPACE AND ORIENTATION */
    pub space: Option<Space>,
    pub space_dimension: Option<SpaceDimension>,
    pub space_units: Option<SpaceUnits>,
    pub space_origin: Option<SpaceOrigin>,
    pub space_directions: Option<SpaceDirections>,
    /* EXTRA KEY-VALUE DATA */
    pub key_vals: KeyValues,
    /* COMMENTS */
    pub comments: Vec<String>,
}

/// Another name of the record.
pub type Header = NRRD;

impl View for NRRD {
    type V = HeaderView;

    open spec fn view(&self) -> HeaderView {
        HeaderView {
            magic: self.magic@,
            dimension: self.dimension@,
            dtype: self.dtype@,
            block_size: opt_view(self.block_size),
            encoding: self.encoding@,
            endian: self.endian@,
            content: opt_view(self.content),
            min: opt_view(self.min),
            max: opt_view(self.max),
            old_min: opt_view(self.old_min),
            old_max: opt_view(self.old_max),
            data_file: opt_view(self.data_file),
            line_skip: opt_view(self.line_skip),
            byte_skip: opt_view(self.byte_skip),
            sample_units: opt_view(self.sample_units),
            sizes: self.sizes@,
            spacings: opt_view(self.spacings),
            thicknesses: opt_view(self.thicknesses),
            axis_mins: opt_view(self.axis_mins),
            axis_maxs: opt_view(self.axis_maxs),
            centerings: opt_view(self.centerings),
            labels: opt_view(self.labels),
            units: opt_view(self.units),
            kinds: opt_view(self.kinds),
            space: opt_view(self.space),
            space_dimension: opt_view(self.space_dimension),
            space_units: opt_view(self.space_units),
            space_origin: opt_view(self.space_origin),
            space_directions: opt_view(self.space_directions),
            key_vals: self.key_vals@,
            comments: views(self.comments@),
        }
    }
}

/// A header before anything is read into it.
pub open spec fn blank_header() -> HeaderView {
    HeaderView {
        magic: 0,
        dimension: 0,
        dtype: DType::uint8,
        block_size: None,
        encoding: Encoding::raw,
        endian: Endian::Little,
        content: None,
        min: None,
        max: None,
        old_min: None,
        old_max: None,
        data_file: None,
        line_skip: None,
        byte_skip: None,
        sample_units: None,
        sizes: Seq::empty(),
        spacings: None,
        thicknesses: None,
        axis_mins: None,
        axis_maxs: None,
        centerings: None,
        labels: None,
        units: None,
        kinds: None,
        space: None,
        space_dimension: None,
        space_units: None,
        space_origin: None,
        space_directions: None,
        key_vals: Seq::empty(),
        comments: Seq::empty(),
    }
}

/// Index of the first line at or after `i` that begins with a prefix of
/// `T`, or the number of lines where none does.
pub open spec fn first_line<T: HeaderDef>(lines: Seq<Seq<char>>, i: int) -> int
    decreases lines.len() - i,
{
    if i < 0 || i >= lines.len() {
        lines.len() as int
    } else if line_matches::<T>(lines[i]) {
        i
    } else {
        first_line::<T>(lines, i + 1)
    }
}

pub proof fn lemma_first_line<T: HeaderDef>(lines: Seq<Seq<char>>, i: int)
    requires
        0 <= i <= lines.len(),
    ensures
        i <= first_line::<T>(lines, i) <= lines.len(),
        first_line::<T>(lines, i) < lines.len() ==> line_matches::<T>(
            lines[first_line::<T>(lines, i)],
        ),
        forall|j: int| i <= j < first_line::<T>(lines, i) ==> !line_matches::<T>(#[trigger] lines[j]),
    decreases lines.len() - i,
{
    if i < lines.len() && !line_matches::<T>(lines[i]) {
        lemma_first_line::<T>(lines, i + 1);
    }
}

/// What taking a field out of the lines gives: its value, where a line
/// holds the field, and the lines that are left.
pub struct Taken<V> {
    pub value: Option<V>,
    pub rest: Seq<Seq<char>>,
}

/// Takes the first line that holds the field `T` out of `lines`. Nothing
/// is taken where no line holds it; the first such line must hold a value.
pub open spec fn take_field<T: HeaderDef>(lines: Seq<Seq<char>>) -> Result<Taken<T::V>, HeaderError> {
    let i = first_line::<T>(lines, 0);
    if i >= lines.len() {
        Ok(Taken { value: None, rest: lines })
    } else {
        match line_value::<T>(lines[i]) {
            Ok(v) => Ok(Taken { value: Some(v), rest: lines.remove(i) }),
            Err(e) => Err(e),
        }
    }
}

/// Takes the field `T` from the first line, which must hold it.
pub open spec fn take_front<T: HeaderDef>(lines: Seq<Seq<char>>) -> Result<Taken<T::V>, HeaderError> {
    if lines.len() == 0 {
        Err(HeaderError::Missing(T::field()))
    } else {
        match line_value::<T>(lines[0]) {
            Ok(v) => Ok(Taken { value: Some(v), rest: lines.drop_first() }),
            Err(e) => Err(e),
        }
    }
}

/// The data-file directive of the lines. A list directive takes every line
/// after it as one of its files.
pub open spec fn take_data_file(lines: Seq<Seq<char>>) -> Result<Taken<DataFileView>, HeaderError> {
    let i = first_line::<DataFile>(lines, 0);
    if i >= lines.len() {
        Ok(Taken { value: None, rest: lines })
    } else {
        match line_value::<DataFile>(lines[i]) {
            Ok(DataFileView::List { sub_dim, file_paths }) => Ok(
                Taken {
                    value: Some(DataFileView::List { sub_dim, file_paths: lines.skip(i + 1) }),
                    rest: lines.take(i),
                },
            ),
            Ok(v) => Ok(Taken { value: Some(v), rest: lines.remove(i) }),
            Err(e) => Err(e),
        }
    }
}

/// The comments of the lines, each in its canonical form. A comment
/// line without text gives none.
pub open spec fn comments_of(lines: Seq<Seq<char>>) -> Seq<Seq<char>>
    decreases lines.len(),
{
    if lines.len() == 0 {
        Seq::empty()
    } else {
        let before = comments_of(lines.drop_last());
        match line_value::<Comment>(lines.last()) {
            Ok(v) => before.push(line_of::<Comment>(v)),
            Err(_) => before,
        }
    }
}

/// The lines that are no comment lines.
pub open spec fn without_comments(lines: Seq<Seq<char>>) -> Seq<Seq<char>> {
    lines.filter(|l: Seq<char>| !line_matches::<Comment>(l))
}

/// The key-value pairs of the lines; of two lines with one key, the later counts.
pub open spec fn key_values_of(lines: Seq<Seq<char>>) -> Seq<Pair>
    decreases lines.len(),
{
    if lines.len() == 0 {
        Seq::empty()
    } else {
        let before = key_values_of(lines.drop_last());
        if is_key_value(lines.last()) {
            put(before, key_of(lines.last()), value_after(lines.last()))
        } else {
            before
        }
    }
}

/// The lines that are no key-value lines.
pub open spec fn without_key_values(lines: Seq<Seq<char>>) -> Seq<Seq<char>> {
    lines.filter(|l: Seq<char>| !is_key_value(l))
}

/// The state of an assembly: the header so far, the lines not yet
/// consumed, and the error that stopped it, if one did.
pub struct Scan {
    pub header: HeaderView,
    pub lines: Seq<Seq<char>>,
    pub error: Option<HeaderError>,
}

impl Scan {
    /// Reads the field `T` from the first line.
    pub open spec fn front<T: HeaderDef>(self, set: spec_fn(HeaderView, T::V) -> HeaderView) -> Scan {
        if self.error is Some {
            self
        } else {
            match take_front::<T>(self.lines) {
                Ok(t) => Scan { header: set(self.header, t.value->0), lines: t.rest, error: None },
                Err(e) => Scan { error: Some(e), ..self },
            }
        }
    }

    /// Reads the field `T` from the first line that holds it, if one does.
    pub open spec fn optional<T: HeaderDef>(
        self,
        set: spec_fn(HeaderView, Option<T::V>) -> HeaderView,
    ) -> Scan {
        if self.error is Some {
            self
        } else {
            match take_field::<T>(self.lines) {
                Ok(t) => Scan { header: set(self.header, t.value), lines: t.rest, error: None },
                Err(e) => Scan { error: Some(e), ..self },
            }
        }
    }

    /// Holds a per-axis field to the number of axes.
    pub open spec fn counted(self, field: Field, count: Option<nat>) -> Scan {
        if self.error is None && count is Some && count->0 != self.header.dimension {
            Scan { error: Some(HeaderError::AxisCount(field)), ..self }
        } else {
            self
        }
    }

    /// Sweeps the key-value lines out.
    pub open spec fn key_values(self) -> Scan {
        if self.error is Some {
            self
        } else {
            Scan {
                header: HeaderView { key_vals: key_values_of(self.lines), ..self.header },
                lines: without_key_values(self.lines),
                error: None,
            }
        }
    }

    /// Sweeps the comment lines out.
    pub open spec fn comments(self) -> Scan {
        if self.error is Some {
            self
        } else {
            Scan {
                header: HeaderView { comments: comments_of(self.lines), ..self.header },
                lines: without_comments(self.lines),
                error: None,
            }
        }
    }

    /// Reads the data-file directive.
    pub open spec fn data_file(self) -> Scan {
        if self.error is Some {
            self
        } else {
            match take_data_file(self.lines) {
                Ok(t) => Scan {
                    header: HeaderView { data_file: t.value, ..self.header },
                    lines: t.rest,
                    error: None,
                },
                Err(e) => Scan { error: Some(e), ..self },
            }
        }
    }
}

/// The number of entries of an optional per-axis value.
pub open spec fn count_of_axes<A>(v: Option<Seq<A>>) -> Option<nat> {
    match v {
        Some(s) => Some(s.len()),
        None => None,
    }
}

/// The assembly of the mandatory fields, which stand at the front of the
/// lines in this order: magic, dimension, type, block size where the type
/// is `block`, encoding, endian, sizes.
pub open spec fn scan_minimal(lines: Seq<Seq<char>>) -> Scan {
    let s = Scan {
        header: blank_header(),
        lines,
        error: if lines.len() == 0 {
            Some(HeaderError::NoLines)
        } else {
            None
        },
    };
    let s = s.front::<Magic>(|h: HeaderView, v: nat| HeaderView { magic: v, ..h });
    let s = s.front::<Dimension>(|h: HeaderView, v: nat| HeaderView { dimension: v, ..h });
    let s = s.front::<DType>(|h: HeaderView, v: DType| HeaderView { dtype: v, ..h });
    let s = if s.header.dtype == DType::Block {
        s.front::<BlockSize>(|h: HeaderView, v: nat| HeaderView { block_size: Some(v), ..h })
    } else {
        s
    };
    let s = s.front::<Encoding>(|h: HeaderView, v: Encoding| HeaderView { encoding: v, ..h });
    let s = s.front::<Endian>(|h: HeaderView, v: Endian| HeaderView { endian: v, ..h });
    let s = s.front::<Sizes>(|h: HeaderView, v: Seq<nat>| HeaderView { sizes: v, ..h });
    s.counted(Field::Sizes, Some(s.header.sizes.len()))
}

/// The assembly of a whole header: the mandatory fields from the front,
/// then each optional field from the first line that holds it, then the
/// key-value lines, the comment lines, and the data-file directive last.
pub open spec fn scan_full(lines: Seq<Seq<char>>) -> Scan {
    scan_full_after(scan_minimal(lines))
}

/// What follows the mandatory fields in the assembly of a whole header.
pub open spec fn scan_full_after(s: Scan) -> Scan {
    scan_space(scan_axes(scan_scalars(s))).key_values().comments().data_file()
}

/// The assembly of the optional fields that hold one value.
pub open spec fn scan_scalars(s: Scan) -> Scan {
    let s = s.optional::<Content>(|h: HeaderView, v: Option<Seq<char>>| HeaderView { content: v, ..h });
    let s = s.optional::<Min>(|h: HeaderView, v: Option<Seq<char>>| HeaderView { min: v, ..h });
    let s = s.optional::<Max>(|h: HeaderView, v: Option<Seq<char>>| HeaderView { max: v, ..h });
    let s = s.optional::<OldMin>(|h: HeaderView, v: Option<Seq<char>>| HeaderView { old_min: v, ..h });
    let s = s.optional::<OldMax>(|h: HeaderView, v: Option<Seq<char>>| HeaderView { old_max: v, ..h });
    let s = s.optional::<LineSkip>(|h: HeaderView, v: Option<nat>| HeaderView { line_skip: v, ..h });
    let s = s.optional::<ByteSkip>(|h: HeaderView, v: Option<ByteSkip>| HeaderView { byte_skip: v, ..h });
    let s = s.optional::<SampleUnits>(|h: HeaderView, v: Option<Seq<char>>| HeaderView { sample_units: v, ..h });
    s
}

/// The assembly of the optional fields that hold one entry for each axis.
pub open spec fn scan_axes(s: Scan) -> Scan {
    let s = s.optional::<Spacings>(|h: HeaderView, v: Option<Seq<Seq<char>>>| HeaderView { spacings: v, ..h });
    let s = s.counted(Field::Spacings, count_of_axes(s.header.spacings));
    let s = s.optional::<Thicknesses>(|h: HeaderView, v: Option<Seq<Seq<char>>>| HeaderView { thicknesses: v, ..h });
    let s = s.counted(Field::Thicknesses, count_of_axes(s.header.thicknesses));
    let s = s.optional::<AxisMins>(|h: HeaderView, v: Option<Seq<Seq<char>>>| HeaderView { axis_mins: v, ..h });
    let s = s.counted(Field::AxisMins, count_of_axes(s.header.axis_mins));
    let s = s.optional::<AxisMaxs>(|h: HeaderView, v: Option<Seq<Seq<char>>>| HeaderView { axis_maxs: v, ..h });
    let s = s.counted(Field::AxisMaxs, count_of_axes(s.header.axis_maxs));
    let s = s.optional::<Centerings>(|h: HeaderView, v: Option<Seq<Centering>>| HeaderView { centerings: v, ..h });
    let s = s.counted(Field::Centerings, count_of_axes(s.header.centerings));
    let s = s.optional::<Labels>(|h: HeaderView, v: Option<Seq<Seq<char>>>| HeaderView { labels: v, ..h });
    let s = s.counted(Field::Labels, count_of_axes(s.header.labels));
    let s = s.optional::<Units>(|h: HeaderView, v: Option<Seq<Seq<char>>>| HeaderView { units: v, ..h });
    let s = s.counted(Field::Units, count_of_axes(s.header.units));
    let s = s.optional::<Kinds>(|h: HeaderView, v: Option<Seq<Kind>>| HeaderView { kinds: v, ..h });
    let s = s.counted(Field::Kinds, count_of_axes(s.header.kinds));
    s
}

/// The assembly of the optional fields of space and orientation.
pub open spec fn scan_space(s: Scan) -> Scan {
    let s = s.optional::<Space>(|h: HeaderView, v: Option<Space>| HeaderView { space: v, ..h });
    let s = s.optional::<SpaceDimension>(|h: HeaderView, v: Option<nat>| HeaderView { space_dimension: v, ..h });
    let s = s.optional::<SpaceUnits>(|h: HeaderView, v: Option<Seq<Seq<char>>>| HeaderView { space_units: v, ..h });
    let s = s.optional::<SpaceOrigin>(|h: HeaderView, v: Option<Seq<Seq<char>>>| HeaderView { space_origin: v, ..h });
    let s = s.optional::<SpaceDirections>(|h: HeaderView, v: Option<Seq<Option<Seq<Seq<char>>>>>| HeaderView { space_directions: v, ..h });
    let s = s.counted(Field::SpaceDirections, count_of_axes(s.header.space_directions));
    s
}

/// The invariants of a header: one positive size for each axis, one entry
/// for each axis in every per-axis field, a block size exactly where the
/// type is `block`, and the keys of the key-value pairs in ascending order.
pub open spec fn valid_header(h: HeaderView) -> bool {
    &&& h.dimension > 0
    &&& h.sizes.len() == h.dimension
    &&& all_positive(h.sizes)
    &&& (h.dtype == DType::Block <==> h.block_size is Some)
    &&& (h.spacings matches Some(v) ==> v.len() == h.dimension)
    &&& (h.thicknesses matches Some(v) ==> v.len() == h.dimension)
    &&& (h.axis_mins matches Some(v) ==> v.len() == h.dimension)
    &&& (h.axis_maxs matches Some(v) ==> v.len() == h.dimension)
    &&& (h.centerings matches Some(v) ==> v.len() == h.dimension)
    &&& (h.labels matches Some(v) ==> v.len() == h.dimension)
    &&& (h.units matches Some(v) ==> v.len() == h.dimension)
    &&& (h.kinds matches Some(v) ==> v.len() == h.dimension)
    &&& (h.space_directions matches Some(v) ==> v.len() == h.dimension)
    &&& keys_ascend(h.key_vals)
}

/// A line of the header text: the text and a line feed.
pub open spec fn line(text: Seq<char>) -> Seq<char> {
    text.push('\n')
}

/// The line of an optional field: nothing where the field is absent.
pub open spec fn opt_line<T: HeaderDef>(v: Option<T::V>) -> Seq<char> {
    match v {
        Some(x) => line(line_of::<T>(x)),
        None => Seq::empty(),
    }
}

/// The lines of the key-value pairs: key, `:=`, value.
pub open spec fn pairs_text(pairs: Seq<Pair>) -> Seq<char>
    decreases pairs.len(),
{
    if pairs.len() == 0 {
        Seq::empty()
    } else {
        pairs_text(pairs.drop_last()) + line(pairs.last().0 + ":="@ + pairs.last().1)
    }
}

/// The canonical text of a header: the fields in a fixed order, each on a
/// line of its own, absent fields left out. Comments follow the magic line
/// and the optional scalar fields stand before the sizes, so only the text
/// of a header of the mandatory fields alone is in the order that an
/// assembly asks of the mandatory fields.
pub open spec fn header_text(h: HeaderView) -> Seq<char> {
    line(line_of::<Magic>(h.magic))
        + unlines(h.comments)
        + line(line_of::<Dimension>(h.dimension))
        + line(line_of::<DType>(h.dtype))
        + opt_line::<BlockSize>(h.block_size)
        + line(line_of::<Encoding>(h.encoding))
        + line(line_of::<Endian>(h.endian))
        + opt_line::<Content>(h.content)
        + opt_line::<Min>(h.min)
        + opt_line::<Max>(h.max)
        + opt_line::<OldMin>(h.old_min)
        + opt_line::<OldMax>(h.old_max)
        + opt_line::<LineSkip>(h.line_skip)
        + opt_line::<ByteSkip>(h.byte_skip)
        + opt_line::<SampleUnits>(h.sample_units)
        + line(line_of::<Sizes>(h.sizes))
        + opt_line::<Spacings>(h.spacings)
        + opt_line::<Thicknesses>(h.thicknesses)
        + opt_line::<AxisMins>(h.axis_mins)
        + opt_line::<AxisMaxs>(h.axis_maxs)
        + opt_line::<Centerings>(h.centerings)
        + opt_line::<Labels>(h.labels)
        + opt_line::<Units>(h.units)
        + opt_line::<Kinds>(h.kinds)
        + opt_line::<Space>(h.space)
        + opt_line::<SpaceDimension>(h.space_dimension)
        + opt_line::<SpaceUnits>(h.space_units)
        + opt_line::<SpaceOrigin>(h.space_origin)
        + opt_line::<SpaceDirections>(h.space_directions)
        + pairs_text(h.key_vals)
        + opt_line::<DataFile>(h.data_file)
}

/// A copy of the lines.
fn copy_lines<'a>(lines: &Vec<&'a str>) -> (r: Vec<&'a str>)
    ensures
        r@ == lines@,
{
    let mut r: Vec<&'a str> = Vec::new();
    let mut i: usize = 0;
    while i < lines.len()
        invariant
            0 <= i <= lines.len(),
            r@ == lines@.take(i as int),
        decreases lines.len() - i,
    {
        r.push(lines[i]);
        assert(lines@.take(i + 1) =~= lines@.take(i as int).push(lines@[i as int]));
        i += 1;
    }
    assert(lines@.take(lines.len() as int) =~= lines@);
    r
}

/// Position of the first line that holds the field `T`.
fn find_line<T: HeaderDef>(header_lines: &Vec<&str>) -> (r: Option<usize>)
    ensures
        match r {
            Some(i) => i < header_lines.len() && i == first_line::<T>(views(header_lines@), 0),
            None => first_line::<T>(views(header_lines@), 0) == header_lines.len(),
        },
{
    let mut i: usize = 0;
    assert(views(header_lines@).len() == header_lines.len());
    while i < header_lines.len()
        invariant
            0 <= i <= header_lines.len(),
            views(header_lines@).len() == header_lines.len(),
            first_line::<T>(views(header_lines@), 0) == first_line::<T>(
                views(header_lines@),
                i as int,
            ),
        decreases header_lines.len() - i,
    {
        assert(views(header_lines@)[i as int] == header_lines@[i as int]@);
        if T::matches(header_lines[i]) {
            return Some(i);
        }
        i += 1;
    }
    None
}

/// Takes the field `T` out of the lines: the first line that begins with
/// one of its prefixes is read and removed. The lines stay as they are
/// where none holds the field, and where the line does not hold a value.
pub fn read_header_def<T: HeaderDef>(header_lines: &mut Vec<&str>) -> (r: Result<
    Option<T>,
    HeaderError,
>)
    ensures
        match take_field::<T>(views(old(header_lines)@)) {
            Ok(t) => r matches Ok(v) && opt_view(v) == t.value && views(final(header_lines)@)
                == t.rest,
            Err(e) => r matches Err(x) && x == e && final(header_lines)@ == old(header_lines)@,
        },
{
    match find_line::<T>(header_lines) {
        None => Ok(None),
        Some(i) => {
            assert(views(header_lines@)[i as int] == header_lines@[i as int]@);
            match T::from_str(header_lines[i]) {
                Ok(v) => {
                    proof {
                        lemma_views_remove(header_lines@, i as int);
                    }
                    header_lines.remove(i);
                    Ok(Some(v))
                },
                Err(e) => Err(e),
            }
        },
    }
}

/// Takes the field `T` from the first line, which must hold it.
pub fn read_front<T: HeaderDef>(header_lines: &mut Vec<&str>) -> (r: Result<T, HeaderError>)
    ensures
        match take_front::<T>(views(old(header_lines)@)) {
            Ok(t) => r matches Ok(v) && Some(v@) == t.value && views(final(header_lines)@)
                == t.rest,
            Err(e) => r matches Err(x) && x == e && final(header_lines)@ == old(header_lines)@,
        },
{
    if header_lines.len() == 0 {
        assert(views(header_lines@).len() == 0);
        return Err(HeaderError::Missing(T::tag()));
    }
    assert(views(header_lines@)[0] == header_lines@[0]@);
    match T::from_str(header_lines[0]) {
        Ok(v) => {
            proof {
                lemma_views_remove(header_lines@, 0);
                assert(views(header_lines@).remove(0) =~= views(header_lines@).drop_first());
            }
            header_lines.remove(0);
            Ok(v)
        },
        Err(e) => Err(e),
    }
}

/// Takes the data-file directive out of the lines. After a list directive
/// every line that follows it is one of its files, and leaves with it.
pub fn read_data_file(header_lines: &mut Vec<&str>) -> (r: Result<Option<DataFile>, HeaderError>)
    ensures
        match take_data_file(views(old(header_lines)@)) {
            Ok(t) => r matches Ok(v) && opt_view(v) == t.value && views(final(header_lines)@)
                == t.rest,
            Err(e) => r matches Err(x) && x == e && final(header_lines)@ == old(header_lines)@,
        },
{
    let ghost lines = views(header_lines@);
    match find_line::<DataFile>(header_lines) {
        None => Ok(None),
        Some(i) => {
            assert(lines[i as int] == header_lines@[i as int]@);
            match DataFile::from_str(header_lines[i]) {
                Ok(DataFile::List { sub_dim, file_paths }) => {
                    let mut files: Vec<String> = Vec::new();
                    let mut k: usize = i + 1;
                    while k < header_lines.len()
                        invariant
                            i + 1 <= k <= header_lines.len(),
                            lines == views(header_lines@),
                            files.len() == k - (i + 1),
                            forall|j: int|
                                0 <= j < files.len() ==> (#[trigger] files@[j])@ == lines[i + 1 + j],
                        decreases header_lines.len() - k,
                    {
                        assert(lines[k as int] == header_lines@[k as int]@);
                        files.push(string_of(&chars_of(header_lines[k])));
                        k += 1;
                    }
                    assert(views(files@) =~= lines.skip(i + 1));
                    header_lines.truncate(i);
                    assert(views(header_lines@) =~= lines.take(i as int));
                    Ok(Some(DataFile::List { sub_dim, file_paths: files }))
                },
                Ok(d) => {
                    proof {
                        lemma_views_remove(header_lines@, i as int);
                    }
                    header_lines.remove(i);
                    Ok(Some(d))
                },
                Err(e) => Err(e),
            }
        },
    }
}

/// Sweeps the key-value lines out of the lines and gives their pairs.
pub fn read_key_values(header_lines: &mut Vec<&str>) -> (r: KeyValues)
    ensures
        r@ == key_values_of(views(old(header_lines)@)),
        r.wf(),
        views(final(header_lines)@) == without_key_values(views(old(header_lines)@)),
{
    let ghost lines = views(header_lines@);
    let ghost keep = |l: Seq<char>| !is_key_value(l);
    let mut keyvals = KeyValues::new();
    let mut kept: Vec<&str> = Vec::new();
    let mut i: usize = 0;
    assert(lines.take(0) =~= Seq::<Seq<char>>::empty());
    assert(views(kept@) =~= lines.take(0).filter(keep));
    while i < header_lines.len()
        invariant
            0 <= i <= header_lines.len(),
            lines == views(header_lines@),
            keep == |l: Seq<char>| !is_key_value(l),
            keyvals@ == key_values_of(lines.take(i as int)),
            keyvals.wf(),
            views(kept@) == lines.take(i as int).filter(keep),
        decreases header_lines.len() - i,
    {
        let x = header_lines[i];
        proof {
            assert(lines[i as int] == x@);
            let t = lines.take(i + 1);
            assert(t.drop_last() =~= lines.take(i as int));
            assert(t.last() == x@);
            reveal(Seq::filter);
        }
        if Value::matches_key_value(x) {
            let key = Value::key(x);
            match Value::from_str(x) {
                Ok(value) => keyvals.insert(key, value),
                Err(_) => {},
            }
        } else {
            proof {
                lemma_views_push(kept@, x);
            }
            kept.push(x);
        }
        i += 1;
    }
    assert(lines.take(header_lines.len() as int) =~= lines);
    *header_lines = kept;
    keyvals
}

/// Sweeps the comment lines out of the lines and gives the comments, each
/// in its canonical form.
pub fn read_comments(header_lines: &mut Vec<&str>) -> (r: Vec<String>)
    ensures
        views(r@) == comments_of(views(old(header_lines)@)),
        views(final(header_lines)@) == without_comments(views(old(header_lines)@)),
{
    let ghost lines = views(header_lines@);
    let ghost keep = |l: Seq<char>| !line_matches::<Comment>(l);
    let mut comments: Vec<String> = Vec::new();
    let mut kept: Vec<&str> = Vec::new();
    let mut i: usize = 0;
    assert(lines.take(0) =~= Seq::<Seq<char>>::empty());
    assert(views(kept@) =~= lines.take(0).filter(keep));
    assert(views(comments@) =~= comments_of(lines.take(0)));
    while i < header_lines.len()
        invariant
            0 <= i <= header_lines.len(),
            lines == views(header_lines@),
            keep == |l: Seq<char>| !line_matches::<Comment>(l),
            views(comments@) == comments_of(lines.take(i as int)),
            views(kept@) == lines.take(i as int).filter(keep),
        decreases header_lines.len() - i,
    {
        let x = header_lines[i];
        proof {
            assert(lines[i as int] == x@);
            let t = lines.take(i + 1);
            assert(t.drop_last() =~= lines.take(i as int));
            assert(t.last() == x@);
            reveal(Seq::filter);
        }
        if Comment::matches(x) {
            match Comment::from_str(x) {
                Ok(comment) => {
                    let text = comment.to_string();
                    proof {
                        lemma_views_push(comments@, text);
                    }
                    comments.push(text);
                },
                Err(_) => {},
            }
        } else {
            proof {
                lemma_views_push(kept@, x);
            }
            kept.push(x);
        }
        i += 1;
    }
    assert(lines.take(header_lines.len() as int) =~= lines);
    *header_lines = kept;
    comments
}

/// Appends the canonical line of a field.
fn push_line<T: HeaderDef>(out: &mut Vec<char>, v: &T)
    ensures
        final(out)@ == old(out)@ + line(line_of::<T>(v@)),
{
    let text = v.to_string();
    push_str(out, text.as_str());
    out.push('\n');
    assert(out@ =~= old(out)@ + line(line_of::<T>(v@)));
}

/// Appends the canonical line of an optional field.
fn push_opt_line<T: HeaderDef>(out: &mut Vec<char>, v: &Option<T>)
    ensures
        final(out)@ == old(out)@ + opt_line::<T>(opt_view(*v)),
{
    match v {
        Some(x) => push_line(out, x),
        None => {
            assert(out@ =~= old(out)@ + Seq::<char>::empty());
        },
    }
}

/// A type of elements that a raster can hold.
pub trait NRRDType {
    /// The header's name for the type.
    spec fn spec_dtype() -> DType;

    fn dtype() -> (d: DType)
        ensures
            d == Self::spec_dtype(),
    ;
}

impl NRRDType for i8 {
    open spec fn spec_dtype() -> DType {
        DType::int8
    }

    fn dtype() -> DType {
        DType::int8
    }
}

impl NRRDType for u8 {
    open spec fn spec_dtype() -> DType {
        DType::uint8
    }

    fn dtype() -> DType {
        DType::uint8
    }
}

impl NRRDType for i16 {
    open spec fn spec_dtype() -> DType {
        DType::int16
    }

    fn dtype() -> DType {
        DType::int16
    }
}

impl NRRDType for u16 {
    open spec fn spec_dtype() -> DType {
        DType::uint16
    }

    fn dtype() -> DType {
        DType::uint16
    }
}

impl NRRDType for i32 {
    open spec fn spec_dtype() -> DType {
        DType::int32
    }

    fn dtype() -> DType {
        DType::int32
    }
}

impl NRRDType for u32 {
    open spec fn spec_dtype() -> DType {
        DType::uint32
    }

    fn dtype() -> DType {
        DType::uint32
    }
}

impl NRRDType for i64 {
    open spec fn spec_dtype() -> DType {
        DType::int64
    }

    fn dtype() -> DType {
        DType::int64
    }
}

impl NRRDType for u64 {
    open spec fn spec_dtype() -> DType {
        DType::uint64
    }

    fn dtype() -> DType {
        DType::uint64
    }
}

/// One step of the assembly: the field `content`.
fn read_content(h: &mut NRRD, work: &mut Vec<&str>) -> (r: Result<(), HeaderError>)
    ensures
        ({
            let s = Scan { header: old(h)@, lines: views(old(work)@), error: None }.optional::<Content>(
                |h: HeaderView, v: Option<Seq<char>>| HeaderView { content: v, ..h },
            );
            let s = s;
            match r {
                Ok(_) => s.error is None && final(h)@ == s.header && views(final(work)@) == s.lines,
                Err(e) => s.error == Some(e),
            }
        }),
{
    h.content = match read_header_def::<Content>(work) {
        Ok(v) => v,
        Err(e) => {
            return Err(e);
        },
    };
    Ok(())
}

/// One step of the assembly: the field `min`.
fn read_min(h: &mut NRRD, work: &mut Vec<&str>) -> (r: Result<(), HeaderError>)
    ensures
        ({
            let s = Scan { header: old(h)@, lines: views(old(work)@), error: None }.optional::<Min>(
                |h: HeaderView, v: Option<Seq<char>>| HeaderView { min: v, ..h },
            );
            let s = s;
            match r {
                Ok(_) => s.error is None && final(h)@ == s.header && views(final(work)@) == s.lines,
                Err(e) => s.error == Some(e),
            }
        }),
{
    h.min = match read_header_def::<Min>(work) {
        Ok(v) => v,
        Err(e) => {
            return Err(e);
        },
    };
    Ok(())
}

/// One step of the assembly: the field `max`.
fn read_max(h: &mut NRRD, work: &mut Vec<&str>) -> (r: Result<(), HeaderError>)
    ensures
        ({
            let s = Scan { header: old(h)@, lines: views(old(work)@), error: None }.optional::<Max>(
                |h: HeaderView, v: Option<Seq<char>>| HeaderView { max: v, ..h },
            );
            let s = s;
            match r {
                Ok(_) => s.error is None && final(h)@ == s.header && views(final(work)@) == s.lines,
                Err(e) => s.error == Some(e),
            }
        }),
{
    h.max = match read_header_def::<Max>(work) {
        Ok(v) => v,
        Err(e) => {
            return Err(e);
        },
    };
    Ok(())
}

/// One step of the assembly: the field `old_min`.
fn read_old_min(h: &mut NRRD, work: &mut Vec<&str>) -> (r: Result<(), HeaderError>)
    ensures
        ({
            let s = Scan { header: old(h)@, lines: views(old(work)@), error: None }.optional::<OldMin>(
                |h: HeaderView, v: Option<Seq<char>>| HeaderView { old_min: v, ..h },
            );
            let s = s;
            match r {
                Ok(_) => s.error is None && final(h)@ == s.header && views(final(work)@) == s.lines,
                Err(e) => s.error == Some(e),
            }
        }),
{
    h.old_min = match read_header_def::<OldMin>(work) {
        Ok(v) => v,
        Err(e) => {
            return Err(e);
        },
    };
    Ok(())
}

/// One step of the assembly: the field `old_max`.
fn read_old_max(h: &mut NRRD, work: &mut Vec<&str>) -> (r: Result<(), HeaderError>)
    ensures
        ({
            let s = Scan { header: old(h)@, lines: views(old(work)@), error: None }.optional::<OldMax>(
                |h: HeaderView, v: Option<Seq<char>>| HeaderView { old_max: v, ..h },
            );
            let s = s;
            match r {
                Ok(_) => s.error is None && final(h)@ == s.header && views(final(work)@) == s.lines,
                Err(e) => s.error == Some(e),
            }
        }),
{
    h.old_max = match read_header_def::<OldMax>(work) {
        Ok(v) => v,
        Err(e) => {
            return Err(e);
        },
    };
    Ok(())
}

/// One step of the assembly: the field `line_skip`.
fn read_line_skip(h: &mut NRRD, work: &mut Vec<&str>) -> (r: Result<(), HeaderError>)
    ensures
        ({
            let s = Scan { header: old(h)@, lines: views(old(work)@), error: None }.optional::<LineSkip>(
                |h: HeaderView, v: Option<nat>| HeaderView { line_skip: v, ..h },
            );
            let s = s;
            match r {
                Ok(_) => s.error is None && final(h)@ == s.header && views(final(work)@) == s.lines,
                Err(e) => s.error == Some(e),
            }
        }),
{
    h.line_skip = match read_header_def::<LineSkip>(work) {
        Ok(v) => v,
        Err(e) => {
            return Err(e);
        },
    };
    Ok(())
}

/// One step of the assembly: the field `byte_skip`.
fn read_byte_skip(h: &mut NRRD, work: &mut Vec<&str>) -> (r: Result<(), HeaderError>)
    ensures
        ({
            let s = Scan { header: old(h)@, lines: views(old(work)@), error: None }.optional::<ByteSkip>(
                |h: HeaderView, v: Option<ByteSkip>| HeaderView { byte_skip: v, ..h },
            );
            let s = s;
            match r {
                Ok(_) => s.error is None && final(h)@ == s.header && views(final(work)@) == s.lines,
                Err(e) => s.error == Some(e),
            }
        }),
{
    h.byte_skip = match read_header_def::<ByteSkip>(work) {
        Ok(v) => v,
        Err(e) => {
            return Err(e);
        },
    };
    Ok(())
}

/// One step of the assembly: the field `sample_units`.
fn read_sample_units(h: &mut NRRD, work: &mut Vec<&str>) -> (r: Result<(), HeaderError>)
    ensures
        ({
            let s = Scan { header: old(h)@, lines: views(old(work)@), error: None }.optional::<SampleUnits>(
                |h: HeaderView, v: Option<Seq<char>>| HeaderView { sample_units: v, ..h },
            );
            let s = s;
            match r {
                Ok(_) => s.error is None && final(h)@ == s.header && views(final(work)@) == s.lines,
                Err(e) => s.error == Some(e),
            }
        }),
{
    h.sample_units = match read_header_def::<SampleUnits>(work) {
        Ok(v) => v,
        Err(e) => {
            return Err(e);
        },
    };
    Ok(())
}

/// One step of the assembly: the field `spacings`.
fn read_spacings(h: &mut NRRD, work: &mut Vec<&str>) -> (r: Result<(), HeaderError>)
    ensures
        ({
            let s = Scan { header: old(h)@, lines: views(old(work)@), error: None }.optional::<Spacings>(
                |h: HeaderView, v: Option<Seq<Seq<char>>>| HeaderView { spacings: v, ..h },
            );
            let s = s.counted(Field::Spacings, count_of_axes(s.header.spacings));
            match r {
                Ok(_) => s.error is None && final(h)@ == s.header && views(final(work)@) == s.lines,
                Err(e) => s.error == Some(e),
            }
        }),
{
    h.spacings = match read_header_def::<Spacings>(work) {
        Ok(v) => v,
        Err(e) => {
            return Err(e);
        },
    };
    match &h.spacings {
        Some(x) => {
            let n: usize = x.spacings().len();
            assert(x@.len() == n);
            if n != h.dimension.dim() {
                return Err(HeaderError::AxisCount(Field::Spacings));
            }
        },
        None => {},
    }
    Ok(())
}

/// One step of the assembly: the field `thicknesses`.
fn read_thicknesses(h: &mut NRRD, work: &mut Vec<&str>) -> (r: Result<(), HeaderError>)
    ensures
        ({
            let s = Scan { header: old(h)@, lines: views(old(work)@), error: None }.optional::<Thicknesses>(
                |h: HeaderView, v: Option<Seq<Seq<char>>>| HeaderView { thicknesses: v, ..h },
            );
            let s = s.counted(Field::Thicknesses, count_of_axes(s.header.thicknesses));
            match r {
                Ok(_) => s.error is None && final(h)@ == s.header && views(final(work)@) == s.lines,
                Err(e) => s.error == Some(e),
            }
        }),
{
    h.thicknesses = match read_header_def::<Thicknesses>(work) {
        Ok(v) => v,
        Err(e) => {
            return Err(e);
        },
    };
    match &h.thicknesses {
        Some(x) => {
            let n: usize = x.thicknesses().len();
            assert(x@.len() == n);
            if n != h.dimension.dim() {
                return Err(HeaderError::AxisCount(Field::Thicknesses));
            }
        },
        None => {},
    }
    Ok(())
}

/// One step of the assembly: the field `axis_mins`.
fn read_axis_mins(h: &mut NRRD, work: &mut Vec<&str>) -> (r: Result<(), HeaderError>)
    ensures
        ({
            let s = Scan { header: old(h)@, lines: views(old(work)@), error: None }.optional::<AxisMins>(
                |h: HeaderView, v: Option<Seq<Seq<char>>>| HeaderView { axis_mins: v, ..h },
            );
            let s = s.counted(Field::AxisMins, count_of_axes(s.header.axis_mins));
            match r {
                Ok(_) => s.error is None && final(h)@ == s.header && views(final(work)@) == s.lines,
                Err(e) => s.error == Some(e),
            }
        }),
{
    h.axis_mins = match read_header_def::<AxisMins>(work) {
        Ok(v) => v,
        Err(e) => {
            return Err(e);
        },
    };
    match &h.axis_mins {
        Some(x) => {
            let n: usize = x.mins().len();
            assert(x@.len() == n);
            if n != h.dimension.dim() {
                return Err(HeaderError::AxisCount(Field::AxisMins));
            }
        },
        None => {},
    }
    Ok(())
}

/// One step of the assembly: the field `axis_maxs`.
fn read_axis_maxs(h: &mut NRRD, work: &mut Vec<&str>) -> (r: Result<(), HeaderError>)
    ensures
        ({
            let s = Scan { header: old(h)@, lines: views(old(work)@), error: None }.optional::<AxisMaxs>(
                |h: HeaderView, v: Option<Seq<Seq<char>>>| HeaderView { axis_maxs: v, ..h },
            );
            let s = s.counted(Field::AxisMaxs, count_of_axes(s.header.axis_maxs));
            match r {
                Ok(_) => s.error is None && final(h)@ == s.header && views(final(work)@) == s.lines,
                Err(e) => s.error == Some(e),
            }
        }),
{
    h.axis_maxs = match read_header_def::<AxisMaxs>(work) {
        Ok(v) => v,
        Err(e) => {
            return Err(e);
        },
    };
    match &h.axis_maxs {
        Some(x) => {
            let n: usize = x.maxs().len();
            assert(x@.len() == n);
            if n != h.dimension.dim() {
                return Err(HeaderError::AxisCount(Field::AxisMaxs));
            }
        },
        None => {},
    }
    Ok(())
}

/// One step of the assembly: the field `centerings`.
fn read_centerings(h: &mut NRRD, work: &mut Vec<&str>) -> (r: Result<(), HeaderError>)
    ensures
        ({
            let s = Scan { header: old(h)@, lines: views(old(work)@), error: None }.optional::<Centerings>(
                |h: HeaderView, v: Option<Seq<Centering>>| HeaderView { centerings: v, ..h },
            );
            let s = s.counted(Field::Centerings, count_of_axes(s.header.centerings));
            match r {
                Ok(_) => s.error is None && final(h)@ == s.header && views(final(work)@) == s.lines,
                Err(e) => s.error == Some(e),
            }
        }),
{
    h.centerings = match read_header_def::<Centerings>(work) {
        Ok(v) => v,
        Err(e) => {
            return Err(e);
        },
    };
    match &h.centerings {
        Some(x) => {
            let n: usize = x.centerings().len();
            assert(x@.len() == n);
            if n != h.dimension.dim() {
                return Err(HeaderError::AxisCount(Field::Centerings));
            }
        },
        None => {},
    }
    Ok(())
}

/// One step of the assembly: the field `labels`.
fn read_labels(h: &mut NRRD, work: &mut Vec<&str>) -> (r: Result<(), HeaderError>)
    ensures
        ({
            let s = Scan { header: old(h)@, lines: views(old(work)@), error: None }.optional::<Labels>(
                |h: HeaderView, v: Option<Seq<Seq<char>>>| HeaderView { labels: v, ..h },
            );
            let s = s.counted(Field::Labels, count_of_axes(s.header.labels));
            match r {
                Ok(_) => s.error is None && final(h)@ == s.header && views(final(work)@) == s.lines,
                Err(e) => s.error == Some(e),
            }
        }),
{
    h.labels = match read_header_def::<Labels>(work) {
        Ok(v) => v,
        Err(e) => {
            return Err(e);
        },
    };
    match &h.labels {
        Some(x) => {
            let n: usize = x.labels().len();
            assert(x@.len() == n);
            if n != h.dimension.dim() {
                return Err(HeaderError::AxisCount(Field::Labels));
            }
        },
        None => {},
    }
    Ok(())
}

/// One step of the assembly: the field `units`.
fn read_units(h: &mut NRRD, work: &mut Vec<&str>) -> (r: Result<(), HeaderError>)
    ensures
        ({
            let s = Scan { header: old(h)@, lines: views(old(work)@), error: None }.optional::<Units>(
                |h: HeaderView, v: Option<Seq<Seq<char>>>| HeaderView { units: v, ..h },
            );
            let s = s.counted(Field::Units, count_of_axes(s.header.units));
            match r {
                Ok(_) => s.error is None && final(h)@ == s.header && views(final(work)@) == s.lines,
                Err(e) => s.error == Some(e),
            }
        }),
{
    h.units = match read_header_def::<Units>(work) {
        Ok(v) => v,
        Err(e) => {
            return Err(e);
        },
    };
    match &h.units {
        Some(x) => {
            let n: usize = x.units().len();
            assert(x@.len() == n);
            if n != h.dimension.dim() {
                return Err(HeaderError::AxisCount(Field::Units));
            }
        },
        None => {},
    }
    Ok(())
}

/// One step of the assembly: the field `kinds`.
fn read_kinds(h: &mut NRRD, work: &mut Vec<&str>) -> (r: Result<(), HeaderError>)
    ensures
        ({
            let s = Scan { header: old(h)@, lines: views(old(work)@), error: None }.optional::<Kinds>(
                |h: HeaderView, v: Option<Seq<Kind>>| HeaderView { kinds: v, ..h },
            );
            let s = s.counted(Field::Kinds, count_of_axes(s.header.kinds));
            match r {
                Ok(_) => s.error is None && final(h)@ == s.header && views(final(work)@) == s.lines,
                Err(e) => s.error == Some(e),
            }
        }),
{
    h.kinds = match read_header_def::<Kinds>(work) {
        Ok(v) => v,
        Err(e) => {
            return Err(e);
        },
    };
    match &h.kinds {
        Some(x) => {
            let n: usize = x.kinds().len();
            assert(x@.len() == n);
            if n != h.dimension.dim() {
                return Err(HeaderError::AxisCount(Field::Kinds));
            }
        },
        None => {},
    }
    Ok(())
}

/// One step of the assembly: the field `space`.
fn read_space(h: &mut NRRD, work: &mut Vec<&str>) -> (r: Result<(), HeaderError>)
    ensures
        ({
            let s = Scan { header: old(h)@, lines: views(old(work)@), error: None }.optional::<Space>(
                |h: HeaderView, v: Option<Space>| HeaderView { space: v, ..h },
            );
            let s = s;
            match r {
                Ok(_) => s.error is None && final(h)@ == s.header && views(final(work)@) == s.lines,
                Err(e) => s.error == Some(e),
            }
        }),
{
    h.space = match read_header_def::<Space>(work) {
        Ok(v) => v,
        Err(e) => {
            return Err(e);
        },
    };
    Ok(())
}

/// One step of the assembly: the field `space_dimension`.
fn read_space_dimension(h: &mut NRRD, work: &mut Vec<&str>) -> (r: Result<(), HeaderError>)
    ensures
        ({
            let s = Scan { header: old(h)@, lines: views(old(work)@), error: None }.optional::<SpaceDimension>(
                |h: HeaderView, v: Option<nat>| HeaderView { space_dimension: v, ..h },
            );
            let s = s;
            match r {
                Ok(_) => s.error is None && final(h)@ == s.header && views(final(work)@) == s.lines,
                Err(e) => s.error == Some(e),
            }
        }),
{
    h.space_dimension = match read_header_def::<SpaceDimension>(work) {
        Ok(v) => v,
        Err(e) => {
            return Err(e);
        },
    };
    Ok(())
}

/// One step of the assembly: the field `space_units`.
fn read_space_units(h: &mut NRRD, work: &mut Vec<&str>) -> (r: Result<(), HeaderError>)
    ensures
        ({
            let s = Scan { header: old(h)@, lines: views(old(work)@), error: None }.optional::<SpaceUnits>(
                |h: HeaderView, v: Option<Seq<Seq<char>>>| HeaderView { space_units: v, ..h },
            );
            let s = s;
            match r {
                Ok(_) => s.error is None && final(h)@ == s.header && views(final(work)@) == s.lines,
                Err(e) => s.error == Some(e),
            }
        }),
{
    h.space_units = match read_header_def::<SpaceUnits>(work) {
        Ok(v) => v,
        Err(e) => {
            return Err(e);
        },
    };
    Ok(())
}

/// One step of the assembly: the field `space_origin`.
fn read_space_origin(h: &mut NRRD, work: &mut Vec<&str>) -> (r: Result<(), HeaderError>)
    ensures
        ({
            let s = Scan { header: old(h)@, lines: views(old(work)@), error: None }.optional::<SpaceOrigin>(
                |h: HeaderView, v: Option<Seq<Seq<char>>>| HeaderView { space_origin: v, ..h },
            );
            let s = s;
            match r {
                Ok(_) => s.error is None && final(h)@ == s.header && views(final(work)@) == s.lines,
                Err(e) => s.error == Some(e),
            }
        }),
{
    h.space_origin = match read_header_def::<SpaceOrigin>(work) {
        Ok(v) => v,
        Err(e) => {
            return Err(e);
        },
    };
    Ok(())
}

/// One step of the assembly: the field `space_directions`.
fn read_space_directions(h: &mut NRRD, work: &mut Vec<&str>) -> (r: Result<(), HeaderError>)
    ensures
        ({
            let s = Scan { header: old(h)@, lines: views(old(work)@), error: None }.optional::<SpaceDirections>(
                |h: HeaderView, v: Option<Seq<Option<Seq<Seq<char>>>>>| HeaderView { space_directions: v, ..h },
            );
            let s = s.counted(Field::SpaceDirections, count_of_axes(s.header.space_directions));
            match r {
                Ok(_) => s.error is None && final(h)@ == s.header && views(final(work)@) == s.lines,
                Err(e) => s.error == Some(e),
            }
        }),
{
    h.space_directions = match read_header_def::<SpaceDirections>(work) {
        Ok(v) => v,
        Err(e) => {
            return Err(e);
        },
    };
    match &h.space_directions {
        Some(x) => {
            let n: usize = x.len();
            assert(x@.len() == n);
            if n != h.dimension.dim() {
                return Err(HeaderError::AxisCount(Field::SpaceDirections));
            }
        },
        None => {},
    }
    Ok(())
}

/// A stage of the assembly: the optional fields that hold one value.
fn read_scalars_fields(h: &mut NRRD, work: &mut Vec<&str>) -> (r: Result<(), HeaderError>)
    ensures
        ({
            let s = scan_scalars(Scan { header: old(h)@, lines: views(old(work)@), error: None });
            match r {
                Ok(_) => s.error is None && final(h)@ == s.header && views(final(work)@) == s.lines,
                Err(e) => s.error == Some(e),
            }
        }),
{
    let ghost s = Scan { header: h@, lines: views(work@), error: None };
    match read_content(h, work) {
        Ok(_) => {},
        Err(e) => {
            return Err(e);
        },
    }
    let ghost s = s.optional::<Content>(
        |h: HeaderView, v: Option<Seq<char>>| HeaderView { content: v, ..h },
    );
    assert(s.error is None && h@ == s.header && views(work@) == s.lines);
    match read_min(h, work) {
        Ok(_) => {},
        Err(e) => {
            return Err(e);
        },
    }
    let ghost s = s.optional::<Min>(
        |h: HeaderView, v: Option<Seq<char>>| HeaderView { min: v, ..h },
    );
    assert(s.error is None && h@ == s.header && views(work@) == s.lines);
    match read_max(h, work) {
        Ok(_) => {},
        Err(e) => {
            return Err(e);
        },
    }
    let ghost s = s.optional::<Max>(
        |h: HeaderView, v: Option<Seq<char>>| HeaderView { max: v, ..h },
    );
    assert(s.error is None && h@ == s.header && views(work@) == s.lines);
    match read_old_min(h, work) {
        Ok(_) => {},
        Err(e) => {
            return Err(e);
        },
    }
    let ghost s = s.optional::<OldMin>(
        |h: HeaderView, v: Option<Seq<char>>| HeaderView { old_min: v, ..h },
    );
    assert(s.error is None && h@ == s.header && views(work@) == s.lines);
    match read_old_max(h, work) {
        Ok(_) => {},
        Err(e) => {
            return Err(e);
        },
    }
    let ghost s = s.optional::<OldMax>(
        |h: HeaderView, v: Option<Seq<char>>| HeaderView { old_max: v, ..h },
    );
    assert(s.error is None && h@ == s.header && views(work@) == s.lines);
    match read_line_skip(h, work) {
        Ok(_) => {},
        Err(e) => {
            return Err(e);
        },
    }
    let ghost s = s.optional::<LineSkip>(
        |h: HeaderView, v: Option<nat>| HeaderView { line_skip: v, ..h },
    );
    assert(s.error is None && h@ == s.header && views(work@) == s.lines);
    match read_byte_skip(h, work) {
        Ok(_) => {},
        Err(e) => {
            return Err(e);
        },
    }
    let ghost s = s.optional::<ByteSkip>(
        |h: HeaderView, v: Option<ByteSkip>| HeaderView { byte_skip: v, ..h },
    );
    assert(s.error is None && h@ == s.header && views(work@) == s.lines);
    match read_sample_units(h, work) {
        Ok(_) => {},
        Err(e) => {
            return Err(e);
        },
    }
    let ghost s = s.optional::<SampleUnits>(
        |h: HeaderView, v: Option<Seq<char>>| HeaderView { sample_units: v, ..h },
    );
    assert(s.error is None && h@ == s.header && views(work@) == s.lines);
    Ok(())
}

/// A stage of the assembly: the optional fields that hold one entry for each axis.
fn read_axes_fields(h: &mut NRRD, work: &mut Vec<&str>) -> (r: Result<(), HeaderError>)
    ensures
        ({
            let s = scan_axes(Scan { header: old(h)@, lines: views(old(work)@), error: None });
            match r {
                Ok(_) => s.error is None && final(h)@ == s.header && views(final(work)@) == s.lines,
                Err(e) => s.error == Some(e),
            }
        }),
{
    let ghost s = Scan { header: h@, lines: views(work@), error: None };
    match read_spacings(h, work) {
        Ok(_) => {},
        Err(e) => {
            return Err(e);
        },
    }
    let ghost s = s.optional::<Spacings>(
        |h: HeaderView, v: Option<Seq<Seq<char>>>| HeaderView { spacings: v, ..h },
    );
    let ghost s = s.counted(Field::Spacings, count_of_axes(s.header.spacings));
    assert(s.error is None && h@ == s.header && views(work@) == s.lines);
    match read_thicknesses(h, work) {
        Ok(_) => {},
        Err(e) => {
            return Err(e);
        },
    }
    let ghost s = s.optional::<Thicknesses>(
        |h: HeaderView, v: Option<Seq<Seq<char>>>| HeaderView { thicknesses: v, ..h },
    );
    let ghost s = s.counted(Field::Thicknesses, count_of_axes(s.header.thicknesses));
    assert(s.error is None && h@ == s.header && views(work@) == s.lines);
    match read_axis_mins(h, work) {
        Ok(_) => {},
        Err(e) => {
            return Err(e);
        },
    }
    let ghost s = s.optional::<AxisMins>(
        |h: HeaderView, v: Option<Seq<Seq<char>>>| HeaderView { axis_mins: v, ..h },
    );
    let ghost s = s.counted(Field::AxisMins, count_of_axes(s.header.axis_mins));
    assert(s.error is None && h@ == s.header && views(work@) == s.lines);
    match read_axis_maxs(h, work) {
        Ok(_) => {},
        Err(e) => {
            return Err(e);
        },
    }
    let ghost s = s.optional::<AxisMaxs>(
        |h: HeaderView, v: Option<Seq<Seq<char>>>| HeaderView { axis_maxs: v, ..h },
    );
    let ghost s = s.counted(Field::AxisMaxs, count_of_axes(s.header.axis_maxs));
    assert(s.error is None && h@ == s.header && views(work@) == s.lines);
    match read_centerings(h, work) {
        Ok(_) => {},
        Err(e) => {
            return Err(e);
        },
    }
    let ghost s = s.optional::<Centerings>(
        |h: HeaderView, v: Option<Seq<Centering>>| HeaderView { centerings: v, ..h },
    );
    let ghost s = s.counted(Field::Centerings, count_of_axes(s.header.centerings));
    assert(s.error is None && h@ == s.header && views(work@) == s.lines);
    match read_labels(h, work) {
        Ok(_) => {},
        Err(e) => {
            return Err(e);
        },
    }
    let ghost s = s.optional::<Labels>(
        |h: HeaderView, v: Option<Seq<Seq<char>>>| HeaderView { labels: v, ..h },
    );
    let ghost s = s.counted(Field::Labels, count_of_axes(s.header.labels));
    assert(s.error is None && h@ == s.header && views(work@) == s.lines);
    match read_units(h, work) {
        Ok(_) => {},
        Err(e) => {
            return Err(e);
        },
    }
    let ghost s = s.optional::<Units>(
        |h: HeaderView, v: Option<Seq<Seq<char>>>| HeaderView { units: v, ..h },
    );
    let ghost s = s.counted(Field::Units, count_of_axes(s.header.units));
    assert(s.error is None && h@ == s.header && views(work@) == s.lines);
    match read_kinds(h, work) {
        Ok(_) => {},
        Err(e) => {
            return Err(e);
        },
    }
    let ghost s = s.optional::<Kinds>(
        |h: HeaderView, v: Option<Seq<Kind>>| HeaderView { kinds: v, ..h },
    );
    let ghost s = s.counted(Field::Kinds, count_of_axes(s.header.kinds));
    assert(s.error is None && h@ == s.header && views(work@) == s.lines);
    Ok(())
}

/// A stage of the assembly: the optional fields of space and orientation.
fn read_space_fields(h: &mut NRRD, work: &mut Vec<&str>) -> (r: Result<(), HeaderError>)
    ensures
        ({
            let s = scan_space(Scan { header: old(h)@, lines: views(old(work)@), error: None });
            match r {
                Ok(_) => s.error is None && final(h)@ == s.header && views(final(work)@) == s.lines,
                Err(e) => s.error == Some(e),
            }
        }),
{
    let ghost s = Scan { header: h@, lines: views(work@), error: None };
    match read_space(h, work) {
        Ok(_) => {},
        Err(e) => {
            return Err(e);
        },
    }
    let ghost s = s.optional::<Space>(
        |h: HeaderView, v: Option<Space>| HeaderView { space: v, ..h },
    );
    assert(s.error is None && h@ == s.header && views(work@) == s.lines);
    match read_space_dimension(h, work) {
        Ok(_) => {},
        Err(e) => {
            return Err(e);
        },
    }
    let ghost s = s.optional::<SpaceDimension>(
        |h: HeaderView, v: Option<nat>| HeaderView { space_dimension: v, ..h },
    );
    assert(s.error is None && h@ == s.header && views(work@) == s.lines);
    match read_space_units(h, work) {
        Ok(_) => {},
        Err(e) => {
            return Err(e);
        },
    }
    let ghost s = s.optional::<SpaceUnits>(
        |h: HeaderView, v: Option<Seq<Seq<char>>>| HeaderView { space_units: v, ..h },
    );
    assert(s.error is None && h@ == s.header && views(work@) == s.lines);
    match read_space_origin(h, work) {
        Ok(_) => {},
        Err(e) => {
            return Err(e);
        },
    }
    let ghost s = s.optional::<SpaceOrigin>(
        |h: HeaderView, v: Option<Seq<Seq<char>>>| HeaderView { space_origin: v, ..h },
    );
    assert(s.error is None && h@ == s.header && views(work@) == s.lines);
    match read_space_directions(h, work) {
        Ok(_) => {},
        Err(e) => {
            return Err(e);
        },
    }
    let ghost s = s.optional::<SpaceDirections>(
        |h: HeaderView, v: Option<Seq<Option<Seq<Seq<char>>>>>| HeaderView { space_directions: v, ..h },
    );
    let ghost s = s.counted(Field::SpaceDirections, count_of_axes(s.header.space_directions));
    assert(s.error is None && h@ == s.header && views(work@) == s.lines);
    Ok(())
}

/// Is `r`, with the lines left as `after`, the outcome of the assembly `s`
/// of the lines `before`? An assembly that is not refused gives its header,
/// which keeps the invariants of headers, and leaves the lines that it did
/// not consume; one that is refused gives its error and leaves the lines
/// as they were.
pub open spec fn assembly_outcome(
    s: Scan,
    before: Seq<&str>,
    after: Seq<&str>,
    r: Result<NRRD, HeaderError>,
) -> bool {
    match r {
        Ok(h) => {
            &&& s.error is None
            &&& h@ == s.header
            &&& views(after) == s.lines
            &&& valid_header(h@)
        },
        Err(e) => s.error == Some(e) && after == before,
    }
}

/// The header of a raw raster of the given type and shape, with nothing
/// else said of it.
pub open spec fn plain_header(dtype: DType, dims: Seq<nat>) -> HeaderView {
    HeaderView {
        magic: 4,
        dimension: dims.len(),
        dtype,
        sizes: dims,
        ..blank_header()
    }
}

impl NRRD {
    /// The sizes, axis by axis.
    pub fn shape(&self) -> (r: &Vec<usize>)
        ensures
            r@.map_values(|n: usize| n as nat) == self@.sizes,
    {
        self.sizes.shape()
    }

    /// A header for elements of type `t` and the given shape.
    pub fn new_from_type_dims(t: DType, dims: &[usize]) -> (h: NRRD)
        ensures
            h@ == plain_header(t, dims@.map_values(|n: usize| n as nat)),
    {
        let h = NRRD {
            magic: Magic::default(),
            dimension: Dimension::new(dims.len()),
            dtype: t,
            block_size: None,
            encoding: Encoding::raw,
            endian: Endian::Little,
            content: None,
            min: None,
            max: None,
            old_min: None,
            old_max: None,
            data_file: None,
            line_skip: None,
            byte_skip: None,
            sample_units: None,
            sizes: Sizes::new(dims),
            spacings: None,
            thicknesses: None,
            axis_mins: None,
            axis_maxs: None,
            centerings: None,
            labels: None,
            units: None,
            kinds: None,
            space: None,
            space_dimension: None,
            space_units: None,
            space_origin: None,
            space_directions: None,
            key_vals: KeyValues::new(),
            comments: Vec::new(),
        };
        assert(views(h.comments@) =~= Seq::<Seq<char>>::empty());
        h
    }

    /// A header for elements of the type `T` and the given shape.
    pub fn new_from_dims<T: NRRDType>(dims: &[usize]) -> (h: NRRD)
        ensures
            h@ == plain_header(T::spec_dtype(), dims@.map_values(|n: usize| n as nat)),
    {
        NRRD::new_from_type_dims(T::dtype(), dims)
    }

    /// The size of one element in bytes: the block size for blocks.
    pub open spec fn spec_element_size(h: HeaderView) -> nat {
        if h.dtype == DType::Block {
            match h.block_size {
                Some(n) => n,
                None => 0,
            }
        } else {
            h.dtype.spec_size()
        }
    }

    /// The size of one element in bytes, as the type gives it, or the block
    /// size for a header of blocks.
    pub fn element_size(&self) -> (n: usize)
        requires
            self@.dtype == DType::Block ==> self@.block_size is Some,
        ensures
            n == Self::spec_element_size(self@),
    {
        match self.dtype {
            DType::Block => match &self.block_size {
                Some(bs) => bs.size(),
                None => 0,
            },
            _ => self.dtype.size(),
        }
    }

    /// The number of bytes of the payload: the number of elements times the
    /// size of one.
    pub open spec fn spec_expected_bytes(h: HeaderView) -> nat {
        product(h.sizes) * Self::spec_element_size(h)
    }

    /// The number of bytes of the payload, where it fits the machine's word
    /// and a header of blocks has its block size.
    pub fn expected_bytes(&self) -> (r: Option<usize>)
        ensures
            r == if (self@.dtype == DType::Block ==> self@.block_size is Some)
                && Self::spec_expected_bytes(self@) <= usize::MAX {
                Some(Self::spec_expected_bytes(self@) as usize)
            } else {
                None::<usize>
            },
    {
        if self.dtype == DType::Block && self.block_size.is_none() {
            return None;
        }
        let size: usize = self.element_size();
        if size == 0 {
            assert(product(self@.sizes) * 0 == 0) by (nonlinear_arith);
            return Some(0);
        }
        match self.sizes.checked_n_elements() {
            None => {
                let ghost p = product(self@.sizes);
                assert(p * size >= p) by (nonlinear_arith)
                    requires
                        size >= 1,
                        p >= 0,
                ;
                None
            },
            Some(n) => {
                if n > usize::MAX / size {
                    assert(n * size > usize::MAX) by (nonlinear_arith)
                        requires
                            n > (usize::MAX as int) / (size as int),
                            size > 0,
                    ;
                    None
                } else {
                    assert(n * size <= usize::MAX) by (nonlinear_arith)
                        requires
                            n <= (usize::MAX as int) / (size as int),
                            size > 0,
                    ;
                    Some(n * size)
                }
            },
        }
    }

    /// Assembles the mandatory fields from the front of the lines and
    /// removes their lines. Where the text is refused the lines stay as
    /// they are.
    pub fn from_lines_minimal(lines: &mut Vec<&str>) -> (r: Result<NRRD, HeaderError>)
        ensures
            assembly_outcome(scan_minimal(views(old(lines)@)), old(lines)@, final(lines)@, r),
    {
        let mut work = copy_lines(lines);
        if work.len() == 0 {
            assert(views(lines@).len() == 0);
            return Err(HeaderError::NoLines);
        }
        assert(views(lines@).len() == lines.len());
        let ghost s = Scan { header: blank_header(), lines: views(lines@), error: None };
        let magic = match read_front::<Magic>(&mut work) {
            Ok(v) => v,
            Err(e) => {
                return Err(e);
            },
        };
        let ghost s = s.front::<Magic>(|h: HeaderView, v: nat| HeaderView { magic: v, ..h });
        let dimension = match read_front::<Dimension>(&mut work) {
            Ok(v) => v,
            Err(e) => {
                return Err(e);
            },
        };
        let ghost s = s.front::<Dimension>(
            |h: HeaderView, v: nat| HeaderView { dimension: v, ..h },
        );
        let dtype = match read_front::<DType>(&mut work) {
            Ok(v) => v,
            Err(e) => {
                return Err(e);
            },
        };
        let ghost s = s.front::<DType>(|h: HeaderView, v: DType| HeaderView { dtype: v, ..h });
        let mut block_size: Option<BlockSize> = None;
        if dtype == DType::Block {
            match read_front::<BlockSize>(&mut work) {
                Ok(v) => {
                    block_size = Some(v);
                },
                Err(e) => {
                    return Err(e);
                },
            }
        }
        let ghost s = if s.header.dtype == DType::Block {
            s.front::<BlockSize>(|h: HeaderView, v: nat| HeaderView { block_size: Some(v), ..h })
        } else {
            s
        };
        let encoding = match read_front::<Encoding>(&mut work) {
            Ok(v) => v,
            Err(e) => {
                return Err(e);
            },
        };
        let ghost s = s.front::<Encoding>(
            |h: HeaderView, v: Encoding| HeaderView { encoding: v, ..h },
        );
        let endian = match read_front::<Endian>(&mut work) {
            Ok(v) => v,
            Err(e) => {
                return Err(e);
            },
        };
        let ghost s = s.front::<Endian>(|h: HeaderView, v: Endian| HeaderView { endian: v, ..h });
        let sizes = match read_front::<Sizes>(&mut work) {
            Ok(v) => v,
            Err(e) => {
                return Err(e);
            },
        };
        let ghost s = s.front::<Sizes>(|h: HeaderView, v: Seq<nat>| HeaderView { sizes: v, ..h });
        if sizes.len() != dimension.dim() {
            return Err(HeaderError::AxisCount(Field::Sizes));
        }
        let h = NRRD {
            magic,
            dimension,
            dtype,
            block_size,
            encoding,
            endian,
            content: None,
            min: None,
            max: None,
            old_min: None,
            old_max: None,
            data_file: None,
            line_skip: None,
            byte_skip: None,
            sample_units: None,
            sizes,
            spacings: None,
            thicknesses: None,
            axis_mins: None,
            axis_maxs: None,
            centerings: None,
            labels: None,
            units: None,
            kinds: None,
            space: None,
            space_dimension: None,
            space_units: None,
            space_origin: None,
            space_directions: None,
            key_vals: KeyValues::new(),
            comments: Vec::new(),
        };
        assert(views(h.comments@) =~= Seq::<Seq<char>>::empty());
        assert(h@ == s.header);
        proof {
            crate::validity::lemma_minimal_valid(views(lines@));
        }
        *lines = work;
        Ok(h)
    }

    /// Assembles a whole header and removes every line that it consumes:
    /// the mandatory fields from the front, each optional field from the
    /// first line that holds it, the key-value lines, the comment lines,
    /// and the data-file directive last. Lines that hold no known field are
    /// left. Where the text is refused the lines stay as they are.
    pub fn from_lines_full(lines: &mut Vec<&str>) -> (r: Result<NRRD, HeaderError>)
        ensures
            assembly_outcome(scan_full(views(old(lines)@)), old(lines)@, final(lines)@, r),
    {
        let mut work = copy_lines(lines);
        let mut h = match NRRD::from_lines_minimal(&mut work) {
            Ok(h) => h,
            Err(e) => {
                return Err(e);
            },
        };
        let ghost s = scan_minimal(views(lines@));
        match read_scalars_fields(&mut h, &mut work) {
            Ok(_) => {},
            Err(e) => {
                return Err(e);
            },
        }
        let ghost s = scan_scalars(s);
        match read_axes_fields(&mut h, &mut work) {
            Ok(_) => {},
            Err(e) => {
                return Err(e);
            },
        }
        let ghost s = scan_axes(s);
        match read_space_fields(&mut h, &mut work) {
            Ok(_) => {},
            Err(e) => {
                return Err(e);
            },
        }
        let ghost s = scan_space(s);
        h.key_vals = read_key_values(&mut work);
        let ghost s = s.key_values();
        h.comments = read_comments(&mut work);
        let ghost s = s.comments();
        assert(s.error is None && h@ == s.header && views(work@) == s.lines);
        h.data_file = match read_data_file(&mut work) {
            Ok(v) => v,
            Err(e) => {
                return Err(e);
            },
        };
        proof {
            crate::validity::lemma_scan_valid(views(lines@));
        }
        *lines = work;
        Ok(h)
    }

    /// `from_lines_full` under its other name.
    pub fn full_from_lines(lines: &mut Vec<&str>) -> (r: Result<NRRD, HeaderError>)
        ensures
            assembly_outcome(scan_full(views(old(lines)@)), old(lines)@, final(lines)@, r),
    {
        NRRD::from_lines_full(lines)
    }

    /// `from_lines_minimal` under its other name.
    pub fn minimal_from_lines(lines: &mut Vec<&str>) -> (r: Result<NRRD, HeaderError>)
        ensures
            assembly_outcome(scan_minimal(views(old(lines)@)), old(lines)@, final(lines)@, r),
    {
        NRRD::from_lines_minimal(lines)
    }

    /// The canonical text of the header.
    pub fn to_string(&self) -> (r: String)
        ensures
            r@ == header_text(self@),
    {
        let mut out: Vec<char> = Vec::new();
        push_line(&mut out, &self.magic);
        assert(out@ =~= line(line_of::<Magic>(self@.magic)));
        let ghost base = out@;
        let mut i: usize = 0;
        assert(views(self.comments@).take(0) =~= Seq::<Seq<char>>::empty());
        assert(out@ =~= base + unlines(views(self.comments@).take(0)));
        while i < self.comments.len()
            invariant
                0 <= i <= self.comments.len(),
                out@ == base + unlines(views(self.comments@).take(i as int)),
            decreases self.comments.len() - i,
        {
            proof {
                let t = views(self.comments@).take(i + 1);
                assert(t.drop_last() =~= views(self.comments@).take(i as int));
                assert(t.last() == self.comments@[i as int]@);
            }
            push_str(&mut out, self.comments[i].as_str());
            out.push('\n');
            assert(out@ =~= base + unlines(views(self.comments@).take(i + 1)));
            i += 1;
        }
        assert(views(self.comments@).take(self.comments.len() as int) =~= views(self.comments@));
        push_line(&mut out, &self.dimension);
        push_line(&mut out, &self.dtype);
        push_opt_line(&mut out, &self.block_size);
        push_line(&mut out, &self.encoding);
        push_line(&mut out, &self.endian);
        push_opt_line(&mut out, &self.content);
        push_opt_line(&mut out, &self.min);
        push_opt_line(&mut out, &self.max);
        push_opt_line(&mut out, &self.old_min);
        push_opt_line(&mut out, &self.old_max);
        push_opt_line(&mut out, &self.line_skip);
        push_opt_line(&mut out, &self.byte_skip);
        push_opt_line(&mut out, &self.sample_units);
        push_line(&mut out, &self.sizes);
        push_opt_line(&mut out, &self.spacings);
        push_opt_line(&mut out, &self.thicknesses);
        push_opt_line(&mut out, &self.axis_mins);
        push_opt_line(&mut out, &self.axis_maxs);
        push_opt_line(&mut out, &self.centerings);
        push_opt_line(&mut out, &self.labels);
        push_opt_line(&mut out, &self.units);
        push_opt_line(&mut out, &self.kinds);
        push_opt_line(&mut out, &self.space);
        push_opt_line(&mut out, &self.space_dimension);
        push_opt_line(&mut out, &self.space_units);
        push_opt_line(&mut out, &self.space_origin);
        push_opt_line(&mut out, &self.space_directions);
        let ghost base = out@;
        let entries = self.key_vals.entries();
        let ghost pairs = self@.key_vals;
        let mut k: usize = 0;
        assert(pairs.take(0) =~= Seq::<Pair>::empty());
        assert(out@ =~= base + pairs_text(pairs.take(0)));
        while k < entries.len()
            invariant
                0 <= k <= entries.len(),
                pairs == entries@.map_values(|e: Entry| pair_of(e)),
                out@ == base + pairs_text(pairs.take(k as int)),
            decreases entries.len() - k,
        {
            proof {
                let t = pairs.take(k + 1);
                assert(t.drop_last() =~= pairs.take(k as int));
                assert(t.last() == pair_of(entries@[k as int]));
            }
            push_str(&mut out, entries[k].key.as_str());
            let value = entries[k].value.to_string();
            push_str(&mut out, value.as_str());
            out.push('\n');
            assert(out@ =~= base + pairs_text(pairs.take(k + 1)));
            k += 1;
        }
        assert(pairs.take(entries.len() as int) =~= pairs);
        push_opt_line(&mut out, &self.data_file);
        string_of(&out)
    }
}

} // verus!
