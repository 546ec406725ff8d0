//! An assembly that is not refused gives a header that keeps the
//! invariants of headers.
use vstd::prelude::*;
use crate::header::{
    blank_header, count_of_axes, key_values_of, scan_axes, scan_full, scan_minimal, scan_scalars,
    scan_space, take_front, valid_header, HeaderView, Scan,
};
use crate::header_defs::sizes::{all_positive, size_of_word};
use crate::header_defs::{
    AxisMaxs, AxisMins, BlockSize, ByteSkip, Centering, Centerings, Content, DType, Dimension,
    Encoding, Endian, Field, HeaderDef, Kind, Kinds, Labels, LineSkip, Magic, Max, Min, OldMax,
    OldMin, SampleUnits, Sizes, Space, SpaceDimension, SpaceDirections, SpaceOrigin, SpaceUnits,
    Spacings, Thicknesses, Units,
};
use crate::keyvalues::{keys_ascend, lemma_put_ascends, Pair};

verus! {

/// Do two headers agree in what the invariants of the mandatory fields
/// speak of, and in their key-value pairs?
pub open spec fn same_core(a: HeaderView, b: HeaderView) -> bool {
    &&& a.dimension == b.dimension
    &&& a.dtype == b.dtype
    &&& a.block_size == b.block_size
    &&& a.sizes == b.sizes
    &&& a.key_vals == b.key_vals
}

/// Has a per-axis value, where there is one, an entry for each axis?
pub open spec fn counted_ok<A>(v: Option<Seq<A>>, dimension: nat) -> bool {
    v matches Some(s) ==> s.len() == dimension
}

/// Has every per-axis field, where the header holds it, an entry for each axis?
pub open spec fn axes_counted(h: HeaderView) -> bool {
    &&& counted_ok(h.spacings, h.dimension)
    &&& counted_ok(h.thicknesses, h.dimension)
    &&& counted_ok(h.axis_mins, h.dimension)
    &&& counted_ok(h.axis_maxs, h.dimension)
    &&& counted_ok(h.centerings, h.dimension)
    &&& counted_ok(h.labels, h.dimension)
    &&& counted_ok(h.units, h.dimension)
    &&& counted_ok(h.kinds, h.dimension)
    &&& counted_ok(h.space_directions, h.dimension)
}

/// The sizes that a line of sizes denotes are positive.
pub proof fn lemma_sizes_positive(rest: Seq<char>)
    ensures
        Sizes::value_of(rest) matches Some(v) ==> all_positive(v),
{
    match Sizes::value_of(rest) {
        Some(v) => {
            assert forall|i: int| 0 <= i < v.len() implies #[trigger] v[i] > 0 by {
                let words = crate::text::tokens(crate::text::trim(rest));
                let sized = words.map_values(|t: Seq<char>| size_of_word(t));
                assert(sized[i] is Some);
                assert(v[i] == sized[i]->0);
            }
        },
        None => {},
    }
}

/// The mandatory fields of an assembly that is not refused keep the
/// invariants: a positive dimension, one positive size for each axis, and
/// a block size exactly for the type `block`.
pub proof fn lemma_minimal_valid(lines: Seq<Seq<char>>)
    requires
        scan_minimal(lines).error is None,
    ensures
        valid_header(scan_minimal(lines).header),
{
    let s0 = Scan { header: blank_header(), lines, error: None };
    let s1 = s0.front::<Magic>(|h: HeaderView, v: nat| HeaderView { magic: v, ..h });
    let s2 = s1.front::<Dimension>(|h: HeaderView, v: nat| HeaderView { dimension: v, ..h });
    let s3 = s2.front::<DType>(|h: HeaderView, v: DType| HeaderView { dtype: v, ..h });
    let s4 = if s3.header.dtype == DType::Block {
        s3.front::<BlockSize>(|h: HeaderView, v: nat| HeaderView { block_size: Some(v), ..h })
    } else {
        s3
    };
    let s5 = s4.front::<Encoding>(|h: HeaderView, v: Encoding| HeaderView { encoding: v, ..h });
    let s6 = s5.front::<Endian>(|h: HeaderView, v: Endian| HeaderView { endian: v, ..h });
    let s7 = s6.front::<Sizes>(|h: HeaderView, v: Seq<nat>| HeaderView { sizes: v, ..h });
    let s8 = s7.counted(Field::Sizes, Some(s7.header.sizes.len()));
    assert(scan_minimal(lines) == s8);
    assert(s7.error is None);
    assert(s6.error is None);
    assert(s5.error is None);
    assert(s4.error is None);
    assert(s3.error is None);
    assert(s2.error is None);
    assert(s1.error is None);
    assert(s2.header.dimension > 0);
    assert(s8.header.dimension == s2.header.dimension);
    assert(s8.header.dtype == s3.header.dtype);
    assert(s8.header.block_size == s4.header.block_size);
    let l = s6.lines;
    assert(take_front::<Sizes>(l) is Ok);
    let n = crate::header_defs::matched_len(Sizes::prefixes(), l[0])->0;
    lemma_sizes_positive(l[0].skip(n));
    assert(all_positive(s8.header.sizes));
    assert(s8.header.key_vals =~= Seq::<Pair>::empty());
}

/// The keys of the pairs that lines give ascend.
pub proof fn lemma_key_values_ascend(lines: Seq<Seq<char>>)
    ensures
        keys_ascend(key_values_of(lines)),
    decreases lines.len(),
{
    if lines.len() > 0 {
        lemma_key_values_ascend(lines.drop_last());
        if crate::header_defs::basic::is_key_value(lines.last()) {
            lemma_put_ascends(
                key_values_of(lines.drop_last()),
                crate::header_defs::basic::key_of(lines.last()),
                crate::header_defs::basic::value_after(lines.last()),
            );
        }
    }
}

/// This stage of an assembly, where it is not refused, leaves the
/// mandatory fields alone and holds its per-axis fields to the dimension.
pub proof fn lemma_scalars_valid(s: Scan)
    requires
        scan_scalars(s).error is None,
    ensures
        s.error is None,
        same_core(scan_scalars(s).header, s.header),
        scan_scalars(s).header.spacings == s.header.spacings,
        scan_scalars(s).header.thicknesses == s.header.thicknesses,
        scan_scalars(s).header.axis_mins == s.header.axis_mins,
        scan_scalars(s).header.axis_maxs == s.header.axis_maxs,
        scan_scalars(s).header.centerings == s.header.centerings,
        scan_scalars(s).header.labels == s.header.labels,
        scan_scalars(s).header.units == s.header.units,
        scan_scalars(s).header.kinds == s.header.kinds,
        scan_scalars(s).header.space_directions == s.header.space_directions,
{
    let s0 = s;
    let t1 = s0.optional::<Content>(
        |h: HeaderView, v: Option<Seq<char>>| HeaderView { content: v, ..h },
    );
    let s1 = t1;
    let t2 = s1.optional::<Min>(
        |h: HeaderView, v: Option<Seq<char>>| HeaderView { min: v, ..h },
    );
    let s2 = t2;
    let t3 = s2.optional::<Max>(
        |h: HeaderView, v: Option<Seq<char>>| HeaderView { max: v, ..h },
    );
    let s3 = t3;
    let t4 = s3.optional::<OldMin>(
        |h: HeaderView, v: Option<Seq<char>>| HeaderView { old_min: v, ..h },
    );
    let s4 = t4;
    let t5 = s4.optional::<OldMax>(
        |h: HeaderView, v: Option<Seq<char>>| HeaderView { old_max: v, ..h },
    );
    let s5 = t5;
    let t6 = s5.optional::<LineSkip>(
        |h: HeaderView, v: Option<nat>| HeaderView { line_skip: v, ..h },
    );
    let s6 = t6;
    let t7 = s6.optional::<ByteSkip>(
        |h: HeaderView, v: Option<ByteSkip>| HeaderView { byte_skip: v, ..h },
    );
    let s7 = t7;
    let t8 = s7.optional::<SampleUnits>(
        |h: HeaderView, v: Option<Seq<char>>| HeaderView { sample_units: v, ..h },
    );
    let s8 = t8;
    assert(scan_scalars(s) == s8);
    assert(t8.error is None);
    assert(s7.error is None);
    assert(t7.error is None);
    assert(s6.error is None);
    assert(t6.error is None);
    assert(s5.error is None);
    assert(t5.error is None);
    assert(s4.error is None);
    assert(t4.error is None);
    assert(s3.error is None);
    assert(t3.error is None);
    assert(s2.error is None);
    assert(t2.error is None);
    assert(s1.error is None);
    assert(t1.error is None);
    assert(s0.error is None);
    assert(same_core(s1.header, s0.header));
    assert(same_core(s2.header, s0.header));
    assert(same_core(s3.header, s0.header));
    assert(same_core(s4.header, s0.header));
    assert(same_core(s5.header, s0.header));
    assert(same_core(s6.header, s0.header));
    assert(same_core(s7.header, s0.header));
    assert(same_core(s8.header, s0.header));
}

/// This stage of an assembly, where it is not refused, leaves the
/// mandatory fields alone and holds its per-axis fields to the dimension.
pub proof fn lemma_axes_valid(s: Scan)
    requires
        scan_axes(s).error is None,
    ensures
        s.error is None,
        same_core(scan_axes(s).header, s.header),
        counted_ok(scan_axes(s).header.spacings, s.header.dimension),
        counted_ok(scan_axes(s).header.thicknesses, s.header.dimension),
        counted_ok(scan_axes(s).header.axis_mins, s.header.dimension),
        counted_ok(scan_axes(s).header.axis_maxs, s.header.dimension),
        counted_ok(scan_axes(s).header.centerings, s.header.dimension),
        counted_ok(scan_axes(s).header.labels, s.header.dimension),
        counted_ok(scan_axes(s).header.units, s.header.dimension),
        counted_ok(scan_axes(s).header.kinds, s.header.dimension),
        scan_axes(s).header.space_directions == s.header.space_directions,
{
    let s0 = s;
    let t1 = s0.optional::<Spacings>(
        |h: HeaderView, v: Option<Seq<Seq<char>>>| HeaderView { spacings: v, ..h },
    );
    let s1 = t1.counted(Field::Spacings, count_of_axes(t1.header.spacings));
    let t2 = s1.optional::<Thicknesses>(
        |h: HeaderView, v: Option<Seq<Seq<char>>>| HeaderView { thicknesses: v, ..h },
    );
    let s2 = t2.counted(Field::Thicknesses, count_of_axes(t2.header.thicknesses));
    let t3 = s2.optional::<AxisMins>(
        |h: HeaderView, v: Option<Seq<Seq<char>>>| HeaderView { axis_mins: v, ..h },
    );
    let s3 = t3.counted(Field::AxisMins, count_of_axes(t3.header.axis_mins));
    let t4 = s3.optional::<AxisMaxs>(
        |h: HeaderView, v: Option<Seq<Seq<char>>>| HeaderView { axis_maxs: v, ..h },
    );
    let s4 = t4.counted(Field::AxisMaxs, count_of_axes(t4.header.axis_maxs));
    let t5 = s4.optional::<Centerings>(
        |h: HeaderView, v: Option<Seq<Centering>>| HeaderView { centerings: v, ..h },
    );
    let s5 = t5.counted(Field::Centerings, count_of_axes(t5.header.centerings));
    let t6 = s5.optional::<Labels>(
        |h: HeaderView, v: Option<Seq<Seq<char>>>| HeaderView { labels: v, ..h },
    );
    let s6 = t6.counted(Field::Labels, count_of_axes(t6.header.labels));
    let t7 = s6.optional::<Units>(
        |h: HeaderView, v: Option<Seq<Seq<char>>>| HeaderView { units: v, ..h },
    );
    let s7 = t7.counted(Field::Units, count_of_axes(t7.header.units));
    let t8 = s7.optional::<Kinds>(
        |h: HeaderView, v: Option<Seq<Kind>>| HeaderView { kinds: v, ..h },
    );
    let s8 = t8.counted(Field::Kinds, count_of_axes(t8.header.kinds));
    assert(scan_axes(s) == s8);
    assert(t8.error is None);
    assert(s7.error is None);
    assert(t7.error is None);
    assert(s6.error is None);
    assert(t6.error is None);
    assert(s5.error is None);
    assert(t5.error is None);
    assert(s4.error is None);
    assert(t4.error is None);
    assert(s3.error is None);
    assert(t3.error is None);
    assert(s2.error is None);
    assert(t2.error is None);
    assert(s1.error is None);
    assert(t1.error is None);
    assert(s0.error is None);
    assert(same_core(s1.header, s0.header));
    assert(same_core(s2.header, s0.header));
    assert(same_core(s3.header, s0.header));
    assert(same_core(s4.header, s0.header));
    assert(same_core(s5.header, s0.header));
    assert(same_core(s6.header, s0.header));
    assert(same_core(s7.header, s0.header));
    assert(same_core(s8.header, s0.header));
}

/// This stage of an assembly, where it is not refused, leaves the
/// mandatory fields alone and holds its per-axis fields to the dimension.
pub proof fn lemma_space_valid(s: Scan)
    requires
        scan_space(s).error is None,
    ensures
        s.error is None,
        same_core(scan_space(s).header, s.header),
        counted_ok(scan_space(s).header.space_directions, s.header.dimension),
        scan_space(s).header.spacings == s.header.spacings,
        scan_space(s).header.thicknesses == s.header.thicknesses,
        scan_space(s).header.axis_mins == s.header.axis_mins,
        scan_space(s).header.axis_maxs == s.header.axis_maxs,
        scan_space(s).header.centerings == s.header.centerings,
        scan_space(s).header.labels == s.header.labels,
        scan_space(s).header.units == s.header.units,
        scan_space(s).header.kinds == s.header.kinds,
{
    let s0 = s;
    let t1 = s0.optional::<Space>(
        |h: HeaderView, v: Option<Space>| HeaderView { space: v, ..h },
    );
    let s1 = t1;
    let t2 = s1.optional::<SpaceDimension>(
        |h: HeaderView, v: Option<nat>| HeaderView { space_dimension: v, ..h },
    );
    let s2 = t2;
    let t3 = s2.optional::<SpaceUnits>(
        |h: HeaderView, v: Option<Seq<Seq<char>>>| HeaderView { space_units: v, ..h },
    );
    let s3 = t3;
    let t4 = s3.optional::<SpaceOrigin>(
        |h: HeaderView, v: Option<Seq<Seq<char>>>| HeaderView { space_origin: v, ..h },
    );
    let s4 = t4;
    let t5 = s4.optional::<SpaceDirections>(
        |h: HeaderView, v: Option<Seq<Option<Seq<Seq<char>>>>>| HeaderView { space_directions: v, ..h },
    );
    let s5 = t5.counted(Field::SpaceDirections, count_of_axes(t5.header.space_directions));
    assert(scan_space(s) == s5);
    assert(t5.error is None);
    assert(s4.error is None);
    assert(t4.error is None);
    assert(s3.error is None);
    assert(t3.error is None);
    assert(s2.error is None);
    assert(t2.error is None);
    assert(s1.error is None);
    assert(t1.error is None);
    assert(s0.error is None);
    assert(same_core(s1.header, s0.header));
    assert(same_core(s2.header, s0.header));
    assert(same_core(s3.header, s0.header));
    assert(same_core(s4.header, s0.header));
    assert(same_core(s5.header, s0.header));
}

/// An assembly that is not refused gives a header that keeps the
/// invariants of headers.
pub proof fn lemma_scan_valid(lines: Seq<Seq<char>>)
    requires
        scan_full(lines).error is None,
    ensures
        valid_header(scan_full(lines).header),
{
    let s0 = scan_minimal(lines);
    let s1 = scan_scalars(s0);
    let s2 = scan_axes(s1);
    let s3 = scan_space(s2);
    let s4 = s3.key_values();
    let s5 = s4.comments();
    let s6 = s5.data_file();
    assert(scan_full(lines) == s6);
    assert(s5.error is None);
    assert(s4.error is None);
    assert(s3.error is None);
    lemma_space_valid(s2);
    lemma_axes_valid(s1);
    lemma_scalars_valid(s0);
    lemma_minimal_valid(lines);
    lemma_key_values_ascend(s3.lines);
    assert(axes_counted(s3.header));
    assert(same_core(s3.header, s0.header));
}

} // verus!
