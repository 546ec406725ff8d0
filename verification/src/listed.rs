//! The lines that follow a list directive are its files. Where the lines
//! before the directive are all recognized and hold no field twice, an
//! assembly leaves no line, whatever the lines of the files are.
use vstd::prelude::*;
use crate::header::{
    count_of_axes, first_line, lemma_first_line, scan_axes, scan_full, scan_minimal, scan_scalars,
    scan_space, take_data_file, take_field, HeaderView, Scan,
};
use crate::header_defs::basic::is_key_value;
use crate::header_defs::{
    line_matches, line_value, AxisMaxs, AxisMins, ByteSkip, Centering, Centerings, Comment,
    Content, DataFile, Field, HeaderDef, Kind, Kinds, Labels, LineSkip, Max, Min,
    OldMax, OldMin, SampleUnits, Space, SpaceDimension, SpaceDirections, SpaceOrigin, SpaceUnits,
    Spacings, Thicknesses, Units,
};
use crate::leftover::{
    alike, lemma_alike_within, lemma_error_stays_axes, lemma_error_stays_scalars,
    lemma_error_stays_space, lemma_filter_lines, lemma_no_axes_within, lemma_no_pair_within,
    lemma_no_scalars_within, lemma_no_space_within, lemma_none_within, lemma_remove_line,
    lemma_within_chain, lemma_within_itself, no_axes_left, no_pair_left, no_scalars_left,
    no_space_left, none_holds, recognized, within,
};

verus! {

/// Does the line hold one of the known optional fields?
pub open spec fn holds_optional(line: Seq<char>) -> bool {
    ||| line_matches::<Content>(line)
    ||| line_matches::<Min>(line)
    ||| line_matches::<Max>(line)
    ||| line_matches::<OldMin>(line)
    ||| line_matches::<OldMax>(line)
    ||| line_matches::<LineSkip>(line)
    ||| line_matches::<ByteSkip>(line)
    ||| line_matches::<SampleUnits>(line)
    ||| line_matches::<Spacings>(line)
    ||| line_matches::<Thicknesses>(line)
    ||| line_matches::<AxisMins>(line)
    ||| line_matches::<AxisMaxs>(line)
    ||| line_matches::<Centerings>(line)
    ||| line_matches::<Labels>(line)
    ||| line_matches::<Units>(line)
    ||| line_matches::<Kinds>(line)
    ||| line_matches::<Space>(line)
    ||| line_matches::<SpaceDimension>(line)
    ||| line_matches::<SpaceUnits>(line)
    ||| line_matches::<SpaceOrigin>(line)
    ||| line_matches::<SpaceDirections>(line)
}

/// A list directive that is nothing else: it holds no optional field, no
/// key-value pair and no comment.
pub open spec fn is_list_directive(d: Seq<char>) -> bool {
    &&& line_matches::<DataFile>(d)
    &&& line_value::<DataFile>(d) matches Ok(v) && v is List
    &&& !holds_optional(d)
    &&& !is_key_value(d)
    &&& !line_matches::<Comment>(d)
}

/// Are the lines all different, and does no optional field occur on two
/// of them?
pub open spec fn optional_once(l: Seq<Seq<char>>) -> bool {
    &&& l.no_duplicates()
    &&& alike::<Content>(l)
    &&& alike::<Min>(l)
    &&& alike::<Max>(l)
    &&& alike::<OldMin>(l)
    &&& alike::<OldMax>(l)
    &&& alike::<LineSkip>(l)
    &&& alike::<ByteSkip>(l)
    &&& alike::<SampleUnits>(l)
    &&& alike::<Spacings>(l)
    &&& alike::<Thicknesses>(l)
    &&& alike::<AxisMins>(l)
    &&& alike::<AxisMaxs>(l)
    &&& alike::<Centerings>(l)
    &&& alike::<Labels>(l)
    &&& alike::<Units>(l)
    &&& alike::<Kinds>(l)
    &&& alike::<Space>(l)
    &&& alike::<SpaceDimension>(l)
    &&& alike::<SpaceUnits>(l)
    &&& alike::<SpaceOrigin>(l)
    &&& alike::<SpaceDirections>(l)
}

proof fn lemma_optional_once_within(a: Seq<Seq<char>>, b: Seq<Seq<char>>)
    requires
        optional_once(b),
        within(a, b),
        a.no_duplicates(),
    ensures
        optional_once(a),
{
    lemma_alike_within::<Content>(a, b);
    lemma_alike_within::<Min>(a, b);
    lemma_alike_within::<Max>(a, b);
    lemma_alike_within::<OldMin>(a, b);
    lemma_alike_within::<OldMax>(a, b);
    lemma_alike_within::<LineSkip>(a, b);
    lemma_alike_within::<ByteSkip>(a, b);
    lemma_alike_within::<SampleUnits>(a, b);
    lemma_alike_within::<Spacings>(a, b);
    lemma_alike_within::<Thicknesses>(a, b);
    lemma_alike_within::<AxisMins>(a, b);
    lemma_alike_within::<AxisMaxs>(a, b);
    lemma_alike_within::<Centerings>(a, b);
    lemma_alike_within::<Labels>(a, b);
    lemma_alike_within::<Units>(a, b);
    lemma_alike_within::<Kinds>(a, b);
    lemma_alike_within::<Space>(a, b);
    lemma_alike_within::<SpaceDimension>(a, b);
    lemma_alike_within::<SpaceUnits>(a, b);
    lemma_alike_within::<SpaceOrigin>(a, b);
    lemma_alike_within::<SpaceDirections>(a, b);
}

/// Where no line before `k` holds the field and line `k` does, the first
/// line at or after `i` that holds it is line `k`.
proof fn lemma_first_at<T: HeaderDef>(l: Seq<Seq<char>>, i: int, k: int)
    requires
        0 <= i <= k < l.len(),
        line_matches::<T>(l[k]),
        forall|j: int| i <= j < k ==> !line_matches::<T>(#[trigger] l[j]),
    ensures
        first_line::<T>(l, i) == k,
    decreases k - i,
{
    if i < k {
        lemma_first_at::<T>(l, i + 1, k);
    }
}

/// Taking the field `T` out of the lines leaves line `k`, which does not
/// hold it, in the lines; and among the lines before it none holds the
/// field any more, where at most one did. The result is the place of
/// that line after the step.
proof fn lemma_take_before<T: HeaderDef>(l: Seq<Seq<char>>, k: int) -> (k2: int)
    requires
        0 <= k < l.len(),
        !line_matches::<T>(l[k]),
        l.take(k).no_duplicates(),
        alike::<T>(l.take(k)),
        take_field::<T>(l) is Ok,
    ensures
        0 <= k2 < take_field::<T>(l)->Ok_0.rest.len(),
        take_field::<T>(l)->Ok_0.rest[k2] == l[k],
        take_field::<T>(l)->Ok_0.rest.take(k2).no_duplicates(),
        within(take_field::<T>(l)->Ok_0.rest.take(k2), l.take(k)),
        none_holds::<T>(take_field::<T>(l)->Ok_0.rest.take(k2)),
{
    let i = first_line::<T>(l, 0);
    let r = take_field::<T>(l)->Ok_0.rest;
    let p = l.take(k);
    lemma_first_line::<T>(l, 0);
    if i >= l.len() {
        assert(r == l);
        assert forall|m: int| 0 <= m < p.len() implies !line_matches::<T>(#[trigger] p[m]) by {
            assert(p[m] == l[m]);
        }
        lemma_within_itself(p);
        k
    } else if i < k {
        assert(r == l.remove(i));
        let q = r.take(k - 1);
        assert(q =~= p.remove(i));
        assert(p[i] == l[i]);
        lemma_remove_line(p, i);
        assert forall|m: int| 0 <= m < q.len() implies !line_matches::<T>(#[trigger] q[m]) by {
            if line_matches::<T>(q[m]) {
                assert(p.contains(q[m]));
                let j = choose|j: int| 0 <= j < p.len() && p[j] == q[m];
                assert(p[j] == p[i]);
                assert(q.contains(p[i]));
            }
        }
        assert(r[k - 1] == l[k]);
        k - 1
    } else {
        assert(i > k);
        assert(r == l.remove(i));
        assert(r.take(k) =~= p);
        assert forall|m: int| 0 <= m < p.len() implies !line_matches::<T>(#[trigger] p[m]) by {
            assert(p[m] == l[m]);
        }
        lemma_within_itself(p);
        assert(r[k] == l[k]);
        k
    }
}

/// A sweep keeps the first line of lines where it keeps that line.
proof fn lemma_filter_head(b: Seq<Seq<char>>, keep: spec_fn(Seq<char>) -> bool)
    requires
        b.len() > 0,
        keep(b[0]),
    ensures
        b.filter(keep).len() > 0,
        b.filter(keep)[0] == b[0],
    decreases b.len(),
{
    reveal(Seq::filter);
    if b.len() > 1 {
        let init = b.drop_last();
        assert(init[0] == b[0]);
        lemma_filter_head(init, keep);
    } else {
        assert(b.drop_last() =~= Seq::<Seq<char>>::empty());
        assert(b.last() == b[0]);
    }
}

/// A sweep that keeps line `k` leaves it in the lines; the lines before
/// it are then those that the sweep keeps of the lines before it. The
/// result is the place of that line after the sweep.
proof fn lemma_filter_before(l: Seq<Seq<char>>, k: int, keep: spec_fn(Seq<char>) -> bool) -> (k2:
    int)
    requires
        0 <= k < l.len(),
        keep(l[k]),
    ensures
        0 <= k2 < l.filter(keep).len(),
        l.filter(keep)[k2] == l[k],
        l.filter(keep).take(k2) == l.take(k).filter(keep),
{
    let a = l.take(k);
    let b = l.skip(k);
    assert(l =~= a + b);
    assert(b[0] == l[k]);
    Seq::filter_distributes_over_add(a, b, keep);
    lemma_filter_head(b, keep);
    let k2 = a.filter(keep).len() as int;
    assert((a.filter(keep) + b.filter(keep)).take(k2) =~= a.filter(keep));
    k2
}

/// This stage of an assembly leaves line `k`, which holds no optional
/// field, in the lines; among the lines before it none holds a field of
/// the stage any more. The result is the place of that line after the stage.
proof fn lemma_scalars_before(s: Scan, k: int) -> (k2: int)
    requires
        s.error is None,
        scan_scalars(s).error is None,
        0 <= k < s.lines.len(),
        !holds_optional(s.lines[k]),
        optional_once(s.lines.take(k)),
    ensures
        0 <= k2 < scan_scalars(s).lines.len(),
        scan_scalars(s).lines[k2] == s.lines[k],
        scan_scalars(s).lines.take(k2).no_duplicates(),
        within(scan_scalars(s).lines.take(k2), s.lines.take(k)),
        no_scalars_left(scan_scalars(s).lines.take(k2)),
{
    let s0 = s;
    let t1 = s0.optional::<Content>(
        |h: HeaderView, v: Option<Seq<char>>| HeaderView { content: v, ..h },
    );
    let s1 = t1;
    let t2 = s1.optional::<Min>(
        |h: HeaderView, v: Option<Seq<char>>| HeaderView { min: v, ..h },
    );
    let s2 = t2;
    let t3 = s2.optional::<Max>(
        |h: HeaderView, v: Option<Seq<char>>| HeaderView { max: v, ..h },
    );
    let s3 = t3;
    let t4 = s3.optional::<OldMin>(
        |h: HeaderView, v: Option<Seq<char>>| HeaderView { old_min: v, ..h },
    );
    let s4 = t4;
    let t5 = s4.optional::<OldMax>(
        |h: HeaderView, v: Option<Seq<char>>| HeaderView { old_max: v, ..h },
    );
    let s5 = t5;
    let t6 = s5.optional::<LineSkip>(
        |h: HeaderView, v: Option<nat>| HeaderView { line_skip: v, ..h },
    );
    let s6 = t6;
    let t7 = s6.optional::<ByteSkip>(
        |h: HeaderView, v: Option<ByteSkip>| HeaderView { byte_skip: v, ..h },
    );
    let s7 = t7;
    let t8 = s7.optional::<SampleUnits>(
        |h: HeaderView, v: Option<Seq<char>>| HeaderView { sample_units: v, ..h },
    );
    let s8 = t8;
    assert(scan_scalars(s) == s8);
    assert(t8.error is None);
    assert(s7.error is None);
    assert(t7.error is None);
    assert(s6.error is None);
    assert(t6.error is None);
    assert(s5.error is None);
    assert(t5.error is None);
    assert(s4.error is None);
    assert(t4.error is None);
    assert(s3.error is None);
    assert(t3.error is None);
    assert(s2.error is None);
    assert(t2.error is None);
    assert(s1.error is None);
    assert(t1.error is None);
    assert(s0.error is None);
    let k0 = k;
    let p0 = s0.lines.take(k0);
    let k1 = lemma_take_before::<Content>(s0.lines, k0);
    assert(s1.lines == take_field::<Content>(s0.lines)->Ok_0.rest);
    let p1 = s1.lines.take(k1);
    lemma_alike_within::<Min>(p1, p0);
    let k2 = lemma_take_before::<Min>(s1.lines, k1);
    assert(s2.lines == take_field::<Min>(s1.lines)->Ok_0.rest);
    let p2 = s2.lines.take(k2);
    lemma_within_chain(p2, p1, p0);
    lemma_alike_within::<Max>(p2, p0);
    let k3 = lemma_take_before::<Max>(s2.lines, k2);
    assert(s3.lines == take_field::<Max>(s2.lines)->Ok_0.rest);
    let p3 = s3.lines.take(k3);
    lemma_within_chain(p3, p2, p0);
    lemma_alike_within::<OldMin>(p3, p0);
    let k4 = lemma_take_before::<OldMin>(s3.lines, k3);
    assert(s4.lines == take_field::<OldMin>(s3.lines)->Ok_0.rest);
    let p4 = s4.lines.take(k4);
    lemma_within_chain(p4, p3, p0);
    lemma_alike_within::<OldMax>(p4, p0);
    let k5 = lemma_take_before::<OldMax>(s4.lines, k4);
    assert(s5.lines == take_field::<OldMax>(s4.lines)->Ok_0.rest);
    let p5 = s5.lines.take(k5);
    lemma_within_chain(p5, p4, p0);
    lemma_alike_within::<LineSkip>(p5, p0);
    let k6 = lemma_take_before::<LineSkip>(s5.lines, k5);
    assert(s6.lines == take_field::<LineSkip>(s5.lines)->Ok_0.rest);
    let p6 = s6.lines.take(k6);
    lemma_within_chain(p6, p5, p0);
    lemma_alike_within::<ByteSkip>(p6, p0);
    let k7 = lemma_take_before::<ByteSkip>(s6.lines, k6);
    assert(s7.lines == take_field::<ByteSkip>(s6.lines)->Ok_0.rest);
    let p7 = s7.lines.take(k7);
    lemma_within_chain(p7, p6, p0);
    lemma_alike_within::<SampleUnits>(p7, p0);
    let k8 = lemma_take_before::<SampleUnits>(s7.lines, k7);
    assert(s8.lines == take_field::<SampleUnits>(s7.lines)->Ok_0.rest);
    let p8 = s8.lines.take(k8);
    lemma_within_chain(p8, p7, p0);
    lemma_within_itself(p8);
    lemma_within_chain(p8, p8, p7);
    lemma_within_chain(p8, p7, p6);
    lemma_within_chain(p8, p6, p5);
    lemma_within_chain(p8, p5, p4);
    lemma_within_chain(p8, p4, p3);
    lemma_within_chain(p8, p3, p2);
    lemma_within_chain(p8, p2, p1);
    lemma_none_within::<Content>(p8, p1);
    lemma_none_within::<Min>(p8, p2);
    lemma_none_within::<Max>(p8, p3);
    lemma_none_within::<OldMin>(p8, p4);
    lemma_none_within::<OldMax>(p8, p5);
    lemma_none_within::<LineSkip>(p8, p6);
    lemma_none_within::<ByteSkip>(p8, p7);
    lemma_none_within::<SampleUnits>(p8, p8);
    k8
}

/// This stage of an assembly leaves line `k`, which holds no optional
/// field, in the lines; among the lines before it none holds a field of
/// the stage any more. The result is the place of that line after the stage.
proof fn lemma_axes_before(s: Scan, k: int) -> (k2: int)
    requires
        s.error is None,
        scan_axes(s).error is None,
        0 <= k < s.lines.len(),
        !holds_optional(s.lines[k]),
        optional_once(s.lines.take(k)),
    ensures
        0 <= k2 < scan_axes(s).lines.len(),
        scan_axes(s).lines[k2] == s.lines[k],
        scan_axes(s).lines.take(k2).no_duplicates(),
        within(scan_axes(s).lines.take(k2), s.lines.take(k)),
        no_axes_left(scan_axes(s).lines.take(k2)),
{
    let s0 = s;
    let t1 = s0.optional::<Spacings>(
        |h: HeaderView, v: Option<Seq<Seq<char>>>| HeaderView { spacings: v, ..h },
    );
    let s1 = t1.counted(Field::Spacings, count_of_axes(t1.header.spacings));
    let t2 = s1.optional::<Thicknesses>(
        |h: HeaderView, v: Option<Seq<Seq<char>>>| HeaderView { thicknesses: v, ..h },
    );
    let s2 = t2.counted(Field::Thicknesses, count_of_axes(t2.header.thicknesses));
    let t3 = s2.optional::<AxisMins>(
        |h: HeaderView, v: Option<Seq<Seq<char>>>| HeaderView { axis_mins: v, ..h },
    );
    let s3 = t3.counted(Field::AxisMins, count_of_axes(t3.header.axis_mins));
    let t4 = s3.optional::<AxisMaxs>(
        |h: HeaderView, v: Option<Seq<Seq<char>>>| HeaderView { axis_maxs: v, ..h },
    );
    let s4 = t4.counted(Field::AxisMaxs, count_of_axes(t4.header.axis_maxs));
    let t5 = s4.optional::<Centerings>(
        |h: HeaderView, v: Option<Seq<Centering>>| HeaderView { centerings: v, ..h },
    );
    let s5 = t5.counted(Field::Centerings, count_of_axes(t5.header.centerings));
    let t6 = s5.optional::<Labels>(
        |h: HeaderView, v: Option<Seq<Seq<char>>>| HeaderView { labels: v, ..h },
    );
    let s6 = t6.counted(Field::Labels, count_of_axes(t6.header.labels));
    let t7 = s6.optional::<Units>(
        |h: HeaderView, v: Option<Seq<Seq<char>>>| HeaderView { units: v, ..h },
    );
    let s7 = t7.counted(Field::Units, count_of_axes(t7.header.units));
    let t8 = s7.optional::<Kinds>(
        |h: HeaderView, v: Option<Seq<Kind>>| HeaderView { kinds: v, ..h },
    );
    let s8 = t8.counted(Field::Kinds, count_of_axes(t8.header.kinds));
    assert(scan_axes(s) == s8);
    assert(t8.error is None);
    assert(s7.error is None);
    assert(t7.error is None);
    assert(s6.error is None);
    assert(t6.error is None);
    assert(s5.error is None);
    assert(t5.error is None);
    assert(s4.error is None);
    assert(t4.error is None);
    assert(s3.error is None);
    assert(t3.error is None);
    assert(s2.error is None);
    assert(t2.error is None);
    assert(s1.error is None);
    assert(t1.error is None);
    assert(s0.error is None);
    let k0 = k;
    let p0 = s0.lines.take(k0);
    let k1 = lemma_take_before::<Spacings>(s0.lines, k0);
    assert(s1.lines == take_field::<Spacings>(s0.lines)->Ok_0.rest);
    let p1 = s1.lines.take(k1);
    lemma_alike_within::<Thicknesses>(p1, p0);
    let k2 = lemma_take_before::<Thicknesses>(s1.lines, k1);
    assert(s2.lines == take_field::<Thicknesses>(s1.lines)->Ok_0.rest);
    let p2 = s2.lines.take(k2);
    lemma_within_chain(p2, p1, p0);
    lemma_alike_within::<AxisMins>(p2, p0);
    let k3 = lemma_take_before::<AxisMins>(s2.lines, k2);
    assert(s3.lines == take_field::<AxisMins>(s2.lines)->Ok_0.rest);
    let p3 = s3.lines.take(k3);
    lemma_within_chain(p3, p2, p0);
    lemma_alike_within::<AxisMaxs>(p3, p0);
    let k4 = lemma_take_before::<AxisMaxs>(s3.lines, k3);
    assert(s4.lines == take_field::<AxisMaxs>(s3.lines)->Ok_0.rest);
    let p4 = s4.lines.take(k4);
    lemma_within_chain(p4, p3, p0);
    lemma_alike_within::<Centerings>(p4, p0);
    let k5 = lemma_take_before::<Centerings>(s4.lines, k4);
    assert(s5.lines == take_field::<Centerings>(s4.lines)->Ok_0.rest);
    let p5 = s5.lines.take(k5);
    lemma_within_chain(p5, p4, p0);
    lemma_alike_within::<Labels>(p5, p0);
    let k6 = lemma_take_before::<Labels>(s5.lines, k5);
    assert(s6.lines == take_field::<Labels>(s5.lines)->Ok_0.rest);
    let p6 = s6.lines.take(k6);
    lemma_within_chain(p6, p5, p0);
    lemma_alike_within::<Units>(p6, p0);
    let k7 = lemma_take_before::<Units>(s6.lines, k6);
    assert(s7.lines == take_field::<Units>(s6.lines)->Ok_0.rest);
    let p7 = s7.lines.take(k7);
    lemma_within_chain(p7, p6, p0);
    lemma_alike_within::<Kinds>(p7, p0);
    let k8 = lemma_take_before::<Kinds>(s7.lines, k7);
    assert(s8.lines == take_field::<Kinds>(s7.lines)->Ok_0.rest);
    let p8 = s8.lines.take(k8);
    lemma_within_chain(p8, p7, p0);
    lemma_within_itself(p8);
    lemma_within_chain(p8, p8, p7);
    lemma_within_chain(p8, p7, p6);
    lemma_within_chain(p8, p6, p5);
    lemma_within_chain(p8, p5, p4);
    lemma_within_chain(p8, p4, p3);
    lemma_within_chain(p8, p3, p2);
    lemma_within_chain(p8, p2, p1);
    lemma_none_within::<Spacings>(p8, p1);
    lemma_none_within::<Thicknesses>(p8, p2);
    lemma_none_within::<AxisMins>(p8, p3);
    lemma_none_within::<AxisMaxs>(p8, p4);
    lemma_none_within::<Centerings>(p8, p5);
    lemma_none_within::<Labels>(p8, p6);
    lemma_none_within::<Units>(p8, p7);
    lemma_none_within::<Kinds>(p8, p8);
    k8
}

/// This stage of an assembly leaves line `k`, which holds no optional
/// field, in the lines; among the lines before it none holds a field of
/// the stage any more. The result is the place of that line after the stage.
proof fn lemma_space_before(s: Scan, k: int) -> (k2: int)
    requires
        s.error is None,
        scan_space(s).error is None,
        0 <= k < s.lines.len(),
        !holds_optional(s.lines[k]),
        optional_once(s.lines.take(k)),
    ensures
        0 <= k2 < scan_space(s).lines.len(),
        scan_space(s).lines[k2] == s.lines[k],
        scan_space(s).lines.take(k2).no_duplicates(),
        within(scan_space(s).lines.take(k2), s.lines.take(k)),
        no_space_left(scan_space(s).lines.take(k2)),
{
    let s0 = s;
    let t1 = s0.optional::<Space>(
        |h: HeaderView, v: Option<Space>| HeaderView { space: v, ..h },
    );
    let s1 = t1;
    let t2 = s1.optional::<SpaceDimension>(
        |h: HeaderView, v: Option<nat>| HeaderView { space_dimension: v, ..h },
    );
    let s2 = t2;
    let t3 = s2.optional::<SpaceUnits>(
        |h: HeaderView, v: Option<Seq<Seq<char>>>| HeaderView { space_units: v, ..h },
    );
    let s3 = t3;
    let t4 = s3.optional::<SpaceOrigin>(
        |h: HeaderView, v: Option<Seq<Seq<char>>>| HeaderView { space_origin: v, ..h },
    );
    let s4 = t4;
    let t5 = s4.optional::<SpaceDirections>(
        |h: HeaderView, v: Option<Seq<Option<Seq<Seq<char>>>>>| HeaderView { space_directions: v, ..h },
    );
    let s5 = t5.counted(Field::SpaceDirections, count_of_axes(t5.header.space_directions));
    assert(scan_space(s) == s5);
    assert(t5.error is None);
    assert(s4.error is None);
    assert(t4.error is None);
    assert(s3.error is None);
    assert(t3.error is None);
    assert(s2.error is None);
    assert(t2.error is None);
    assert(s1.error is None);
    assert(t1.error is None);
    assert(s0.error is None);
    let k0 = k;
    let p0 = s0.lines.take(k0);
    let k1 = lemma_take_before::<Space>(s0.lines, k0);
    assert(s1.lines == take_field::<Space>(s0.lines)->Ok_0.rest);
    let p1 = s1.lines.take(k1);
    lemma_alike_within::<SpaceDimension>(p1, p0);
    let k2 = lemma_take_before::<SpaceDimension>(s1.lines, k1);
    assert(s2.lines == take_field::<SpaceDimension>(s1.lines)->Ok_0.rest);
    let p2 = s2.lines.take(k2);
    lemma_within_chain(p2, p1, p0);
    lemma_alike_within::<SpaceUnits>(p2, p0);
    let k3 = lemma_take_before::<SpaceUnits>(s2.lines, k2);
    assert(s3.lines == take_field::<SpaceUnits>(s2.lines)->Ok_0.rest);
    let p3 = s3.lines.take(k3);
    lemma_within_chain(p3, p2, p0);
    lemma_alike_within::<SpaceOrigin>(p3, p0);
    let k4 = lemma_take_before::<SpaceOrigin>(s3.lines, k3);
    assert(s4.lines == take_field::<SpaceOrigin>(s3.lines)->Ok_0.rest);
    let p4 = s4.lines.take(k4);
    lemma_within_chain(p4, p3, p0);
    lemma_alike_within::<SpaceDirections>(p4, p0);
    let k5 = lemma_take_before::<SpaceDirections>(s4.lines, k4);
    assert(s5.lines == take_field::<SpaceDirections>(s4.lines)->Ok_0.rest);
    let p5 = s5.lines.take(k5);
    lemma_within_chain(p5, p4, p0);
    lemma_within_itself(p5);
    lemma_within_chain(p5, p5, p4);
    lemma_within_chain(p5, p4, p3);
    lemma_within_chain(p5, p3, p2);
    lemma_within_chain(p5, p2, p1);
    lemma_none_within::<Space>(p5, p1);
    lemma_none_within::<SpaceDimension>(p5, p2);
    lemma_none_within::<SpaceUnits>(p5, p3);
    lemma_none_within::<SpaceOrigin>(p5, p4);
    lemma_none_within::<SpaceDirections>(p5, p5);
    k5
}

/// A text whose lines, after the mandatory fields, are recognized lines
/// without a field twice, then a list directive, then the lines of its
/// files, leaves no line when it is assembled. The lines of the files are
/// not held to anything: one that looks like a field, a pair or a comment
/// is read as that, and the others leave with the directive.
pub proof fn lemma_listed_files_are_consumed(lines: Seq<Seq<char>>, k: int)
    requires
        scan_full(lines).error is None,
        0 <= k < scan_minimal(lines).lines.len(),
        is_list_directive(scan_minimal(lines).lines[k]),
        optional_once(scan_minimal(lines).lines.take(k)),
        none_holds::<DataFile>(scan_minimal(lines).lines.take(k)),
        forall|i: int|
            0 <= i < k ==> recognized(#[trigger] scan_minimal(lines).lines.take(k)[i]),
    ensures
        scan_full(lines).lines.len() == 0,
{
    let s0 = scan_minimal(lines);
    let s1 = scan_scalars(s0);
    let s2 = scan_axes(s1);
    let s3 = scan_space(s2);
    let s4 = s3.key_values();
    let s5 = s4.comments();
    let s6 = s5.data_file();
    assert(scan_full(lines) == s6);
    assert(s5.error is None);
    assert(s4.error is None);
    assert(s3.error is None);
    assert(s2.error is None) by {
        lemma_error_stays_space(s2);
    }
    assert(s1.error is None) by {
        lemma_error_stays_axes(s1);
    }
    assert(s0.error is None) by {
        lemma_error_stays_scalars(s0);
    }
    let d = s0.lines[k];
    let p0 = s0.lines.take(k);
    let k1 = lemma_scalars_before(s0, k);
    let p1 = s1.lines.take(k1);
    lemma_optional_once_within(p1, p0);
    let k2 = lemma_axes_before(s1, k1);
    let p2 = s2.lines.take(k2);
    lemma_within_chain(p2, p1, p0);
    lemma_optional_once_within(p2, p0);
    let k3 = lemma_space_before(s2, k2);
    let p3 = s3.lines.take(k3);
    lemma_within_chain(p3, p2, p0);
    lemma_no_scalars_within(p2, p1);
    lemma_no_scalars_within(p3, p2);
    lemma_no_axes_within(p3, p2);
    let keep_pairs = |l: Seq<char>| !is_key_value(l);
    assert(s4.lines == s3.lines.filter(keep_pairs));
    let k4 = lemma_filter_before(s3.lines, k3, keep_pairs);
    let p4 = s4.lines.take(k4);
    lemma_filter_lines(p3, keep_pairs);
    assert(no_pair_left(p4));
    let keep_comments = |l: Seq<char>| !line_matches::<Comment>(l);
    assert(s5.lines == s4.lines.filter(keep_comments));
    let k5 = lemma_filter_before(s4.lines, k4, keep_comments);
    let p5 = s5.lines.take(k5);
    lemma_filter_lines(p4, keep_comments);
    assert(none_holds::<Comment>(p5));
    lemma_within_chain(p4, p3, p0);
    lemma_within_chain(p5, p4, p0);
    lemma_within_chain(p5, p4, p3);
    lemma_no_scalars_within(p5, p3);
    lemma_no_axes_within(p5, p3);
    lemma_no_space_within(p5, p3);
    lemma_no_pair_within(p5, p4);
    lemma_none_within::<DataFile>(p5, p0);
    assert(s5.lines[k5] == d);
    assert forall|j: int| 0 <= j < k5 implies !line_matches::<DataFile>(
        #[trigger] s5.lines[j],
    ) by {
        assert(p5[j] == s5.lines[j]);
    }
    lemma_first_at::<DataFile>(s5.lines, 0, k5);
    assert(take_data_file(s5.lines) is Ok);
    assert(take_data_file(s5.lines)->Ok_0.rest == p5);
    assert(s6.lines == p5);
    if p5.len() > 0 {
        let x = p5[0];
        assert(p0.contains(x));
        let j = choose|j: int| 0 <= j < p0.len() && p0[j] == x;
        assert(recognized(p0[j]));
        assert(!holds_optional(x));
        assert(!is_key_value(x));
        assert(!line_matches::<Comment>(x));
        assert(!line_matches::<DataFile>(x));
    }
}

} // verus!
