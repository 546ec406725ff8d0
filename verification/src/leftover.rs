//! What is left of the lines after an assembly: a line remains only if it
//! holds no known field, or holds a field that another line held before it.
use vstd::prelude::*;
use crate::header::{
    count_of_axes, first_line, lemma_first_line, scan_axes, scan_full, scan_minimal, scan_scalars,
    scan_space, take_data_file, take_field, HeaderView, Scan,
};
use crate::header_defs::basic::is_key_value;
use crate::header_defs::{
    line_matches, AxisMaxs, AxisMins, ByteSkip, Centering, Centerings, Comment, Content, DataFile,
    Field, HeaderDef, Kind, Kinds, Labels, LineSkip, Max, Min, OldMax, OldMin, SampleUnits, Space,
    SpaceDimension, SpaceDirections, SpaceOrigin, SpaceUnits, Spacings, Thicknesses, Units,
};

verus! {

/// Does every line of `a` occur in `b`?
pub open spec fn within(a: Seq<Seq<char>>, b: Seq<Seq<char>>) -> bool {
    forall|i: int| 0 <= i < a.len() ==> b.contains(#[trigger] a[i])
}

pub proof fn lemma_within_itself(a: Seq<Seq<char>>)
    ensures
        within(a, a),
{
}

pub proof fn lemma_within_chain(a: Seq<Seq<char>>, b: Seq<Seq<char>>, c: Seq<Seq<char>>)
    requires
        within(a, b),
        within(b, c),
    ensures
        within(a, c),
{
    assert forall|i: int| 0 <= i < a.len() implies c.contains(#[trigger] a[i]) by {
        assert(b.contains(a[i]));
        let j = choose|j: int| 0 <= j < b.len() && b[j] == a[i];
        assert(c.contains(b[j]));
    }
}

/// Taking one line out of lines that are all different leaves lines that
/// are all different, all among those before, and none equal to the one
/// taken out.
pub proof fn lemma_remove_line(l: Seq<Seq<char>>, k: int)
    requires
        0 <= k < l.len(),
        l.no_duplicates(),
    ensures
        within(l.remove(k), l),
        l.remove(k).no_duplicates(),
        !l.remove(k).contains(l[k]),
{
    let r = l.remove(k);
    assert forall|i: int| 0 <= i < r.len() implies l.contains(#[trigger] r[i]) by {
        if i < k {
            assert(r[i] == l[i]);
        } else {
            assert(r[i] == l[i + 1]);
        }
    }
    assert forall|i: int, j: int| 0 <= i < r.len() && 0 <= j < r.len() && i != j implies r[i]
        != r[j] by {
        let a = if i < k {
            i
        } else {
            i + 1
        };
        let b = if j < k {
            j
        } else {
            j + 1
        };
        assert(r[i] == l[a]);
        assert(r[j] == l[b]);
    }
    if r.contains(l[k]) {
        let i = choose|i: int| 0 <= i < r.len() && r[i] == l[k];
        let a = if i < k {
            i
        } else {
            i + 1
        };
        assert(r[i] == l[a]);
    }
}

/// The first lines of lines that are all different are all different,
/// and all among them.
pub proof fn lemma_take_lines(l: Seq<Seq<char>>, k: int)
    requires
        0 <= k <= l.len(),
        l.no_duplicates(),
    ensures
        within(l.take(k), l),
        l.take(k).no_duplicates(),
{
    let r = l.take(k);
    assert forall|i: int| 0 <= i < r.len() implies l.contains(#[trigger] r[i]) by {
        assert(r[i] == l[i]);
    }
}

/// The lines that a sweep keeps are all different where they were before,
/// are all among those before, and each is a line that the sweep keeps.
pub proof fn lemma_filter_lines(l: Seq<Seq<char>>, keep: spec_fn(Seq<char>) -> bool)
    requires
        l.no_duplicates(),
    ensures
        within(l.filter(keep), l),
        l.filter(keep).no_duplicates(),
        forall|i: int| 0 <= i < l.filter(keep).len() ==> keep(#[trigger] l.filter(keep)[i]),
    decreases l.len(),
{
    reveal(Seq::filter);
    if l.len() > 0 {
        let init = l.drop_last();
        let f = init.filter(keep);
        lemma_take_lines(l, l.len() - 1);
        assert(init =~= l.take(l.len() - 1));
        lemma_filter_lines(init, keep);
        let r = l.filter(keep);
        assert forall|i: int| 0 <= i < f.len() implies l.contains(#[trigger] f[i]) by {
            assert(init.contains(f[i]));
            let j = choose|j: int| 0 <= j < init.len() && init[j] == f[i];
            assert(l[j] == f[i]);
        }
        if keep(l.last()) {
            assert(r == f.push(l.last()));
            assert forall|i: int| 0 <= i < r.len() implies l.contains(#[trigger] r[i]) by {
                if i < f.len() {
                    assert(r[i] == f[i]);
                } else {
                    assert(r[i] == l[l.len() - 1]);
                }
            }
            assert forall|i: int, j: int|
                0 <= i < r.len() && 0 <= j < r.len() && i != j implies r[i] != r[j] by {
                if i < f.len() && j < f.len() {
                    assert(r[i] == f[i] && r[j] == f[j]);
                } else {
                    let m = if i < f.len() {
                        i
                    } else {
                        j
                    };
                    assert(r[m] == f[m]);
                    assert(init.contains(f[m]));
                    let q = choose|q: int| 0 <= q < init.len() && init[q] == f[m];
                    assert(l[q] == f[m]);
                    assert(l[q] != l[l.len() - 1]);
                }
            }
            assert forall|i: int| 0 <= i < r.len() implies keep(#[trigger] r[i]) by {
                if i < f.len() {
                    assert(r[i] == f[i]);
                }
            }
        } else {
            assert(r == f);
        }
    }
}

/// Does no line hold the field `T`?
pub open spec fn none_holds<T: HeaderDef>(l: Seq<Seq<char>>) -> bool {
    forall|i: int| 0 <= i < l.len() ==> !line_matches::<T>(#[trigger] l[i])
}

/// Are the lines that hold the field `T` all the same line? Among lines
/// that are all different, at most one line then holds the field.
pub open spec fn alike<T: HeaderDef>(l: Seq<Seq<char>>) -> bool {
    forall|i: int, j: int|
        0 <= i < l.len() && 0 <= j < l.len() && line_matches::<T>(#[trigger] l[i])
            && line_matches::<T>(#[trigger] l[j]) ==> l[i] == l[j]
}

pub proof fn lemma_none_within<T: HeaderDef>(a: Seq<Seq<char>>, b: Seq<Seq<char>>)
    requires
        none_holds::<T>(b),
        within(a, b),
    ensures
        none_holds::<T>(a),
{
    assert forall|i: int| 0 <= i < a.len() implies !line_matches::<T>(#[trigger] a[i]) by {
        assert(b.contains(a[i]));
        let j = choose|j: int| 0 <= j < b.len() && b[j] == a[i];
        assert(!line_matches::<T>(b[j]));
    }
}

pub proof fn lemma_alike_within<T: HeaderDef>(a: Seq<Seq<char>>, b: Seq<Seq<char>>)
    requires
        alike::<T>(b),
        within(a, b),
    ensures
        alike::<T>(a),
{
    assert forall|i: int, j: int|
        0 <= i < a.len() && 0 <= j < a.len() && line_matches::<T>(#[trigger] a[i])
            && line_matches::<T>(#[trigger] a[j]) implies a[i] == a[j] by {
        assert(b.contains(a[i]));
        assert(b.contains(a[j]));
        let p = choose|p: int| 0 <= p < b.len() && b[p] == a[i];
        let q = choose|q: int| 0 <= q < b.len() && b[q] == a[j];
        assert(line_matches::<T>(b[p]) && line_matches::<T>(b[q]));
    }
}

/// Once the field `T` is taken out of lines of which at most one holds
/// it, no line holds it.
pub proof fn lemma_take_once<T: HeaderDef>(l: Seq<Seq<char>>)
    requires
        l.no_duplicates(),
        alike::<T>(l),
        take_field::<T>(l) is Ok,
    ensures
        take_field::<T>(l)->Ok_0.rest.no_duplicates(),
        within(take_field::<T>(l)->Ok_0.rest, l),
        none_holds::<T>(take_field::<T>(l)->Ok_0.rest),
{
    let i = first_line::<T>(l, 0);
    let r = take_field::<T>(l)->Ok_0.rest;
    lemma_first_line::<T>(l, 0);
    if i >= l.len() {
        assert(r == l);
    } else {
        assert(r == l.remove(i));
        lemma_remove_line(l, i);
        assert forall|m: int| 0 <= m < r.len() implies !line_matches::<T>(#[trigger] r[m]) by {
            if line_matches::<T>(r[m]) {
                assert(l.contains(r[m]));
                let j = choose|j: int| 0 <= j < l.len() && l[j] == r[m];
                assert(l[j] == l[i]);
                assert(r.contains(l[i]));
            }
        }
    }
}

/// Once the data-file directive is taken out of lines of which at most
/// one holds it, no line holds it.
pub proof fn lemma_take_data_file_once(l: Seq<Seq<char>>)
    requires
        l.no_duplicates(),
        alike::<DataFile>(l),
        take_data_file(l) is Ok,
    ensures
        take_data_file(l)->Ok_0.rest.no_duplicates(),
        within(take_data_file(l)->Ok_0.rest, l),
        none_holds::<DataFile>(take_data_file(l)->Ok_0.rest),
{
    let i = first_line::<DataFile>(l, 0);
    let r = take_data_file(l)->Ok_0.rest;
    lemma_first_line::<DataFile>(l, 0);
    if i >= l.len() {
        assert(r == l);
    } else if r == l.take(i) {
        lemma_take_lines(l, i);
        assert forall|m: int| 0 <= m < r.len() implies !line_matches::<DataFile>(
            #[trigger] r[m],
        ) by {
            assert(r[m] == l[m]);
        }
    } else {
        assert(r == l.remove(i));
        lemma_remove_line(l, i);
        assert forall|m: int| 0 <= m < r.len() implies !line_matches::<DataFile>(
            #[trigger] r[m],
        ) by {
            if line_matches::<DataFile>(r[m]) {
                assert(l.contains(r[m]));
                let j = choose|j: int| 0 <= j < l.len() && l[j] == r[m];
                assert(l[j] == l[i]);
                assert(r.contains(l[i]));
            }
        }
    }
}

/// Does no known field occur on two different lines?
pub open spec fn no_field_twice(l: Seq<Seq<char>>) -> bool {
    &&& l.no_duplicates()
    &&& alike::<Content>(l)
    &&& alike::<Min>(l)
    &&& alike::<Max>(l)
    &&& alike::<OldMin>(l)
    &&& alike::<OldMax>(l)
    &&& alike::<LineSkip>(l)
    &&& alike::<ByteSkip>(l)
    &&& alike::<SampleUnits>(l)
    &&& alike::<Spacings>(l)
    &&& alike::<Thicknesses>(l)
    &&& alike::<AxisMins>(l)
    &&& alike::<AxisMaxs>(l)
    &&& alike::<Centerings>(l)
    &&& alike::<Labels>(l)
    &&& alike::<Units>(l)
    &&& alike::<Kinds>(l)
    &&& alike::<Space>(l)
    &&& alike::<SpaceDimension>(l)
    &&& alike::<SpaceUnits>(l)
    &&& alike::<SpaceOrigin>(l)
    &&& alike::<SpaceDirections>(l)
    &&& alike::<DataFile>(l)
}

/// Does the line hold a known optional field, a key-value pair, a comment
/// or the data-file directive?
pub open spec fn recognized(line: Seq<char>) -> bool {
    ||| line_matches::<Content>(line)
    ||| line_matches::<Min>(line)
    ||| line_matches::<Max>(line)
    ||| line_matches::<OldMin>(line)
    ||| line_matches::<OldMax>(line)
    ||| line_matches::<LineSkip>(line)
    ||| line_matches::<ByteSkip>(line)
    ||| line_matches::<SampleUnits>(line)
    ||| line_matches::<Spacings>(line)
    ||| line_matches::<Thicknesses>(line)
    ||| line_matches::<AxisMins>(line)
    ||| line_matches::<AxisMaxs>(line)
    ||| line_matches::<Centerings>(line)
    ||| line_matches::<Labels>(line)
    ||| line_matches::<Units>(line)
    ||| line_matches::<Kinds>(line)
    ||| line_matches::<Space>(line)
    ||| line_matches::<SpaceDimension>(line)
    ||| line_matches::<SpaceUnits>(line)
    ||| line_matches::<SpaceOrigin>(line)
    ||| line_matches::<SpaceDirections>(line)
    ||| line_matches::<DataFile>(line)
    ||| line_matches::<Comment>(line)
    ||| is_key_value(line)
}

pub proof fn lemma_twice_within(a: Seq<Seq<char>>, b: Seq<Seq<char>>)
    requires
        no_field_twice(b),
        within(a, b),
        a.no_duplicates(),
    ensures
        no_field_twice(a),
{
    lemma_alike_within::<Content>(a, b);
    lemma_alike_within::<Min>(a, b);
    lemma_alike_within::<Max>(a, b);
    lemma_alike_within::<OldMin>(a, b);
    lemma_alike_within::<OldMax>(a, b);
    lemma_alike_within::<LineSkip>(a, b);
    lemma_alike_within::<ByteSkip>(a, b);
    lemma_alike_within::<SampleUnits>(a, b);
    lemma_alike_within::<Spacings>(a, b);
    lemma_alike_within::<Thicknesses>(a, b);
    lemma_alike_within::<AxisMins>(a, b);
    lemma_alike_within::<AxisMaxs>(a, b);
    lemma_alike_within::<Centerings>(a, b);
    lemma_alike_within::<Labels>(a, b);
    lemma_alike_within::<Units>(a, b);
    lemma_alike_within::<Kinds>(a, b);
    lemma_alike_within::<Space>(a, b);
    lemma_alike_within::<SpaceDimension>(a, b);
    lemma_alike_within::<SpaceUnits>(a, b);
    lemma_alike_within::<SpaceOrigin>(a, b);
    lemma_alike_within::<SpaceDirections>(a, b);
    lemma_alike_within::<DataFile>(a, b);
}

/// Does no line hold one of the fields that hold one value?
pub open spec fn no_scalars_left(l: Seq<Seq<char>>) -> bool {
    &&& none_holds::<Content>(l)
    &&& none_holds::<Min>(l)
    &&& none_holds::<Max>(l)
    &&& none_holds::<OldMin>(l)
    &&& none_holds::<OldMax>(l)
    &&& none_holds::<LineSkip>(l)
    &&& none_holds::<ByteSkip>(l)
    &&& none_holds::<SampleUnits>(l)
}

pub proof fn lemma_no_scalars_within(a: Seq<Seq<char>>, b: Seq<Seq<char>>)
    requires
        no_scalars_left(b),
        within(a, b),
    ensures
        no_scalars_left(a),
{
    lemma_none_within::<Content>(a, b);
    lemma_none_within::<Min>(a, b);
    lemma_none_within::<Max>(a, b);
    lemma_none_within::<OldMin>(a, b);
    lemma_none_within::<OldMax>(a, b);
    lemma_none_within::<LineSkip>(a, b);
    lemma_none_within::<ByteSkip>(a, b);
    lemma_none_within::<SampleUnits>(a, b);
}

/// After this stage of an assembly that is not refused, no line holds
/// one of its fields, where no field occurred twice before.
pub proof fn lemma_scalars_leftover(s: Scan)
    requires
        s.error is None,
        scan_scalars(s).error is None,
        no_field_twice(s.lines),
    ensures
        scan_scalars(s).lines.no_duplicates(),
        within(scan_scalars(s).lines, s.lines),
        no_scalars_left(scan_scalars(s).lines),
{
    let s0 = s;
    let t1 = s0.optional::<Content>(
        |h: HeaderView, v: Option<Seq<char>>| HeaderView { content: v, ..h },
    );
    let s1 = t1;
    let t2 = s1.optional::<Min>(
        |h: HeaderView, v: Option<Seq<char>>| HeaderView { min: v, ..h },
    );
    let s2 = t2;
    let t3 = s2.optional::<Max>(
        |h: HeaderView, v: Option<Seq<char>>| HeaderView { max: v, ..h },
    );
    let s3 = t3;
    let t4 = s3.optional::<OldMin>(
        |h: HeaderView, v: Option<Seq<char>>| HeaderView { old_min: v, ..h },
    );
    let s4 = t4;
    let t5 = s4.optional::<OldMax>(
        |h: HeaderView, v: Option<Seq<char>>| HeaderView { old_max: v, ..h },
    );
    let s5 = t5;
    let t6 = s5.optional::<LineSkip>(
        |h: HeaderView, v: Option<nat>| HeaderView { line_skip: v, ..h },
    );
    let s6 = t6;
    let t7 = s6.optional::<ByteSkip>(
        |h: HeaderView, v: Option<ByteSkip>| HeaderView { byte_skip: v, ..h },
    );
    let s7 = t7;
    let t8 = s7.optional::<SampleUnits>(
        |h: HeaderView, v: Option<Seq<char>>| HeaderView { sample_units: v, ..h },
    );
    let s8 = t8;
    assert(scan_scalars(s) == s8);
    assert(t8.error is None);
    assert(s7.error is None);
    assert(t7.error is None);
    assert(s6.error is None);
    assert(t6.error is None);
    assert(s5.error is None);
    assert(t5.error is None);
    assert(s4.error is None);
    assert(t4.error is None);
    assert(s3.error is None);
    assert(t3.error is None);
    assert(s2.error is None);
    assert(t2.error is None);
    assert(s1.error is None);
    assert(t1.error is None);
    assert(s0.error is None);
    lemma_within_itself(s0.lines);
    lemma_alike_within::<Content>(s0.lines, s0.lines);
    lemma_take_once::<Content>(s0.lines);
    assert(s1.lines == take_field::<Content>(s0.lines)->Ok_0.rest);
    lemma_within_chain(s1.lines, s0.lines, s0.lines);
    lemma_alike_within::<Min>(s1.lines, s0.lines);
    lemma_take_once::<Min>(s1.lines);
    assert(s2.lines == take_field::<Min>(s1.lines)->Ok_0.rest);
    lemma_within_chain(s2.lines, s1.lines, s0.lines);
    lemma_alike_within::<Max>(s2.lines, s0.lines);
    lemma_take_once::<Max>(s2.lines);
    assert(s3.lines == take_field::<Max>(s2.lines)->Ok_0.rest);
    lemma_within_chain(s3.lines, s2.lines, s0.lines);
    lemma_alike_within::<OldMin>(s3.lines, s0.lines);
    lemma_take_once::<OldMin>(s3.lines);
    assert(s4.lines == take_field::<OldMin>(s3.lines)->Ok_0.rest);
    lemma_within_chain(s4.lines, s3.lines, s0.lines);
    lemma_alike_within::<OldMax>(s4.lines, s0.lines);
    lemma_take_once::<OldMax>(s4.lines);
    assert(s5.lines == take_field::<OldMax>(s4.lines)->Ok_0.rest);
    lemma_within_chain(s5.lines, s4.lines, s0.lines);
    lemma_alike_within::<LineSkip>(s5.lines, s0.lines);
    lemma_take_once::<LineSkip>(s5.lines);
    assert(s6.lines == take_field::<LineSkip>(s5.lines)->Ok_0.rest);
    lemma_within_chain(s6.lines, s5.lines, s0.lines);
    lemma_alike_within::<ByteSkip>(s6.lines, s0.lines);
    lemma_take_once::<ByteSkip>(s6.lines);
    assert(s7.lines == take_field::<ByteSkip>(s6.lines)->Ok_0.rest);
    lemma_within_chain(s7.lines, s6.lines, s0.lines);
    lemma_alike_within::<SampleUnits>(s7.lines, s0.lines);
    lemma_take_once::<SampleUnits>(s7.lines);
    assert(s8.lines == take_field::<SampleUnits>(s7.lines)->Ok_0.rest);
    lemma_within_chain(s8.lines, s7.lines, s0.lines);
    lemma_within_itself(s8.lines);
    lemma_within_chain(s8.lines, s8.lines, s7.lines);
    lemma_within_chain(s8.lines, s7.lines, s6.lines);
    lemma_within_chain(s8.lines, s6.lines, s5.lines);
    lemma_within_chain(s8.lines, s5.lines, s4.lines);
    lemma_within_chain(s8.lines, s4.lines, s3.lines);
    lemma_within_chain(s8.lines, s3.lines, s2.lines);
    lemma_within_chain(s8.lines, s2.lines, s1.lines);
    lemma_none_within::<Content>(s8.lines, s1.lines);
    lemma_none_within::<Min>(s8.lines, s2.lines);
    lemma_none_within::<Max>(s8.lines, s3.lines);
    lemma_none_within::<OldMin>(s8.lines, s4.lines);
    lemma_none_within::<OldMax>(s8.lines, s5.lines);
    lemma_none_within::<LineSkip>(s8.lines, s6.lines);
    lemma_none_within::<ByteSkip>(s8.lines, s7.lines);
    lemma_none_within::<SampleUnits>(s8.lines, s8.lines);
}

/// Does no line hold one of the per-axis fields?
pub open spec fn no_axes_left(l: Seq<Seq<char>>) -> bool {
    &&& none_holds::<Spacings>(l)
    &&& none_holds::<Thicknesses>(l)
    &&& none_holds::<AxisMins>(l)
    &&& none_holds::<AxisMaxs>(l)
    &&& none_holds::<Centerings>(l)
    &&& none_holds::<Labels>(l)
    &&& none_holds::<Units>(l)
    &&& none_holds::<Kinds>(l)
}

pub proof fn lemma_no_axes_within(a: Seq<Seq<char>>, b: Seq<Seq<char>>)
    requires
        no_axes_left(b),
        within(a, b),
    ensures
        no_axes_left(a),
{
    lemma_none_within::<Spacings>(a, b);
    lemma_none_within::<Thicknesses>(a, b);
    lemma_none_within::<AxisMins>(a, b);
    lemma_none_within::<AxisMaxs>(a, b);
    lemma_none_within::<Centerings>(a, b);
    lemma_none_within::<Labels>(a, b);
    lemma_none_within::<Units>(a, b);
    lemma_none_within::<Kinds>(a, b);
}

/// After this stage of an assembly that is not refused, no line holds
/// one of its fields, where no field occurred twice before.
pub proof fn lemma_axes_leftover(s: Scan)
    requires
        s.error is None,
        scan_axes(s).error is None,
        no_field_twice(s.lines),
    ensures
        scan_axes(s).lines.no_duplicates(),
        within(scan_axes(s).lines, s.lines),
        no_axes_left(scan_axes(s).lines),
{
    let s0 = s;
    let t1 = s0.optional::<Spacings>(
        |h: HeaderView, v: Option<Seq<Seq<char>>>| HeaderView { spacings: v, ..h },
    );
    let s1 = t1.counted(Field::Spacings, count_of_axes(t1.header.spacings));
    let t2 = s1.optional::<Thicknesses>(
        |h: HeaderView, v: Option<Seq<Seq<char>>>| HeaderView { thicknesses: v, ..h },
    );
    let s2 = t2.counted(Field::Thicknesses, count_of_axes(t2.header.thicknesses));
    let t3 = s2.optional::<AxisMins>(
        |h: HeaderView, v: Option<Seq<Seq<char>>>| HeaderView { axis_mins: v, ..h },
    );
    let s3 = t3.counted(Field::AxisMins, count_of_axes(t3.header.axis_mins));
    let t4 = s3.optional::<AxisMaxs>(
        |h: HeaderView, v: Option<Seq<Seq<char>>>| HeaderView { axis_maxs: v, ..h },
    );
    let s4 = t4.counted(Field::AxisMaxs, count_of_axes(t4.header.axis_maxs));
    let t5 = s4.optional::<Centerings>(
        |h: HeaderView, v: Option<Seq<Centering>>| HeaderView { centerings: v, ..h },
    );
    let s5 = t5.counted(Field::Centerings, count_of_axes(t5.header.centerings));
    let t6 = s5.optional::<Labels>(
        |h: HeaderView, v: Option<Seq<Seq<char>>>| HeaderView { labels: v, ..h },
    );
    let s6 = t6.counted(Field::Labels, count_of_axes(t6.header.labels));
    let t7 = s6.optional::<Units>(
        |h: HeaderView, v: Option<Seq<Seq<char>>>| HeaderView { units: v, ..h },
    );
    let s7 = t7.counted(Field::Units, count_of_axes(t7.header.units));
    let t8 = s7.optional::<Kinds>(
        |h: HeaderView, v: Option<Seq<Kind>>| HeaderView { kinds: v, ..h },
    );
    let s8 = t8.counted(Field::Kinds, count_of_axes(t8.header.kinds));
    assert(scan_axes(s) == s8);
    assert(t8.error is None);
    assert(s7.error is None);
    assert(t7.error is None);
    assert(s6.error is None);
    assert(t6.error is None);
    assert(s5.error is None);
    assert(t5.error is None);
    assert(s4.error is None);
    assert(t4.error is None);
    assert(s3.error is None);
    assert(t3.error is None);
    assert(s2.error is None);
    assert(t2.error is None);
    assert(s1.error is None);
    assert(t1.error is None);
    assert(s0.error is None);
    lemma_within_itself(s0.lines);
    lemma_alike_within::<Spacings>(s0.lines, s0.lines);
    lemma_take_once::<Spacings>(s0.lines);
    assert(s1.lines == take_field::<Spacings>(s0.lines)->Ok_0.rest);
    lemma_within_chain(s1.lines, s0.lines, s0.lines);
    lemma_alike_within::<Thicknesses>(s1.lines, s0.lines);
    lemma_take_once::<Thicknesses>(s1.lines);
    assert(s2.lines == take_field::<Thicknesses>(s1.lines)->Ok_0.rest);
    lemma_within_chain(s2.lines, s1.lines, s0.lines);
    lemma_alike_within::<AxisMins>(s2.lines, s0.lines);
    lemma_take_once::<AxisMins>(s2.lines);
    assert(s3.lines == take_field::<AxisMins>(s2.lines)->Ok_0.rest);
    lemma_within_chain(s3.lines, s2.lines, s0.lines);
    lemma_alike_within::<AxisMaxs>(s3.lines, s0.lines);
    lemma_take_once::<AxisMaxs>(s3.lines);
    assert(s4.lines == take_field::<AxisMaxs>(s3.lines)->Ok_0.rest);
    lemma_within_chain(s4.lines, s3.lines, s0.lines);
    lemma_alike_within::<Centerings>(s4.lines, s0.lines);
    lemma_take_once::<Centerings>(s4.lines);
    assert(s5.lines == take_field::<Centerings>(s4.lines)->Ok_0.rest);
    lemma_within_chain(s5.lines, s4.lines, s0.lines);
    lemma_alike_within::<Labels>(s5.lines, s0.lines);
    lemma_take_once::<Labels>(s5.lines);
    assert(s6.lines == take_field::<Labels>(s5.lines)->Ok_0.rest);
    lemma_within_chain(s6.lines, s5.lines, s0.lines);
    lemma_alike_within::<Units>(s6.lines, s0.lines);
    lemma_take_once::<Units>(s6.lines);
    assert(s7.lines == take_field::<Units>(s6.lines)->Ok_0.rest);
    lemma_within_chain(s7.lines, s6.lines, s0.lines);
    lemma_alike_within::<Kinds>(s7.lines, s0.lines);
    lemma_take_once::<Kinds>(s7.lines);
    assert(s8.lines == take_field::<Kinds>(s7.lines)->Ok_0.rest);
    lemma_within_chain(s8.lines, s7.lines, s0.lines);
    lemma_within_itself(s8.lines);
    lemma_within_chain(s8.lines, s8.lines, s7.lines);
    lemma_within_chain(s8.lines, s7.lines, s6.lines);
    lemma_within_chain(s8.lines, s6.lines, s5.lines);
    lemma_within_chain(s8.lines, s5.lines, s4.lines);
    lemma_within_chain(s8.lines, s4.lines, s3.lines);
    lemma_within_chain(s8.lines, s3.lines, s2.lines);
    lemma_within_chain(s8.lines, s2.lines, s1.lines);
    lemma_none_within::<Spacings>(s8.lines, s1.lines);
    lemma_none_within::<Thicknesses>(s8.lines, s2.lines);
    lemma_none_within::<AxisMins>(s8.lines, s3.lines);
    lemma_none_within::<AxisMaxs>(s8.lines, s4.lines);
    lemma_none_within::<Centerings>(s8.lines, s5.lines);
    lemma_none_within::<Labels>(s8.lines, s6.lines);
    lemma_none_within::<Units>(s8.lines, s7.lines);
    lemma_none_within::<Kinds>(s8.lines, s8.lines);
}

/// Does no line hold one of the fields of space and orientation?
pub open spec fn no_space_left(l: Seq<Seq<char>>) -> bool {
    &&& none_holds::<Space>(l)
    &&& none_holds::<SpaceDimension>(l)
    &&& none_holds::<SpaceUnits>(l)
    &&& none_holds::<SpaceOrigin>(l)
    &&& none_holds::<SpaceDirections>(l)
}

pub proof fn lemma_no_space_within(a: Seq<Seq<char>>, b: Seq<Seq<char>>)
    requires
        no_space_left(b),
        within(a, b),
    ensures
        no_space_left(a),
{
    lemma_none_within::<Space>(a, b);
    lemma_none_within::<SpaceDimension>(a, b);
    lemma_none_within::<SpaceUnits>(a, b);
    lemma_none_within::<SpaceOrigin>(a, b);
    lemma_none_within::<SpaceDirections>(a, b);
}

/// After this stage of an assembly that is not refused, no line holds
/// one of its fields, where no field occurred twice before.
pub proof fn lemma_space_leftover(s: Scan)
    requires
        s.error is None,
        scan_space(s).error is None,
        no_field_twice(s.lines),
    ensures
        scan_space(s).lines.no_duplicates(),
        within(scan_space(s).lines, s.lines),
        no_space_left(scan_space(s).lines),
{
    let s0 = s;
    let t1 = s0.optional::<Space>(
        |h: HeaderView, v: Option<Space>| HeaderView { space: v, ..h },
    );
    let s1 = t1;
    let t2 = s1.optional::<SpaceDimension>(
        |h: HeaderView, v: Option<nat>| HeaderView { space_dimension: v, ..h },
    );
    let s2 = t2;
    let t3 = s2.optional::<SpaceUnits>(
        |h: HeaderView, v: Option<Seq<Seq<char>>>| HeaderView { space_units: v, ..h },
    );
    let s3 = t3;
    let t4 = s3.optional::<SpaceOrigin>(
        |h: HeaderView, v: Option<Seq<Seq<char>>>| HeaderView { space_origin: v, ..h },
    );
    let s4 = t4;
    let t5 = s4.optional::<SpaceDirections>(
        |h: HeaderView, v: Option<Seq<Option<Seq<Seq<char>>>>>| HeaderView { space_directions: v, ..h },
    );
    let s5 = t5.counted(Field::SpaceDirections, count_of_axes(t5.header.space_directions));
    assert(scan_space(s) == s5);
    assert(t5.error is None);
    assert(s4.error is None);
    assert(t4.error is None);
    assert(s3.error is None);
    assert(t3.error is None);
    assert(s2.error is None);
    assert(t2.error is None);
    assert(s1.error is None);
    assert(t1.error is None);
    assert(s0.error is None);
    lemma_within_itself(s0.lines);
    lemma_alike_within::<Space>(s0.lines, s0.lines);
    lemma_take_once::<Space>(s0.lines);
    assert(s1.lines == take_field::<Space>(s0.lines)->Ok_0.rest);
    lemma_within_chain(s1.lines, s0.lines, s0.lines);
    lemma_alike_within::<SpaceDimension>(s1.lines, s0.lines);
    lemma_take_once::<SpaceDimension>(s1.lines);
    assert(s2.lines == take_field::<SpaceDimension>(s1.lines)->Ok_0.rest);
    lemma_within_chain(s2.lines, s1.lines, s0.lines);
    lemma_alike_within::<SpaceUnits>(s2.lines, s0.lines);
    lemma_take_once::<SpaceUnits>(s2.lines);
    assert(s3.lines == take_field::<SpaceUnits>(s2.lines)->Ok_0.rest);
    lemma_within_chain(s3.lines, s2.lines, s0.lines);
    lemma_alike_within::<SpaceOrigin>(s3.lines, s0.lines);
    lemma_take_once::<SpaceOrigin>(s3.lines);
    assert(s4.lines == take_field::<SpaceOrigin>(s3.lines)->Ok_0.rest);
    lemma_within_chain(s4.lines, s3.lines, s0.lines);
    lemma_alike_within::<SpaceDirections>(s4.lines, s0.lines);
    lemma_take_once::<SpaceDirections>(s4.lines);
    assert(s5.lines == take_field::<SpaceDirections>(s4.lines)->Ok_0.rest);
    lemma_within_chain(s5.lines, s4.lines, s0.lines);
    lemma_within_itself(s5.lines);
    lemma_within_chain(s5.lines, s5.lines, s4.lines);
    lemma_within_chain(s5.lines, s4.lines, s3.lines);
    lemma_within_chain(s5.lines, s3.lines, s2.lines);
    lemma_within_chain(s5.lines, s2.lines, s1.lines);
    lemma_none_within::<Space>(s5.lines, s1.lines);
    lemma_none_within::<SpaceDimension>(s5.lines, s2.lines);
    lemma_none_within::<SpaceUnits>(s5.lines, s3.lines);
    lemma_none_within::<SpaceOrigin>(s5.lines, s4.lines);
    lemma_none_within::<SpaceDirections>(s5.lines, s5.lines);
}

/// Does no line hold a key-value pair?
pub open spec fn no_pair_left(l: Seq<Seq<char>>) -> bool {
    forall|i: int| 0 <= i < l.len() ==> !is_key_value(#[trigger] l[i])
}

pub proof fn lemma_no_pair_within(a: Seq<Seq<char>>, b: Seq<Seq<char>>)
    requires
        no_pair_left(b),
        within(a, b),
    ensures
        no_pair_left(a),
{
    assert forall|i: int| 0 <= i < a.len() implies !is_key_value(#[trigger] a[i]) by {
        assert(b.contains(a[i]));
        let j = choose|j: int| 0 <= j < b.len() && b[j] == a[i];
        assert(!is_key_value(b[j]));
    }
}

/// What an assembly leaves, where it is not refused and no field occurred
/// twice after the mandatory ones: no line that holds a known field, a
/// key-value pair, a comment or the data-file directive.
pub proof fn lemma_leftover_is_unknown(lines: Seq<Seq<char>>)
    requires
        scan_full(lines).error is None,
        no_field_twice(scan_minimal(lines).lines),
    ensures
        within(scan_full(lines).lines, scan_minimal(lines).lines),
        forall|i: int|
            0 <= i < scan_full(lines).lines.len() ==> !recognized(
                #[trigger] scan_full(lines).lines[i],
            ),
{
    let s0 = scan_minimal(lines);
    let s1 = scan_scalars(s0);
    let s2 = scan_axes(s1);
    let s3 = scan_space(s2);
    let s4 = s3.key_values();
    let s5 = s4.comments();
    let s6 = s5.data_file();
    assert(scan_full(lines) == s6);
    assert(s5.error is None);
    assert(s4.error is None);
    assert(s3.error is None);
    assert(s2.error is None) by {
        lemma_error_stays_space(s2);
    }
    assert(s1.error is None) by {
        lemma_error_stays_axes(s1);
    }
    assert(s0.error is None) by {
        lemma_error_stays_scalars(s0);
    }
    lemma_scalars_leftover(s0);
    lemma_twice_within(s1.lines, s0.lines);
    lemma_axes_leftover(s1);
    lemma_within_chain(s2.lines, s1.lines, s0.lines);
    lemma_twice_within(s2.lines, s0.lines);
    lemma_space_leftover(s2);
    lemma_within_chain(s3.lines, s2.lines, s0.lines);
    lemma_no_scalars_within(s2.lines, s1.lines);
    lemma_no_scalars_within(s3.lines, s2.lines);
    lemma_no_axes_within(s3.lines, s2.lines);
    let keep_pairs = |l: Seq<char>| !is_key_value(l);
    lemma_filter_lines(s3.lines, keep_pairs);
    assert(s4.lines == s3.lines.filter(keep_pairs));
    let keep_comments = |l: Seq<char>| !line_matches::<Comment>(l);
    lemma_filter_lines(s4.lines, keep_comments);
    assert(s5.lines == s4.lines.filter(keep_comments));
    lemma_within_chain(s4.lines, s3.lines, s0.lines);
    lemma_within_chain(s5.lines, s4.lines, s0.lines);
    lemma_alike_within::<DataFile>(s5.lines, s0.lines);
    lemma_take_data_file_once(s5.lines);
    assert(s6.lines == take_data_file(s5.lines)->Ok_0.rest);
    lemma_within_chain(s6.lines, s5.lines, s0.lines);
    lemma_within_chain(s6.lines, s5.lines, s4.lines);
    lemma_within_chain(s6.lines, s4.lines, s3.lines);
    lemma_no_scalars_within(s6.lines, s3.lines);
    lemma_no_axes_within(s6.lines, s3.lines);
    lemma_no_space_within(s6.lines, s3.lines);
    assert(no_pair_left(s4.lines));
    lemma_no_pair_within(s6.lines, s4.lines);
    assert(none_holds::<Comment>(s5.lines));
    lemma_none_within::<Comment>(s6.lines, s5.lines);
}

/// A text in which every line after the mandatory fields is recognized,
/// and no field occurs twice, leaves no line when it is assembled.
pub proof fn lemma_known_lines_are_consumed(lines: Seq<Seq<char>>)
    requires
        scan_full(lines).error is None,
        no_field_twice(scan_minimal(lines).lines),
        forall|i: int|
            0 <= i < scan_minimal(lines).lines.len() ==> recognized(
                #[trigger] scan_minimal(lines).lines[i],
            ),
    ensures
        scan_full(lines).lines.len() == 0,
{
    lemma_leftover_is_unknown(lines);
    let rest = scan_minimal(lines).lines;
    let left = scan_full(lines).lines;
    if left.len() > 0 {
        assert(rest.contains(left[0]));
        let j = choose|j: int| 0 <= j < rest.len() && rest[j] == left[0];
        assert(recognized(rest[j]));
        assert(!recognized(left[0]));
    }
}

/// An error that stands before this stage stands after it.
pub proof fn lemma_error_stays_scalars(s: Scan)
    ensures
        s.error is Some ==> scan_scalars(s).error is Some,
{
}

/// An error that stands before this stage stands after it.
pub proof fn lemma_error_stays_axes(s: Scan)
    ensures
        s.error is Some ==> scan_axes(s).error is Some,
{
}

/// An error that stands before this stage stands after it.
pub proof fn lemma_error_stays_space(s: Scan)
    ensures
        s.error is Some ==> scan_space(s).error is Some,
{
}

} // verus!
