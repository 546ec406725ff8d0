//! The free key-value pairs of a header, kept in the order of their keys.
use vstd::prelude::*;
use crate::header_defs::Value;
use crate::text::{chars_of, same_text};

verus! {

/// Does `a` come before `b` in the order of strings: character by
/// character, a prefix before its extensions?
pub open spec fn text_lt(a: Seq<char>, b: Seq<char>) -> bool
    decreases a.len(),
{
    if b.len() == 0 {
        false
    } else if a.len() == 0 {
        true
    } else if a[0] != b[0] {
        a[0] < b[0]
    } else {
        text_lt(a.drop_first(), b.drop_first())
    }
}

/// Of two different texts, one comes before the other.
pub proof fn lemma_text_lt_total(a: Seq<char>, b: Seq<char>)
    ensures
        text_lt(a, b) || text_lt(b, a) || a == b,
        !(text_lt(a, b) && text_lt(b, a)),
    decreases a.len(),
{
    if b.len() == 0 {
        if a.len() == 0 {
            assert(a =~= b);
        }
    } else if a.len() == 0 {
    } else if a[0] != b[0] {
    } else {
        lemma_text_lt_total(a.drop_first(), b.drop_first());
        if a.drop_first() == b.drop_first() {
            assert(a =~= seq![a[0]] + a.drop_first());
            assert(b =~= seq![b[0]] + b.drop_first());
        }
    }
}

/// The order of strings is transitive.
pub proof fn lemma_text_lt_transitive(a: Seq<char>, b: Seq<char>, c: Seq<char>)
    requires
        text_lt(a, b),
        text_lt(b, c),
    ensures
        text_lt(a, c),
    decreases a.len(),
{
    if a.len() > 0 && b.len() > 0 && c.len() > 0 && a[0] == b[0] && b[0] == c[0] {
        lemma_text_lt_transitive(a.drop_first(), b.drop_first(), c.drop_first());
    }
}

/// Compares two texts.
pub fn text_less(a: &Vec<char>, b: &Vec<char>) -> (r: bool)
    ensures
        r == text_lt(a@, b@),
{
    let mut i: usize = 0;
    assert(a@.skip(0) =~= a@);
    assert(b@.skip(0) =~= b@);
    loop
        invariant
            0 <= i <= a.len(),
            i <= b.len(),
            text_lt(a@, b@) == text_lt(a@.skip(i as int), b@.skip(i as int)),
        decreases a.len() - i,
    {
        if i >= b.len() {
            return false;
        }
        if i >= a.len() {
            return true;
        }
        assert(a@.skip(i as int)[0] == a@[i as int]);
        assert(b@.skip(i as int)[0] == b@[i as int]);
        if a[i] != b[i] {
            return a[i] < b[i];
        }
        assert(a@.skip(i as int).drop_first() =~= a@.skip(i + 1));
        assert(b@.skip(i as int).drop_first() =~= b@.skip(i + 1));
        i += 1;
    }
}

/// A key with its value.
pub type Pair = (Seq<char>, Seq<char>);

/// Are the keys in strictly ascending order?
pub open spec fn keys_ascend(e: Seq<Pair>) -> bool {
    forall|i: int, j: int| 0 <= i < j < e.len() ==> text_lt(#[trigger] e[i].0, #[trigger] e[j].0)
}

/// The pairs with `value` under `key`: in place of the value that `key`
/// had, or at the place that the order of the keys gives it.
pub open spec fn put(e: Seq<Pair>, key: Seq<char>, value: Seq<char>) -> Seq<Pair>
    decreases e.len(),
{
    if e.len() == 0 {
        seq![(key, value)]
    } else if text_lt(key, e.last().0) {
        put(e.drop_last(), key, value).push(e.last())
    } else if e.last().0 == key {
        e.drop_last().push((key, value))
    } else {
        e.push((key, value))
    }
}

/// Every key after `put` is `key` or was there before.
pub proof fn lemma_put_keys(e: Seq<Pair>, key: Seq<char>, value: Seq<char>)
    ensures
        forall|i: int|
            0 <= i < put(e, key, value).len() ==> {
                ||| (#[trigger] put(e, key, value)[i]).0 == key
                ||| exists|j: int| 0 <= j < e.len() && e[j] == put(e, key, value)[i]
            },
    decreases e.len(),
{
    let r = put(e, key, value);
    if e.len() == 0 {
    } else if text_lt(key, e.last().0) {
        let init = e.drop_last();
        lemma_put_keys(init, key, value);
        assert forall|i: int| 0 <= i < r.len() implies {
            ||| (#[trigger] r[i]).0 == key
            ||| exists|j: int| 0 <= j < e.len() && e[j] == r[i]
        } by {
            if i < r.len() - 1 {
                let p = put(init, key, value);
                assert(r[i] == p[i]);
                if p[i].0 != key {
                    let j = choose|j: int| 0 <= j < init.len() && init[j] == p[i];
                    assert(e[j] == r[i]);
                }
            } else {
                assert(e[e.len() - 1] == r[i]);
            }
        }
    } else if e.last().0 == key {
        assert forall|i: int| 0 <= i < r.len() implies {
            ||| (#[trigger] r[i]).0 == key
            ||| exists|j: int| 0 <= j < e.len() && e[j] == r[i]
        } by {
            if i < r.len() - 1 {
                assert(e[i] == r[i]);
            }
        }
    } else {
        assert forall|i: int| 0 <= i < r.len() implies {
            ||| (#[trigger] r[i]).0 == key
            ||| exists|j: int| 0 <= j < e.len() && e[j] == r[i]
        } by {
            if i < r.len() - 1 {
                assert(e[i] == r[i]);
            }
        }
    }
}

/// `put` keeps the keys in ascending order.
pub proof fn lemma_put_ascends(e: Seq<Pair>, key: Seq<char>, value: Seq<char>)
    requires
        keys_ascend(e),
    ensures
        keys_ascend(put(e, key, value)),
    decreases e.len(),
{
    let r = put(e, key, value);
    if e.len() == 0 {
    } else if text_lt(key, e.last().0) {
        let init = e.drop_last();
        let p = put(init, key, value);
        assert(keys_ascend(init)) by {
            assert forall|i: int, j: int| 0 <= i < j < init.len() implies text_lt(
                #[trigger] init[i].0,
                #[trigger] init[j].0,
            ) by {
                assert(init[i] == e[i]);
                assert(init[j] == e[j]);
            }
        }
        lemma_put_ascends(init, key, value);
        lemma_put_keys(init, key, value);
        assert forall|i: int, j: int| 0 <= i < j < r.len() implies text_lt(
            #[trigger] r[i].0,
            #[trigger] r[j].0,
        ) by {
            assert(r[i] == p[i]);
            if j < r.len() - 1 {
                assert(r[j] == p[j]);
            } else {
                assert(r[j] == e.last());
                if p[i].0 != key {
                    let k = choose|k: int| 0 <= k < init.len() && init[k] == p[i];
                    assert(init[k] == e[k]);
                    assert(text_lt(e[k].0, e[e.len() - 1].0));
                }
            }
        }
    } else if e.last().0 == key {
        assert forall|i: int, j: int| 0 <= i < j < r.len() implies text_lt(
            #[trigger] r[i].0,
            #[trigger] r[j].0,
        ) by {
            assert(r[i] == e[i]);
            assert(r[j].0 == e[j].0);
        }
    } else {
        lemma_text_lt_total(key, e.last().0);
        assert forall|i: int, j: int| 0 <= i < j < r.len() implies text_lt(
            #[trigger] r[i].0,
            #[trigger] r[j].0,
        ) by {
            assert(r[i] == e[i]);
            if j < r.len() - 1 {
                assert(r[j] == e[j]);
            } else {
                if i < e.len() - 1 {
                    assert(text_lt(e[i].0, e[e.len() - 1].0));
                    lemma_text_lt_transitive(e[i].0, e.last().0, key);
                }
            }
        }
    }
}

/// One key-value pair.
#[derive(Debug, Clone)]
pub struct Entry {
    pub key: String,
    pub value: Value,
}

/// The model of an entry.
pub open spec fn pair_of(e: Entry) -> Pair {
    (e.key@, e.value@)
}

/// The key-value pairs of a header: no key twice, the keys in ascending order.
#[derive(Debug, Clone)]
pub struct KeyValues {
    entries: Vec<Entry>,
}

impl View for KeyValues {
    type V = Seq<Pair>;

    closed spec fn view(&self) -> Seq<Pair> {
        self.entries@.map_values(|e: Entry| pair_of(e))
    }
}

impl KeyValues {
    /// Do the keys ascend?
    pub open spec fn wf(&self) -> bool {
        keys_ascend(self@)
    }

    /// No pairs.
    pub fn new() -> (r: KeyValues)
        ensures
            r@ == Seq::<Pair>::empty(),
            r.wf(),
    {
        let r = KeyValues { entries: Vec::new() };
        assert(r@ =~= Seq::<Pair>::empty());
        r
    }

    /// The number of pairs.
    pub fn len(&self) -> (n: usize)
        ensures
            n == self@.len(),
    {
        self.entries.len()
    }

    /// The pairs, by ascending key.
    pub fn entries(&self) -> (r: &Vec<Entry>)
        ensures
            r@.map_values(|e: Entry| pair_of(e)) == self@,
    {
        &self.entries
    }

    /// Puts `value` under `key`, in place of a value that `key` had.
    pub fn insert(&mut self, key: String, value: Value)
        ensures
            final(self)@ == put(old(self)@, key@, value@),
            old(self).wf() ==> final(self).wf(),
    {
        let ghost e = self@;
        let k = chars_of(key.as_str());
        let mut i: usize = self.entries.len();
        assert(e.take(i as int) =~= e);
        assert(e.skip(i as int) =~= Seq::<Pair>::empty());
        assert(put(e, key@, value@) =~= put(e.take(i as int), key@, value@) + e.skip(i as int));
        while i > 0 && text_less(&k, &chars_of(self.entries[i - 1].key.as_str()))
            invariant
                0 <= i <= self.entries.len(),
                e == self@,
                k@ == key@,
                put(e, key@, value@) == put(e.take(i as int), key@, value@) + e.skip(i as int),
            decreases i,
        {
            proof {
                let t = e.take(i as int);
                assert(t.last() == e[i - 1]);
                assert(t.drop_last() =~= e.take(i - 1));
                assert(put(t, key@, value@) == put(e.take(i - 1), key@, value@).push(e[i - 1]));
                assert(e.skip(i - 1) =~= seq![e[i - 1]] + e.skip(i as int));
                assert(put(e.take(i - 1), key@, value@).push(e[i - 1]) + e.skip(i as int) =~= put(
                    e.take(i - 1),
                    key@,
                    value@,
                ) + e.skip(i - 1));
            }
            i -= 1;
        }
        proof {
            if keys_ascend(e) {
                lemma_put_ascends(e, key@, value@);
            }
            if i > 0 {
                let t = e.take(i as int);
                assert(t.last() == e[i - 1]);
                assert(t.drop_last() =~= e.take(i - 1));
            } else {
                assert(e.take(0) =~= Seq::<Pair>::empty());
            }
        }
        if i > 0 && same_text(&k, &chars_of(self.entries[i - 1].key.as_str())) {
            self.entries.set(i - 1, Entry { key, value });
            assert(self@ =~= e.take(i - 1).push((key@, value@)) + e.skip(i as int));
        } else {
            self.entries.insert(i, Entry { key, value });
            assert(self@ =~= e.take(i as int).push((key@, value@)) + e.skip(i as int));
        }
    }
}

} // verus!
