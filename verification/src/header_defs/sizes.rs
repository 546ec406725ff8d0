//! The extent of the raster along each axis.
use vstd::prelude::*;
use crate::decimal::{nat_text, parse_unsigned, unsigned_of};
use crate::header_defs::basic::count_text;
use crate::header_defs::{Field, HeaderDef};
use crate::text::{collect, join, joined, split_blank, tokens, trim, trimmed, views};

verus! {

/// The size that a word spells: a positive integer of the machine's word.
pub open spec fn size_of_word(t: Seq<char>) -> Option<nat> {
    match unsigned_of(t) {
        Some(n) => if 0 < n <= usize::MAX {
            Some(n)
        } else {
            None
        },
        None => None,
    }
}

/// The product of the numbers (1 for none).
pub open spec fn product(v: Seq<nat>) -> nat
    decreases v.len(),
{
    if v.len() == 0 {
        1
    } else {
        product(v.drop_last()) * v.last()
    }
}

/// Are all the numbers positive?
pub open spec fn all_positive(v: Seq<nat>) -> bool {
    forall|i: int| 0 <= i < v.len() ==> #[trigger] v[i] > 0
}

/// A product of positive numbers is positive and at least the product of
/// any of its prefixes.
pub proof fn lemma_product_prefix(v: Seq<nat>, k: int)
    requires
        all_positive(v),
        0 <= k <= v.len(),
    ensures
        0 < product(v.take(k)) <= product(v),
    decreases v.len(),
{
    if k == v.len() {
        assert(v.take(k) =~= v);
        if v.len() > 0 {
            assert(v.drop_last() =~= v.take(k - 1));
            assert(all_positive(v.drop_last()));
            lemma_product_prefix(v.drop_last(), k - 1);
            assert(v.drop_last().take(k - 1) =~= v.drop_last());
            let p = product(v.drop_last());
            let x = v.last();
            assert(v[v.len() - 1] > 0);
            assert(0 < p * x) by (nonlinear_arith)
                requires
                    0 < p,
                    0 < x,
            ;
        }
    } else {
        assert(v.drop_last().take(k) =~= v.take(k));
        assert(all_positive(v.drop_last()));
        lemma_product_prefix(v.drop_last(), k);
        let p = product(v.drop_last());
        let x = v.last();
        assert(v[v.len() - 1] > 0);
        assert(p <= p * x) by (nonlinear_arith)
            requires
                0 < p,
                0 < x,
        ;
    }
}

/// A product with a zero among its factors is zero.
pub proof fn lemma_product_zero(v: Seq<nat>, k: int)
    requires
        0 <= k < v.len(),
        v[k] == 0,
    ensures
        product(v) == 0,
    decreases v.len(),
{
    if k == v.len() - 1 {
        assert(product(v.drop_last()) * 0 == 0) by (nonlinear_arith);
    } else {
        assert(v.drop_last()[k] == v[k]);
        lemma_product_zero(v.drop_last(), k);
        assert(0 * v.last() == 0) by (nonlinear_arith);
    }
}

/// The number of samples along each axis.
#[derive(Debug, Clone, PartialEq, Eq)]
pub struct Sizes {
    sizes: Vec<usize>,
}

impl View for Sizes {
    type V = Seq<nat>;

    closed spec fn view(&self) -> Seq<nat> {
        self.sizes@.map_values(|n: usize| n as nat)
    }
}

impl Sizes {
    pub fn new(dims: &[usize]) -> (s: Sizes)
        ensures
            s@ == dims@.map_values(|n: usize| n as nat),
    {
        let mut sizes: Vec<usize> = Vec::new();
        let mut i: usize = 0;
        while i < dims.len()
            invariant
                0 <= i <= dims.len(),
                sizes@ == dims@.take(i as int),
            decreases dims.len() - i,
        {
            sizes.push(dims[i]);
            assert(dims@.take(i + 1) =~= dims@.take(i as int).push(dims@[i as int]));
            i += 1;
        }
        assert(dims@.take(dims.len() as int) =~= dims@);
        Sizes { sizes }
    }

    /// The sizes, axis by axis.
    pub fn shape(&self) -> (v: &Vec<usize>)
        ensures
            v@.map_values(|n: usize| n as nat) == self@,
    {
        &self.sizes
    }

    /// The number of axes that have a size.
    pub fn len(&self) -> (n: usize)
        ensures
            n == self@.len(),
    {
        self.sizes.len()
    }

    /// The number of elements of the raster, where it fits the machine's word.
    pub fn checked_n_elements(&self) -> (r: Option<usize>)
        ensures
            r == if product(self@) <= usize::MAX {
                Some(product(self@) as usize)
            } else {
                None::<usize>
            },
    {
        let ghost v = self@;
        let n: usize = self.sizes.len();
        let mut z: usize = 0;
        while z < n
            invariant
                0 <= z <= n == self.sizes.len(),
                v == self@,
                forall|j: int| 0 <= j < z ==> #[trigger] v[j] > 0,
            decreases n - z,
        {
            if self.sizes[z] == 0 {
                proof {
                    lemma_product_zero(v, z as int);
                }
                return Some(0);
            }
            z += 1;
        }
        assert(all_positive(v));
        let mut acc: usize = 1;
        let mut i: usize = 0;
        assert(v.take(0) =~= Seq::<nat>::empty());
        while i < n
            invariant
                0 <= i <= n == self.sizes.len(),
                v == self@,
                all_positive(v),
                acc == product(v.take(i as int)),
            decreases n - i,
        {
            let s: usize = self.sizes[i];
            proof {
                assert(v.take(i + 1).drop_last() =~= v.take(i as int));
                assert(v.take(i + 1).last() == s);
                lemma_product_prefix(v, i + 1);
            }
            if acc > usize::MAX / s {
                assert(acc * s > usize::MAX) by (nonlinear_arith)
                    requires
                        acc > (usize::MAX as int) / (s as int),
                        s > 0,
                ;
                return None;
            }
            assert(acc * s <= usize::MAX) by (nonlinear_arith)
                requires
                    acc <= (usize::MAX as int) / (s as int),
                    s > 0,
            ;
            acc = acc * s;
            i += 1;
        }
        assert(v.take(n as int) =~= v);
        Some(acc)
    }

    /// The number of elements of the raster.
    pub fn n_elements(&self) -> (n: usize)
        requires
            product(self@) <= usize::MAX,
        ensures
            n == product(self@),
    {
        match self.checked_n_elements() {
            Some(n) => n,
            None => 0,
        }
    }
}

impl HeaderDef for Sizes {
    open spec fn prefixes() -> Seq<Seq<char>> {
        seq!["sizes: "@]
    }

    open spec fn field() -> Field {
        Field::Sizes
    }

    /// One positive size for each blank-separated word; no value where a
    /// word spells none.
    open spec fn value_of(rest: Seq<char>) -> Option<Seq<nat>> {
        collect(tokens(trim(rest)).map_values(|t: Seq<char>| size_of_word(t)))
    }

    open spec fn text_of(v: Seq<nat>) -> Seq<char> {
        join(v.map_values(|n: nat| nat_text(n)), " "@)
    }

    fn patterns() -> (r: Vec<&'static str>) {
        let r = vec!["sizes: "];
        assert(views(r@) =~= Self::prefixes());
        r
    }

    fn tag() -> Field {
        Field::Sizes
    }

    fn parse_value(rest: &Vec<char>) -> Option<Self> {
        let toks = split_blank(&trimmed(rest));
        let ghost sized = tokens(trim(rest@)).map_values(|t: Seq<char>| size_of_word(t));
        let mut sizes: Vec<usize> = Vec::new();
        let mut i: usize = 0;
        while i < toks.len()
            invariant
                0 <= i <= toks.len(),
                views(toks@) == tokens(trim(rest@)),
                sized == tokens(trim(rest@)).map_values(|t: Seq<char>| size_of_word(t)),
                sizes.len() == i,
                forall|j: int| 0 <= j < i ==> (#[trigger] sized[j]) == Some(sizes@[j] as nat),
            decreases toks.len() - i,
        {
            assert(views(toks@)[i as int] == toks@[i as int]@);
            match parse_unsigned(&toks[i], usize::MAX as u64) {
                Some(n) => {
                    if n == 0 {
                        assert(sized[i as int] is None);
                        return None;
                    }
                    sizes.push(n as usize);
                },
                None => {
                    assert(sized[i as int] is None);
                    return None;
                },
            }
            i += 1;
        }
        assert(sized.len() == toks.len());
        let s = Sizes { sizes };
        assert(s@ =~= sized.map_values(|o: Option<nat>| o->0));
        Some(s)
    }

    fn value_text(&self) -> Vec<char> {
        let mut words: Vec<Vec<char>> = Vec::new();
        let mut i: usize = 0;
        while i < self.sizes.len()
            invariant
                0 <= i <= self.sizes.len(),
                words.len() == i,
                forall|j: int| 0 <= j < i ==> (#[trigger] words@[j])@ == nat_text(self.sizes@[j] as nat),
            decreases self.sizes.len() - i,
        {
            words.push(count_text(self.sizes[i]));
            i += 1;
        }
        assert(views(words@) =~= self@.map_values(|n: nat| nat_text(n)));
        joined(&words, " ")
    }
}

} // verus!
