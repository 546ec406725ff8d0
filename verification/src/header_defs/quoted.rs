//! Fields whose value is a list of quoted texts, one for each axis.
use vstd::prelude::*;
use crate::header_defs::{Field, HeaderDef};
use crate::text::{chars_of, join, joined, string_of, trim, trimmed, views};

verus! {

/// The state of a scan for quoted texts: the texts that are complete, and
/// what has been read since a quote that is still open.
pub struct QuoteScan {
    pub items: Seq<Seq<char>>,
    pub open: Option<Seq<char>>,
}

/// The scan of `s` from left to right. A quote opens a text; the next quote
/// closes it where something stands between the two, and otherwise opens
/// a text itself.
pub open spec fn scan_quoted(s: Seq<char>) -> QuoteScan
    decreases s.len(),
{
    if s.len() == 0 {
        QuoteScan { items: Seq::empty(), open: None }
    } else {
        let before = scan_quoted(s.drop_last());
        let c = s.last();
        if c == '"' {
            match before.open {
                Some(run) => if run.len() > 0 {
                    QuoteScan { items: before.items.push(run), open: None }
                } else {
                    QuoteScan { items: before.items, open: Some(Seq::empty()) }
                },
                None => QuoteScan { items: before.items, open: Some(Seq::empty()) },
            }
        } else {
            match before.open {
                Some(run) => QuoteScan { items: before.items, open: Some(run.push(c)) },
                None => before,
            }
        }
    }
}

/// The quoted texts of `s`, in order; what stands outside quotes is passed over.
pub open spec fn quoted(s: Seq<char>) -> Seq<Seq<char>> {
    scan_quoted(s).items
}

/// The items, each between quotes, with one space between neighbours.
pub open spec fn quoted_text(v: Seq<Seq<char>>) -> Seq<char> {
    join(v.map_values(|t: Seq<char>| seq!['"'] + t + seq!['"']), " "@)
}

/// Collects the quoted texts of `v`.
pub fn parse_quoted(v: &Vec<char>) -> (r: Vec<String>)
    ensures
        views(r@) == quoted(v@),
{
    let mut items: Vec<String> = Vec::new();
    let mut run: Vec<char> = Vec::new();
    let mut open: bool = false;
    let mut i: usize = 0;
    assert(v@.take(0) =~= Seq::<char>::empty());
    assert(views(items@) =~= Seq::<Seq<char>>::empty());
    while i < v.len()
        invariant
            0 <= i <= v.len(),
            scan_quoted(v@.take(i as int)).items == views(items@),
            scan_quoted(v@.take(i as int)).open == if open {
                Some(run@)
            } else {
                None::<Seq<char>>
            },
            !open ==> run@.len() == 0,
        decreases v.len() - i,
    {
        let c = v[i];
        proof {
            let s = v@.take(i + 1);
            assert(s.drop_last() =~= v@.take(i as int));
            assert(s.last() == c);
        }
        if c == '"' {
            if open && run.len() > 0 {
                let item = string_of(&run);
                proof {
                    crate::text::lemma_views_push(items@, item);
                }
                items.push(item);
                run = Vec::new();
                open = false;
            } else {
                open = true;
                assert(run@ =~= Seq::<char>::empty());
            }
        } else if open {
            run.push(c);
        }
        i += 1;
    }
    assert(v@.take(v.len() as int) =~= v@);
    items
}

/// Writes the items between quotes.
pub fn format_quoted(items: &Vec<String>) -> (r: Vec<char>)
    ensures
        r@ == quoted_text(views(items@)),
{
    let mut words: Vec<Vec<char>> = Vec::new();
    let mut i: usize = 0;
    while i < items.len()
        invariant
            0 <= i <= items.len(),
            words.len() == i,
            forall|j: int|
                0 <= j < i ==> (#[trigger] words@[j])@ == seq!['"'] + items@[j]@ + seq!['"'],
        decreases items.len() - i,
    {
        let mut w: Vec<char> = Vec::new();
        w.push('"');
        crate::text::push_str(&mut w, items[i].as_str());
        w.push('"');
        assert(w@ =~= seq!['"'] + items@[i as int]@ + seq!['"']);
        words.push(w);
        i += 1;
    }
    assert(views(words@) =~= views(items@).map_values(
        |t: Seq<char>| seq!['"'] + t + seq!['"'],
    ));
    joined(&words, " ")
}

/// A label for each axis.
#[derive(Debug, Clone)]
pub struct Labels {
    labels: Vec<String>,
}

impl View for Labels {
    type V = Seq<Seq<char>>;

    closed spec fn view(&self) -> Seq<Seq<char>> {
        views(self.labels@)
    }
}

impl Labels {
    pub fn from_vec(labels: Vec<String>) -> (r: Labels)
        ensures
            r@ == views(labels@),
    {
        Labels { labels }
    }

    pub fn labels(&self) -> (v: &Vec<String>)
        ensures
            views(v@) == self@,
    {
        &self.labels
    }
}

impl HeaderDef for Labels {
    open spec fn prefixes() -> Seq<Seq<char>> {
        seq!["labels: "@]
    }

    open spec fn field() -> Field {
        Field::Labels
    }

    /// The quoted texts of the trimmed remainder.
    open spec fn value_of(rest: Seq<char>) -> Option<Seq<Seq<char>>> {
        Some(quoted(trim(rest)))
    }

    open spec fn text_of(v: Seq<Seq<char>>) -> Seq<char> {
        quoted_text(v)
    }

    fn patterns() -> (r: Vec<&'static str>) {
        let r = vec!["labels: "];
        assert(views(r@) =~= Self::prefixes());
        r
    }

    fn tag() -> Field {
        Field::Labels
    }

    fn parse_value(rest: &Vec<char>) -> Option<Self> {
        Some(Labels { labels: parse_quoted(&trimmed(rest)) })
    }

    fn value_text(&self) -> Vec<char> {
        format_quoted(&self.labels)
    }
}

/// The unit of measure along each axis.
#[derive(Debug, Clone)]
pub struct Units {
    units: Vec<String>,
}

impl View for Units {
    type V = Seq<Seq<char>>;

    closed spec fn view(&self) -> Seq<Seq<char>> {
        views(self.units@)
    }
}

impl Units {
    pub fn from_vec(units: Vec<String>) -> (r: Units)
        ensures
            r@ == views(units@),
    {
        Units { units }
    }

    pub fn units(&self) -> (v: &Vec<String>)
        ensures
            views(v@) == self@,
    {
        &self.units
    }
}

impl HeaderDef for Units {
    open spec fn prefixes() -> Seq<Seq<char>> {
        seq!["units: "@]
    }

    open spec fn field() -> Field {
        Field::Units
    }

    /// The quoted texts of the trimmed remainder.
    open spec fn value_of(rest: Seq<char>) -> Option<Seq<Seq<char>>> {
        Some(quoted(trim(rest)))
    }

    open spec fn text_of(v: Seq<Seq<char>>) -> Seq<char> {
        quoted_text(v)
    }

    fn patterns() -> (r: Vec<&'static str>) {
        let r = vec!["units: "];
        assert(views(r@) =~= Self::prefixes());
        r
    }

    fn tag() -> Field {
        Field::Units
    }

    fn parse_value(rest: &Vec<char>) -> Option<Self> {
        Some(Units { units: parse_quoted(&trimmed(rest)) })
    }

    fn value_text(&self) -> Vec<char> {
        format_quoted(&self.units)
    }
}

/// The unit of measure along each axis of the space.
#[derive(Debug, Clone)]
pub struct SpaceUnits {
    units: Vec<String>,
}

impl View for SpaceUnits {
    type V = Seq<Seq<char>>;

    closed spec fn view(&self) -> Seq<Seq<char>> {
        views(self.units@)
    }
}

impl SpaceUnits {
    pub fn from_vec(units: Vec<String>) -> (r: SpaceUnits)
        ensures
            r@ == views(units@),
    {
        SpaceUnits { units }
    }

    pub fn units(&self) -> (v: &Vec<String>)
        ensures
            views(v@) == self@,
    {
        &self.units
    }

    /// Millimetres for each of `n` axes.
    pub fn new_mm(n: usize) -> (r: SpaceUnits)
        ensures
            r@ == Seq::new(n as nat, |i: int| "mm"@),
    {
        let mut units: Vec<String> = Vec::new();
        let mut i: usize = 0;
        while i < n
            invariant
                0 <= i <= n,
                units.len() == i,
                forall|j: int| 0 <= j < i ==> (#[trigger] units@[j])@ == "mm"@,
            decreases n - i,
        {
            units.push(string_of(&chars_of("mm")));
            i += 1;
        }
        let r = SpaceUnits { units };
        assert(r@ =~= Seq::new(n as nat, |i: int| "mm"@));
        r
    }
}

impl HeaderDef for SpaceUnits {
    open spec fn prefixes() -> Seq<Seq<char>> {
        seq!["space units: "@]
    }

    open spec fn field() -> Field {
        Field::SpaceUnits
    }

    /// The quoted texts of the trimmed remainder.
    open spec fn value_of(rest: Seq<char>) -> Option<Seq<Seq<char>>> {
        Some(quoted(trim(rest)))
    }

    open spec fn text_of(v: Seq<Seq<char>>) -> Seq<char> {
        quoted_text(v)
    }

    fn patterns() -> (r: Vec<&'static str>) {
        let r = vec!["space units: "];
        assert(views(r@) =~= Self::prefixes());
        r
    }

    fn tag() -> Field {
        Field::SpaceUnits
    }

    fn parse_value(rest: &Vec<char>) -> Option<Self> {
        Some(SpaceUnits { units: parse_quoted(&trimmed(rest)) })
    }

    fn value_text(&self) -> Vec<char> {
        format_quoted(&self.units)
    }
}

} // verus!
