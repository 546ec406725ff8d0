//! Fields whose values are coordinate vectors: real numbers between round
//! brackets, with commas between them.
use vstd::prelude::*;
use crate::header_defs::reals::{real_word, Real, RealRule};
use crate::header_defs::{Field, HeaderDef};
use crate::text::{
    chars_of, collect, join, joined, push_all, slice_of, split_blank, text_is, tokens, trim,
    trimmed, views,
};

verus! {

/// The pieces that `sep` parts `s` into (one more than `s` holds `sep`).
pub open spec fn pieces(s: Seq<char>, sep: char) -> Seq<Seq<char>>
    decreases s.len(),
{
    if s.len() == 0 {
        seq![Seq::empty()]
    } else {
        let p = pieces(s.drop_last(), sep);
        if s.last() == sep {
            p.push(Seq::empty())
        } else {
            p.drop_last().push(p.last().push(s.last()))
        }
    }
}

/// Parts `v` at every `sep`.
pub fn split_on(v: &Vec<char>, sep: char) -> (r: Vec<Vec<char>>)
    ensures
        views(r@) == pieces(v@, sep),
{
    let mut done: Vec<Vec<char>> = Vec::new();
    let mut cur: Vec<char> = Vec::new();
    let mut i: usize = 0;
    assert(v@.take(0) =~= Seq::<char>::empty());
    assert(views(done@).push(cur@) =~= seq![Seq::<char>::empty()]);
    while i < v.len()
        invariant
            0 <= i <= v.len(),
            pieces(v@.take(i as int), sep) == views(done@).push(cur@),
        decreases v.len() - i,
    {
        let c = v[i];
        proof {
            let s = v@.take(i + 1);
            assert(s.drop_last() =~= v@.take(i as int));
            assert(s.last() == c);
            let p = views(done@).push(cur@);
            assert(p.drop_last() =~= views(done@));
            assert(p.last() == cur@);
        }
        if c == sep {
            proof {
                crate::text::lemma_views_push(done@, cur);
            }
            done.push(cur);
            cur = Vec::new();
            assert(cur@ =~= Seq::<char>::empty());
        } else {
            cur.push(c);
        }
        i += 1;
    }
    assert(v@.take(v.len() as int) =~= v@);
    proof {
        crate::text::lemma_views_push(done@, cur);
    }
    done.push(cur);
    done
}

/// The entries of a vector literal: the trimmed text stands between round
/// brackets, and every piece between its commas is the literal of a real number.
pub open spec fn vector_of(s: Seq<char>) -> Option<Seq<Seq<char>>> {
    let t = trim(s);
    if t.len() >= 2 && t[0] == '(' && t.last() == ')' {
        let inner = t.subrange(1, t.len() - 1);
        if inner.len() == 0 {
            None
        } else {
            collect(pieces(inner, ',').map_values(|p: Seq<char>| real_word(RealRule::Any, p)))
        }
    } else {
        None
    }
}

/// The literal of a vector.
pub open spec fn vector_text(v: Seq<Seq<char>>) -> Seq<char> {
    seq!['('] + join(v, ","@) + seq![')']
}

/// A coordinate vector.
#[derive(Debug, Clone)]
pub struct NrrdVec {
    v: Vec<Real>,
}

impl View for NrrdVec {
    type V = Seq<Seq<char>>;

    closed spec fn view(&self) -> Seq<Seq<char>> {
        views(self.v@)
    }
}

impl NrrdVec {
    pub fn from_reals(v: Vec<Real>) -> (r: NrrdVec)
        ensures
            r@ == views(v@),
    {
        NrrdVec { v }
    }

    pub fn entries(&self) -> (r: &Vec<Real>)
        ensures
            views(r@) == self@,
    {
        &self.v
    }

    /// Reads a vector literal.
    pub fn parse(s: &Vec<char>) -> (r: Option<NrrdVec>)
        ensures
            match r {
                Some(v) => vector_of(s@) == Some(v@),
                None => vector_of(s@) is None,
            },
    {
        let t = trimmed(s);
        let n: usize = t.len();
        if !(n >= 2 && t[0] == '(' && t[n - 1] == ')') {
            return None;
        }
        let inner = slice_of(&t, 1, n - 1);
        if inner.len() == 0 {
            return None;
        }
        let parts = split_on(&inner, ',');
        let ghost words = pieces(inner@, ',').map_values(
            |p: Seq<char>| real_word(RealRule::Any, p),
        );
        let mut v: Vec<Real> = Vec::new();
        let mut i: usize = 0;
        while i < parts.len()
            invariant
                0 <= i <= parts.len(),
                views(parts@) == pieces(inner@, ','),
                words == pieces(inner@, ',').map_values(
                    |p: Seq<char>| real_word(RealRule::Any, p),
                ),
                t@ == trim(s@),
                t@.len() >= 2 && t@[0] == '(' && t@.last() == ')',
                inner@ == t@.subrange(1, t@.len() - 1),
                inner@.len() > 0,
                v.len() == i,
                forall|j: int| 0 <= j < i ==> (#[trigger] words[j]) == Some(v@[j]@),
            decreases parts.len() - i,
        {
            assert(views(parts@)[i as int] == parts@[i as int]@);
            match Real::parse(&parts[i]) {
                Some(x) => v.push(x),
                None => {
                    assert(words[i as int] is None);
                    return None;
                },
            }
            i += 1;
        }
        assert(words.len() == parts.len());
        assert(views(v@) =~= words.map_values(|o: Option<Seq<char>>| o->0));
        Some(NrrdVec { v })
    }

    /// Reads a vector literal.
    pub fn from_str(s: &str) -> (r: Option<NrrdVec>)
        ensures
            match r {
                Some(v) => vector_of(s@) == Some(v@),
                None => vector_of(s@) is None,
            },
    {
        NrrdVec::parse(&chars_of(s))
    }

    /// The literal of the vector, as characters.
    pub fn text(&self) -> (r: Vec<char>)
        ensures
            r@ == vector_text(self@),
    {
        let mut words: Vec<Vec<char>> = Vec::new();
        let mut i: usize = 0;
        while i < self.v.len()
            invariant
                0 <= i <= self.v.len(),
                words.len() == i,
                forall|j: int| 0 <= j < i ==> (#[trigger] words@[j])@ == self.v@[j]@,
            decreases self.v.len() - i,
        {
            words.push(chars_of(self.v[i].text().as_str()));
            i += 1;
        }
        assert(views(words@) =~= views(self.v@));
        let mut out: Vec<char> = Vec::new();
        out.push('(');
        let body = joined(&words, ",");
        push_all(&mut out, &body);
        out.push(')');
        assert(out@ =~= vector_text(self@));
        out
    }

    /// The literal of the vector.
    pub fn to_string(&self) -> (r: String)
        ensures
            r@ == vector_text(self@),
    {
        crate::text::string_of(&self.text())
    }
}

/// Where the first sample lies in the space.
#[derive(Debug, Clone)]
pub struct SpaceOrigin {
    origin: NrrdVec,
}

impl View for SpaceOrigin {
    type V = Seq<Seq<char>>;

    closed spec fn view(&self) -> Seq<Seq<char>> {
        self.origin@
    }
}

impl SpaceOrigin {
    pub fn new(origin: NrrdVec) -> (r: SpaceOrigin)
        ensures
            r@ == origin@,
    {
        SpaceOrigin { origin }
    }

    pub fn origin(&self) -> (r: &NrrdVec)
        ensures
            r@ == self@,
    {
        &self.origin
    }
}

impl HeaderDef for SpaceOrigin {
    open spec fn prefixes() -> Seq<Seq<char>> {
        seq!["space origin: "@]
    }

    open spec fn field() -> Field {
        Field::SpaceOrigin
    }

    /// One vector literal.
    open spec fn value_of(rest: Seq<char>) -> Option<Seq<Seq<char>>> {
        vector_of(rest)
    }

    open spec fn text_of(v: Seq<Seq<char>>) -> Seq<char> {
        vector_text(v)
    }

    fn patterns() -> (r: Vec<&'static str>) {
        let r = vec!["space origin: "];
        assert(views(r@) =~= Self::prefixes());
        r
    }

    fn tag() -> Field {
        Field::SpaceOrigin
    }

    fn parse_value(rest: &Vec<char>) -> Option<Self> {
        match NrrdVec::parse(rest) {
            Some(origin) => Some(SpaceOrigin { origin }),
            None => None,
        }
    }

    fn value_text(&self) -> Vec<char> {
        self.origin.text()
    }
}

/// The direction of an axis in space, as a word of the header: `none` for
/// an axis that does not run through space, else a vector literal.
pub open spec fn direction_of(t: Seq<char>) -> Option<Option<Seq<Seq<char>>>> {
    if trim(t) == "none"@ {
        Some(None)
    } else {
        match vector_of(t) {
            Some(v) => Some(Some(v)),
            None => None,
        }
    }
}

/// The word for a direction.
pub open spec fn direction_text(d: Option<Seq<Seq<char>>>) -> Seq<char> {
    match d {
        Some(v) => vector_text(v),
        None => "none"@,
    }
}

/// The model of an optional vector.
pub open spec fn direction_view(d: Option<NrrdVec>) -> Option<Seq<Seq<char>>> {
    match d {
        Some(v) => Some(v@),
        None => None,
    }
}

/// For each axis, its direction in space.
#[derive(Debug, Clone)]
pub struct SpaceDirections {
    directions: Vec<Option<NrrdVec>>,
}

impl View for SpaceDirections {
    type V = Seq<Option<Seq<Seq<char>>>>;

    closed spec fn view(&self) -> Seq<Option<Seq<Seq<char>>>> {
        self.directions@.map_values(|d: Option<NrrdVec>| direction_view(d))
    }
}

impl SpaceDirections {
    pub fn new() -> (r: SpaceDirections)
        ensures
            r@ == Seq::<Option<Seq<Seq<char>>>>::empty(),
    {
        let r = SpaceDirections { directions: Vec::new() };
        assert(r@ =~= Seq::<Option<Seq<Seq<char>>>>::empty());
        r
    }

    /// Adds an axis that does not run through space.
    pub fn extend_none(&mut self)
        ensures
            final(self)@ == old(self)@.push(None),
    {
        self.directions.push(None);
        assert(self@ =~= old(self)@.push(None));
    }

    /// Adds an axis with its direction.
    pub fn extend_with(&mut self, v: NrrdVec)
        ensures
            final(self)@ == old(self)@.push(Some(v@)),
    {
        self.directions.push(Some(v));
        assert(self@ =~= old(self)@.push(Some(v@)));
    }

    pub fn len(&self) -> (n: usize)
        ensures
            n == self@.len(),
    {
        self.directions.len()
    }

    pub fn directions(&self) -> (r: &Vec<Option<NrrdVec>>)
        ensures
            r@.map_values(|d: Option<NrrdVec>| direction_view(d)) == self@,
    {
        &self.directions
    }
}

impl HeaderDef for SpaceDirections {
    open spec fn prefixes() -> Seq<Seq<char>> {
        seq!["space directions: "@]
    }

    open spec fn field() -> Field {
        Field::SpaceDirections
    }

    /// One direction for each blank-separated word.
    open spec fn value_of(rest: Seq<char>) -> Option<Seq<Option<Seq<Seq<char>>>>> {
        collect(tokens(trim(rest)).map_values(|t: Seq<char>| direction_of(t)))
    }

    open spec fn text_of(v: Seq<Option<Seq<Seq<char>>>>) -> Seq<char> {
        join(v.map_values(|d: Option<Seq<Seq<char>>>| direction_text(d)), " "@)
    }

    fn patterns() -> (r: Vec<&'static str>) {
        let r = vec!["space directions: "];
        assert(views(r@) =~= Self::prefixes());
        r
    }

    fn tag() -> Field {
        Field::SpaceDirections
    }

    fn parse_value(rest: &Vec<char>) -> Option<Self> {
        let toks = split_blank(&trimmed(rest));
        let ghost words = tokens(trim(rest@)).map_values(|t: Seq<char>| direction_of(t));
        let mut directions: Vec<Option<NrrdVec>> = Vec::new();
        let mut i: usize = 0;
        while i < toks.len()
            invariant
                0 <= i <= toks.len(),
                views(toks@) == tokens(trim(rest@)),
                words == tokens(trim(rest@)).map_values(|t: Seq<char>| direction_of(t)),
                directions.len() == i,
                forall|j: int|
                    0 <= j < i ==> (#[trigger] words[j]) == Some(direction_view(directions@[j])),
            decreases toks.len() - i,
        {
            assert(views(toks@)[i as int] == toks@[i as int]@);
            if text_is(&trimmed(&toks[i]), "none") {
                directions.push(None);
            } else {
                match NrrdVec::parse(&toks[i]) {
                    Some(v) => directions.push(Some(v)),
                    None => {
                        assert(words[i as int] is None);
                        return None;
                    },
                }
            }
            i += 1;
        }
        assert(words.len() == toks.len());
        let r = SpaceDirections { directions };
        assert(r@ =~= words.map_values(|o: Option<Option<Seq<Seq<char>>>>| o->0));
        Some(r)
    }

    fn value_text(&self) -> Vec<char> {
        let mut words: Vec<Vec<char>> = Vec::new();
        let mut i: usize = 0;
        while i < self.directions.len()
            invariant
                0 <= i <= self.directions.len(),
                words.len() == i,
                forall|j: int|
                    0 <= j < i ==> (#[trigger] words@[j])@ == direction_text(
                        direction_view(self.directions@[j]),
                    ),
            decreases self.directions.len() - i,
        {
            match &self.directions[i] {
                Some(v) => words.push(v.text()),
                None => words.push(chars_of("none")),
            }
            i += 1;
        }
        assert(views(words@) =~= self@.map_values(
            |d: Option<Seq<Seq<char>>>| direction_text(d),
        ));
        joined(&words, " ")
    }
}

/// The frame in which measured vectors and tensors are expressed.
#[derive(Debug, Clone)]
pub struct MeasurementFrame {
    frame_vecs: Vec<NrrdVec>,
}

impl View for MeasurementFrame {
    type V = Seq<Seq<Seq<char>>>;

    closed spec fn view(&self) -> Seq<Seq<Seq<char>>> {
        views(self.frame_vecs@)
    }
}

impl MeasurementFrame {
    pub fn from_vec(frame_vecs: Vec<NrrdVec>) -> (r: MeasurementFrame)
        ensures
            r@ == views(frame_vecs@),
    {
        MeasurementFrame { frame_vecs }
    }

    pub fn frame_vecs(&self) -> (r: &Vec<NrrdVec>)
        ensures
            views(r@) == self@,
    {
        &self.frame_vecs
    }
}

impl HeaderDef for MeasurementFrame {
    open spec fn prefixes() -> Seq<Seq<char>> {
        seq!["measurement frame: "@]
    }

    open spec fn field() -> Field {
        Field::MeasurementFrame
    }

    /// One vector literal for each blank-separated word.
    open spec fn value_of(rest: Seq<char>) -> Option<Seq<Seq<Seq<char>>>> {
        collect(tokens(trim(rest)).map_values(|t: Seq<char>| vector_of(t)))
    }

    open spec fn text_of(v: Seq<Seq<Seq<char>>>) -> Seq<char> {
        join(v.map_values(|x: Seq<Seq<char>>| vector_text(x)), " "@)
    }

    fn patterns() -> (r: Vec<&'static str>) {
        let r = vec!["measurement frame: "];
        assert(views(r@) =~= Self::prefixes());
        r
    }

    fn tag() -> Field {
        Field::MeasurementFrame
    }

    fn parse_value(rest: &Vec<char>) -> Option<Self> {
        let toks = split_blank(&trimmed(rest));
        let ghost words = tokens(trim(rest@)).map_values(|t: Seq<char>| vector_of(t));
        let mut frame_vecs: Vec<NrrdVec> = Vec::new();
        let mut i: usize = 0;
        while i < toks.len()
            invariant
                0 <= i <= toks.len(),
                views(toks@) == tokens(trim(rest@)),
                words == tokens(trim(rest@)).map_values(|t: Seq<char>| vector_of(t)),
                frame_vecs.len() == i,
                forall|j: int| 0 <= j < i ==> (#[trigger] words[j]) == Some(frame_vecs@[j]@),
            decreases toks.len() - i,
        {
            assert(views(toks@)[i as int] == toks@[i as int]@);
            match NrrdVec::parse(&toks[i]) {
                Some(v) => frame_vecs.push(v),
                None => {
                    assert(words[i as int] is None);
                    return None;
                },
            }
            i += 1;
        }
        assert(words.len() == toks.len());
        assert(views(frame_vecs@) =~= words.map_values(|o: Option<Seq<Seq<char>>>| o->0));
        Some(MeasurementFrame { frame_vecs })
    }

    fn value_text(&self) -> Vec<char> {
        let mut words: Vec<Vec<char>> = Vec::new();
        let mut i: usize = 0;
        while i < self.frame_vecs.len()
            invariant
                0 <= i <= self.frame_vecs.len(),
                words.len() == i,
                forall|j: int|
                    0 <= j < i ==> (#[trigger] words@[j])@ == vector_text(self.frame_vecs@[j]@),
            decreases self.frame_vecs.len() - i,
        {
            words.push(self.frame_vecs[i].text());
            i += 1;
        }
        assert(views(words@) =~= self@.map_values(|x: Seq<Seq<char>>| vector_text(x)));
        joined(&words, " ")
    }
}

} // verus!
