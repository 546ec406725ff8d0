//! Fields whose value is one number or one text.
use vstd::prelude::*;
use crate::decimal::{nat_text, parse_signed, parse_unsigned, push_nat, signed_of, unsigned_of};
use crate::header_defs::{Field, HeaderDef, HeaderError};
use crate::text::{chars_of, find, find_from, push_str, slice_of, string_of, trim, trimmed, views};

verus! {

/// What an unsigned field denotes: the number that its trimmed text spells,
/// if that is at most `max`.
pub open spec fn count_of(rest: Seq<char>, max: nat) -> Option<nat> {
    match unsigned_of(trim(rest)) {
        Some(n) => if n <= max {
            Some(n)
        } else {
            None
        },
        None => None,
    }
}

/// Reads an unsigned field.
pub fn parse_count(rest: &Vec<char>) -> (r: Option<usize>)
    ensures
        r == match count_of(rest@, usize::MAX as nat) {
            Some(n) => Some(n as usize),
            None => None::<usize>,
        },
{
    let t = trimmed(rest);
    match parse_unsigned(&t, usize::MAX as u64) {
        Some(n) => Some(n as usize),
        None => None,
    }
}

/// The text of a count.
pub fn count_text(n: usize) -> (r: Vec<char>)
    ensures
        r@ == nat_text(n as nat),
{
    let mut out: Vec<char> = Vec::new();
    push_nat(&mut out, n as u64);
    out
}

/// The magic line: the format's name and its version.
#[derive(Debug, Clone, Copy)]
pub struct Magic {
    pub version: u8,
}

impl View for Magic {
    type V = nat;

    open spec fn view(&self) -> nat {
        self.version as nat
    }
}

impl Default for Magic {
    fn default() -> (m: Magic)
        ensures
            m@ == 4,
    {
        Magic { version: 4 }
    }
}

impl HeaderDef for Magic {
    open spec fn prefixes() -> Seq<Seq<char>> {
        seq!["NRRD"@]
    }

    open spec fn field() -> Field {
        Field::Magic
    }

    open spec fn value_of(rest: Seq<char>) -> Option<nat> {
        count_of(rest, 255)
    }

    open spec fn text_of(v: nat) -> Seq<char> {
        "000"@ + nat_text(v)
    }

    fn patterns() -> (r: Vec<&'static str>) {
        let r = vec!["NRRD"];
        assert(views(r@) =~= Self::prefixes());
        r
    }

    fn tag() -> Field {
        Field::Magic
    }

    fn parse_value(rest: &Vec<char>) -> Option<Self> {
        let t = trimmed(rest);
        match parse_unsigned(&t, 255) {
            Some(n) => Some(Magic { version: n as u8 }),
            None => None,
        }
    }

    fn value_text(&self) -> Vec<char> {
        let mut out: Vec<char> = Vec::new();
        push_str(&mut out, "000");
        push_nat(&mut out, self.version as u64);
        out
    }
}

/// The number of axes: a positive integer.
#[derive(Debug, Clone, Copy)]
pub struct Dimension {
    dim: usize,
}

impl View for Dimension {
    type V = nat;

    closed spec fn view(&self) -> nat {
        self.dim as nat
    }
}

impl Dimension {
    pub fn new(dim: usize) -> (d: Dimension)
        ensures
            d@ == dim,
    {
        Dimension { dim }
    }

    pub fn dim(&self) -> (n: usize)
        ensures
            n == self@,
    {
        self.dim
    }
}

impl HeaderDef for Dimension {
    open spec fn prefixes() -> Seq<Seq<char>> {
        seq!["dimension: "@]
    }

    open spec fn field() -> Field {
        Field::Dimension
    }

    open spec fn value_of(rest: Seq<char>) -> Option<nat> {
        match count_of(rest, usize::MAX as nat) {
            Some(n) => if n > 0 {
                Some(n)
            } else {
                None
            },
            None => None,
        }
    }

    open spec fn text_of(v: nat) -> Seq<char> {
        nat_text(v)
    }

    fn patterns() -> (r: Vec<&'static str>) {
        let r = vec!["dimension: "];
        assert(views(r@) =~= Self::prefixes());
        r
    }

    fn tag() -> Field {
        Field::Dimension
    }

    fn parse_value(rest: &Vec<char>) -> Option<Self> {
        match parse_count(rest) {
            Some(dim) => if dim > 0 {
                Some(Dimension { dim })
            } else {
                None
            },
            None => None,
        }
    }

    fn value_text(&self) -> Vec<char> {
        count_text(self.dim)
    }
}

/// The size in bytes of one element of type `block`.
#[derive(Debug, Clone, Copy)]
pub struct BlockSize {
    bs: usize,
}

impl View for BlockSize {
    type V = nat;

    closed spec fn view(&self) -> nat {
        self.bs as nat
    }
}

impl BlockSize {
    pub fn new(bs: usize) -> (b: BlockSize)
        ensures
            b@ == bs,
    {
        BlockSize { bs }
    }

    pub fn size(&self) -> (n: usize)
        ensures
            n == self@,
    {
        self.bs
    }
}

impl HeaderDef for BlockSize {
    open spec fn prefixes() -> Seq<Seq<char>> {
        seq!["block size: "@, "blocksize: "@]
    }

    open spec fn field() -> Field {
        Field::BlockSize
    }

    open spec fn value_of(rest: Seq<char>) -> Option<nat> {
        count_of(rest, usize::MAX as nat)
    }

    open spec fn text_of(v: nat) -> Seq<char> {
        nat_text(v)
    }

    fn patterns() -> (r: Vec<&'static str>) {
        let r = vec!["block size: ", "blocksize: "];
        assert(views(r@) =~= Self::prefixes());
        r
    }

    fn tag() -> Field {
        Field::BlockSize
    }

    fn parse_value(rest: &Vec<char>) -> Option<Self> {
        match parse_count(rest) {
            Some(bs) => Some(BlockSize { bs }),
            None => None,
        }
    }

    fn value_text(&self) -> Vec<char> {
        count_text(self.bs)
    }
}

/// The number of dimensions of the space that the axes lie in.
#[derive(Debug, Clone, Copy)]
pub struct SpaceDimension {
    dim: usize,
}

impl View for SpaceDimension {
    type V = nat;

    closed spec fn view(&self) -> nat {
        self.dim as nat
    }
}

impl SpaceDimension {
    pub fn new(dim: usize) -> (d: SpaceDimension)
        ensures
            d@ == dim,
    {
        SpaceDimension { dim }
    }

    pub fn dim(&self) -> (n: usize)
        ensures
            n == self@,
    {
        self.dim
    }
}

impl HeaderDef for SpaceDimension {
    open spec fn prefixes() -> Seq<Seq<char>> {
        seq!["space dimension: "@]
    }

    open spec fn field() -> Field {
        Field::SpaceDimension
    }

    open spec fn value_of(rest: Seq<char>) -> Option<nat> {
        count_of(rest, usize::MAX as nat)
    }

    open spec fn text_of(v: nat) -> Seq<char> {
        nat_text(v)
    }

    fn patterns() -> (r: Vec<&'static str>) {
        let r = vec!["space dimension: "];
        assert(views(r@) =~= Self::prefixes());
        r
    }

    fn tag() -> Field {
        Field::SpaceDimension
    }

    fn parse_value(rest: &Vec<char>) -> Option<Self> {
        match parse_count(rest) {
            Some(dim) => Some(SpaceDimension { dim }),
            None => None,
        }
    }

    fn value_text(&self) -> Vec<char> {
        count_text(self.dim)
    }
}

/// How many lines to pass over before the payload begins.
#[derive(Debug, Clone, Copy)]
pub struct LineSkip {
    skip: usize,
}

impl View for LineSkip {
    type V = nat;

    closed spec fn view(&self) -> nat {
        self.skip as nat
    }
}

impl LineSkip {
    pub fn new(skip: usize) -> (l: LineSkip)
        ensures
            l@ == skip,
    {
        LineSkip { skip }
    }

    pub fn to_skip(&self) -> (n: usize)
        ensures
            n == self@,
    {
        self.skip
    }
}

impl HeaderDef for LineSkip {
    open spec fn prefixes() -> Seq<Seq<char>> {
        seq!["line skip: "@, "lineskip: "@]
    }

    open spec fn field() -> Field {
        Field::LineSkip
    }

    open spec fn value_of(rest: Seq<char>) -> Option<nat> {
        count_of(rest, usize::MAX as nat)
    }

    open spec fn text_of(v: nat) -> Seq<char> {
        nat_text(v)
    }

    fn patterns() -> (r: Vec<&'static str>) {
        let r = vec!["line skip: ", "lineskip: "];
        assert(views(r@) =~= Self::prefixes());
        r
    }

    fn tag() -> Field {
        Field::LineSkip
    }

    fn parse_value(rest: &Vec<char>) -> Option<Self> {
        match parse_count(rest) {
            Some(skip) => Some(LineSkip { skip }),
            None => None,
        }
    }

    fn value_text(&self) -> Vec<char> {
        count_text(self.skip)
    }
}

/// Where the payload begins in its stream: after a number of bytes, or at
/// the distance of its own length from the end.
#[derive(Debug, Clone, Copy, PartialEq, Eq, Structural)]
#[allow(non_camel_case_types)]
pub enum ByteSkip {
    skip(usize),
    rev,
}

impl View for ByteSkip {
    type V = ByteSkip;

    open spec fn view(&self) -> ByteSkip {
        *self
    }
}

impl ByteSkip {
    /// The bytes to pass over: none for a read from the end.
    pub open spec fn spec_to_skip(self) -> nat {
        match self {
            ByteSkip::skip(n) => n as nat,
            ByteSkip::rev => 0,
        }
    }

    pub fn to_skip(&self) -> (n: usize)
        ensures
            n == self.spec_to_skip(),
    {
        match self {
            ByteSkip::skip(skip) => *skip,
            ByteSkip::rev => 0,
        }
    }

    pub fn read_tail(&self) -> (b: bool)
        ensures
            b == (*self == ByteSkip::rev),
    {
        match self {
            ByteSkip::skip(_) => false,
            ByteSkip::rev => true,
        }
    }
}

impl HeaderDef for ByteSkip {
    open spec fn prefixes() -> Seq<Seq<char>> {
        seq!["byte skip: "@, "byteskip: "@]
    }

    open spec fn field() -> Field {
        Field::ByteSkip
    }

    /// A signed integer of the machine's word: a negative one asks for a read
    /// from the end.
    open spec fn value_of(rest: Seq<char>) -> Option<ByteSkip> {
        match signed_of(trim(rest)) {
            Some(i) => if i < isize::MIN || i > isize::MAX {
                None
            } else if i < 0 {
                Some(ByteSkip::rev)
            } else {
                Some(ByteSkip::skip(i as usize))
            },
            None => None,
        }
    }

    open spec fn text_of(v: ByteSkip) -> Seq<char> {
        match v {
            ByteSkip::skip(n) => nat_text(n as nat),
            ByteSkip::rev => "-1"@,
        }
    }

    fn patterns() -> (r: Vec<&'static str>) {
        let r = vec!["byte skip: ", "byteskip: "];
        assert(views(r@) =~= Self::prefixes());
        r
    }

    fn tag() -> Field {
        Field::ByteSkip
    }

    fn parse_value(rest: &Vec<char>) -> Option<Self> {
        let t = trimmed(rest);
        match parse_signed(&t, isize::MIN as i64, isize::MAX as i64) {
            Some(i) => if i < 0 {
                Some(ByteSkip::rev)
            } else {
                Some(ByteSkip::skip(i as usize))
            },
            None => None,
        }
    }

    fn value_text(&self) -> Vec<char> {
        match self {
            ByteSkip::skip(n) => count_text(*n),
            ByteSkip::rev => chars_of("-1"),
        }
    }
}

/// A free description of the data.
#[derive(Debug, Clone, PartialEq, Eq)]
pub struct Content {
    content: String,
}

impl View for Content {
    type V = Seq<char>;

    closed spec fn view(&self) -> Seq<char> {
        self.content@
    }
}

impl Content {
    pub fn new(content: String) -> (c: Content)
        ensures
            c@ == content@,
    {
        Content { content }
    }

    pub fn content(&self) -> (s: &String)
        ensures
            s@ == self@,
    {
        &self.content
    }
}

impl HeaderDef for Content {
    open spec fn prefixes() -> Seq<Seq<char>> {
        seq!["content: "@]
    }

    open spec fn field() -> Field {
        Field::Content
    }

    /// Everything after the prefix, as it stands.
    open spec fn value_of(rest: Seq<char>) -> Option<Seq<char>> {
        Some(rest)
    }

    open spec fn text_of(v: Seq<char>) -> Seq<char> {
        v
    }

    fn patterns() -> (r: Vec<&'static str>) {
        let r = vec!["content: "];
        assert(views(r@) =~= Self::prefixes());
        r
    }

    fn tag() -> Field {
        Field::Content
    }

    fn parse_value(rest: &Vec<char>) -> Option<Self> {
        Some(Content { content: string_of(rest) })
    }

    fn value_text(&self) -> Vec<char> {
        chars_of(self.content.as_str())
    }
}

/// The unit that the samples are measured in.
#[derive(Debug, Clone)]
pub struct SampleUnits {
    units: String,
}

impl View for SampleUnits {
    type V = Seq<char>;

    closed spec fn view(&self) -> Seq<char> {
        self.units@
    }
}

impl SampleUnits {
    pub fn new(units: String) -> (u: SampleUnits)
        ensures
            u@ == units@,
    {
        SampleUnits { units }
    }

    pub fn units(&self) -> (s: &String)
        ensures
            s@ == self@,
    {
        &self.units
    }
}

impl HeaderDef for SampleUnits {
    open spec fn prefixes() -> Seq<Seq<char>> {
        seq!["sample units: "@, "sampleunits: "@]
    }

    open spec fn field() -> Field {
        Field::SampleUnits
    }

    open spec fn value_of(rest: Seq<char>) -> Option<Seq<char>> {
        Some(trim(rest))
    }

    open spec fn text_of(v: Seq<char>) -> Seq<char> {
        v
    }

    fn patterns() -> (r: Vec<&'static str>) {
        let r = vec!["sample units: ", "sampleunits: "];
        assert(views(r@) =~= Self::prefixes());
        r
    }

    fn tag() -> Field {
        Field::SampleUnits
    }

    fn parse_value(rest: &Vec<char>) -> Option<Self> {
        let t = trimmed(rest);
        Some(SampleUnits { units: string_of(&t) })
    }

    fn value_text(&self) -> Vec<char> {
        chars_of(self.units.as_str())
    }
}

/// A comment line. Its text begins after the character that follows `#`;
/// a comment without text is no comment.
#[derive(Debug, Clone)]
pub struct Comment {
    pub val: String,
}

impl View for Comment {
    type V = Seq<char>;

    open spec fn view(&self) -> Seq<char> {
        self.val@
    }
}

impl HeaderDef for Comment {
    open spec fn prefixes() -> Seq<Seq<char>> {
        seq!["#"@]
    }

    open spec fn field() -> Field {
        Field::Comment
    }

    open spec fn value_of(rest: Seq<char>) -> Option<Seq<char>> {
        if rest.len() >= 2 {
            Some(rest.skip(1))
        } else {
            None
        }
    }

    open spec fn text_of(v: Seq<char>) -> Seq<char> {
        " "@ + v
    }

    fn patterns() -> (r: Vec<&'static str>) {
        let r = vec!["#"];
        assert(views(r@) =~= Self::prefixes());
        r
    }

    fn tag() -> Field {
        Field::Comment
    }

    fn parse_value(rest: &Vec<char>) -> Option<Self> {
        if rest.len() >= 2 {
            let t = slice_of(rest, 1, rest.len());
            assert(t@ =~= rest@.skip(1));
            Some(Comment { val: string_of(&t) })
        } else {
            None
        }
    }

    fn value_text(&self) -> Vec<char> {
        let mut out: Vec<char> = Vec::new();
        push_str(&mut out, " ");
        push_str(&mut out, self.val.as_str());
        out
    }
}

/// The value of a key-value line: what follows the first `:=`.
#[derive(Debug, Clone)]
pub struct Value {
    pub val: String,
}

impl View for Value {
    type V = Seq<char>;

    open spec fn view(&self) -> Seq<char> {
        self.val@
    }
}

/// Where the separator of a key-value line stands: the first `:=`, or the
/// length of the line where it has none.
pub open spec fn separator_at(line: Seq<char>) -> int {
    find_from(line, ":="@, 0)
}

/// Is this a key-value line?
pub open spec fn is_key_value(line: Seq<char>) -> bool {
    separator_at(line) < line.len()
}

/// The key of a key-value line: what stands before the first `:=`.
pub open spec fn key_of(line: Seq<char>) -> Seq<char> {
    line.take(separator_at(line))
}

/// The value of a key-value line: what stands after the first `:=`.
pub open spec fn value_after(line: Seq<char>) -> Seq<char> {
    line.skip(separator_at(line) + 2)
}

impl Value {
    pub fn patterns() -> (r: Vec<&'static str>)
        ensures
            views(r@) == seq![":="@],
    {
        let r = vec![":="];
        assert(views(r@) =~= seq![":="@]);
        r
    }

    /// Position of the separator.
    fn separator(line: &Vec<char>) -> (r: Option<usize>)
        ensures
            match r {
                Some(i) => i == separator_at(line@) && i + 2 <= line.len(),
                None => !is_key_value(line@),
            },
    {
        let sep = chars_of(":=");
        proof {
            reveal_strlit(":=");
            crate::text::lemma_find_from_bounds(line@, ":="@, 0);
        }
        find(line, &sep)
    }

    /// Does the line hold the separator of a key-value line?
    pub fn matches_key_value(s: &str) -> (b: bool)
        ensures
            b == is_key_value(s@),
    {
        let line = chars_of(s);
        Self::separator(&line).is_some()
    }

    /// The key of a key-value line.
    pub fn key(s: &str) -> (k: String)
        requires
            is_key_value(s@),
        ensures
            k@ == key_of(s@),
    {
        let line = chars_of(s);
        match Self::separator(&line) {
            Some(i) => {
                let k = slice_of(&line, 0, i);
                assert(k@ =~= key_of(s@));
                string_of(&k)
            },
            None => String::new(),
        }
    }

    /// The value of a key-value line.
    pub fn from_str(s: &str) -> (r: Result<Value, HeaderError>)
        ensures
            match r {
                Ok(v) => is_key_value(s@) && v@ == value_after(s@),
                Err(e) => !is_key_value(s@) && e == HeaderError::Missing(Field::KeyValue),
            },
    {
        let line = chars_of(s);
        match Self::separator(&line) {
            Some(i) => {
                let v = slice_of(&line, i + 2, line.len());
                assert(v@ =~= value_after(s@));
                Ok(Value { val: string_of(&v) })
            },
            None => Err(HeaderError::Missing(Field::KeyValue)),
        }
    }

    /// The separator, then the value.
    pub fn to_string(&self) -> (r: String)
        ensures
            r@ == ":="@ + self@,
    {
        let mut out: Vec<char> = Vec::new();
        push_str(&mut out, ":=");
        push_str(&mut out, self.val.as_str());
        string_of(&out)
    }
}

} // verus!
