//! Fields whose values are real numbers. A real number is kept as the decimal
//! literal that the header holds for it: the grammar of the literal is
//! checked here, its numeric value is never computed.
use vstd::prelude::*;
use crate::header_defs::{Field, HeaderDef};
use crate::text::{
    chars_of, collect, is_digit, join, joined, lower, lowered, slice_of, split_blank, string_of,
    text_is, tokens, trim, trimmed, views,
};

verus! {

/// Index of the first character at or after `i` that is no digit.
pub open spec fn digits_end(s: Seq<char>, i: int) -> int
    decreases s.len() - i,
{
    if 0 <= i < s.len() && is_digit(s[i]) {
        digits_end(s, i + 1)
    } else {
        i
    }
}

/// A literal without its sign.
pub open spec fn unsigned_part(s: Seq<char>) -> Seq<char> {
    if s.len() > 0 && (s[0] == '+' || s[0] == '-') {
        s.drop_first()
    } else {
        s
    }
}

/// End of the digits before the point.
pub open spec fn whole_end(s: Seq<char>) -> int {
    digits_end(s, 0)
}

/// End of the mantissa: of the digits after the point where there is a point.
pub open spec fn mantissa_end(s: Seq<char>) -> int {
    let a = whole_end(s);
    if a < s.len() && s[a] == '.' {
        digits_end(s, a + 1)
    } else {
        a
    }
}

/// The number of digits of the mantissa.
pub open spec fn mantissa_digits(s: Seq<char>) -> int {
    let a = whole_end(s);
    if a < s.len() && s[a] == '.' {
        mantissa_end(s) - 1
    } else {
        a
    }
}

/// Start of the digits of an exponent whose letter stands at `b`.
pub open spec fn exponent_start(s: Seq<char>, b: int) -> int {
    if b + 1 < s.len() && (s[b + 1] == '+' || s[b + 1] == '-') {
        b + 2
    } else {
        b + 1
    }
}

/// An unsigned decimal number: digits with at most one point among them and
/// at least one digit, then possibly `e` or `E`, a sign, and one digit or more.
pub open spec fn is_number(s: Seq<char>) -> bool {
    let b = mantissa_end(s);
    &&& mantissa_digits(s) >= 1
    &&& (b == s.len() || {
        &&& (s[b] == 'e' || s[b] == 'E')
        &&& exponent_start(s, b) < s.len()
        &&& digits_end(s, exponent_start(s, b)) == s.len()
    })
}

/// Does the literal spell infinity?
pub open spec fn spells_infinity(s: Seq<char>) -> bool {
    lower(unsigned_part(s)) == "inf"@ || lower(unsigned_part(s)) == "infinity"@
}

/// Does the literal spell "not a number"?
pub open spec fn spells_nan(s: Seq<char>) -> bool {
    lower(unsigned_part(s)) == "nan"@
}

/// A literal of a real number: an optional sign, then a decimal number,
/// `inf`, `infinity` or `nan` (in any case of letters).
pub open spec fn is_real(s: Seq<char>) -> bool {
    spells_infinity(s) || spells_nan(s) || is_number(unsigned_part(s))
}

/// Is every digit of the mantissa a zero?
pub open spec fn mantissa_is_zero(s: Seq<char>) -> bool {
    forall|i: int| 0 <= i < mantissa_end(s) && is_digit(s[i]) ==> #[trigger] s[i] == '0'
}

/// Is the literal a decimal number that is written with zero digits only?
pub open spec fn spells_zero(s: Seq<char>) -> bool {
    is_number(unsigned_part(s)) && mantissa_is_zero(unsigned_part(s))
}

/// How a literal reads.
#[derive(Debug, Clone, Copy, PartialEq, Eq, Structural)]
pub enum RealClass {
    /// No literal of a real number.
    Malformed,
    Infinite,
    NotANumber,
    /// A decimal number whose mantissa holds zeros only.
    Zero,
    /// Any other decimal number.
    Finite,
}

/// The class of a literal.
pub open spec fn class_of(s: Seq<char>) -> RealClass {
    if spells_infinity(s) {
        RealClass::Infinite
    } else if spells_nan(s) {
        RealClass::NotANumber
    } else if spells_zero(s) {
        RealClass::Zero
    } else if is_number(unsigned_part(s)) {
        RealClass::Finite
    } else {
        RealClass::Malformed
    }
}

/// End of the run of digits that begins at `i`.
fn scan_digits(v: &Vec<char>, i: usize) -> (r: usize)
    requires
        i <= v.len(),
    ensures
        r == digits_end(v@, i as int),
        i <= r <= v.len(),
{
    let mut j: usize = i;
    while j < v.len() && crate::text::char_is_digit(v[j])
        invariant
            i <= j <= v.len(),
            digits_end(v@, i as int) == digits_end(v@, j as int),
        decreases v.len() - j,
    {
        j += 1;
    }
    j
}

/// Are the digits of `v[..end]` zeros only?
fn only_zero_digits(v: &Vec<char>, end: usize) -> (r: bool)
    requires
        end <= v.len(),
    ensures
        r == forall|i: int| 0 <= i < end && is_digit(v@[i]) ==> #[trigger] v@[i] == '0',
{
    let mut i: usize = 0;
    while i < end
        invariant
            0 <= i <= end <= v.len(),
            forall|k: int| 0 <= k < i && is_digit(v@[k]) ==> #[trigger] v@[k] == '0',
        decreases end - i,
    {
        if crate::text::char_is_digit(v[i]) && v[i] != '0' {
            return false;
        }
        i += 1;
    }
    true
}

/// Classifies a literal.
pub fn classify(v: &Vec<char>) -> (r: RealClass)
    ensures
        r == class_of(v@),
{
    let n: usize = v.len();
    let start: usize = if n > 0 && (v[0] == '+' || v[0] == '-') {
        1
    } else {
        0
    };
    let body = slice_of(v, start, n);
    assert(body@ =~= unsigned_part(v@));
    let low = lowered(&body);
    if text_is(&low, "inf") || text_is(&low, "infinity") {
        return RealClass::Infinite;
    }
    if text_is(&low, "nan") {
        return RealClass::NotANumber;
    }
    let m: usize = body.len();
    let a = scan_digits(&body, 0);
    let dot: bool = a < m && body[a] == '.';
    let b: usize = if dot {
        scan_digits(&body, a + 1)
    } else {
        a
    };
    let digits: usize = if dot {
        b - 1
    } else {
        a
    };
    if digits < 1 {
        return RealClass::Malformed;
    }
    if b < m {
        if !(body[b] == 'e' || body[b] == 'E') {
            return RealClass::Malformed;
        }
        let c: usize = if b + 1 < m && (body[b + 1] == '+' || body[b + 1] == '-') {
            b + 2
        } else {
            b + 1
        };
        if c >= m {
            return RealClass::Malformed;
        }
        if scan_digits(&body, c) != m {
            return RealClass::Malformed;
        }
    }
    if only_zero_digits(&body, b) {
        RealClass::Zero
    } else {
        RealClass::Finite
    }
}

/// A real number, as the literal that stands for it.
#[derive(Debug, Clone)]
pub struct Real {
    text: String,
}

impl View for Real {
    type V = Seq<char>;

    closed spec fn view(&self) -> Seq<char> {
        self.text@
    }
}

impl Real {
    /// Takes a literal, where it is one.
    pub fn parse(v: &Vec<char>) -> (r: Option<Real>)
        ensures
            match r {
                Some(x) => is_real(v@) && x@ == v@,
                None => !is_real(v@),
            },
    {
        match classify(v) {
            RealClass::Malformed => None,
            _ => Some(Real { text: string_of(v) }),
        }
    }

    /// Takes a literal, where it is one.
    pub fn from_str(s: &str) -> (r: Option<Real>)
        ensures
            match r {
                Some(x) => is_real(s@) && x@ == s@,
                None => !is_real(s@),
            },
    {
        Real::parse(&chars_of(s))
    }

    /// The literal.
    pub fn text(&self) -> (s: &String)
        ensures
            s@ == self@,
    {
        &self.text
    }

    /// How the literal reads.
    pub fn class(&self) -> (c: RealClass)
        ensures
            c == class_of(self@),
    {
        classify(&chars_of(self.text.as_str()))
    }
}

/// What may stand in a list of real numbers.
#[derive(Debug, Clone, Copy, PartialEq, Eq, Structural)]
pub enum RealRule {
    /// Any literal.
    Any,
    /// No infinity.
    Bounded,
    /// No infinity and no zero.
    BoundedNonZero,
}

/// Does a literal of this class obey the rule?
pub open spec fn rule_admits(rule: RealRule, class: RealClass) -> bool {
    match rule {
        RealRule::Any => class != RealClass::Malformed,
        RealRule::Bounded => class != RealClass::Malformed && class != RealClass::Infinite,
        RealRule::BoundedNonZero => class != RealClass::Malformed && class != RealClass::Infinite
            && class != RealClass::Zero,
    }
}

/// The word as a literal that obeys the rule.
pub open spec fn real_word(rule: RealRule, t: Seq<char>) -> Option<Seq<char>> {
    if rule_admits(rule, class_of(t)) {
        Some(t)
    } else {
        None
    }
}

/// The blank-separated words of the trimmed text, where each is a literal
/// that obeys the rule.
pub open spec fn reals_of(rule: RealRule, rest: Seq<char>) -> Option<Seq<Seq<char>>> {
    collect(tokens(trim(rest)).map_values(|t: Seq<char>| real_word(rule, t)))
}

fn admits(rule: RealRule, class: RealClass) -> (b: bool)
    ensures
        b == rule_admits(rule, class),
{
    match rule {
        RealRule::Any => class != RealClass::Malformed,
        RealRule::Bounded => class != RealClass::Malformed && class != RealClass::Infinite,
        RealRule::BoundedNonZero => class != RealClass::Malformed && class != RealClass::Infinite
            && class != RealClass::Zero,
    }
}

/// Reads a list of real numbers.
pub fn parse_reals(rule: RealRule, rest: &Vec<char>) -> (r: Option<Vec<Real>>)
    ensures
        match r {
            Some(v) => reals_of(rule, rest@) == Some(views(v@)),
            None => reals_of(rule, rest@) is None,
        },
{
    let toks = split_blank(&trimmed(rest));
    let ghost words = tokens(trim(rest@)).map_values(|t: Seq<char>| real_word(rule, t));
    let mut reals: Vec<Real> = Vec::new();
    let mut i: usize = 0;
    while i < toks.len()
        invariant
            0 <= i <= toks.len(),
            views(toks@) == tokens(trim(rest@)),
            words == tokens(trim(rest@)).map_values(|t: Seq<char>| real_word(rule, t)),
            reals.len() == i,
            forall|j: int| 0 <= j < i ==> (#[trigger] words[j]) == Some(reals@[j]@),
        decreases toks.len() - i,
    {
        assert(views(toks@)[i as int] == toks@[i as int]@);
        if !admits(rule, classify(&toks[i])) {
            assert(words[i as int] is None);
            return None;
        }
        reals.push(Real { text: string_of(&toks[i]) });
        i += 1;
    }
    assert(words.len() == toks.len());
    assert(views(reals@) =~= words.map_values(|o: Option<Seq<char>>| o->0));
    Some(reals)
}

/// Writes a list of real numbers, one space between neighbours.
pub fn format_reals(reals: &Vec<Real>) -> (r: Vec<char>)
    ensures
        r@ == join(views(reals@), " "@),
{
    let mut words: Vec<Vec<char>> = Vec::new();
    let mut i: usize = 0;
    while i < reals.len()
        invariant
            0 <= i <= reals.len(),
            words.len() == i,
            forall|j: int| 0 <= j < i ==> (#[trigger] words@[j])@ == reals@[j]@,
        decreases reals.len() - i,
    {
        words.push(chars_of(reals[i].text.as_str()));
        i += 1;
    }
    assert(views(words@) =~= views(reals@));
    joined(&words, " ")
}

/// Does every literal obey the rule?
pub open spec fn all_admitted(rule: RealRule, v: Seq<Seq<char>>) -> bool {
    forall|i: int| 0 <= i < v.len() ==> rule_admits(rule, class_of(#[trigger] v[i]))
}

/// Checks every number against the rule.
pub fn check_reals(rule: RealRule, reals: &Vec<Real>) -> (b: bool)
    ensures
        b == all_admitted(rule, views(reals@)),
{
    let mut i: usize = 0;
    while i < reals.len()
        invariant
            0 <= i <= reals.len(),
            forall|j: int| 0 <= j < i ==> rule_admits(rule, class_of(#[trigger] views(reals@)[j])),
        decreases reals.len() - i,
    {
        assert(views(reals@)[i as int] == reals@[i as int]@);
        if !admits(rule, reals[i].class()) {
            return false;
        }
        i += 1;
    }
    true
}

/// The smallest value of the data.
#[derive(Debug, Clone)]
pub struct Min {
    min: Real,
}

impl View for Min {
    type V = Seq<char>;

    closed spec fn view(&self) -> Seq<char> {
        self.min@
    }
}

impl Min {
    pub fn new(min: Real) -> (r: Min)
        ensures
            r@ == min@,
    {
        Min { min }
    }

    pub fn min(&self) -> (r: &Real)
        ensures
            r@ == self@,
    {
        &self.min
    }
}

impl HeaderDef for Min {
    open spec fn prefixes() -> Seq<Seq<char>> {
        seq!["min: "@]
    }

    open spec fn field() -> Field {
        Field::Min
    }

    /// The trimmed text, where it is the literal of a real number.
    open spec fn value_of(rest: Seq<char>) -> Option<Seq<char>> {
        real_word(RealRule::Any, trim(rest))
    }

    open spec fn text_of(v: Seq<char>) -> Seq<char> {
        v
    }

    fn patterns() -> (r: Vec<&'static str>) {
        let r = vec!["min: "];
        assert(views(r@) =~= Self::prefixes());
        r
    }

    fn tag() -> Field {
        Field::Min
    }

    fn parse_value(rest: &Vec<char>) -> Option<Self> {
        match Real::parse(&trimmed(rest)) {
            Some(min) => Some(Min { min }),
            None => None,
        }
    }

    fn value_text(&self) -> Vec<char> {
        chars_of(self.min.text.as_str())
    }
}

/// The largest value of the data.
#[derive(Debug, Clone)]
pub struct Max {
    max: Real,
}

impl View for Max {
    type V = Seq<char>;

    closed spec fn view(&self) -> Seq<char> {
        self.max@
    }
}

impl Max {
    pub fn new(max: Real) -> (r: Max)
        ensures
            r@ == max@,
    {
        Max { max }
    }

    pub fn max(&self) -> (r: &Real)
        ensures
            r@ == self@,
    {
        &self.max
    }
}

impl HeaderDef for Max {
    open spec fn prefixes() -> Seq<Seq<char>> {
        seq!["max: "@]
    }

    open spec fn field() -> Field {
        Field::Max
    }

    /// The trimmed text, where it is the literal of a real number.
    open spec fn value_of(rest: Seq<char>) -> Option<Seq<char>> {
        real_word(RealRule::Any, trim(rest))
    }

    open spec fn text_of(v: Seq<char>) -> Seq<char> {
        v
    }

    fn patterns() -> (r: Vec<&'static str>) {
        let r = vec!["max: "];
        assert(views(r@) =~= Self::prefixes());
        r
    }

    fn tag() -> Field {
        Field::Max
    }

    fn parse_value(rest: &Vec<char>) -> Option<Self> {
        match Real::parse(&trimmed(rest)) {
            Some(max) => Some(Max { max }),
            None => None,
        }
    }

    fn value_text(&self) -> Vec<char> {
        chars_of(self.max.text.as_str())
    }
}

/// The smallest value before the data were quantised.
#[derive(Debug, Clone)]
pub struct OldMin {
    min: Real,
}

impl View for OldMin {
    type V = Seq<char>;

    closed spec fn view(&self) -> Seq<char> {
        self.min@
    }
}

impl OldMin {
    pub fn new(min: Real) -> (r: OldMin)
        ensures
            r@ == min@,
    {
        OldMin { min }
    }

    pub fn min(&self) -> (r: &Real)
        ensures
            r@ == self@,
    {
        &self.min
    }
}

impl HeaderDef for OldMin {
    open spec fn prefixes() -> Seq<Seq<char>> {
        seq!["old min: "@, "oldmin: "@]
    }

    open spec fn field() -> Field {
        Field::OldMin
    }

    /// The trimmed text, where it is the literal of a real number.
    open spec fn value_of(rest: Seq<char>) -> Option<Seq<char>> {
        real_word(RealRule::Any, trim(rest))
    }

    open spec fn text_of(v: Seq<char>) -> Seq<char> {
        v
    }

    fn patterns() -> (r: Vec<&'static str>) {
        let r = vec!["old min: ", "oldmin: "];
        assert(views(r@) =~= Self::prefixes());
        r
    }

    fn tag() -> Field {
        Field::OldMin
    }

    fn parse_value(rest: &Vec<char>) -> Option<Self> {
        match Real::parse(&trimmed(rest)) {
            Some(min) => Some(OldMin { min }),
            None => None,
        }
    }

    fn value_text(&self) -> Vec<char> {
        chars_of(self.min.text.as_str())
    }
}

/// The largest value before the data were quantised.
#[derive(Debug, Clone)]
pub struct OldMax {
    max: Real,
}

impl View for OldMax {
    type V = Seq<char>;

    closed spec fn view(&self) -> Seq<char> {
        self.max@
    }
}

impl OldMax {
    pub fn new(max: Real) -> (r: OldMax)
        ensures
            r@ == max@,
    {
        OldMax { max }
    }

    pub fn max(&self) -> (r: &Real)
        ensures
            r@ == self@,
    {
        &self.max
    }
}

impl HeaderDef for OldMax {
    open spec fn prefixes() -> Seq<Seq<char>> {
        seq!["old max: "@, "oldmax: "@]
    }

    open spec fn field() -> Field {
        Field::OldMax
    }

    /// The trimmed text, where it is the literal of a real number.
    open spec fn value_of(rest: Seq<char>) -> Option<Seq<char>> {
        real_word(RealRule::Any, trim(rest))
    }

    open spec fn text_of(v: Seq<char>) -> Seq<char> {
        v
    }

    fn patterns() -> (r: Vec<&'static str>) {
        let r = vec!["old max: ", "oldmax: "];
        assert(views(r@) =~= Self::prefixes());
        r
    }

    fn tag() -> Field {
        Field::OldMax
    }

    fn parse_value(rest: &Vec<char>) -> Option<Self> {
        match Real::parse(&trimmed(rest)) {
            Some(max) => Some(OldMax { max }),
            None => None,
        }
    }

    fn value_text(&self) -> Vec<char> {
        chars_of(self.max.text.as_str())
    }
}

/// The distance between samples along each axis.
#[derive(Debug, Clone)]
pub struct Spacings {
    spacings: Vec<Real>,
}

impl View for Spacings {
    type V = Seq<Seq<char>>;

    closed spec fn view(&self) -> Seq<Seq<char>> {
        views(self.spacings@)
    }
}

impl Spacings {
    /// The numbers as this field, where each obeys the rule of the field.
    pub fn from_reals(spacings: Vec<Real>) -> (r: Option<Spacings>)
        ensures
            match r {
                Some(x) => x@ == views(spacings@) && all_admitted(RealRule::BoundedNonZero, views(spacings@)),
                None => !all_admitted(RealRule::BoundedNonZero, views(spacings@)),
            },
    {
        if check_reals(RealRule::BoundedNonZero, &spacings) {
            Some(Spacings { spacings })
        } else {
            None
        }
    }

    pub fn spacings(&self) -> (r: &Vec<Real>)
        ensures
            views(r@) == self@,
    {
        &self.spacings
    }
}

impl HeaderDef for Spacings {
    open spec fn prefixes() -> Seq<Seq<char>> {
        seq!["spacings: "@]
    }

    open spec fn field() -> Field {
        Field::Spacings
    }

    /// One literal for each word: no infinity and no zero among them.
    open spec fn value_of(rest: Seq<char>) -> Option<Seq<Seq<char>>> {
        reals_of(RealRule::BoundedNonZero, rest)
    }

    open spec fn text_of(v: Seq<Seq<char>>) -> Seq<char> {
        join(v, " "@)
    }

    fn patterns() -> (r: Vec<&'static str>) {
        let r = vec!["spacings: "];
        assert(views(r@) =~= Self::prefixes());
        r
    }

    fn tag() -> Field {
        Field::Spacings
    }

    fn parse_value(rest: &Vec<char>) -> Option<Self> {
        match parse_reals(RealRule::BoundedNonZero, rest) {
            Some(spacings) => Some(Spacings { spacings }),
            None => None,
        }
    }

    fn value_text(&self) -> Vec<char> {
        format_reals(&self.spacings)
    }
}

/// The thickness of a sample along each axis.
#[derive(Debug, Clone)]
pub struct Thicknesses {
    thicknesses: Vec<Real>,
}

impl View for Thicknesses {
    type V = Seq<Seq<char>>;

    closed spec fn view(&self) -> Seq<Seq<char>> {
        views(self.thicknesses@)
    }
}

impl Thicknesses {
    /// The numbers as this field, where each obeys the rule of the field.
    pub fn from_reals(thicknesses: Vec<Real>) -> (r: Option<Thicknesses>)
        ensures
            match r {
                Some(x) => x@ == views(thicknesses@) && all_admitted(RealRule::Any, views(thicknesses@)),
                None => !all_admitted(RealRule::Any, views(thicknesses@)),
            },
    {
        if check_reals(RealRule::Any, &thicknesses) {
            Some(Thicknesses { thicknesses })
        } else {
            None
        }
    }

    pub fn thicknesses(&self) -> (r: &Vec<Real>)
        ensures
            views(r@) == self@,
    {
        &self.thicknesses
    }
}

impl HeaderDef for Thicknesses {
    open spec fn prefixes() -> Seq<Seq<char>> {
        seq!["thicknesses: "@]
    }

    open spec fn field() -> Field {
        Field::Thicknesses
    }

    /// One literal for each word.
    open spec fn value_of(rest: Seq<char>) -> Option<Seq<Seq<char>>> {
        reals_of(RealRule::Any, rest)
    }

    open spec fn text_of(v: Seq<Seq<char>>) -> Seq<char> {
        join(v, " "@)
    }

    fn patterns() -> (r: Vec<&'static str>) {
        let r = vec!["thicknesses: "];
        assert(views(r@) =~= Self::prefixes());
        r
    }

    fn tag() -> Field {
        Field::Thicknesses
    }

    fn parse_value(rest: &Vec<char>) -> Option<Self> {
        match parse_reals(RealRule::Any, rest) {
            Some(thicknesses) => Some(Thicknesses { thicknesses }),
            None => None,
        }
    }

    fn value_text(&self) -> Vec<char> {
        format_reals(&self.thicknesses)
    }
}

/// The position of the first sample along each axis.
#[derive(Debug, Clone)]
pub struct AxisMins {
    mins: Vec<Real>,
}

impl View for AxisMins {
    type V = Seq<Seq<char>>;

    closed spec fn view(&self) -> Seq<Seq<char>> {
        views(self.mins@)
    }
}

impl AxisMins {
    /// The numbers as this field, where each obeys the rule of the field.
    pub fn from_reals(mins: Vec<Real>) -> (r: Option<AxisMins>)
        ensures
            match r {
                Some(x) => x@ == views(mins@) && all_admitted(RealRule::Bounded, views(mins@)),
                None => !all_admitted(RealRule::Bounded, views(mins@)),
            },
    {
        if check_reals(RealRule::Bounded, &mins) {
            Some(AxisMins { mins })
        } else {
            None
        }
    }

    pub fn mins(&self) -> (r: &Vec<Real>)
        ensures
            views(r@) == self@,
    {
        &self.mins
    }
}

impl HeaderDef for AxisMins {
    open spec fn prefixes() -> Seq<Seq<char>> {
        seq!["axis mins: "@, "axismins: "@]
    }

    open spec fn field() -> Field {
        Field::AxisMins
    }

    /// One literal for each word: no infinity among them.
    open spec fn value_of(rest: Seq<char>) -> Option<Seq<Seq<char>>> {
        reals_of(RealRule::Bounded, rest)
    }

    open spec fn text_of(v: Seq<Seq<char>>) -> Seq<char> {
        join(v, " "@)
    }

    fn patterns() -> (r: Vec<&'static str>) {
        let r = vec!["axis mins: ", "axismins: "];
        assert(views(r@) =~= Self::prefixes());
        r
    }

    fn tag() -> Field {
        Field::AxisMins
    }

    fn parse_value(rest: &Vec<char>) -> Option<Self> {
        match parse_reals(RealRule::Bounded, rest) {
            Some(mins) => Some(AxisMins { mins }),
            None => None,
        }
    }

    fn value_text(&self) -> Vec<char> {
        format_reals(&self.mins)
    }
}

/// The position of the last sample along each axis.
#[derive(Debug, Clone)]
pub struct AxisMaxs {
    maxs: Vec<Real>,
}

impl View for AxisMaxs {
    type V = Seq<Seq<char>>;

    closed spec fn view(&self) -> Seq<Seq<char>> {
        views(self.maxs@)
    }
}

impl AxisMaxs {
    /// The numbers as this field, where each obeys the rule of the field.
    pub fn from_reals(maxs: Vec<Real>) -> (r: Option<AxisMaxs>)
        ensures
            match r {
                Some(x) => x@ == views(maxs@) && all_admitted(RealRule::Bounded, views(maxs@)),
                None => !all_admitted(RealRule::Bounded, views(maxs@)),
            },
    {
        if check_reals(RealRule::Bounded, &maxs) {
            Some(AxisMaxs { maxs })
        } else {
            None
        }
    }

    pub fn maxs(&self) -> (r: &Vec<Real>)
        ensures
            views(r@) == self@,
    {
        &self.maxs
    }
}

impl HeaderDef for AxisMaxs {
    open spec fn prefixes() -> Seq<Seq<char>> {
        seq!["axis maxs: "@, "axismaxs: "@]
    }

    open spec fn field() -> Field {
        Field::AxisMaxs
    }

    /// One literal for each word: no infinity among them.
    open spec fn value_of(rest: Seq<char>) -> Option<Seq<Seq<char>>> {
        reals_of(RealRule::Bounded, rest)
    }

    open spec fn text_of(v: Seq<Seq<char>>) -> Seq<char> {
        join(v, " "@)
    }

    fn patterns() -> (r: Vec<&'static str>) {
        let r = vec!["axis maxs: ", "axismaxs: "];
        assert(views(r@) =~= Self::prefixes());
        r
    }

    fn tag() -> Field {
        Field::AxisMaxs
    }

    fn parse_value(rest: &Vec<char>) -> Option<Self> {
        match parse_reals(RealRule::Bounded, rest) {
            Some(maxs) => Some(AxisMaxs { maxs }),
            None => None,
        }
    }

    fn value_text(&self) -> Vec<char> {
        format_reals(&self.maxs)
    }
}

} // verus!
