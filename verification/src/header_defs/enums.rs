//! Fields whose value is one of a fixed set of names. Several spellings may
//! name one value on reading; one canonical spelling is written.
use vstd::prelude::*;
use crate::header_defs::{Field, HeaderDef, HeaderError};
use crate::text::{
    chars_of, collect, join, joined, lower, lowered, split_blank, text_is, tokens, trim, trimmed,
    views,
};

verus! {


/// The type of one element of the raster.
#[derive(Debug, Clone, Copy, PartialEq, Eq, Structural)]
#[allow(non_camel_case_types)]
pub enum DType {
    int8,
    uint8,
    int16,
    uint16,
    int32,
    uint32,
    int64,
    uint64,
    float,
    double,
    Block,
}

impl View for DType {
    type V = DType;

    open spec fn view(&self) -> DType {
        *self
    }
}

/// The element type that a spelling names.
pub open spec fn dtype_of(t: Seq<char>) -> Option<DType> {
    if t == "signed char"@ || t == "int8"@ || t == "int8_t"@ {
        Some(DType::int8)
    } else if t == "uchar"@ || t == "unsigned char"@ || t == "uint8"@ || t == "uint8_t"@ {
        Some(DType::uint8)
    } else if t == "short"@ || t == "short int"@ || t == "signed short"@ || t == "signed short int"@ || t == "int16"@ || t == "int16_t"@ {
        Some(DType::int16)
    } else if t == "ushort"@ || t == "unsigned short"@ || t == "unsigned short int"@ || t == "uint16"@ || t == "uint16_t"@ {
        Some(DType::uint16)
    } else if t == "int"@ || t == "signed int"@ || t == "int32"@ || t == "int32_t"@ {
        Some(DType::int32)
    } else if t == "uint"@ || t == "unsigned int"@ || t == "uint32"@ || t == "uint32_t"@ {
        Some(DType::uint32)
    } else if t == "longlong"@ || t == "long long"@ || t == "long long int"@ || t == "signed long long"@ || t == "signed long long int"@ || t == "int64"@ || t == "int64_t"@ {
        Some(DType::int64)
    } else if t == "ulonglong"@ || t == "unsigned long long"@ || t == "unsigned long long int"@ || t == "uint64"@ || t == "uint64_t"@ {
        Some(DType::uint64)
    } else if t == "float"@ {
        Some(DType::float)
    } else if t == "double"@ {
        Some(DType::double)
    } else if t == "block"@ {
        Some(DType::Block)
    } else {
        None
    }
}

/// The canonical spelling of a element type.
pub open spec fn dtype_text(v: DType) -> Seq<char> {
    match v {
        DType::int8 => "int8"@,
        DType::uint8 => "uint8"@,
        DType::int16 => "int16"@,
        DType::uint16 => "uint16"@,
        DType::int32 => "int32"@,
        DType::uint32 => "uint32"@,
        DType::int64 => "int64"@,
        DType::uint64 => "uint64"@,
        DType::float => "float"@,
        DType::double => "double"@,
        DType::Block => "block"@,
    }
}

impl DType {
    /// Looks a spelling up.
    pub fn of_text(t: &Vec<char>) -> (r: Option<DType>)
        ensures
            r == dtype_of(t@),
    {
        if text_is(t, "signed char") || text_is(t, "int8") || text_is(t, "int8_t") {
            Some(DType::int8)
        } else if text_is(t, "uchar") || text_is(t, "unsigned char") || text_is(t, "uint8") || text_is(t, "uint8_t") {
            Some(DType::uint8)
        } else if text_is(t, "short") || text_is(t, "short int") || text_is(t, "signed short") || text_is(t, "signed short int") || text_is(t, "int16") || text_is(t, "int16_t") {
            Some(DType::int16)
        } else if text_is(t, "ushort") || text_is(t, "unsigned short") || text_is(t, "unsigned short int") || text_is(t, "uint16") || text_is(t, "uint16_t") {
            Some(DType::uint16)
        } else if text_is(t, "int") || text_is(t, "signed int") || text_is(t, "int32") || text_is(t, "int32_t") {
            Some(DType::int32)
        } else if text_is(t, "uint") || text_is(t, "unsigned int") || text_is(t, "uint32") || text_is(t, "uint32_t") {
            Some(DType::uint32)
        } else if text_is(t, "longlong") || text_is(t, "long long") || text_is(t, "long long int") || text_is(t, "signed long long") || text_is(t, "signed long long int") || text_is(t, "int64") || text_is(t, "int64_t") {
            Some(DType::int64)
        } else if text_is(t, "ulonglong") || text_is(t, "unsigned long long") || text_is(t, "unsigned long long int") || text_is(t, "uint64") || text_is(t, "uint64_t") {
            Some(DType::uint64)
        } else if text_is(t, "float") {
            Some(DType::float)
        } else if text_is(t, "double") {
            Some(DType::double)
        } else if text_is(t, "block") {
            Some(DType::Block)
        } else {
            None
        }
    }

    /// The canonical spelling.
    pub fn text(&self) -> (r: &'static str)
        ensures
            r@ == dtype_text(*self),
    {
        match self {
            DType::int8 => "int8",
            DType::uint8 => "uint8",
            DType::int16 => "int16",
            DType::uint16 => "uint16",
            DType::int32 => "int32",
            DType::uint32 => "uint32",
            DType::int64 => "int64",
            DType::uint64 => "uint64",
            DType::float => "float",
            DType::double => "double",
            DType::Block => "block",
        }
    }
}

impl DType {
    /// The size of one element in bytes; 1 stands in for `block`, whose
    /// size the header gives.
    pub open spec fn spec_size(self) -> nat {
        match self {
            DType::int8 => 1,
            DType::uint8 => 1,
            DType::int16 => 2,
            DType::uint16 => 2,
            DType::int32 => 4,
            DType::uint32 => 4,
            DType::int64 => 8,
            DType::uint64 => 8,
            DType::float => 4,
            DType::double => 8,
            DType::Block => 1,
        }
    }

    /// The type that a name spells; white space around the name is dropped.
    pub fn new(name: &str) -> (r: Option<DType>)
        ensures
            r == dtype_of(trim(name@)),
    {
        DType::of_text(&trimmed(&chars_of(name)))
    }

    pub fn size(&self) -> (n: usize)
        ensures
            n == self.spec_size(),
    {
        match self {
            DType::int8 => 1,
            DType::uint8 => 1,
            DType::int16 => 2,
            DType::uint16 => 2,
            DType::int32 => 4,
            DType::uint32 => 4,
            DType::int64 => 8,
            DType::uint64 => 8,
            DType::float => 4,
            DType::double => 8,
            DType::Block => 1,
        }
    }
}

impl HeaderDef for DType {
    open spec fn prefixes() -> Seq<Seq<char>> {
        seq!["type: "@]
    }

    open spec fn field() -> Field {
        Field::Type
    }

    /// The trimmed text, as one of the type names.
    open spec fn value_of(rest: Seq<char>) -> Option<DType> {
        dtype_of(trim(rest))
    }

    open spec fn text_of(v: DType) -> Seq<char> {
        dtype_text(v)
    }

    fn patterns() -> (r: Vec<&'static str>) {
        let r = vec!["type: "];
        assert(views(r@) =~= Self::prefixes());
        r
    }

    fn tag() -> Field {
        Field::Type
    }

    fn parse_value(rest: &Vec<char>) -> Option<Self> {
        let t = trimmed(rest);
        DType::of_text(&t)
    }

    fn value_text(&self) -> Vec<char> {
        chars_of(self.text())
    }
}

/// How the payload is stored.
#[derive(Debug, Clone, Copy, PartialEq, Eq, Structural)]
#[allow(non_camel_case_types)]
pub enum Encoding {
    raw,
    txt,
    hex,
    rawgz,
    rawbz2,
}

impl View for Encoding {
    type V = Encoding;

    open spec fn view(&self) -> Encoding {
        *self
    }
}

/// The encoding that a spelling names.
pub open spec fn encoding_of(t: Seq<char>) -> Option<Encoding> {
    if t == "raw"@ {
        Some(Encoding::raw)
    } else if t == "txt"@ || t == "text"@ || t == "ascii"@ {
        Some(Encoding::txt)
    } else if t == "gz"@ || t == "gzip"@ {
        Some(Encoding::rawgz)
    } else if t == "bz2"@ || t == "bzip2"@ {
        Some(Encoding::rawbz2)
    } else if t == "hex"@ {
        Some(Encoding::hex)
    } else {
        None
    }
}

/// The canonical spelling of a encoding.
pub open spec fn encoding_text(v: Encoding) -> Seq<char> {
    match v {
        Encoding::raw => "raw"@,
        Encoding::txt => "txt"@,
        Encoding::hex => "hex"@,
        Encoding::rawgz => "gzip"@,
        Encoding::rawbz2 => "bzip2"@,
    }
}

impl Encoding {
    /// Looks a spelling up.
    pub fn of_text(t: &Vec<char>) -> (r: Option<Encoding>)
        ensures
            r == encoding_of(t@),
    {
        if text_is(t, "raw") {
            Some(Encoding::raw)
        } else if text_is(t, "txt") || text_is(t, "text") || text_is(t, "ascii") {
            Some(Encoding::txt)
        } else if text_is(t, "gz") || text_is(t, "gzip") {
            Some(Encoding::rawgz)
        } else if text_is(t, "bz2") || text_is(t, "bzip2") {
            Some(Encoding::rawbz2)
        } else if text_is(t, "hex") {
            Some(Encoding::hex)
        } else {
            None
        }
    }

    /// The canonical spelling.
    pub fn text(&self) -> (r: &'static str)
        ensures
            r@ == encoding_text(*self),
    {
        match self {
            Encoding::raw => "raw",
            Encoding::txt => "txt",
            Encoding::hex => "hex",
            Encoding::rawgz => "gzip",
            Encoding::rawbz2 => "bzip2",
        }
    }
}

impl Encoding {
    /// The extension of a detached data file with this encoding.
    pub open spec fn spec_file_ext(self) -> Seq<char> {
        match self {
            Encoding::raw => "raw"@,
            Encoding::txt => "txt"@,
            Encoding::hex => "hex"@,
            Encoding::rawgz => "raw.gz"@,
            Encoding::rawbz2 => "raw.bz2"@,
        }
    }

    pub fn file_ext(&self) -> (r: &'static str)
        ensures
            r@ == self.spec_file_ext(),
    {
        match self {
            Encoding::raw => "raw",
            Encoding::txt => "txt",
            Encoding::hex => "hex",
            Encoding::rawgz => "raw.gz",
            Encoding::rawbz2 => "raw.bz2",
        }
    }
}

impl HeaderDef for Encoding {
    open spec fn prefixes() -> Seq<Seq<char>> {
        seq!["encoding: "@]
    }

    open spec fn field() -> Field {
        Field::Encoding
    }

    /// The trimmed text in lower case, as one of the encoding names.
    open spec fn value_of(rest: Seq<char>) -> Option<Encoding> {
        encoding_of(lower(trim(rest)))
    }

    open spec fn text_of(v: Encoding) -> Seq<char> {
        encoding_text(v)
    }

    fn patterns() -> (r: Vec<&'static str>) {
        let r = vec!["encoding: "];
        assert(views(r@) =~= Self::prefixes());
        r
    }

    fn tag() -> Field {
        Field::Encoding
    }

    fn parse_value(rest: &Vec<char>) -> Option<Self> {
        let t = lowered(&trimmed(rest));
        Encoding::of_text(&t)
    }

    fn value_text(&self) -> Vec<char> {
        chars_of(self.text())
    }
}

/// The byte order of the payload.
#[derive(Debug, Clone, Copy, PartialEq, Eq, Structural)]
pub enum Endian {
    Big,
    Little,
}

impl View for Endian {
    type V = Endian;

    open spec fn view(&self) -> Endian {
        *self
    }
}

/// The byte order that a spelling names.
pub open spec fn endian_of(t: Seq<char>) -> Option<Endian> {
    if t == "big"@ {
        Some(Endian::Big)
    } else if t == "little"@ {
        Some(Endian::Little)
    } else {
        None
    }
}

/// The canonical spelling of a byte order.
pub open spec fn endian_text(v: Endian) -> Seq<char> {
    match v {
        Endian::Big => "big"@,
        Endian::Little => "little"@,
    }
}

impl Endian {
    /// Looks a spelling up.
    pub fn of_text(t: &Vec<char>) -> (r: Option<Endian>)
        ensures
            r == endian_of(t@),
    {
        if text_is(t, "big") {
            Some(Endian::Big)
        } else if text_is(t, "little") {
            Some(Endian::Little)
        } else {
            None
        }
    }

    /// The canonical spelling.
    pub fn text(&self) -> (r: &'static str)
        ensures
            r@ == endian_text(*self),
    {
        match self {
            Endian::Big => "big",
            Endian::Little => "little",
        }
    }
}

impl HeaderDef for Endian {
    open spec fn prefixes() -> Seq<Seq<char>> {
        seq!["endian: "@]
    }

    open spec fn field() -> Field {
        Field::Endian
    }

    /// The trimmed text in lower case, `big` or `little`.
    open spec fn value_of(rest: Seq<char>) -> Option<Endian> {
        endian_of(lower(trim(rest)))
    }

    open spec fn text_of(v: Endian) -> Seq<char> {
        endian_text(v)
    }

    fn patterns() -> (r: Vec<&'static str>) {
        let r = vec!["endian: "];
        assert(views(r@) =~= Self::prefixes());
        r
    }

    fn tag() -> Field {
        Field::Endian
    }

    fn parse_value(rest: &Vec<char>) -> Option<Self> {
        let t = lowered(&trimmed(rest));
        Endian::of_text(&t)
    }

    fn value_text(&self) -> Vec<char> {
        chars_of(self.text())
    }
}

/// A named coordinate space.
#[derive(Debug, Clone, Copy, PartialEq, Eq, Structural)]
#[allow(non_camel_case_types)]
pub enum Space {
    RAS,
    LAS,
    LPS,
    RAST,
    LAST,
    LPST,
    scanner_xyz,
    scanner_xyz_time,
    _3D_right_handed,
    _3D_left_handed,
    _3D_right_handed_time,
    _3D_left_handed_time,
}

impl View for Space {
    type V = Space;

    open spec fn view(&self) -> Space {
        *self
    }
}

/// The space that a spelling names.
pub open spec fn space_of(t: Seq<char>) -> Option<Space> {
    if t == "right-anterior-superior"@ || t == "ras"@ {
        Some(Space::RAS)
    } else if t == "left-anterior-superior"@ || t == "las"@ {
        Some(Space::LAS)
    } else if t == "left-posterior-superior"@ || t == "lps"@ {
        Some(Space::LPS)
    } else if t == "right-anterior-superior-time"@ || t == "rast"@ {
        Some(Space::RAST)
    } else if t == "left-anterior-superior-time"@ || t == "last"@ {
        Some(Space::LAST)
    } else if t == "left-posterior-superior-time"@ || t == "lpst"@ {
        Some(Space::LPST)
    } else if t == "scanner-xyz"@ {
        Some(Space::scanner_xyz)
    } else if t == "scanner-xyz-time"@ {
        Some(Space::scanner_xyz_time)
    } else if t == "3d-right-handed"@ {
        Some(Space::_3D_right_handed)
    } else if t == "3d-left-handed"@ {
        Some(Space::_3D_left_handed)
    } else if t == "3d-right-handed-time"@ {
        Some(Space::_3D_right_handed_time)
    } else if t == "3d-left-handed-time"@ {
        Some(Space::_3D_left_handed_time)
    } else {
        None
    }
}

/// The canonical spelling of a space.
pub open spec fn space_text(v: Space) -> Seq<char> {
    match v {
        Space::RAS => "right-anterior-superior"@,
        Space::LAS => "left-anterior-superior"@,
        Space::LPS => "left-posterior-superior"@,
        Space::RAST => "right-anterior-superior-time"@,
        Space::LAST => "left-anterior-superior-time"@,
        Space::LPST => "left-posterior-superior-time"@,
        Space::scanner_xyz => "scanner-xyz"@,
        Space::scanner_xyz_time => "scanner-xyz-time"@,
        Space::_3D_right_handed => "3D-right-handed"@,
        Space::_3D_left_handed => "3D-left-handed"@,
        Space::_3D_right_handed_time => "3D-right-handed-time"@,
        Space::_3D_left_handed_time => "3D-left-handed-time"@,
    }
}

impl Space {
    /// Looks a spelling up.
    pub fn of_text(t: &Vec<char>) -> (r: Option<Space>)
        ensures
            r == space_of(t@),
    {
        if text_is(t, "right-anterior-superior") || text_is(t, "ras") {
            Some(Space::RAS)
        } else if text_is(t, "left-anterior-superior") || text_is(t, "las") {
            Some(Space::LAS)
        } else if text_is(t, "left-posterior-superior") || text_is(t, "lps") {
            Some(Space::LPS)
        } else if text_is(t, "right-anterior-superior-time") || text_is(t, "rast") {
            Some(Space::RAST)
        } else if text_is(t, "left-anterior-superior-time") || text_is(t, "last") {
            Some(Space::LAST)
        } else if text_is(t, "left-posterior-superior-time") || text_is(t, "lpst") {
            Some(Space::LPST)
        } else if text_is(t, "scanner-xyz") {
            Some(Space::scanner_xyz)
        } else if text_is(t, "scanner-xyz-time") {
            Some(Space::scanner_xyz_time)
        } else if text_is(t, "3d-right-handed") {
            Some(Space::_3D_right_handed)
        } else if text_is(t, "3d-left-handed") {
            Some(Space::_3D_left_handed)
        } else if text_is(t, "3d-right-handed-time") {
            Some(Space::_3D_right_handed_time)
        } else if text_is(t, "3d-left-handed-time") {
            Some(Space::_3D_left_handed_time)
        } else {
            None
        }
    }

    /// The canonical spelling.
    pub fn text(&self) -> (r: &'static str)
        ensures
            r@ == space_text(*self),
    {
        match self {
            Space::RAS => "right-anterior-superior",
            Space::LAS => "left-anterior-superior",
            Space::LPS => "left-posterior-superior",
            Space::RAST => "right-anterior-superior-time",
            Space::LAST => "left-anterior-superior-time",
            Space::LPST => "left-posterior-superior-time",
            Space::scanner_xyz => "scanner-xyz",
            Space::scanner_xyz_time => "scanner-xyz-time",
            Space::_3D_right_handed => "3D-right-handed",
            Space::_3D_left_handed => "3D-left-handed",
            Space::_3D_right_handed_time => "3D-right-handed-time",
            Space::_3D_left_handed_time => "3D-left-handed-time",
        }
    }
}

impl HeaderDef for Space {
    open spec fn prefixes() -> Seq<Seq<char>> {
        seq!["space: "@]
    }

    open spec fn field() -> Field {
        Field::Space
    }

    /// The trimmed text in lower case, as a long or a short space name.
    open spec fn value_of(rest: Seq<char>) -> Option<Space> {
        space_of(lower(trim(rest)))
    }

    open spec fn text_of(v: Space) -> Seq<char> {
        space_text(v)
    }

    fn patterns() -> (r: Vec<&'static str>) {
        let r = vec!["space: "];
        assert(views(r@) =~= Self::prefixes());
        r
    }

    fn tag() -> Field {
        Field::Space
    }

    fn parse_value(rest: &Vec<char>) -> Option<Self> {
        let t = lowered(&trimmed(rest));
        Space::of_text(&t)
    }

    fn value_text(&self) -> Vec<char> {
        chars_of(self.text())
    }
}

/// What an axis stands for.
#[derive(Debug, Clone, Copy, PartialEq, Eq, Structural)]
#[allow(non_camel_case_types)]
pub enum Kind {
    domain,
    space,
    time,
    list,
    point,
    vector,
    covariant_vector,
    normal,
    stub,
    scalar,
    complex,
    _2_vector,
    _3_color,
    RGB_color,
    HSV_color,
    XYZ_color,
    _4_color,
    RGBA_color,
    _3_vector,
    _3_gradient,
    _3_normal,
    _4_vector,
    quaternion,
    _2D_symmetric_matrix,
    _2D_masked_symmetric_matrix,
    _2D_matrix,
    _2D_masked_matrix,
    _3D_symmetric_matrix,
    _3D_masked_symmetric_matrix,
    _3D_matrix,
    _3D_masked_matrix,
    none,
}

impl View for Kind {
    type V = Kind;

    open spec fn view(&self) -> Kind {
        *self
    }
}

/// The kind that a spelling names.
pub open spec fn kind_of(t: Seq<char>) -> Option<Kind> {
    if t == "domain"@ {
        Some(Kind::domain)
    } else if t == "space"@ {
        Some(Kind::space)
    } else if t == "time"@ {
        Some(Kind::time)
    } else if t == "list"@ {
        Some(Kind::list)
    } else if t == "point"@ {
        Some(Kind::point)
    } else if t == "vector"@ {
        Some(Kind::vector)
    } else if t == "covariant-vector"@ {
        Some(Kind::covariant_vector)
    } else if t == "normal"@ {
        Some(Kind::normal)
    } else if t == "stub"@ {
        Some(Kind::stub)
    } else if t == "scalar"@ {
        Some(Kind::scalar)
    } else if t == "complex"@ {
        Some(Kind::complex)
    } else if t == "2-vector"@ {
        Some(Kind::_2_vector)
    } else if t == "3-color"@ {
        Some(Kind::_3_color)
    } else if t == "RGB-color"@ {
        Some(Kind::RGB_color)
    } else if t == "HSV-color"@ {
        Some(Kind::HSV_color)
    } else if t == "XYZ-color"@ {
        Some(Kind::XYZ_color)
    } else if t == "4-color"@ {
        Some(Kind::_4_color)
    } else if t == "RGBA-color"@ {
        Some(Kind::RGBA_color)
    } else if t == "3-vector"@ {
        Some(Kind::_3_vector)
    } else if t == "3-gradient"@ {
        Some(Kind::_3_gradient)
    } else if t == "3-normal"@ {
        Some(Kind::_3_normal)
    } else if t == "4-vector"@ {
        Some(Kind::_4_vector)
    } else if t == "quaternion"@ {
        Some(Kind::quaternion)
    } else if t == "2D-symmetric-matrix"@ {
        Some(Kind::_2D_symmetric_matrix)
    } else if t == "2D-masked-symmetric-matrix"@ {
        Some(Kind::_2D_masked_symmetric_matrix)
    } else if t == "2D-matrix"@ {
        Some(Kind::_2D_matrix)
    } else if t == "2D-masked-matrix"@ {
        Some(Kind::_2D_masked_matrix)
    } else if t == "3D-symmetric-matrix"@ {
        Some(Kind::_3D_symmetric_matrix)
    } else if t == "3D-masked-symmetric-matrix"@ {
        Some(Kind::_3D_masked_symmetric_matrix)
    } else if t == "3D-matrix"@ {
        Some(Kind::_3D_matrix)
    } else if t == "3D-masked-matrix"@ {
        Some(Kind::_3D_masked_matrix)
    } else if t == "none"@ {
        Some(Kind::none)
    } else {
        None
    }
}

/// The canonical spelling of a kind.
pub open spec fn kind_text(v: Kind) -> Seq<char> {
    match v {
        Kind::domain => "domain"@,
        Kind::space => "space"@,
        Kind::time => "time"@,
        Kind::list => "list"@,
        Kind::point => "point"@,
        Kind::vector => "vector"@,
        Kind::covariant_vector => "covariant-vector"@,
        Kind::normal => "normal"@,
        Kind::stub => "stub"@,
        Kind::scalar => "scalar"@,
        Kind::complex => "complex"@,
        Kind::_2_vector => "2-vector"@,
        Kind::_3_color => "3-color"@,
        Kind::RGB_color => "RGB-color"@,
        Kind::HSV_color => "HSV-color"@,
        Kind::XYZ_color => "XYZ-color"@,
        Kind::_4_color => "4-color"@,
        Kind::RGBA_color => "RGBA-color"@,
        Kind::_3_vector => "3-vector"@,
        Kind::_3_gradient => "3-gradient"@,
        Kind::_3_normal => "3-normal"@,
        Kind::_4_vector => "4-vector"@,
        Kind::quaternion => "quaternion"@,
        Kind::_2D_symmetric_matrix => "2D-symmetric-matrix"@,
        Kind::_2D_masked_symmetric_matrix => "2D-masked-symmetric-matrix"@,
        Kind::_2D_matrix => "2D-matrix"@,
        Kind::_2D_masked_matrix => "2D-masked-matrix"@,
        Kind::_3D_symmetric_matrix => "3D-symmetric-matrix"@,
        Kind::_3D_masked_symmetric_matrix => "3D-masked-symmetric-matrix"@,
        Kind::_3D_matrix => "3D-matrix"@,
        Kind::_3D_masked_matrix => "3D-masked-matrix"@,
        Kind::none => "none"@,
    }
}

impl Kind {
    /// Looks a spelling up.
    pub fn of_text(t: &Vec<char>) -> (r: Option<Kind>)
        ensures
            r == kind_of(t@),
    {
        if text_is(t, "domain") {
            Some(Kind::domain)
        } else if text_is(t, "space") {
            Some(Kind::space)
        } else if text_is(t, "time") {
            Some(Kind::time)
        } else if text_is(t, "list") {
            Some(Kind::list)
        } else if text_is(t, "point") {
            Some(Kind::point)
        } else if text_is(t, "vector") {
            Some(Kind::vector)
        } else if text_is(t, "covariant-vector") {
            Some(Kind::covariant_vector)
        } else if text_is(t, "normal") {
            Some(Kind::normal)
        } else if text_is(t, "stub") {
            Some(Kind::stub)
        } else if text_is(t, "scalar") {
            Some(Kind::scalar)
        } else if text_is(t, "complex") {
            Some(Kind::complex)
        } else if text_is(t, "2-vector") {
            Some(Kind::_2_vector)
        } else if text_is(t, "3-color") {
            Some(Kind::_3_color)
        } else if text_is(t, "RGB-color") {
            Some(Kind::RGB_color)
        } else if text_is(t, "HSV-color") {
            Some(Kind::HSV_color)
        } else if text_is(t, "XYZ-color") {
            Some(Kind::XYZ_color)
        } else if text_is(t, "4-color") {
            Some(Kind::_4_color)
        } else if text_is(t, "RGBA-color") {
            Some(Kind::RGBA_color)
        } else if text_is(t, "3-vector") {
            Some(Kind::_3_vector)
        } else if text_is(t, "3-gradient") {
            Some(Kind::_3_gradient)
        } else if text_is(t, "3-normal") {
            Some(Kind::_3_normal)
        } else if text_is(t, "4-vector") {
            Some(Kind::_4_vector)
        } else if text_is(t, "quaternion") {
            Some(Kind::quaternion)
        } else if text_is(t, "2D-symmetric-matrix") {
            Some(Kind::_2D_symmetric_matrix)
        } else if text_is(t, "2D-masked-symmetric-matrix") {
            Some(Kind::_2D_masked_symmetric_matrix)
        } else if text_is(t, "2D-matrix") {
            Some(Kind::_2D_matrix)
        } else if text_is(t, "2D-masked-matrix") {
            Some(Kind::_2D_masked_matrix)
        } else if text_is(t, "3D-symmetric-matrix") {
            Some(Kind::_3D_symmetric_matrix)
        } else if text_is(t, "3D-masked-symmetric-matrix") {
            Some(Kind::_3D_masked_symmetric_matrix)
        } else if text_is(t, "3D-matrix") {
            Some(Kind::_3D_matrix)
        } else if text_is(t, "3D-masked-matrix") {
            Some(Kind::_3D_masked_matrix)
        } else if text_is(t, "none") {
            Some(Kind::none)
        } else {
            None
        }
    }

    /// The canonical spelling.
    pub fn text(&self) -> (r: &'static str)
        ensures
            r@ == kind_text(*self),
    {
        match self {
            Kind::domain => "domain",
            Kind::space => "space",
            Kind::time => "time",
            Kind::list => "list",
            Kind::point => "point",
            Kind::vector => "vector",
            Kind::covariant_vector => "covariant-vector",
            Kind::normal => "normal",
            Kind::stub => "stub",
            Kind::scalar => "scalar",
            Kind::complex => "complex",
            Kind::_2_vector => "2-vector",
            Kind::_3_color => "3-color",
            Kind::RGB_color => "RGB-color",
            Kind::HSV_color => "HSV-color",
            Kind::XYZ_color => "XYZ-color",
            Kind::_4_color => "4-color",
            Kind::RGBA_color => "RGBA-color",
            Kind::_3_vector => "3-vector",
            Kind::_3_gradient => "3-gradient",
            Kind::_3_normal => "3-normal",
            Kind::_4_vector => "4-vector",
            Kind::quaternion => "quaternion",
            Kind::_2D_symmetric_matrix => "2D-symmetric-matrix",
            Kind::_2D_masked_symmetric_matrix => "2D-masked-symmetric-matrix",
            Kind::_2D_matrix => "2D-matrix",
            Kind::_2D_masked_matrix => "2D-masked-matrix",
            Kind::_3D_symmetric_matrix => "3D-symmetric-matrix",
            Kind::_3D_masked_symmetric_matrix => "3D-masked-symmetric-matrix",
            Kind::_3D_matrix => "3D-matrix",
            Kind::_3D_masked_matrix => "3D-masked-matrix",
            Kind::none => "none",
        }
    }
}

impl Kind {
    /// Reads one kind name; white space around it is dropped.
    pub fn from_str(s: &str) -> (r: Result<Kind, HeaderError>)
        ensures
            match r {
                Ok(k) => kind_of(trim(s@)) == Some(k),
                Err(e) => kind_of(trim(s@)) is None && e == HeaderError::Malformed(Field::Kinds),
            },
    {
        let t = trimmed(&chars_of(s));
        match Kind::of_text(&t) {
            Some(k) => Ok(k),
            None => Err(HeaderError::Malformed(Field::Kinds)),
        }
    }

    /// The canonical name.
    pub fn to_string(&self) -> (r: String)
        ensures
            r@ == kind_text(*self),
    {
        crate::text::string_of(&chars_of(self.text()))
    }
}

/// The kind of every axis.
#[derive(Debug, Clone)]
pub struct Kinds {
    kinds: Vec<Kind>,
}

impl View for Kinds {
    type V = Seq<Kind>;

    closed spec fn view(&self) -> Seq<Kind> {
        self.kinds@
    }
}

impl Kinds {
    pub fn from_vec(kinds: Vec<Kind>) -> (k: Kinds)
        ensures
            k@ == kinds@,
    {
        Kinds { kinds }
    }

    pub fn kinds(&self) -> (v: &Vec<Kind>)
        ensures
            v@ == self@,
    {
        &self.kinds
    }
}

impl HeaderDef for Kinds {
    open spec fn prefixes() -> Seq<Seq<char>> {
        seq!["kinds: "@]
    }

    open spec fn field() -> Field {
        Field::Kinds
    }

    /// One kind name for each blank-separated word; no value where a word
    /// names no kind.
    open spec fn value_of(rest: Seq<char>) -> Option<Seq<Kind>> {
        collect(tokens(trim(rest)).map_values(|t: Seq<char>| kind_of(trim(t))))
    }

    open spec fn text_of(v: Seq<Kind>) -> Seq<char> {
        join(v.map_values(|k: Kind| kind_text(k)), " "@)
    }

    fn patterns() -> (r: Vec<&'static str>) {
        let r = vec!["kinds: "];
        assert(views(r@) =~= Self::prefixes());
        r
    }

    fn tag() -> Field {
        Field::Kinds
    }

    fn parse_value(rest: &Vec<char>) -> Option<Self> {
        let toks = split_blank(&trimmed(rest));
        let ghost named = tokens(trim(rest@)).map_values(|t: Seq<char>| kind_of(trim(t)));
        let mut kinds: Vec<Kind> = Vec::new();
        let mut i: usize = 0;
        while i < toks.len()
            invariant
                0 <= i <= toks.len(),
                views(toks@) == tokens(trim(rest@)),
                named == tokens(trim(rest@)).map_values(|t: Seq<char>| kind_of(trim(t))),
                kinds.len() == i,
                forall|j: int| 0 <= j < i ==> (#[trigger] named[j]) == Some(kinds@[j]),
            decreases toks.len() - i,
        {
            assert(views(toks@)[i as int] == toks@[i as int]@);
            let t = trimmed(&toks[i]);
            match Kind::of_text(&t) {
                Some(k) => kinds.push(k),
                None => {
                    assert(named[i as int] is None);
                    return None;
                },
            }
            i += 1;
        }
        assert(named.len() == toks.len());
        assert(kinds@ =~= named.map_values(|o: Option<Kind>| o->0));
        Some(Kinds { kinds })
    }

    fn value_text(&self) -> Vec<char> {
        let mut names: Vec<Vec<char>> = Vec::new();
        let mut i: usize = 0;
        while i < self.kinds.len()
            invariant
                0 <= i <= self.kinds.len(),
                names.len() == i,
                forall|j: int| 0 <= j < i ==> (#[trigger] names@[j])@ == kind_text(self.kinds@[j]),
            decreases self.kinds.len() - i,
        {
            names.push(chars_of(self.kinds[i].text()));
            i += 1;
        }
        assert(views(names@) =~= self.kinds@.map_values(|k: Kind| kind_text(k)));
        joined(&names, " ")
    }
}

/// Where on an axis the samples sit.
#[derive(Debug, Clone, Copy, PartialEq, Eq, Structural)]
pub enum Centering {
    Cell,
    Node,
    Unknown,
}

/// The centering that a word names: `cell`, `node`, and none for any other word.
pub open spec fn centering_of(t: Seq<char>) -> Centering {
    if t == "cell"@ {
        Centering::Cell
    } else if t == "node"@ {
        Centering::Node
    } else {
        Centering::Unknown
    }
}

/// The canonical spelling of a centering.
pub open spec fn centering_text(c: Centering) -> Seq<char> {
    match c {
        Centering::Cell => "cell"@,
        Centering::Node => "node"@,
        Centering::Unknown => "none"@,
    }
}

impl Centering {
    /// Looks a word up.
    pub fn of_text(t: &Vec<char>) -> (r: Centering)
        ensures
            r == centering_of(t@),
    {
        if text_is(t, "cell") {
            Centering::Cell
        } else if text_is(t, "node") {
            Centering::Node
        } else {
            Centering::Unknown
        }
    }

    /// The canonical spelling.
    pub fn text(&self) -> (r: &'static str)
        ensures
            r@ == centering_text(*self),
    {
        match self {
            Centering::Cell => "cell",
            Centering::Node => "node",
            Centering::Unknown => "none",
        }
    }

    /// The canonical spelling, as a string.
    pub fn to_string(&self) -> (r: String)
        ensures
            r@ == centering_text(*self),
    {
        crate::text::string_of(&chars_of(self.text()))
    }
}

/// The centering of every axis.
#[derive(Debug, Clone)]
pub struct Centerings {
    centerings: Vec<Centering>,
}

impl View for Centerings {
    type V = Seq<Centering>;

    closed spec fn view(&self) -> Seq<Centering> {
        self.centerings@
    }
}

impl Centerings {
    pub fn from_vec(centerings: Vec<Centering>) -> (c: Centerings)
        ensures
            c@ == centerings@,
    {
        Centerings { centerings }
    }

    pub fn centerings(&self) -> (v: &Vec<Centering>)
        ensures
            v@ == self@,
    {
        &self.centerings
    }
}

impl HeaderDef for Centerings {
    open spec fn prefixes() -> Seq<Seq<char>> {
        seq!["centerings: "@, "centers: "@]
    }

    open spec fn field() -> Field {
        Field::Centerings
    }

    /// One centering for each blank-separated word.
    open spec fn value_of(rest: Seq<char>) -> Option<Seq<Centering>> {
        Some(tokens(trim(rest)).map_values(|t: Seq<char>| centering_of(t)))
    }

    open spec fn text_of(v: Seq<Centering>) -> Seq<char> {
        join(v.map_values(|c: Centering| centering_text(c)), " "@)
    }

    fn patterns() -> (r: Vec<&'static str>) {
        let r = vec!["centerings: ", "centers: "];
        assert(views(r@) =~= Self::prefixes());
        r
    }

    fn tag() -> Field {
        Field::Centerings
    }

    fn parse_value(rest: &Vec<char>) -> Option<Self> {
        let toks = split_blank(&trimmed(rest));
        let mut centerings: Vec<Centering> = Vec::new();
        let mut i: usize = 0;
        while i < toks.len()
            invariant
                0 <= i <= toks.len(),
                views(toks@) == tokens(trim(rest@)),
                centerings.len() == i,
                forall|j: int| 0 <= j < i ==> #[trigger] centerings@[j] == centering_of(toks@[j]@),
            decreases toks.len() - i,
        {
            centerings.push(Centering::of_text(&toks[i]));
            i += 1;
        }
        assert forall|j: int| 0 <= j < toks.len() implies #[trigger] centerings@[j] == centering_of(
            tokens(trim(rest@))[j],
        ) by {
            assert(views(toks@)[j] == toks@[j]@);
        }
        assert(centerings@ =~= tokens(trim(rest@)).map_values(|t: Seq<char>| centering_of(t)));
        Some(Centerings { centerings })
    }

    fn value_text(&self) -> Vec<char> {
        let mut names: Vec<Vec<char>> = Vec::new();
        let mut i: usize = 0;
        while i < self.centerings.len()
            invariant
                0 <= i <= self.centerings.len(),
                names.len() == i,
                forall|j: int| 0 <= j < i ==> (#[trigger] names@[j])@ == centering_text(self.centerings@[j]),
            decreases self.centerings.len() - i,
        {
            names.push(chars_of(self.centerings[i].text()));
            i += 1;
        }
        assert(views(names@) =~= self.centerings@.map_values(|c: Centering| centering_text(c)));
        joined(&names, " ")
    }
}

} // verus!
