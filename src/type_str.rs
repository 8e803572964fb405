//! The type-string: endianness, kind, size and optional time units of one
//! scalar, written as text like `<i4`, `|S12` or `>m8[ns]`.
use vstd::prelude::*;
use vstd::string::*;

verus! {

/// The first character of a type-string.
#[derive(Debug, Copy, Clone, PartialEq, Eq, Structural, PartialOrd, Ord, Hash)]
pub enum Endianness {
    /// Code `<`.
    Little,
    /// Code `>`.
    Big,
    /// Code `|`: the byte order does not matter for this type.
    Irrelevant,
}

/// The second character of a type-string: what the bytes hold.
#[derive(Debug, Copy, Clone, PartialEq, Eq, Structural, PartialOrd, Ord, Hash)]
pub enum TypeKind {
    /// Code `b`.
    Bool,
    /// Code `i`.
    Int,
    /// Code `u`.
    Uint,
    /// Code `f`.
    Float,
    /// Code `c`: a real part followed by an imaginary part.
    Complex,
    /// Code `m`: a time span, stored as a signed 64-bit integer.
    TimeDelta,
    /// Code `M`: a point in time, stored as a 64-bit integer.
    DateTime,
    /// Code `S`: a zero-padded byte string of `size` bytes.
    ByteStr,
    /// Code `U`: `size` code points, each a 32-bit integer.
    UnicodeStr,
    /// Code `V`: a binary blob of exactly `size` bytes.
    RawData,
}

/// The units of the `m` and `M` kinds, written in brackets after the size.
#[derive(Debug, Copy, Clone, PartialEq, Eq, Structural, PartialOrd, Ord, Hash)]
pub enum TimeUnits {
    /// Code `Y`.
    Year,
    /// Code `M`.
    Month,
    /// Code `W`.
    Week,
    /// Code `D`.
    Day,
    /// Code `h`.
    Hour,
    /// Code `m`.
    Minute,
    /// Code `s`.
    Second,
    /// Code `ms`.
    Millisecond,
    /// Code `us`.
    Microsecond,
    /// Code `ns`.
    Nanosecond,
    /// Code `ps`.
    Picosecond,
    /// Code `fs`.
    Femtosecond,
    /// Code `as`.
    Attosecond,
}

pub open spec fn endianness_code(e: Endianness) -> char {
    match e {
        Endianness::Little => '<',
        Endianness::Big => '>',
        Endianness::Irrelevant => '|',
    }
}

pub open spec fn endianness_of_code(c: char) -> Option<Endianness> {
    if c == '<' {
        Some(Endianness::Little)
    } else if c == '>' {
        Some(Endianness::Big)
    } else if c == '|' {
        Some(Endianness::Irrelevant)
    } else {
        None
    }
}

pub open spec fn kind_code(k: TypeKind) -> char {
    match k {
        TypeKind::Bool => 'b',
        TypeKind::Int => 'i',
        TypeKind::Uint => 'u',
        TypeKind::Float => 'f',
        TypeKind::Complex => 'c',
        TypeKind::TimeDelta => 'm',
        TypeKind::DateTime => 'M',
        TypeKind::ByteStr => 'S',
        TypeKind::UnicodeStr => 'U',
        TypeKind::RawData => 'V',
    }
}

pub open spec fn kind_of_code(c: char) -> Option<TypeKind> {
    if c == 'b' {
        Some(TypeKind::Bool)
    } else if c == 'i' {
        Some(TypeKind::Int)
    } else if c == 'u' {
        Some(TypeKind::Uint)
    } else if c == 'f' {
        Some(TypeKind::Float)
    } else if c == 'c' {
        Some(TypeKind::Complex)
    } else if c == 'm' {
        Some(TypeKind::TimeDelta)
    } else if c == 'M' {
        Some(TypeKind::DateTime)
    } else if c == 'S' {
        Some(TypeKind::ByteStr)
    } else if c == 'U' {
        Some(TypeKind::UnicodeStr)
    } else if c == 'V' {
        Some(TypeKind::RawData)
    } else {
        None
    }
}

pub open spec fn units_code(u: TimeUnits) -> Seq<char> {
    match u {
        TimeUnits::Year => seq!['Y'],
        TimeUnits::Month => seq!['M'],
        TimeUnits::Week => seq!['W'],
        TimeUnits::Day => seq!['D'],
        TimeUnits::Hour => seq!['h'],
        TimeUnits::Minute => seq!['m'],
        TimeUnits::Second => seq!['s'],
        TimeUnits::Millisecond => seq!['m', 's'],
        TimeUnits::Microsecond => seq!['u', 's'],
        TimeUnits::Nanosecond => seq!['n', 's'],
        TimeUnits::Picosecond => seq!['p', 's'],
        TimeUnits::Femtosecond => seq!['f', 's'],
        TimeUnits::Attosecond => seq!['a', 's'],
    }
}

/// The units whose code is `t`, if any.
pub open spec fn units_of_code(t: Seq<char>) -> Option<TimeUnits> {
    if t.len() == 1 {
        if t[0] == 'Y' {
            Some(TimeUnits::Year)
        } else if t[0] == 'M' {
            Some(TimeUnits::Month)
        } else if t[0] == 'W' {
            Some(TimeUnits::Week)
        } else if t[0] == 'D' {
            Some(TimeUnits::Day)
        } else if t[0] == 'h' {
            Some(TimeUnits::Hour)
        } else if t[0] == 'm' {
            Some(TimeUnits::Minute)
        } else if t[0] == 's' {
            Some(TimeUnits::Second)
        } else {
            None
        }
    } else if t.len() == 2 && t[1] == 's' {
        if t[0] == 'm' {
            Some(TimeUnits::Millisecond)
        } else if t[0] == 'u' {
            Some(TimeUnits::Microsecond)
        } else if t[0] == 'n' {
            Some(TimeUnits::Nanosecond)
        } else if t[0] == 'p' {
            Some(TimeUnits::Picosecond)
        } else if t[0] == 'f' {
            Some(TimeUnits::Femtosecond)
        } else if t[0] == 'a' {
            Some(TimeUnits::Attosecond)
        } else {
            None
        }
    } else {
        None
    }
}

/// Every code decodes back to its units.
pub proof fn lemma_units_code_round_trip(u: TimeUnits)
    ensures
        units_of_code(units_code(u)) == Some(u),
{
}

/// A code that decodes to some units is that unit's code.
pub proof fn lemma_units_of_code_exact(t: Seq<char>)
    ensures
        units_of_code(t) matches Some(u) ==> units_code(u) == t,
{
    if let Some(u) = units_of_code(t) {
        assert(units_code(u) =~= t);
    }
}

impl Endianness {
    pub fn from_char(c: char) -> (r: Option<Self>)
        ensures
            r == endianness_of_code(c),
    {
        match c {
            '<' => Some(Endianness::Little),
            '>' => Some(Endianness::Big),
            '|' => Some(Endianness::Irrelevant),
            _ => None,
        }
    }

    pub fn to_str(self) -> (r: &'static str)
        ensures
            r@ == seq![endianness_code(self)],
    {
        proof {
            reveal_strlit("<");
            reveal_strlit(">");
            reveal_strlit("|");
        }
        match self {
            Endianness::Little => "<",
            Endianness::Big => ">",
            Endianness::Irrelevant => "|",
        }
    }

    /// Whether values must be byte-swapped between these two orders.
    pub fn requires_swap(self, other: Endianness) -> (r: bool)
        ensures
            r == ((self == Endianness::Little && other == Endianness::Big) || (self
                == Endianness::Big && other == Endianness::Little)),
    {
        match (self, other) {
            (Endianness::Little, Endianness::Big) | (Endianness::Big, Endianness::Little) => true,
            _ => false,
        }
    }
}

impl TypeKind {
    pub fn from_char(c: char) -> (r: Option<Self>)
        ensures
            r == kind_of_code(c),
    {
        match c {
            'b' => Some(TypeKind::Bool),
            'i' => Some(TypeKind::Int),
            'u' => Some(TypeKind::Uint),
            'f' => Some(TypeKind::Float),
            'c' => Some(TypeKind::Complex),
            'm' => Some(TypeKind::TimeDelta),
            'M' => Some(TypeKind::DateTime),
            'S' => Some(TypeKind::ByteStr),
            'U' => Some(TypeKind::UnicodeStr),
            'V' => Some(TypeKind::RawData),
            _ => None,
        }
    }

    pub fn to_str(self) -> (r: &'static str)
        ensures
            r@ == seq![kind_code(self)],
    {
        proof {
            reveal_strlit("b");
            reveal_strlit("i");
            reveal_strlit("u");
            reveal_strlit("f");
            reveal_strlit("c");
            reveal_strlit("m");
            reveal_strlit("M");
            reveal_strlit("S");
            reveal_strlit("U");
            reveal_strlit("V");
        }
        match self {
            TypeKind::Bool => "b",
            TypeKind::Int => "i",
            TypeKind::Uint => "u",
            TypeKind::Float => "f",
            TypeKind::Complex => "c",
            TypeKind::TimeDelta => "m",
            TypeKind::DateTime => "M",
            TypeKind::ByteStr => "S",
            TypeKind::UnicodeStr => "U",
            TypeKind::RawData => "V",
        }
    }
}


impl TimeUnits {
    pub fn from_str(s: &str) -> (r: Option<TimeUnits>)
        ensures
            r == units_of_code(s@),
    {
        let n = s.unicode_len();
        if n == 1 {
            match s.get_char(0) {
                'Y' => Some(TimeUnits::Year),
                'M' => Some(TimeUnits::Month),
                'W' => Some(TimeUnits::Week),
                'D' => Some(TimeUnits::Day),
                'h' => Some(TimeUnits::Hour),
                'm' => Some(TimeUnits::Minute),
                's' => Some(TimeUnits::Second),
                _ => None,
            }
        } else if n == 2 && s.get_char(1) == 's' {
            match s.get_char(0) {
                'm' => Some(TimeUnits::Millisecond),
                'u' => Some(TimeUnits::Microsecond),
                'n' => Some(TimeUnits::Nanosecond),
                'p' => Some(TimeUnits::Picosecond),
                'f' => Some(TimeUnits::Femtosecond),
                'a' => Some(TimeUnits::Attosecond),
                _ => None,
            }
        } else {
            None
        }
    }

    pub fn to_str(self) -> (r: &'static str)
        ensures
            r@ == units_code(self),
    {
        proof {
            reveal_strlit("Y");
            reveal_strlit("M");
            reveal_strlit("W");
            reveal_strlit("D");
            reveal_strlit("h");
            reveal_strlit("m");
            reveal_strlit("s");
            reveal_strlit("ms");
            reveal_strlit("us");
            reveal_strlit("ns");
            reveal_strlit("ps");
            reveal_strlit("fs");
            reveal_strlit("as");
        }
        match self {
            TimeUnits::Year => "Y",
            TimeUnits::Month => "M",
            TimeUnits::Week => "W",
            TimeUnits::Day => "D",
            TimeUnits::Hour => "h",
            TimeUnits::Minute => "m",
            TimeUnits::Second => "s",
            TimeUnits::Millisecond => "ms",
            TimeUnits::Microsecond => "us",
            TimeUnits::Nanosecond => "ns",
            TimeUnits::Picosecond => "ps",
            TimeUnits::Femtosecond => "fs",
            TimeUnits::Attosecond => "as",
        }
    }
}

/// The sizes a kind admits, or `None` where every size is admitted.
pub open spec fn kind_sizes(k: TypeKind) -> Option<Seq<u64>> {
    match k {
        TypeKind::Bool => Some(seq![1u64]),
        TypeKind::Int | TypeKind::Uint => Some(seq![1u64, 2, 4, 8]),
        TypeKind::Float => Some(seq![2u64, 4, 8, 16]),
        TypeKind::Complex => Some(seq![8u64, 16, 32]),
        TypeKind::TimeDelta | TypeKind::DateTime => Some(seq![8u64]),
        TypeKind::ByteStr | TypeKind::UnicodeStr | TypeKind::RawData => None,
    }
}

pub open spec fn size_allowed(k: TypeKind, size: u64) -> bool {
    match kind_sizes(k) {
        Some(sizes) => sizes.contains(size),
        None => true,
    }
}

/// Whether the `|` code is illegal for this kind at this size.
pub open spec fn needs_endianness(k: TypeKind, size: u64) -> bool {
    match k {
        TypeKind::UnicodeStr => true,
        TypeKind::ByteStr | TypeKind::RawData => false,
        _ => size != 1,
    }
}

pub open spec fn kind_has_units(k: TypeKind) -> bool {
    k == TypeKind::TimeDelta || k == TypeKind::DateTime
}

impl TypeKind {
    /// The sizes this kind admits; `None` means all sizes are admitted.
    pub fn valid_sizes(self) -> (r: Option<&'static [u64]>)
        ensures
            match (r, kind_sizes(self)) {
                (Some(a), Some(b)) => a@ == b,
                (None, None) => true,
                _ => false,
            },
    {
        match self {
            TypeKind::Bool => Some(&[1]),
            TypeKind::Int | TypeKind::Uint => Some(&[1, 2, 4, 8]),
            TypeKind::Float => Some(&[2, 4, 8, 16]),
            TypeKind::Complex => Some(&[8, 16, 32]),
            TypeKind::TimeDelta | TypeKind::DateTime => Some(&[8]),
            TypeKind::ByteStr | TypeKind::UnicodeStr | TypeKind::RawData => None,
        }
    }

    /// Returns `true` if the `|` endianness is illegal.
    pub fn requires_endianness(self, size: u64) -> (r: bool)
        ensures
            r == needs_endianness(self, size),
    {
        match self {
            TypeKind::Bool
            | TypeKind::Int
            | TypeKind::Uint
            | TypeKind::Float
            | TypeKind::TimeDelta
            | TypeKind::DateTime
            | TypeKind::Complex => size != 1,
            TypeKind::UnicodeStr => true,
            TypeKind::ByteStr | TypeKind::RawData => false,
        }
    }

    /// Returns `true` if the type-string carries time units.
    pub fn has_units(self) -> (r: bool)
        ensures
            r == kind_has_units(self),
    {
        match self {
            TypeKind::TimeDelta | TypeKind::DateTime => true,
            _ => false,
        }
    }
}


/// One scalar type: byte order, kind, size and, for time kinds, units.
///
/// `size` counts code points for `UnicodeStr` and bytes for every other kind.
/// Values built by parsing, by [`TypeStr::new`] or by
/// [`TypeStr::with_auto_endianness`] satisfy [`TypeStr::valid`].
#[derive(Debug, Copy, Clone, PartialEq, Eq, Structural, PartialOrd, Ord, Hash)]
pub struct TypeStr {
    pub endianness: Endianness,
    pub type_kind: TypeKind,
    pub size: u64,
    pub time_units: Option<TimeUnits>,
}

/// Why a type-string was rejected.
#[derive(Debug, Copy, Clone, PartialEq, Eq, Structural)]
pub enum TypeStrErrorKind {
    /// The text does not have the shape of a type-string.
    SyntaxError,
    /// The size digits do not fit in 64 bits.
    SizeOverflow,
    /// `|` was given where the kind and size need a byte order.
    InvalidEndianness(TypeStr),
    /// The kind does not admit this size.
    InvalidSize(TypeStr),
    /// Time units are missing on a time kind, or present on another kind.
    MissingOrUnexpectedUnits(TypeStr),
}

/// Error returned when a type-string cannot be parsed or is not valid.
#[derive(Debug, Copy, Clone, PartialEq, Eq, Structural)]
pub struct ParseTypeStrError(pub TypeStrErrorKind);

impl TypeStr {
    /// The rules every type-string obeys.
    pub open spec fn valid(self) -> bool {
        &&& !(needs_endianness(self.type_kind, self.size) && self.endianness
            == Endianness::Irrelevant)
        &&& size_allowed(self.type_kind, self.size)
        &&& kind_has_units(self.type_kind) == self.time_units.is_some()
    }

    /// The number of bytes one scalar of this type occupies.
    pub open spec fn spec_num_bytes(self) -> nat {
        if self.type_kind == TypeKind::UnicodeStr {
            (self.size * 4) as nat
        } else {
            self.size as nat
        }
    }
}

/// The outcome of checking a type-string's parts against the rules.
pub open spec fn validated(t: TypeStr) -> Result<TypeStr, TypeStrErrorKind> {
    if needs_endianness(t.type_kind, t.size) && t.endianness == Endianness::Irrelevant {
        Err(TypeStrErrorKind::InvalidEndianness(t))
    } else if !size_allowed(t.type_kind, t.size) {
        Err(TypeStrErrorKind::InvalidSize(t))
    } else if kind_has_units(t.type_kind) != t.time_units.is_some() {
        Err(TypeStrErrorKind::MissingOrUnexpectedUnits(t))
    } else {
        Ok(t)
    }
}

pub open spec fn with_parse_error(r: Result<TypeStr, TypeStrErrorKind>) -> Result<
    TypeStr,
    ParseTypeStrError,
> {
    match r {
        Ok(t) => Ok(t),
        Err(k) => Err(ParseTypeStrError(k)),
    }
}

pub open spec fn is_digit(c: char) -> bool {
    '0' <= c <= '9'
}

pub open spec fn digit_value(c: char) -> nat {
    (c as int - '0' as int) as nat
}

pub open spec fn digit_char(d: nat) -> char {
    (d + '0' as int) as char
}

/// The length of the run of decimal digits that starts `s`.
pub open spec fn digit_run(s: Seq<char>) -> nat
    decreases s.len(),
{
    if s.len() > 0 && is_digit(s[0]) {
        1 + digit_run(s.drop_first())
    } else {
        0
    }
}

/// The number that a string of decimal digits denotes.
pub open spec fn decimal_value(d: Seq<char>) -> nat
    decreases d.len(),
{
    if d.len() == 0 {
        0
    } else {
        decimal_value(d.drop_last()) * 10 + digit_value(d.last())
    }
}

/// The shortest decimal text of `n`.
pub open spec fn decimal_text(n: nat) -> Seq<char>
    decreases n,
{
    if n < 10 {
        seq![digit_char(n)]
    } else {
        decimal_text(n / 10).push(digit_char(n % 10))
    }
}

/// What follows the size digits: nothing, or bracketed units.
/// `None` where the text is neither.
pub open spec fn units_suffix(rest: Seq<char>) -> Option<Option<TimeUnits>> {
    if rest.len() == 0 {
        Some(None)
    } else if rest.len() >= 2 && rest[0] == '[' && rest.last() == ']' {
        match units_of_code(rest.subrange(1, rest.len() - 1)) {
            Some(u) => Some(Some(u)),
            None => None,
        }
    } else {
        None
    }
}

/// The type-string that the text `s` denotes, or why there is none.
pub open spec fn parse_type_str(s: Seq<char>) -> Result<TypeStr, TypeStrErrorKind> {
    if s.len() < 3 {
        Err(TypeStrErrorKind::SyntaxError)
    } else {
        match (endianness_of_code(s[0]), kind_of_code(s[1])) {
            (Some(e), Some(k)) => {
                let rest = s.subrange(2, s.len() as int);
                let n = digit_run(rest);
                if n == 0 {
                    Err(TypeStrErrorKind::SyntaxError)
                } else if decimal_value(rest.subrange(0, n as int)) > u64::MAX {
                    Err(TypeStrErrorKind::SizeOverflow)
                } else {
                    match units_suffix(rest.subrange(n as int, rest.len() as int)) {
                        None => Err(TypeStrErrorKind::SyntaxError),
                        Some(units) => validated(
                            TypeStr {
                                endianness: e,
                                type_kind: k,
                                size: decimal_value(rest.subrange(0, n as int)) as u64,
                                time_units: units,
                            },
                        ),
                    }
                }
            },
            _ => Err(TypeStrErrorKind::SyntaxError),
        }
    }
}

/// The canonical text of a type-string.
pub open spec fn type_str_text(t: TypeStr) -> Seq<char> {
    seq![endianness_code(t.endianness), kind_code(t.type_kind)] + decimal_text(t.size as nat)
        + match t.time_units {
        Some(u) => seq!['['] + units_code(u) + seq![']'],
        None => Seq::empty(),
    }
}

pub proof fn lemma_decimal_step(s: Seq<char>, i: int)
    requires
        0 <= i < s.len(),
    ensures
        decimal_value(s.subrange(0, i + 1)) == decimal_value(s.subrange(0, i)) * 10
            + digit_value(s[i]),
{
    assert(s.subrange(0, i + 1).drop_last() =~= s.subrange(0, i));
}

/// A longer run of digits never denotes a smaller number.
pub proof fn lemma_decimal_prefix_le(s: Seq<char>, i: int)
    requires
        0 <= i <= s.len(),
    ensures
        decimal_value(s.subrange(0, i)) <= decimal_value(s),
    decreases s.len(),
{
    if i < s.len() {
        lemma_decimal_prefix_le(s.drop_last(), i);
        assert(s.drop_last().subrange(0, i) =~= s.subrange(0, i));
    } else {
        assert(s.subrange(0, i) =~= s);
    }
}

/// The digit run of `s` is `m` where the first `m` characters are digits and the next is not.
pub proof fn lemma_digit_run(s: Seq<char>, m: int)
    requires
        0 <= m <= s.len(),
        forall|j: int| 0 <= j < m ==> is_digit(#[trigger] s[j]),
        m == s.len() || !is_digit(s[m]),
    ensures
        digit_run(s) == m,
    decreases m,
{
    if m > 0 {
        lemma_digit_run(s.drop_first(), m - 1);
    }
}

/// Relies on `i32::from_be`: on a big-endian machine it returns its argument,
/// on a little-endian one the argument with its bytes reversed.
#[verifier::external_body]
fn i32_from_be(x: i32) -> (r: i32)
    ensures
        r == x || r == swap_bytes_i32(x),
{
    i32::from_be(x)
}

/// The 32-bit integer with the bytes of `x` in reverse order.
pub open spec fn swap_bytes_i32(x: i32) -> i32 {
    let u = x as u32;
    (((u & 0xff) << 24) | ((u & 0xff00) << 8) | ((u >> 8) & 0xff00) | (u >> 24)) as i32
}

impl Endianness {
    /// The byte order that the probe `i32::from_be(1)` reveals: `1` comes
    /// back unchanged on a big-endian machine only.
    pub fn endianness_of_probe(probe: i32) -> (r: Endianness)
        ensures
            r == (if probe == 1 {
                Endianness::Big
            } else {
                Endianness::Little
            }),
    {
        if probe == 1 {
            Endianness::Big
        } else {
            Endianness::Little
        }
    }

    /// The byte order of the machine this runs on.
    pub fn of_machine() -> (r: Self)
        ensures
            r == Endianness::Little || r == Endianness::Big,
    {
        Endianness::endianness_of_probe(i32_from_be(1))
    }
}

fn digit_str(d: u64) -> (r: &'static str)
    requires
        d < 10,
    ensures
        r@ == seq![digit_char(d as nat)],
{
    proof {
        reveal_strlit("0");
        reveal_strlit("1");
        reveal_strlit("2");
        reveal_strlit("3");
        reveal_strlit("4");
        reveal_strlit("5");
        reveal_strlit("6");
        reveal_strlit("7");
        reveal_strlit("8");
        reveal_strlit("9");
    }
    if d == 0 {
        "0"
    } else if d == 1 {
        "1"
    } else if d == 2 {
        "2"
    } else if d == 3 {
        "3"
    } else if d == 4 {
        "4"
    } else if d == 5 {
        "5"
    } else if d == 6 {
        "6"
    } else if d == 7 {
        "7"
    } else if d == 8 {
        "8"
    } else {
        "9"
    }
}

/// Appends the decimal text of `n` to `s`.
pub fn push_decimal(s: &mut String, n: u64)
    ensures
        final(s)@ == old(s)@ + decimal_text(n as nat),
    decreases n,
{
    if n >= 10 {
        push_decimal(s, n / 10);
    }
    s.append(digit_str(n % 10));
    proof {
        if n >= 10 {
            assert(decimal_text(n as nat) == decimal_text((n / 10) as nat).push(
                digit_char((n % 10) as nat),
            ));
        }
    }
}

impl TypeStr {
    pub fn endianness(&self) -> (r: Endianness)
        ensures
            r == self.endianness,
    {
        self.endianness
    }

    pub fn type_kind(&self) -> (r: TypeKind)
        ensures
            r == self.type_kind,
    {
        self.type_kind
    }

    pub fn size(&self) -> (r: u64)
        ensures
            r == self.size,
    {
        self.size
    }

    pub fn time_units(&self) -> (r: Option<TimeUnits>)
        ensures
            r == self.time_units,
    {
        self.time_units
    }

    /// Builds a type-string from its parts, checking the rules.
    pub fn new(
        endianness: Endianness,
        type_kind: TypeKind,
        size: u64,
        time_units: Option<TimeUnits>,
    ) -> (r: Result<TypeStr, ParseTypeStrError>)
        ensures
            r == with_parse_error(validated(TypeStr { endianness, type_kind, size, time_units })),
    {
        TypeStr { endianness, type_kind, size, time_units }.validate()
    }

    /// Returns the type-string unchanged if it obeys the rules, else the first rule it breaks.
    pub fn validate(self) -> (r: Result<Self, ParseTypeStrError>)
        ensures
            r == with_parse_error(validated(self)),
            r is Ok <==> self.valid(),
    {
        if self.type_kind.requires_endianness(self.size) && self.endianness
            == Endianness::Irrelevant {
            return Err(ParseTypeStrError(TypeStrErrorKind::InvalidEndianness(self)));
        }
        if let Some(valid_sizes) = self.type_kind.valid_sizes() {
            let mut i: usize = 0;
            let mut found = false;
            while i < valid_sizes.len()
                invariant
                    i <= valid_sizes@.len(),
                    found == valid_sizes@.subrange(0, i as int).contains(self.size),
                decreases valid_sizes@.len() - i,
            {
                proof {
                    let a = valid_sizes@.subrange(0, i as int);
                    let b = valid_sizes@.subrange(0, i + 1);
                    let x = self.size;
                    assert(b =~= a.push(valid_sizes@[i as int]));
                    assert(b.contains(x) <==> (a.contains(x) || valid_sizes@[i as int] == x)) by {
                        if b.contains(x) {
                            let j = choose|j: int| 0 <= j < b.len() && b[j] == x;
                            if j < a.len() {
                                assert(a[j] == x);
                            }
                        }
                        if a.contains(x) {
                            let j = choose|j: int| 0 <= j < a.len() && a[j] == x;
                            assert(b[j] == x);
                        }
                        if valid_sizes@[i as int] == x {
                            assert(b[i as int] == x);
                        }
                    }
                }
                found = found || valid_sizes[i] == self.size;
                i = i + 1;
            }
            proof {
                assert(valid_sizes@.subrange(0, i as int) =~= valid_sizes@);
            }
            if !found {
                return Err(ParseTypeStrError(TypeStrErrorKind::InvalidSize(self)));
            }
        }
        if self.type_kind.has_units() != self.time_units.is_some() {
            return Err(ParseTypeStrError(TypeStrErrorKind::MissingOrUnexpectedUnits(self)));
        }
        Ok(self)
    }

    /// The number of bytes for a single scalar value, or `None` where it
    /// does not fit in `usize`.
    pub fn num_bytes(&self) -> (r: Option<usize>)
        ensures
            r == (if self.spec_num_bytes() <= usize::MAX {
                Some(self.spec_num_bytes() as usize)
            } else {
                None
            }),
    {
        match self.type_kind {
            TypeKind::UnicodeStr => {
                if self.size <= (usize::MAX / 4) as u64 {
                    Some(self.size as usize * 4)
                } else {
                    None
                }
            },
            _ => {
                if self.size <= usize::MAX as u64 {
                    Some(self.size as usize)
                } else {
                    None
                }
            },
        }
    }

    /// The type-string of a kind at a size, with the machine's byte order
    /// where one is needed and `|` where none is.
    pub fn with_auto_endianness(type_kind: TypeKind, size: u64, time_units: Option<TimeUnits>) -> (r:
        Self)
        requires
            size_allowed(type_kind, size),
            kind_has_units(type_kind) == time_units.is_some(),
        ensures
            r.type_kind == type_kind,
            r.size == size,
            r.time_units == time_units,
            needs_endianness(type_kind, size) ==> r.endianness == Endianness::Little
                || r.endianness == Endianness::Big,
            !needs_endianness(type_kind, size) ==> r.endianness == Endianness::Irrelevant,
            r.valid(),
    {
        let endianness = if type_kind.requires_endianness(size) {
            Endianness::of_machine()
        } else {
            Endianness::Irrelevant
        };
        TypeStr { endianness, type_kind, size, time_units }
    }

    /// The canonical text, e.g. `<i8`, `|S13` or `>m8[ns]`.
    pub fn to_string(&self) -> (r: String)
        ensures
            r@ == type_str_text(*self),
    {
        let mut s = String::from_str(self.endianness.to_str());
        s.append(self.type_kind.to_str());
        push_decimal(&mut s, self.size);
        if let Some(u) = self.time_units {
            proof {
                reveal_strlit("[");
                reveal_strlit("]");
            }
            s.append("[");
            s.append(u.to_str());
            s.append("]");
        }
        proof {
            assert(s@ =~= type_str_text(*self));
        }
        s
    }
}


impl TypeStr {
    /// Parses a type-string such as `<i4` or `>m8[ns]`, checking its rules.
    pub fn parse(input: &str) -> (r: Result<TypeStr, ParseTypeStrError>)
        ensures
            r == with_parse_error(parse_type_str(input@)),
    {
        let syntax = ParseTypeStrError(TypeStrErrorKind::SyntaxError);
        let n = input.unicode_len();
        if n < 3 {
            return Err(syntax);
        }
        let endianness = match Endianness::from_char(input.get_char(0)) {
            None => return Err(syntax),
            Some(v) => v,
        };
        let type_kind = match TypeKind::from_char(input.get_char(1)) {
            None => return Err(syntax),
            Some(v) => v,
        };
        let ghost s = input@;
        let ghost rest = s.subrange(2, s.len() as int);
        let mut i: usize = 2;
        let mut size: u64 = 0;
        while i < n && is_ascii_digit(input.get_char(i))
            invariant
                2 <= i <= n,
                n == s.len(),
                s == input@,
                rest == s.subrange(2, s.len() as int),
                endianness_of_code(s[0]) == Some(endianness),
                kind_of_code(s[1]) == Some(type_kind),
                forall|j: int| 0 <= j < i - 2 ==> is_digit(#[trigger] rest[j]),
                size == decimal_value(rest.subrange(0, i - 2)),
            decreases n - i,
        {
            let c = input.get_char(i);
            let d = (c as u32 - '0' as u32) as u64;
            proof {
                assert(rest[i - 2] == c);
                lemma_decimal_step(rest, i - 2);
            }
            if size > (u64::MAX - d) / 10 {
                proof {
                    assert(size * 10 + d > u64::MAX) by (nonlinear_arith)
                        requires
                            size > (u64::MAX - d) / 10,
                            d <= 9,
                    ;
                    assert forall|j: int| 0 <= j < i - 1 implies is_digit(#[trigger] rest[j]) by {
                        if j == i - 2 {
                            assert(rest[j] == c);
                        }
                    }
                    lemma_digit_run_at_least(rest, i - 1);
                    let m = digit_run(rest) as int;
                    lemma_decimal_prefix_le(rest.subrange(0, m), i - 1);
                    assert(rest.subrange(0, m).subrange(0, i - 1) =~= rest.subrange(0, i - 1));
                }
                return Err(ParseTypeStrError(TypeStrErrorKind::SizeOverflow));
            }
            proof {
                assert(size * 10 + d <= u64::MAX) by (nonlinear_arith)
                    requires
                        size <= (u64::MAX - d) / 10,
                        d <= 9,
                ;
            }
            size = size * 10 + d;
            i = i + 1;
        }
        proof {
            lemma_digit_run(rest, i - 2);
        }
        if i == 2 {
            return Err(syntax);
        }
        let time_units = if i == n {
            proof {
                assert(rest.subrange(i - 2, rest.len() as int) =~= Seq::<char>::empty());
            }
            None
        } else {
            let ghost tail = rest.subrange(i - 2, rest.len() as int);
            if n - i < 2 || input.get_char(i) != '[' || input.get_char(n - 1) != ']' {
                proof {
                    if tail.len() >= 2 {
                        assert(tail[0] == s[i as int]);
                        assert(tail.last() == s[n - 1]);
                    }
                }
                return Err(syntax);
            }
            let inner = input.substring_char(i + 1, n - 1);
            proof {
                assert(tail[0] == s[i as int]);
                assert(tail.last() == s[n - 1]);
                assert(tail.subrange(1, tail.len() - 1) =~= inner@);
            }
            match TimeUnits::from_str(inner) {
                None => return Err(syntax),
                Some(v) => Some(v),
            }
        };
        TypeStr { endianness, type_kind, size, time_units }.validate()
    }
}

fn is_ascii_digit(c: char) -> (r: bool)
    ensures
        r == is_digit(c),
{
    '0' <= c && c <= '9'
}

/// The digit run of `s` is at least `m` where its first `m` characters are digits.
pub proof fn lemma_digit_run_at_least(s: Seq<char>, m: int)
    requires
        0 <= m <= s.len(),
        forall|j: int| 0 <= j < m ==> is_digit(#[trigger] s[j]),
    ensures
        digit_run(s) >= m,
        digit_run(s) <= s.len(),
        forall|j: int| 0 <= j < digit_run(s) ==> is_digit(#[trigger] s[j]),
    decreases s.len(),
{
    if s.len() > 0 && is_digit(s[0]) {
        let t = s.drop_first();
        assert forall|j: int| 0 <= j < m - 1 implies is_digit(#[trigger] t[j]) by {
            assert(t[j] == s[j + 1]);
        }
        lemma_digit_run_at_least(t, if m > 0 { m - 1 } else { 0 });
        assert forall|j: int| 0 <= j < digit_run(s) implies is_digit(#[trigger] s[j]) by {
            if j > 0 {
                assert(s[j] == t[j - 1]);
            }
        }
    }
}

impl std::str::FromStr for TypeStr {
    type Err = ParseTypeStrError;

    fn from_str(input: &str) -> Result<TypeStr, ParseTypeStrError> {
        TypeStr::parse(input)
    }
}


/// Each size followed by `, ` but the last, as in `1, 2, 4, 8`.
pub open spec fn sizes_text(sizes: Seq<u64>) -> Seq<char>
    decreases sizes.len(),
{
    if sizes.len() == 0 {
        Seq::empty()
    } else if sizes.len() == 1 {
        decimal_text(sizes[0] as nat)
    } else {
        sizes_text(sizes.drop_last()) + ", "@ + decimal_text(sizes.last() as nat)
    }
}

/// The message of a type-string error.
pub open spec fn parse_error_text(kind: TypeStrErrorKind) -> Seq<char> {
    match kind {
        TypeStrErrorKind::SyntaxError => "Invalid type-string"@,
        TypeStrErrorKind::SizeOverflow => "number too large to fit in target type"@,
        TypeStrErrorKind::InvalidEndianness(ty) => "Type string '"@ + type_str_text(ty)
            + "' has invalid endianness"@,
        TypeStrErrorKind::InvalidSize(ty) => "Type string '"@ + type_str_text(ty)
            + "' has invalid size. Valid sizes are: ["@ + match kind_sizes(ty.type_kind) {
            Some(sizes) => sizes_text(sizes),
            None => Seq::empty(),
        } + "]"@,
        TypeStrErrorKind::MissingOrUnexpectedUnits(ty) => if kind_has_units(ty.type_kind) {
            "Type string '"@ + type_str_text(ty) + "' is missing time units."@
        } else {
            "Unexpected time units in type string '"@ + type_str_text(ty) + "'."@
        },
    }
}

impl ParseTypeStrError {
    /// A one-line message saying what is wrong.
    pub fn to_string(&self) -> (r: String)
        ensures
            r@ == parse_error_text(self.0),
    {
        match self.0 {
            TypeStrErrorKind::SyntaxError => String::from_str("Invalid type-string"),
            TypeStrErrorKind::SizeOverflow => String::from_str(
                "number too large to fit in target type",
            ),
            TypeStrErrorKind::InvalidEndianness(ty) => {
                let mut s = String::from_str("Type string '");
                s.append(ty.to_string().as_str());
                s.append("' has invalid endianness");
                s
            },
            TypeStrErrorKind::InvalidSize(ty) => {
                let mut s = String::from_str("Type string '");
                s.append(ty.to_string().as_str());
                s.append("' has invalid size. Valid sizes are: [");
                if let Some(sizes) = ty.type_kind.valid_sizes() {
                    let mut k: usize = 0;
                    let ghost start = s@;
                    while k < sizes.len()
                        invariant
                            k <= sizes@.len(),
                            s@ == start + sizes_text(sizes@.subrange(0, k as int)),
                        decreases sizes@.len() - k,
                    {
                        let ghost before = s@;
                        if k > 0 {
                            s.append(", ");
                        }
                        push_decimal(&mut s, sizes[k]);
                        proof {
                            let t = sizes@.subrange(0, k + 1);
                            assert(t.drop_last() =~= sizes@.subrange(0, k as int));
                            if k == 0 {
                                assert(s@ =~= start + sizes_text(t));
                            } else {
                                assert(s@ =~= start + sizes_text(t));
                            }
                        }
                        k = k + 1;
                    }
                    proof {
                        assert(sizes@.subrange(0, k as int) =~= sizes@);
                    }
                }
                s.append("]");
                s
            },
            TypeStrErrorKind::MissingOrUnexpectedUnits(ty) => {
                if ty.type_kind.has_units() {
                    let mut s = String::from_str("Type string '");
                    s.append(ty.to_string().as_str());
                    s.append("' is missing time units.");
                    s
                } else {
                    let mut s = String::from_str("Unexpected time units in type string '");
                    s.append(ty.to_string().as_str());
                    s.append("'.");
                    s
                }
            },
        }
    }
}

} // verus!
