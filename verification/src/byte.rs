use vstd::prelude::*;
use vstd::std_specs::convert::TryFromSpecImpl;
use vstd::std_specs::ops::BitAndSpecImpl;
use vstd::std_specs::cmp::PartialEqSpecImpl;
use vstd::std_specs::cmp::PartialOrdSpecImpl;
use core::cmp::Ordering;
use crate::text::{debug_bytes, hex_digit, push_char, push_debug_bytes, push_hex_digit};
use crate::util::{digit_value, hex_val, is_hex, spec_is_hex};

verus! {

/// Represents an error for invalid bitmask: the byte that is not one of the
/// four masks.
#[derive(Clone, Copy, Debug, PartialEq, Eq, Structural)]
pub struct InvalidMaskError(pub u8);

impl InvalidMaskError {
    /// The text of the error.
    pub open spec fn text(self) -> Seq<char> {
        "Invalid mask: "@ + seq![hex_digit(self.0 >> 4u8), hex_digit(self.0 & 0x0Fu8)]
    }

    /// The error as text, `Invalid mask: ` and the byte in two uppercase
    /// hexadecimal digits.
    pub fn to_string(&self) -> (r: String)
        ensures
            r@ == self.text(),
    {
        let mut s = String::new();
        s.append("Invalid mask: ");
        let v = self.0;
        assert(v >> 4u8 < 16 && v & 0x0Fu8 < 16) by (bit_vector);
        push_hex_digit(&mut s, v >> 4);
        push_hex_digit(&mut s, v & 0x0F);
        assert(s@ =~= self.text());
        s
    }
}

/// What is wrong with a byte string.
#[derive(Clone, Copy, Debug, PartialEq, Eq, Structural)]
pub enum ByteStringProblem {
    /// More than two characters stand for one byte.
    NotAByte,
    /// The characters are neither hexadecimal digits nor `?` in one of the
    /// accepted arrangements.
    InvalidPattern,
}

impl ByteStringProblem {
    /// The words that open the description of the problem.
    pub open spec fn text(self) -> Seq<char> {
        match self {
            ByteStringProblem::NotAByte => "Not a byte: "@,
            ByteStringProblem::InvalidPattern => "Invalid pattern: "@,
        }
    }
}

/// Represents an error for invalid byte string: the description of what is
/// wrong, e.g. `Not a byte: [65, 66, 67]`.
#[derive(Clone, Debug, PartialEq, Eq)]
pub struct InvalidByteStringError(String);

impl View for InvalidByteStringError {
    type V = Seq<char>;

    closed spec fn view(&self) -> Seq<char> {
        self.0@
    }
}

/// The description of a byte string problem and the bytes that show it:
/// `Not a byte: ` or `Invalid pattern: `, then the bytes as `Debug` lists
/// them.
pub open spec fn description_text(e: (ByteStringProblem, Seq<u8>)) -> Seq<char> {
    e.0.text() + debug_bytes(e.1)
}

/// The text of a byte string error: `Invalid byte string: ` and the
/// description.
pub open spec fn error_text(e: (ByteStringProblem, Seq<u8>)) -> Seq<char> {
    "Invalid byte string: "@ + description_text(e)
}

/// The view of a result whose error is an `InvalidByteStringError`: the
/// error by its description.
pub open spec fn result_view<T>(r: Result<T, InvalidByteStringError>) -> Result<T, Seq<char>> {
    match r {
        Ok(v) => Ok(v),
        Err(e) => Err(e@),
    }
}

/// A result whose error is a problem and the bytes that show it, with the
/// error turned into its description.
pub open spec fn described<T>(r: Result<T, (ByteStringProblem, Seq<u8>)>) -> Result<
    T,
    Seq<char>,
> {
    match r {
        Ok(v) => Ok(v),
        Err(e) => Err(description_text(e)),
    }
}

impl InvalidByteStringError {
    /// Builds the error that describes the problem with `input`.
    pub fn new(problem: ByteStringProblem, input: &[u8]) -> (r: Self)
        ensures
            r@ == description_text((problem, input@)),
    {
        let mut s = String::new();
        match problem {
            ByteStringProblem::NotAByte => s.append("Not a byte: "),
            ByteStringProblem::InvalidPattern => s.append("Invalid pattern: "),
        }
        push_debug_bytes(&mut s, input);
        InvalidByteStringError(s)
    }

    /// The text of the error.
    pub open spec fn text(self) -> Seq<char> {
        "Invalid byte string: "@ + self@
    }

    /// The description of the problem: `Not a byte: ` or `Invalid pattern: `,
    /// then the bytes as a list of decimal numbers.
    pub fn description(&self) -> (r: String)
        ensures
            r@ == self@,
    {
        self.0.clone()
    }

    /// The error as text: `Invalid byte string: ` and the description.
    pub fn to_string(&self) -> (r: String)
        ensures
            r@ == self.text(),
    {
        let mut s = String::new();
        s.append("Invalid byte string: ");
        s.append(self.0.as_str());
        s
    }
}

/// Represents the bitmask used for matching a byte's nibbles.
///
/// The variants are declared from the narrowest to the widest mask, so that
/// the derived order follows the mask's bit value.
#[derive(Clone, Copy, Debug, PartialEq, Eq, Structural, PartialOrd, Ord, Hash)]
pub enum Mask {
    /// Ignore the entire byte (e.g. `0x??`), bits `0x00`.
    Wildcard,
    /// Matches the low nibble (e.g. `0x?B`), bits `0x0F`.
    LowOnly,
    /// Matches the high nibble (e.g. `0xA?`), bits `0xF0`.
    HighOnly,
    /// Matches the entire byte (e.g. `0xAB`), bits `0xFF`.
    Full,
}

impl Mask {
    /// The bits of the mask.
    pub open spec fn spec_bits(self) -> u8 {
        match self {
            Mask::Wildcard => 0x00,
            Mask::LowOnly => 0x0F,
            Mask::HighOnly => 0xF0,
            Mask::Full => 0xFF,
        }
    }

    /// Whether the mask keeps the high nibble.
    pub open spec fn keeps_high(self) -> bool {
        self == Mask::HighOnly || self == Mask::Full
    }

    /// Whether the mask keeps the low nibble.
    pub open spec fn keeps_low(self) -> bool {
        self == Mask::LowOnly || self == Mask::Full
    }

    /// The mask that keeps exactly the nibbles named.
    pub open spec fn from_nibbles(high: bool, low: bool) -> Mask {
        if high && low {
            Mask::Full
        } else if high {
            Mask::HighOnly
        } else if low {
            Mask::LowOnly
        } else {
            Mask::Wildcard
        }
    }

    /// The mask whose bits are `value`, if there is one.
    pub open spec fn spec_from_bits(value: u8) -> Result<Mask, InvalidMaskError> {
        if value == 0xFF {
            Ok(Mask::Full)
        } else if value == 0xF0 {
            Ok(Mask::HighOnly)
        } else if value == 0x0F {
            Ok(Mask::LowOnly)
        } else if value == 0x00 {
            Ok(Mask::Wildcard)
        } else {
            Err(InvalidMaskError(value))
        }
    }

    /// The bits of the mask.
    #[verifier::when_used_as_spec(spec_bits)]
    pub fn bits(self) -> (r: u8)
        ensures
            r == self.spec_bits(),
    {
        match self {
            Mask::Wildcard => 0x00,
            Mask::LowOnly => 0x0F,
            Mask::HighOnly => 0xF0,
            Mask::Full => 0xFF,
        }
    }
}

impl Default for Mask {
    fn default() -> (r: Self)
        ensures
            r == Mask::Full,
    {
        Mask::Full
    }
}

impl TryFrom<u8> for Mask {
    type Error = InvalidMaskError;

    fn try_from(value: u8) -> (r: Result<Self, Self::Error>) {
        if value == 0xFF {
            Ok(Mask::Full)
        } else if value == 0xF0 {
            Ok(Mask::HighOnly)
        } else if value == 0x0F {
            Ok(Mask::LowOnly)
        } else if value == 0x00 {
            Ok(Mask::Wildcard)
        } else {
            Err(InvalidMaskError(value))
        }
    }
}

impl TryFromSpecImpl<u8> for Mask {
    open spec fn obeys_try_from_spec() -> bool {
        true
    }

    open spec fn try_from_spec(v: u8) -> Result<Self, Self::Error> {
        Mask::spec_from_bits(v)
    }
}

impl core::ops::BitAnd<Mask> for u8 {
    type Output = u8;

    fn bitand(self, rhs: Mask) -> (r: u8) {
        self & rhs.bits()
    }
}

impl BitAndSpecImpl<Mask> for u8 {
    open spec fn obeys_bitand_spec() -> bool {
        true
    }

    open spec fn bitand_req(self, rhs: Mask) -> bool {
        true
    }

    open spec fn bitand_spec(self, rhs: Mask) -> u8 {
        self & rhs.spec_bits()
    }
}

impl core::ops::BitAnd<Mask> for &u8 {
    type Output = u8;

    fn bitand(self, rhs: Mask) -> (r: u8) {
        *self & rhs.bits()
    }
}

impl BitAndSpecImpl<Mask> for &u8 {
    open spec fn obeys_bitand_spec() -> bool {
        true
    }

    open spec fn bitand_req(self, rhs: Mask) -> bool {
        true
    }

    open spec fn bitand_spec(self, rhs: Mask) -> u8 {
        *self & rhs.spec_bits()
    }
}

impl core::ops::BitAnd for Mask {
    type Output = u8;

    fn bitand(self, rhs: Mask) -> (r: u8) {
        self.bits() & rhs.bits()
    }
}

impl BitAndSpecImpl for Mask {
    open spec fn obeys_bitand_spec() -> bool {
        true
    }

    open spec fn bitand_req(self, rhs: Mask) -> bool {
        true
    }

    open spec fn bitand_spec(self, rhs: Mask) -> u8 {
        self.spec_bits() & rhs.spec_bits()
    }
}


/// Represents a byte with a mask.
#[derive(Clone, Copy, Debug, PartialEq, Eq, Structural, PartialOrd, Ord, Hash)]
pub struct PatternByte {
    pub byte: u8,
    pub mask: Mask,
}

impl PatternByte {
    /// The stored byte with the mask applied.
    pub open spec fn spec_apply(&self) -> u8 {
        self.byte & self.mask.spec_bits()
    }

    /// Whether this pattern byte matches the byte `b`: `b` agrees with the
    /// stored byte on every nibble that the mask keeps.
    pub open spec fn matches(self, b: u8) -> bool {
        self.spec_apply() == b & self.mask.spec_bits()
    }

    /// The merge of two pattern bytes: the stored byte of `self`, under the
    /// mask that keeps a nibble when both masks keep it and both stored
    /// bytes agree on it.
    pub open spec fn spec_merge(self, other: PatternByte) -> PatternByte {
        PatternByte {
            byte: self.byte,
            mask: Mask::from_nibbles(
                self.mask.keeps_high() && other.mask.keeps_high() && self.byte >> 4u8
                    == other.byte >> 4u8,
                self.mask.keeps_low() && other.mask.keeps_low() && self.byte & 0x0Fu8
                    == other.byte & 0x0Fu8,
            ),
        }
    }

    /// Two pattern bytes that match exactly the same bytes.
    pub open spec fn equivalent(self, other: PatternByte) -> bool {
        self.mask == other.mask && self.spec_apply() == other.spec_apply()
    }

    /// Creates a new `PatternByte`.
    pub fn new(byte: u8, mask: Mask) -> (r: Self)
        ensures
            r == (PatternByte { byte, mask }),
    {
        Self { byte, mask }
    }

    /// Returns the stored byte with the mask applied.
    #[verifier::when_used_as_spec(spec_apply)]
    pub fn apply(&self) -> (r: u8)
        ensures
            r == self.spec_apply(),
    {
        self.byte & self.mask
    }

    /// Whether `b` matches this pattern byte.
    pub fn matches_byte(&self, b: u8) -> (r: bool)
        ensures
            r == self.matches(b),
    {
        self.apply() == (b & self.mask)
    }

    /// Merges this `PatternByte` into a broader pattern.
    pub fn merge(&self, other: Self) -> (r: Self)
        ensures
            r == self.spec_merge(other),
    {
        let common: u8 = (self.mask & other.mask) & !(self.byte ^ other.byte);
        let high = (common & Mask::HighOnly) == 0xF0;
        let low = (common & Mask::LowOnly) == 0x0F;
        let mask: u8 = (if high { 0xF0u8 } else { 0u8 }) | (if low { 0x0Fu8 } else { 0u8 });
        proof {
            lemma_common_nibbles(self.mask.spec_bits(), other.mask.spec_bits(), self.byte, other.byte);
            lemma_mask_bits(self.mask);
            lemma_mask_bits(other.mask);
            lemma_from_nibbles_bits(high, low);
        }
        let mask = match Mask::try_from(mask) {
            Ok(m) => m,
            Err(_) => Mask::Wildcard,
        };
        Self { byte: self.byte, mask }
    }
}

/// How the bits of each mask say which nibbles it keeps.
pub proof fn lemma_mask_bits(m: Mask)
    ensures
        m.keeps_high() <==> m.spec_bits() & 0xF0 == 0xF0,
        m.keeps_low() <==> m.spec_bits() & 0x0F == 0x0F,
{
    assert(0x00u8 & 0xF0u8 == 0x00u8 && 0x00u8 & 0x0Fu8 == 0x00u8) by (bit_vector);
    assert(0x0Fu8 & 0xF0u8 == 0x00u8 && 0x0Fu8 & 0x0Fu8 == 0x0Fu8) by (bit_vector);
    assert(0xF0u8 & 0xF0u8 == 0xF0u8 && 0xF0u8 & 0x0Fu8 == 0x00u8) by (bit_vector);
    assert(0xFFu8 & 0xF0u8 == 0xF0u8 && 0xFFu8 & 0x0Fu8 == 0x0Fu8) by (bit_vector);
}

/// The bits of the mask that keeps the nibbles named.
pub proof fn lemma_from_nibbles_bits(high: bool, low: bool)
    ensures
        Mask::from_nibbles(high, low).spec_bits() == (if high { 0xF0u8 } else { 0u8 }) | (if low {
            0x0Fu8
        } else {
            0u8
        }),
{
    assert(0xF0u8 | 0x0Fu8 == 0xFFu8) by (bit_vector);
    assert(0xF0u8 | 0x00u8 == 0xF0u8) by (bit_vector);
    assert(0x00u8 | 0x0Fu8 == 0x0Fu8) by (bit_vector);
    assert(0x00u8 | 0x00u8 == 0x00u8) by (bit_vector);
}

/// The nibbles that survive `m1 & m2 & !(a ^ b)` are those kept by both
/// masks on which `a` and `b` agree.
pub proof fn lemma_common_nibbles(m1: u8, m2: u8, a: u8, b: u8)
    ensures
        ((m1 & m2) & !(a ^ b)) & 0xF0 == 0xF0 <==> (m1 & 0xF0 == 0xF0 && m2 & 0xF0 == 0xF0 && a
            >> 4u8 == b >> 4u8),
        ((m1 & m2) & !(a ^ b)) & 0x0F == 0x0F <==> (m1 & 0x0F == 0x0F && m2 & 0x0F == 0x0F && a
            & 0x0F == b & 0x0F),
{
    assert(((m1 & m2) & !(a ^ b)) & 0xF0 == 0xF0 <==> (m1 & 0xF0 == 0xF0 && m2 & 0xF0 == 0xF0
        && a >> 4u8 == b >> 4u8)) by (bit_vector);
    assert(((m1 & m2) & !(a ^ b)) & 0x0F == 0x0F <==> (m1 & 0x0F == 0x0F && m2 & 0x0F == 0x0F
        && a & 0x0F == b & 0x0F)) by (bit_vector);
}

/// The pattern byte that a two-character chunk `h`, `l` stands for, or the
/// problem with `value`, the chunk as it was given.
pub open spec fn spec_from_digits(h: u8, l: u8, value: Seq<u8>) -> Result<
    PatternByte,
    (ByteStringProblem, Seq<u8>),
> {
    // '?' is 0x3F
    if h == 0x3F && l == 0x3F {
        Ok(PatternByte { byte: 0, mask: Mask::Wildcard })
    } else if spec_is_hex(h) && l == 0x3F {
        Ok(PatternByte { byte: (digit_value(h) * 16) as u8, mask: Mask::HighOnly })
    } else if h == 0x3F && spec_is_hex(l) {
        Ok(PatternByte { byte: digit_value(l), mask: Mask::LowOnly })
    } else if spec_is_hex(h) && spec_is_hex(l) {
        Ok(PatternByte { byte: (digit_value(h) * 16 + digit_value(l)) as u8, mask: Mask::Full })
    } else {
        Err((ByteStringProblem::InvalidPattern, value))
    }
}

/// The pattern byte that a chunk of text stands for: nothing stands for the
/// default, one character for the low nibble of a byte whose high nibble is
/// zero, two characters for the high and the low nibble; each nibble is a
/// hexadecimal digit or `?`.
pub open spec fn spec_from_chunk(value: Seq<u8>) -> Result<
    PatternByte,
    (ByteStringProblem, Seq<u8>),
> {
    if value.len() == 0 {
        Ok(PatternByte { byte: 0, mask: Mask::Full })
    } else if value.len() == 1 {
        spec_from_digits(0x30, value[0], value)
    } else if value.len() == 2 {
        spec_from_digits(value[0], value[1], value)
    } else {
        Err((ByteStringProblem::NotAByte, value))
    }
}

/// `bytes` without a leading `0x` or `0X`.
pub open spec fn strip_hex_prefix(bytes: Seq<u8>) -> Seq<u8> {
    // '0' is 0x30, 'x' is 0x78, 'X' is 0x58
    if bytes.len() >= 2 && bytes[0] == 0x30 && (bytes[1] == 0x78 || bytes[1] == 0x58) {
        bytes.skip(2)
    } else {
        bytes
    }
}

/// The bytes that parsing reads from a string: its UTF-8 encoding once
/// leading and trailing whitespace are gone, without a `0x` or `0X` prefix.
pub open spec fn text_payload(s: Seq<char>) -> Seq<u8> {
    strip_hex_prefix(vstd::utf8::encode_utf8(crate::text::trim(s)))
}

/// Shifting a nibble up by four multiplies it by sixteen, and leaves the low
/// nibble free for another.
pub proof fn lemma_nibbles(h: u8, l: u8)
    requires
        h < 16,
        l < 16,
    ensures
        h << 4u8 == h * 16,
        (h << 4u8) | l == h * 16 + l,
{
    assert(h < 16 ==> h << 4u8 == h * 16) by (bit_vector);
    assert(h < 16 && l < 16 ==> (h << 4u8) | l == h * 16 + l) by (bit_vector);
}

impl PatternByte {
    /// The pattern byte that `value[lo..hi]` stands for.
    pub(crate) fn from_chunk_range(value: &[u8], lo: usize, hi: usize) -> (r: Result<
        Self,
        InvalidByteStringError,
    >)
        requires
            lo <= hi <= value.len(),
        ensures
            result_view(r) == described(spec_from_chunk(value@.subrange(lo as int, hi as int))),
    {
        let ghost chunk = value@.subrange(lo as int, hi as int);
        if lo == hi {
            return Ok(Self::default());
        }
        let (h, l) = if hi - lo == 1 {
            (0x30u8, value[lo])
        } else if hi - lo == 2 {
            (value[lo], value[lo + 1])
        } else {
            return Err(InvalidByteStringError::new(ByteStringProblem::NotAByte, &value[lo..hi]));
        };
        let hh = is_hex(h);
        let lh = is_hex(l);
        if h == 0x3F && l == 0x3F {
            Ok(Self { byte: 0, mask: Mask::Wildcard })
        } else if hh && l == 0x3F {
            let hv = hex_val(h);
            proof {
                lemma_nibbles(hv, 0);
            }
            Ok(Self { byte: hv << 4, mask: Mask::HighOnly })
        } else if h == 0x3F && lh {
            Ok(Self { byte: hex_val(l), mask: Mask::LowOnly })
        } else if hh && lh {
            let hv = hex_val(h);
            let lv = hex_val(l);
            proof {
                lemma_nibbles(hv, lv);
            }
            Ok(Self { byte: (hv << 4) | lv, mask: Mask::Full })
        } else {
            Err(InvalidByteStringError::new(ByteStringProblem::InvalidPattern, &value[lo..hi]))
        }
    }

    /// The pattern byte that `value` stands for: no byte for the default,
    /// one for a low nibble, two for a high and a low nibble, each a
    /// hexadecimal digit or `?`.
    pub fn from_chunk(value: &[u8]) -> (r: Result<Self, InvalidByteStringError>)
        ensures
            result_view(r) == described(spec_from_chunk(value@)),
    {
        assert(value@.subrange(0, value@.len() as int) =~= value@);
        Self::from_chunk_range(value, 0, value.len())
    }

    /// The pattern byte that a string stands for: the string without leading
    /// and trailing whitespace and without a `0x` or `0X` prefix is read as
    /// by `from_chunk`.
    pub fn parse(s: &str) -> (r: Result<Self, InvalidByteStringError>)
        ensures
            result_view(r) == described(spec_from_chunk(text_payload(s@))),
    {
        let trimmed = crate::text::trim_str(s);
        let bytes = trimmed.as_bytes();
        if bytes.len() >= 2 && bytes[0] == 0x30 && (bytes[1] == 0x78 || bytes[1] == 0x58) {
            assert(bytes@.subrange(2, bytes@.len() as int) =~= bytes@.skip(2));
            Self::from_chunk_range(bytes, 2, bytes.len())
        } else {
            Self::from_chunk(bytes)
        }
    }
}

impl PatternByte {
    /// The text of a pattern byte: two uppercase hexadecimal digits, with `?`
    /// for each nibble that the mask drops.
    pub open spec fn text(self) -> Seq<char> {
        let high = hex_digit(self.byte >> 4u8);
        let low = hex_digit(self.byte & 0x0Fu8);
        match self.mask {
            Mask::Full => seq![high, low],
            Mask::HighOnly => seq![high, '?'],
            Mask::LowOnly => seq!['?', low],
            Mask::Wildcard => seq!['?', '?'],
        }
    }

    /// Appends the text of this pattern byte.
    pub fn push_text(&self, s: &mut String)
        ensures
            final(s)@ == old(s)@ + self.text(),
    {
        let b = self.byte;
        assert(b >> 4u8 < 16 && b & 0x0Fu8 < 16) by (bit_vector);
        match self.mask {
            Mask::Full => {
                push_hex_digit(s, b >> 4);
                push_hex_digit(s, b & 0x0F);
            },
            Mask::HighOnly => {
                push_hex_digit(s, b >> 4);
                push_char(s, '?');
            },
            Mask::LowOnly => {
                push_char(s, '?');
                push_hex_digit(s, b & 0x0F);
            },
            Mask::Wildcard => {
                push_char(s, '?');
                push_char(s, '?');
            },
        }
        assert(s@ =~= old(s)@ + self.text());
    }

    /// The pattern byte as text, e.g. `AB`, `A?`, `?B` or `??`.
    pub fn to_string(&self) -> (r: String)
        ensures
            r@ == self.text(),
    {
        let mut s = String::new();
        self.push_text(&mut s);
        assert(s@ =~= self.text());
        s
    }
}

impl<'a> TryFrom<&'a [u8]> for PatternByte {
    type Error = InvalidByteStringError;

    fn try_from(value: &'a [u8]) -> (r: Result<Self, Self::Error>)
        ensures
            result_view(r) == described(spec_from_chunk(value@)),
    {
        Self::from_chunk(value)
    }
}

/// The result of `try_from` on a byte slice is stated by the `ensures` of
/// that method (as by `PatternByte::from_chunk`); the error carries a `Vec`,
/// which a spec value cannot rebuild, so no `try_from_spec` is claimed here.
impl<'a> TryFromSpecImpl<&'a [u8]> for PatternByte {
    open spec fn obeys_try_from_spec() -> bool {
        false
    }

    open spec fn try_from_spec(v: &'a [u8]) -> Result<Self, Self::Error> {
        arbitrary()
    }
}

impl core::str::FromStr for PatternByte {
    type Err = InvalidByteStringError;

    fn from_str(s: &str) -> (r: Result<Self, Self::Err>)
        ensures
            result_view(r) == described(spec_from_chunk(text_payload(s@))),
    {
        Self::parse(s)
    }
}

impl Default for PatternByte {
    fn default() -> (r: Self)
        ensures
            r == (PatternByte { byte: 0, mask: Mask::Full }),
    {
        PatternByte { byte: 0, mask: Mask::Full }
    }
}

impl From<u8> for PatternByte {
    fn from(value: u8) -> (r: Self) {
        Self { byte: value, mask: Mask::Full }
    }
}

impl vstd::std_specs::convert::FromSpecImpl<u8> for PatternByte {
    open spec fn obeys_from_spec() -> bool {
        true
    }

    open spec fn from_spec(v: u8) -> Self {
        PatternByte { byte: v, mask: Mask::Full }
    }
}


impl PartialEq<u8> for PatternByte {
    fn eq(&self, other: &u8) -> (r: bool) {
        self.matches_byte(*other)
    }
}

impl PartialEqSpecImpl<u8> for PatternByte {
    open spec fn obeys_eq_spec() -> bool {
        true
    }

    open spec fn eq_spec(&self, other: &u8) -> bool {
        self.matches(*other)
    }
}

impl PartialOrd<u8> for PatternByte {
    fn partial_cmp(&self, other: &u8) -> (r: Option<Ordering>) {
        let a = self.apply();
        let b = *other & self.mask;
        if a < b {
            Some(Ordering::Less)
        } else if a == b {
            Some(Ordering::Equal)
        } else {
            Some(Ordering::Greater)
        }
    }
}

impl PartialOrdSpecImpl<u8> for PatternByte {
    open spec fn obeys_partial_cmp_spec() -> bool {
        true
    }

    /// The stored byte with the mask applied, compared with `other` under
    /// the same mask.
    open spec fn partial_cmp_spec(&self, other: &u8) -> Option<Ordering> {
        let a = self.spec_apply();
        let b = *other & self.mask.spec_bits();
        if a < b {
            Some(Ordering::Less)
        } else if a == b {
            Some(Ordering::Equal)
        } else {
            Some(Ordering::Greater)
        }
    }
}

} // verus!

verus! {

/// The mask that the merge keeps lies inside both masks, and on it the two
/// stored bytes agree.
proof fn lemma_merge_mask(p: PatternByte, q: PatternByte)
    ensures
        ({
            let m = p.spec_merge(q).mask.spec_bits();
            &&& m & p.mask.spec_bits() == m
            &&& m & q.mask.spec_bits() == m
            &&& p.byte & m == q.byte & m
        }),
{
    let kh = p.mask.keeps_high() && q.mask.keeps_high() && p.byte >> 4u8 == q.byte >> 4u8;
    let kl = p.mask.keeps_low() && q.mask.keeps_low() && p.byte & 0x0Fu8 == q.byte & 0x0Fu8;
    lemma_mask_bits(p.mask);
    lemma_mask_bits(q.mask);
    lemma_from_nibbles_bits(kh, kl);
    let m1 = p.mask.spec_bits();
    let m2 = q.mask.spec_bits();
    let a = p.byte;
    let b = q.byte;
    let m = p.spec_merge(q).mask.spec_bits();
    assert(m & m1 == m && m & m2 == m && a & m == b & m) by (bit_vector)
        requires
            kh ==> (m1 & 0xF0 == 0xF0 && m2 & 0xF0 == 0xF0 && a >> 4u8 == b >> 4u8),
            kl ==> (m1 & 0x0F == 0x0F && m2 & 0x0F == 0x0F && a & 0x0F == b & 0x0F),
            m == (if kh { 0xF0u8 } else { 0u8 }) | (if kl { 0x0Fu8 } else { 0u8 }),
    ;
}

/// Narrowing a mask keeps a match: if `x` agrees with `o` on `m` and `o`
/// agrees with `b` on a wider `m2`, then `x` agrees with `b` on `m`.
proof fn lemma_narrower_mask(x: u8, o: u8, b: u8, m: u8, m2: u8)
    requires
        m & m2 == m,
        x & m == o & m,
        o & m2 == b & m2,
    ensures
        x & m == b & m,
{
    assert(x & m == b & m) by (bit_vector)
        requires
            m & m2 == m,
            x & m == o & m,
            o & m2 == b & m2,
    ;
}

/// Merging generalises: every byte that either pattern byte matches, their
/// merge matches too.
pub proof fn lemma_merge_matches_both(p: PatternByte, q: PatternByte, b: u8)
    requires
        p.matches(b) || q.matches(b),
    ensures
        p.spec_merge(q).matches(b),
{
    lemma_merge_mask(p, q);
    let m = p.spec_merge(q).mask.spec_bits();
    let m1 = p.mask.spec_bits();
    let m2 = q.mask.spec_bits();
    if p.matches(b) {
        assert(p.byte & m == p.byte & m);
        lemma_narrower_mask(p.byte, p.byte, b, m, m1);
    } else {
        lemma_narrower_mask(p.byte, q.byte, b, m, m2);
    }
}

/// Merging a pattern byte with itself gives it back.
pub proof fn lemma_merge_idempotent(p: PatternByte)
    ensures
        p.spec_merge(p) == p,
{
}

/// Merging in either order gives pattern bytes that match the same bytes:
/// the same mask and the same masked byte.
pub proof fn lemma_merge_commutative(p: PatternByte, q: PatternByte)
    ensures
        p.spec_merge(q).equivalent(q.spec_merge(p)),
{
    lemma_merge_mask(p, q);
}

/// Merging with a wildcard gives a wildcard.
pub proof fn lemma_merge_wildcard(p: PatternByte, q: PatternByte)
    requires
        q.mask == Mask::Wildcard,
    ensures
        p.spec_merge(q).mask == Mask::Wildcard,
        q.spec_merge(p).mask == Mask::Wildcard,
{
}

/// Merging is associative.
pub proof fn lemma_merge_associative(p: PatternByte, q: PatternByte, r: PatternByte)
    ensures
        p.spec_merge(q).spec_merge(r) == p.spec_merge(q.spec_merge(r)),
{
}

} // verus!

verus! {

/// The merge is the narrowest broadening: a pattern byte that matches every
/// byte that either pattern byte matches also matches every byte that their
/// merge matches.
pub proof fn lemma_merge_least(p: PatternByte, q: PatternByte, r: PatternByte)
    requires
        forall|x: u8|
            #![trigger p.matches(x)]
            #![trigger q.matches(x)]
            p.matches(x) || q.matches(x) ==> r.matches(x),
    ensures
        forall|x: u8| #[trigger] p.spec_merge(q).matches(x) ==> r.matches(x),
{
    let a = p.byte;
    let b = q.byte;
    let c = r.byte;
    let mp = p.mask.spec_bits();
    let mq = q.mask.spec_bits();
    let mr = r.mask.spec_bits();
    let m = p.spec_merge(q).mask.spec_bits();
    let kh = p.mask.keeps_high() && q.mask.keeps_high() && a >> 4u8 == b >> 4u8;
    let kl = p.mask.keeps_low() && q.mask.keeps_low() && a & 0x0Fu8 == b & 0x0Fu8;
    lemma_mask_bits(p.mask);
    lemma_mask_bits(q.mask);
    lemma_mask_bits(r.mask);
    lemma_from_nibbles_bits(kh, kl);
    let a_hi = a ^ 0x80u8;
    let b_hi = b ^ 0x80u8;
    let a_lo = a ^ 0x01u8;
    let b_lo = b ^ 0x01u8;
    assert(p.matches(a) ==> r.matches(a));
    assert(q.matches(b) ==> r.matches(b));
    assert(p.matches(a_hi) ==> r.matches(a_hi));
    assert(q.matches(b_hi) ==> r.matches(b_hi));
    assert(p.matches(a_lo) ==> r.matches(a_lo));
    assert(q.matches(b_lo) ==> r.matches(b_lo));
    assert(mr & m == mr && a & mr == c & mr) by (bit_vector)
        requires
            mp == 0x00 || mp == 0x0F || mp == 0xF0 || mp == 0xFF,
            mq == 0x00 || mq == 0x0F || mq == 0xF0 || mq == 0xFF,
            mr == 0x00 || mr == 0x0F || mr == 0xF0 || mr == 0xFF,
            kh == (mp & 0xF0 == 0xF0 && mq & 0xF0 == 0xF0 && a >> 4u8 == b >> 4u8),
            kl == (mp & 0x0F == 0x0F && mq & 0x0F == 0x0F && a & 0x0F == b & 0x0F),
            m == (if kh { 0xF0u8 } else { 0u8 }) | (if kl { 0x0Fu8 } else { 0u8 }),
            a & mp == a & mp ==> c & mr == a & mr,
            b & mq == b & mq ==> c & mr == b & mr,
            a & mp == a_hi & mp ==> c & mr == a_hi & mr,
            b & mq == b_hi & mq ==> c & mr == b_hi & mr,
            a & mp == a_lo & mp ==> c & mr == a_lo & mr,
            b & mq == b_lo & mq ==> c & mr == b_lo & mr,
            a_hi == a ^ 0x80u8,
            b_hi == b ^ 0x80u8,
            a_lo == a ^ 0x01u8,
            b_lo == b ^ 0x01u8,
    ;
    assert forall|x: u8| #[trigger] p.spec_merge(q).matches(x) implies r.matches(x) by {
        assert(a & m == x & m);
        assert(c & mr == x & mr) by (bit_vector)
            requires
                mr & m == mr,
                a & mr == c & mr,
                a & m == x & m,
        ;
    }
}

} // verus!

verus! {

/// `Mask::try_from` undoes `Mask::bits`, and accepts exactly the bits of the
/// four masks.
pub proof fn lemma_mask_bits_roundtrip(m: Mask, v: u8)
    ensures
        Mask::spec_from_bits(m.spec_bits()) == Ok::<Mask, InvalidMaskError>(m),
        Mask::spec_from_bits(v) matches Ok(k) ==> k.spec_bits() == v,
        Mask::spec_from_bits(v) is Err <==> (v != 0x00 && v != 0x0F && v != 0xF0 && v != 0xFF),
{
}

/// A byte turned into a pattern byte matches that byte and no other.
pub proof fn lemma_from_u8_matches_only_itself(b: u8, x: u8)
    ensures
        (PatternByte { byte: b, mask: Mask::Full }).matches(x) <==> x == b,
{
    assert(b & 0xFFu8 == x & 0xFFu8 <==> x == b) by (bit_vector);
}

} // verus!

verus! {

/// The character for the nibble `n < 16` as a hexadecimal digit, in lower or
/// upper case: `0`-`9`, then `a`-`f` or `A`-`F`.
pub open spec fn nibble_char(n: u8, lower: bool) -> u8 {
    if n < 10 {
        (0x30 + n) as u8
    } else if lower {
        (0x61 + n - 10) as u8
    } else {
        (0x41 + n - 10) as u8
    }
}

/// The hexadecimal digits are exactly the characters of the sixteen nibbles
/// in either case, and each is worth its nibble.
pub proof fn lemma_hex_digits_are_nibble_chars(c: u8, n: u8, lower: bool)
    ensures
        spec_is_hex(c) <==> exists|k: u8, low: bool| k < 16 && c == #[trigger] nibble_char(k, low),
        n < 16 ==> spec_is_hex(nibble_char(n, lower)),
        n < 16 ==> digit_value(nibble_char(n, lower)) == n,
{
    if spec_is_hex(c) {
        let k = digit_value(c);
        let low = c >= 0x61;
        assert(k < 16 && c == nibble_char(k, low));
    }
}

/// Reading a chunk of text: two hexadecimal digits, in either case, give the
/// byte whose high and low nibbles they are, under the full mask; a digit
/// and `?` keep only the digit's nibble; `??` is a wildcard; a lone digit is
/// the low nibble of a byte whose high nibble is zero.
pub proof fn lemma_read_hex_chunk(hi: u8, lo: u8, lower_hi: bool, lower_lo: bool)
    requires
        hi < 16,
        lo < 16,
    ensures
        spec_from_chunk(seq![nibble_char(hi, lower_hi), nibble_char(lo, lower_lo)]) == Ok::<
            PatternByte,
            (ByteStringProblem, Seq<u8>),
        >(PatternByte { byte: (hi * 16 + lo) as u8, mask: Mask::Full }),
        spec_from_chunk(seq![nibble_char(hi, lower_hi), 0x3Fu8]) == Ok::<
            PatternByte,
            (ByteStringProblem, Seq<u8>),
        >(PatternByte { byte: (hi * 16) as u8, mask: Mask::HighOnly }),
        spec_from_chunk(seq![0x3Fu8, nibble_char(lo, lower_lo)]) == Ok::<
            PatternByte,
            (ByteStringProblem, Seq<u8>),
        >(PatternByte { byte: lo, mask: Mask::LowOnly }),
        spec_from_chunk(seq![nibble_char(lo, lower_lo)]) == Ok::<
            PatternByte,
            (ByteStringProblem, Seq<u8>),
        >(PatternByte { byte: lo, mask: Mask::Full }),
        spec_from_chunk(seq![0x3Fu8, 0x3Fu8]) == Ok::<PatternByte, (ByteStringProblem, Seq<u8>)>(
            PatternByte { byte: 0, mask: Mask::Wildcard },
        ),
{
    lemma_hex_digits_are_nibble_chars(0, hi, lower_hi);
    lemma_hex_digits_are_nibble_chars(0, lo, lower_lo);
    lemma_hex_digits_are_nibble_chars(0x30, 0, false);
}

/// A byte made into a pattern byte is the byte under the full mask, and it
/// matches that byte and no other.
pub proof fn lemma_from_u8_is_exact(v: u8, x: u8)
    ensures
        <PatternByte as vstd::std_specs::convert::FromSpec<u8>>::from_spec(v) == (PatternByte {
            byte: v,
            mask: Mask::Full,
        }),
        <PatternByte as vstd::std_specs::convert::FromSpec<u8>>::from_spec(v).matches(x) <==> x
            == v,
{
    assert(v & 0xFFu8 == x & 0xFFu8 <==> x == v) by (bit_vector);
}

} // verus!
