//! JSON text parsing for `JSON.parse`.

use vstd::prelude::*;
use vstd::utf8::{valid_utf8, valid_first_scalar, length_of_first_scalar, decode_first_codepoint, pop_first_scalar};
use vstd::std_specs::bits::u32_trailing_zeros;

verus! {

/// A parsed JSON value. Numbers keep their text (already checked against
/// the JSON number grammar); strings hold their decoded UTF-8 bytes.
#[derive(Debug, PartialEq)]
pub enum JsonValue {
    Null,
    Bool(bool),
    Number(Vec<u8>),
    String(Vec<u8>),
    Array(Vec<JsonValue>),
    Object(Vec<(Vec<u8>, JsonValue)>),
}

/// The mathematical form of a JSON value.
pub enum JsonSpec {
    Null,
    Bool(bool),
    Number(Seq<u8>),
    String(Seq<u8>),
    Array(Seq<JsonSpec>),
    Object(Seq<(Seq<u8>, JsonSpec)>),
}

pub open spec fn json_view(v: JsonValue) -> JsonSpec
    decreases v,
{
    match v {
        JsonValue::Null => JsonSpec::Null,
        JsonValue::Bool(b) => JsonSpec::Bool(b),
        JsonValue::Number(n) => JsonSpec::Number(n@),
        JsonValue::String(s) => JsonSpec::String(s@),
        JsonValue::Array(items) => JsonSpec::Array(
            Seq::new(items@.len(), |i: int| if 0 <= i < items@.len() { json_view(items@[i]) } else { JsonSpec::Null }),
        ),
        JsonValue::Object(members) => JsonSpec::Object(
            Seq::new(
                members@.len(),
                |i: int|
                    if 0 <= i < members@.len() {
                        (members@[i].0@, json_view(members@[i].1))
                    } else {
                        (Seq::empty(), JsonSpec::Null)
                    },
            ),
        ),
    }
}

/// Why a text is not JSON.
#[derive(Clone, Copy, Debug, PartialEq, Eq, Structural)]
pub enum JsonError {
    /// A structural byte was expected (`found` is `None` at the end).
    Expected { expected: u8, found: Option<u8> },
    UnexpectedCharacter(u8),
    UnexpectedEnd,
    ExpectedNull,
    ExpectedTrue,
    ExpectedFalse,
    /// A member name does not start with a quote.
    ExpectedQuote,
    UnterminatedString,
    UnterminatedEscape,
    InvalidEscape(u8),
    InvalidHexDigit(u8),
    UnexpectedEndInUnicodeEscape,
    ExpectedBackslashBeforeLowSurrogate,
    ExpectedUBeforeLowSurrogate,
    InvalidLowSurrogate,
    UnexpectedLowSurrogate,
    ControlCharacter(u8),
    InvalidUtf8LeadingByte,
    IncompleteUtf8Sequence,
    InvalidUtf8ContinuationByte,
    InvalidUtf8Sequence,
    InvalidNumber,
    TrailingCommaInArray,
    TrailingCommaInObject,
    TrailingContent,
}

/// JSON whitespace: space, tab, line feed, carriage return.
pub open spec fn is_ws(b: u8) -> bool {
    b == 0x20 || b == 0x09 || b == 0x0a || b == 0x0d
}

pub open spec fn is_digit(b: u8) -> bool {
    0x30 <= b <= 0x39
}

pub open spec fn is_hex_digit(b: u8) -> bool {
    is_digit(b) || (0x61 <= b <= 0x66) || (0x41 <= b <= 0x46)
}

pub open spec fn hex_value(b: u8) -> u32 {
    if is_digit(b) {
        (b - 0x30) as u32
    } else if 0x61 <= b <= 0x66 {
        (b - 0x61 + 10) as u32
    } else {
        (b - 0x41 + 10) as u32
    }
}

/// The first position at or after `p` that does not hold whitespace.
pub open spec fn skip_ws(s: Seq<u8>, p: int) -> int
    decreases s.len() - p,
{
    if 0 <= p < s.len() && is_ws(s[p]) {
        skip_ws(s, p + 1)
    } else {
        p
    }
}

pub proof fn lemma_skip_ws(s: Seq<u8>, p: int)
    requires
        0 <= p,
    ensures
        p <= skip_ws(s, p),
        p <= s.len() ==> skip_ws(s, p) <= s.len(),
        skip_ws(s, p) < s.len() ==> !is_ws(s[skip_ws(s, p)]),
        forall|i: int| p <= i < skip_ws(s, p) ==> is_ws(#[trigger] s[i]),
    decreases s.len() - p,
{
    if 0 <= p < s.len() && is_ws(s[p]) {
        lemma_skip_ws(s, p + 1);
    }
}

/// The first position at or after `p` that does not hold a digit.
pub open spec fn digits_end(s: Seq<u8>, p: int) -> int
    decreases s.len() - p,
{
    if 0 <= p < s.len() && is_digit(s[p]) {
        digits_end(s, p + 1)
    } else {
        p
    }
}

/// The end of the JSON number that starts at `p`: `-`? (`0` | [1-9][0-9]*)
/// (`.` [0-9]+)? ([eE] [+-]? [0-9]+)?; `None` when no number starts there.
pub open spec fn number_end(s: Seq<u8>, p: int) -> Option<int> {
    let q = if p < s.len() && s[p] == 0x2d { p + 1 } else { p };
    let int_end = if q < s.len() && s[q] == 0x30 {
        Some(q + 1)
    } else if q < s.len() && 0x31 <= s[q] <= 0x39 {
        Some(digits_end(s, q + 1))
    } else {
        None::<int>
    };
    match int_end {
        None => None,
        Some(r) => {
            let frac_end = if r < s.len() && s[r] == 0x2e {
                if r + 1 < s.len() && is_digit(s[r + 1]) {
                    Some(digits_end(s, r + 2))
                } else {
                    None::<int>
                }
            } else {
                Some(r)
            };
            match frac_end {
                None => None,
                Some(f) => if f < s.len() && (s[f] == 0x65 || s[f] == 0x45) {
                    let g = if f + 1 < s.len() && (s[f + 1] == 0x2b || s[f + 1] == 0x2d) {
                        f + 2
                    } else {
                        f + 1
                    };
                    if g < s.len() && is_digit(s[g]) {
                        Some(digits_end(s, g + 1))
                    } else {
                        None
                    }
                } else {
                    Some(f)
                },
            }
        },
    }
}

/// The four hex digits at `p`, read into a code unit.
pub open spec fn spec_hex4(s: Seq<u8>, p: int) -> Result<u32, JsonError> {
    spec_hex_from(s, p, 0, 0)
}

pub open spec fn spec_hex_from(s: Seq<u8>, p: int, k: int, acc: u32) -> Result<u32, JsonError>
    decreases 4 - k,
{
    if k >= 4 {
        Ok(acc)
    } else if p + k >= s.len() {
        Err(JsonError::UnexpectedEndInUnicodeEscape)
    } else if !is_hex_digit(s[p + k]) {
        Err(JsonError::InvalidHexDigit(s[p + k]))
    } else {
        spec_hex_from(s, p, k + 1, ((acc << 4u32) | hex_value(s[p + k])) as u32)
    }
}

/// The UTF-8 encoding of code point `cp` (at most 0x10FFFF).
pub open spec fn utf8_encode(cp: u32) -> Seq<u8> {
    if cp < 0x80 {
        seq![cp as u8]
    } else if cp < 0x800 {
        seq![(0xC0u32 | (cp >> 6u32)) as u8, (0x80u32 | (cp & 0x3Fu32)) as u8]
    } else if cp < 0x10000 {
        seq![
            (0xE0u32 | (cp >> 12u32)) as u8,
            (0x80u32 | ((cp >> 6u32) & 0x3Fu32)) as u8,
            (0x80u32 | (cp & 0x3Fu32)) as u8,
        ]
    } else {
        seq![
            (0xF0u32 | (cp >> 18u32)) as u8,
            (0x80u32 | ((cp >> 12u32) & 0x3Fu32)) as u8,
            (0x80u32 | ((cp >> 6u32) & 0x3Fu32)) as u8,
            (0x80u32 | (cp & 0x3Fu32)) as u8,
        ]
    }
}

/// The byte that a one-character escape `\e` stands for.
pub open spec fn simple_escape(e: u8) -> Option<u8> {
    if e == 0x22 {
        Some(0x22u8)
    } else if e == 0x5c {
        Some(0x5cu8)
    } else if e == 0x2f {
        Some(0x2fu8)
    } else if e == 0x62 {
        Some(0x08u8)
    } else if e == 0x66 {
        Some(0x0cu8)
    } else if e == 0x6e {
        Some(0x0au8)
    } else if e == 0x72 {
        Some(0x0du8)
    } else if e == 0x74 {
        Some(0x09u8)
    } else {
        None
    }
}

/// The width a UTF-8 leading byte at or above 0xC0 announces.
pub open spec fn utf8_width(c: u8) -> int {
    if c < 0xE0 {
        2
    } else if c < 0xF0 {
        3
    } else {
        4
    }
}

/// The rest of a string whose content so far decoded to `acc`, from `p`:
/// the decoded bytes and the position after the closing quote.
pub open spec fn spec_string_from(s: Seq<u8>, p: int, acc: Seq<u8>) -> Result<(Seq<u8>, int), JsonError>
    decreases s.len() + 16 - p,
{
    if p < 0 || p >= s.len() {
        Err(JsonError::UnterminatedString)
    } else {
        let c = s[p];
        if c == 0x22 {
            Ok((acc, p + 1))
        } else if c == 0x5c {
            if p + 1 >= s.len() {
                Err(JsonError::UnterminatedEscape)
            } else {
                let e = s[p + 1];
                match simple_escape(e) {
                    Some(b) => spec_string_from(s, p + 2, acc.push(b)),
                    None => if e == 0x75 {
                        match spec_hex4(s, p + 2) {
                            Err(x) => Err(x),
                            Ok(cp) => if 0xD800 <= cp <= 0xDBFF {
                                if !(p + 6 < s.len() && s[p + 6] == 0x5c) {
                                    Err(JsonError::ExpectedBackslashBeforeLowSurrogate)
                                } else if !(p + 7 < s.len() && s[p + 7] == 0x75) {
                                    Err(JsonError::ExpectedUBeforeLowSurrogate)
                                } else {
                                    match spec_hex4(s, p + 8) {
                                        Err(x) => Err(x),
                                        Ok(low) => if !(0xDC00 <= low <= 0xDFFF) {
                                            Err(JsonError::InvalidLowSurrogate)
                                        } else {
                                            spec_string_from(
                                                s,
                                                p + 12,
                                                acc + utf8_encode(
                                                    (0x10000 + ((cp - 0xD800) * 1024) + (low - 0xDC00)) as u32,
                                                ),
                                            )
                                        },
                                    }
                                }
                            } else if 0xDC00 <= cp <= 0xDFFF {
                                Err(JsonError::UnexpectedLowSurrogate)
                            } else {
                                spec_string_from(s, p + 6, acc + utf8_encode(cp))
                            },
                        }
                    } else {
                        Err(JsonError::InvalidEscape(e))
                    },
                }
            }
        } else if c < 0x20 {
            Err(JsonError::ControlCharacter(c))
        } else if c < 0x80 {
            spec_string_from(s, p + 1, acc.push(c))
        } else if c < 0xC0 {
            Err(JsonError::InvalidUtf8LeadingByte)
        } else {
            let w = utf8_width(c);
            if p + w > s.len() {
                Err(JsonError::IncompleteUtf8Sequence)
            } else if exists|i: int| p + 1 <= i < p + w && (#[trigger] s[i] & 0xC0) != 0x80 {
                Err(JsonError::InvalidUtf8ContinuationByte)
            } else if !valid_utf8(s.subrange(p, p + w)) {
                Err(JsonError::InvalidUtf8Sequence)
            } else {
                spec_string_from(s, p + w, acc + s.subrange(p, p + w))
            }
        }
    }
}

pub open spec fn matches_at(s: Seq<u8>, p: int, lit: Seq<u8>) -> bool {
    0 <= p && p + lit.len() <= s.len() && s.subrange(p, p + lit.len()) == lit
}

/// The value that starts (after whitespace) at `p`, and the position after it.
pub open spec fn spec_value(s: Seq<u8>, p: int) -> Result<(JsonSpec, int), JsonError>
    decreases s.len() - p, 0int,
{
    let q = skip_ws(s, p);
    if q < 0 || q >= s.len() {
        Err(JsonError::UnexpectedEnd)
    } else {
        let c = s[q];
        if c == 0x6e {
            if matches_at(s, q, seq![0x6eu8, 0x75, 0x6c, 0x6c]) {
                Ok((JsonSpec::Null, q + 4))
            } else {
                Err(JsonError::ExpectedNull)
            }
        } else if c == 0x74 {
            if matches_at(s, q, seq![0x74u8, 0x72, 0x75, 0x65]) {
                Ok((JsonSpec::Bool(true), q + 4))
            } else {
                Err(JsonError::ExpectedTrue)
            }
        } else if c == 0x66 {
            if matches_at(s, q, seq![0x66u8, 0x61, 0x6c, 0x73, 0x65]) {
                Ok((JsonSpec::Bool(false), q + 5))
            } else {
                Err(JsonError::ExpectedFalse)
            }
        } else if c == 0x22 {
            match spec_string_from(s, q + 1, Seq::empty()) {
                Ok((bytes, e)) => Ok((JsonSpec::String(bytes), e)),
                Err(x) => Err(x),
            }
        } else if c == 0x5b {
            if q + 1 > p {
                spec_array_from(s, q + 1, Seq::empty())
            } else {
                Err(JsonError::UnexpectedEnd)
            }
        } else if c == 0x7b {
            if q + 1 > p {
                spec_object_from(s, q + 1, Seq::empty())
            } else {
                Err(JsonError::UnexpectedEnd)
            }
        } else if c == 0x2d || is_digit(c) {
            match number_end(s, q) {
                Some(e) => Ok((JsonSpec::Number(s.subrange(q, e)), e)),
                None => Err(JsonError::InvalidNumber),
            }
        } else {
            Err(JsonError::UnexpectedCharacter(c))
        }
    }
}

/// The position after the separator before the next element, or an error:
/// nothing before the first element, a comma (not followed by `close`)
/// before the others.
pub open spec fn spec_separator(s: Seq<u8>, q: int, first: bool, close: u8, trailing: JsonError) -> Result<
    int,
    JsonError,
> {
    if first {
        Ok(q)
    } else if q >= s.len() {
        Err(JsonError::Expected { expected: 0x2c, found: None })
    } else if s[q] != 0x2c {
        Err(JsonError::Expected { expected: 0x2c, found: Some(s[q]) })
    } else {
        let r = skip_ws(s, q + 1);
        if r < s.len() && s[r] == close {
            Err(trailing)
        } else {
            Ok(r)
        }
    }
}

/// The rest of an array whose elements so far are `items`, from `p`.
pub open spec fn spec_array_from(s: Seq<u8>, p: int, items: Seq<JsonSpec>) -> Result<(JsonSpec, int), JsonError>
    decreases s.len() - p, 1int,
{
    let q = skip_ws(s, p);
    if 0 <= q < s.len() && s[q] == 0x5d {
        Ok((JsonSpec::Array(items), q + 1))
    } else {
        match spec_separator(s, q, items.len() == 0, 0x5d, JsonError::TrailingCommaInArray) {
            Err(x) => Err(x),
            Ok(v) => if p <= v <= s.len() {
                match spec_value(s, v) {
                    Err(x) => Err(x),
                    Ok((x, e)) => if p < e <= s.len() {
                        spec_array_from(s, e, items.push(x))
                    } else {
                        Err(JsonError::UnexpectedEnd)
                    },
                }
            } else {
                Err(JsonError::UnexpectedEnd)
            },
        }
    }
}

/// The rest of an object whose members so far are `members`, from `p`.
pub open spec fn spec_object_from(s: Seq<u8>, p: int, members: Seq<(Seq<u8>, JsonSpec)>) -> Result<
    (JsonSpec, int),
    JsonError,
>
    decreases s.len() - p, 1int,
{
    let q = skip_ws(s, p);
    if 0 <= q < s.len() && s[q] == 0x7d {
        Ok((JsonSpec::Object(members), q + 1))
    } else {
        match spec_separator(s, q, members.len() == 0, 0x7d, JsonError::TrailingCommaInObject) {
            Err(x) => Err(x),
            Ok(k) => if !(0 <= k < s.len() && s[k] == 0x22) {
                Err(JsonError::ExpectedQuote)
            } else {
                match spec_string_from(s, k + 1, Seq::empty()) {
                    Err(x) => Err(x),
                    Ok((key, ke)) => {
                        let c = skip_ws(s, ke);
                        if c < 0 || c >= s.len() {
                            Err(JsonError::Expected { expected: 0x3a, found: None })
                        } else if s[c] != 0x3a {
                            Err(JsonError::Expected { expected: 0x3a, found: Some(s[c]) })
                        } else if p < c + 1 <= s.len() {
                            match spec_value(s, c + 1) {
                                Err(x) => Err(x),
                                Ok((x, e)) => if p < e <= s.len() {
                                    spec_object_from(s, e, members.push((key, x)))
                                } else {
                                    Err(JsonError::UnexpectedEnd)
                                },
                            }
                        } else {
                            Err(JsonError::UnexpectedEnd)
                        }
                    },
                }
            },
        }
    }
}

/// A whole JSON text: one value, surrounded by optional whitespace.
pub open spec fn spec_parse_text(s: Seq<u8>) -> Result<JsonSpec, JsonError> {
    match spec_value(s, 0) {
        Err(x) => Err(x),
        Ok((v, e)) => if skip_ws(s, e) < s.len() {
            Err(JsonError::TrailingContent)
        } else {
            Ok(v)
        },
    }
}

/// Bit `i` of `bits` is set exactly when `base + i` is a non-whitespace
/// byte of `s`.
pub open spec fn nonspace_bits_ok(bits: u64, s: Seq<u8>, base: int) -> bool {
    forall|i: u64| i < 64 ==> (#[trigger] ((bits >> i) & 1u64) == 1u64) == (base + i < s.len() && !is_ws(s[base + i]))
}

proof fn lemma_bit_set(b: u64, k: u64, j: u64)
    requires
        k < 64,
        j < 64,
    ensures
        (((b | (1u64 << k)) >> j) & 1u64 == 1u64) == (j == k || ((b >> j) & 1u64) == 1u64),
{
    assert((((b | (1u64 << k)) >> j) & 1u64 == 1u64) == (j == k || ((b >> j) & 1u64) == 1u64)) by (bit_vector)
        requires k < 64, j < 64;
}

proof fn lemma_bit_zero(j: u64)
    ensures
        (0u64 >> j) & 1u64 == 0u64,
{
    assert((0u64 >> j) & 1u64 == 0u64) by (bit_vector);
}

/// One bit per byte of the 64-byte window at `base`: set for the bytes that
/// are not whitespace (bytes past the input count as whitespace).
pub fn compute_nonspace_bits_scalar(input: &[u8], base: usize) -> (r: u64)
    ensures
        nonspace_bits_ok(r, input@, base as int),
{
    let mut bits: u64 = 0;
    let end: usize = if base < input.len() && input.len() - base > 64 {
        base + 64
    } else if base < input.len() {
        input.len()
    } else {
        base
    };
    let mut i: usize = base;
    proof {
        assert forall|j: u64| j < 64 implies (#[trigger] ((bits >> j) & 1u64) == 1u64) == (j < 0 && base + j
            < input@.len() && !is_ws(input@[base + j])) by {
            lemma_bit_zero(j);
        }
    }
    while i < end
        invariant
            base <= i <= end,
            end <= input@.len() || end == base,
            end - base <= 64,
            end == base || end == input@.len() || end == base + 64,
            forall|j: u64|
                j < 64 ==> (#[trigger] ((bits >> j) & 1u64) == 1u64) == (j < i - base && base + j
                    < input@.len() && !is_ws(input@[base + j])),
        decreases end - i,
    {
        let b = input[i];
        let k = (i - base) as u64;
        let ghost old_bits = bits;
        if b != 0x20 && b != 0x09 && b != 0x0a && b != 0x0d {
            bits = bits | (1u64 << k);
            proof {
                assert forall|j: u64| j < 64 implies (#[trigger] ((bits >> j) & 1u64) == 1u64) == (j < i + 1
                    - base && base + j < input@.len() && !is_ws(input@[base + j])) by {
                    lemma_bit_set(old_bits, k, j);
                }
            }
        } else {
            proof {
                assert forall|j: u64| j < 64 implies (#[trigger] ((bits >> j) & 1u64) == 1u64) == (j < i + 1
                    - base && base + j < input@.len() && !is_ws(input@[base + j])) by {
                    if j == k {
                        assert(base + j == i);
                    }
                }
            }
        }
        i += 1;
    }
    proof {
        assert forall|j: u64| j < 64 implies (#[trigger] ((bits >> j) & 1u64) == 1u64) == (base + j < input@.len()
            && !is_ws(input@[base + j])) by {
            if j >= i - base && base + j < input@.len() {
                assert(end == base + 64 || end == input@.len());
            }
        }
    }
    bits
}

/// The whitespace bitmap of a window; bytes past the input count as
/// whitespace.
pub fn compute_nonspace_bits(input: &[u8], base: usize) -> (r: u64)
    ensures
        nonspace_bits_ok(r, input@, base as int),
{
    compute_nonspace_bits_scalar(input, base)
}

/// A cached whitespace bitmap of the 64-byte window at `base`.
#[derive(Debug, Clone, Copy)]
struct NonspaceBitmap {
    bits: u64,
    base: usize,
}

/// A recursive-descent JSON parser over a byte slice.
pub struct JsonParser<'a> {
    input: &'a [u8],
    pos: usize,
    /// The whitespace bitmap of the last 64-byte window `skip_whitespace`
    /// scanned (`base == usize::MAX` before the first).
    nonspace: NonspaceBitmap,
}

impl<'a> JsonParser<'a> {
    #[verifier::type_invariant]
    spec fn inv(self) -> bool {
        &&& self.pos <= self.input@.len()
        &&& self.nonspace.base == usize::MAX || (self.nonspace.base + 64 <= self.input@.len()
            && nonspace_bits_ok(self.nonspace.bits, self.input@, self.nonspace.base as int))
    }

    /// The text being parsed.
    pub closed spec fn text(&self) -> Seq<u8> {
        self.input@
    }

    /// The current position.
    pub closed spec fn at(&self) -> int {
        self.pos as int
    }

    pub fn new(input: &'a [u8]) -> (r: JsonParser<'a>)
        ensures
            r.text() == input@,
            r.at() == 0,
    {
        JsonParser { input, pos: 0, nonspace: NonspaceBitmap { bits: 0, base: usize::MAX } }
    }

    pub fn pos(&self) -> (r: usize)
        ensures
            r == self.at(),
            r <= self.text().len(),
    {
        proof {
            use_type_invariant(self);
        }
        self.pos
    }

    /// Moves past whitespace, scanning 64-byte windows through the cached
    /// bitmap once it is past the first few bytes.
    pub fn skip_whitespace(&mut self)
        ensures
            final(self).text() == old(self).text(),
            final(self).at() == skip_ws(old(self).text(), old(self).at()),
    {
        proof {
            use_type_invariant(&*self);
            lemma_skip_ws(self.input@, self.pos as int);
        }
        let ghost s = self.input@;
        let ghost target = skip_ws(s, self.pos as int);
        let len = self.input.len();
        let limit = if len - self.pos > 8 {
            self.pos + 8
        } else {
            len
        };
        while self.pos < limit
            invariant
                self.input@ == s,
                len == s.len(),
                self.pos <= limit <= len,
                skip_ws(s, self.pos as int) == target,
                self.nonspace == old(self).nonspace,
                self.nonspace.base == usize::MAX || (self.nonspace.base + 64 <= s.len() && nonspace_bits_ok(
                    self.nonspace.bits,
                    s,
                    self.nonspace.base as int,
                )),
                self.input == old(self).input,
                target == skip_ws(old(self).text(), old(self).at()),
            decreases limit - self.pos,
        {
            let b = self.input[self.pos];
            if b == 0x20 || b == 0x09 || b == 0x0a || b == 0x0d {
                self.pos += 1;
            } else {
                return;
            }
        }
        while self.pos <= len && len - self.pos >= 64
            invariant
                self.input@ == s,
                len == s.len(),
                self.pos <= len,
                skip_ws(s, self.pos as int) == target,
                self.nonspace.base == usize::MAX || (self.nonspace.base + 64 <= s.len() && nonspace_bits_ok(
                    self.nonspace.bits,
                    s,
                    self.nonspace.base as int,
                )),
                self.input == old(self).input,
                target == skip_ws(old(self).text(), old(self).at()),
            decreases len - self.pos,
        {
            let cur = self.pos;
            let base = cur & !63usize;
            proof {
                assert(base <= cur && cur - base < 64) by (bit_vector)
                    requires base == cur & !63usize;
            }
            if base != self.nonspace.base {
                let bits = compute_nonspace_bits(self.input, base);
                self.nonspace = NonspaceBitmap { bits, base };
            }
            let bits = self.nonspace.bits;
            let offset = self.pos - base;
            let mask = bits >> (offset as u64);
            if mask != 0 {
                let t = mask.trailing_zeros();
                proof {
                    vstd::std_specs::bits::axiom_u64_trailing_zeros(mask);
                    let p = self.pos as int;
                    lemma_shift_bound(bits, offset as u64, t as u64);
                    assert forall|j: int| p <= j < p + t implies is_ws(#[trigger] s[j]) by {
                        let jj = (j - p) as u64;
                        assert((mask >> jj) & 1u64 == 0u64);
                        lemma_shift_compose(bits, offset as u64, jj);
                        assert(((bits >> (offset as u64 + jj) as u64) & 1u64) == 0u64);
                        assert(offset + jj < 64);
                        let idx = (offset + jj) as u64;
                        assert(((bits >> idx) & 1u64) == 1u64 <==> (base + idx < s.len() && !is_ws(s[base + idx])));
                    }
                    let tt = t as u64;
                    lemma_shift_compose(bits, offset as u64, tt);
                    let idx = (offset + tt) as u64;
                    assert(((bits >> idx) & 1u64) == 1u64 <==> (base + idx < s.len() && !is_ws(s[base + idx])));
                    lemma_skip_ws_run(s, p, p + t);
                }
                self.pos = self.pos + t as usize;
                return;
            }
            proof {
                let p = self.pos as int;
                assert forall|j: int| p <= j < base + 64 implies is_ws(#[trigger] s[j]) by {
                    let jj = (j - p) as u64;
                    lemma_shift_compose(bits, offset as u64, jj);
                    lemma_zero_bits(mask, jj);
                    let idx = (offset + jj) as u64;
                    assert(((bits >> idx) & 1u64) == 1u64 <==> (base + idx < s.len() && !is_ws(s[base + idx])));
                }
                lemma_skip_ws_ws_run(s, p, base + 64);
            }
            self.pos = base + 64;
        }
        while self.pos < len
            invariant
                self.input@ == s,
                len == s.len(),
                self.pos <= len,
                skip_ws(s, self.pos as int) == target,
                self.nonspace.base == usize::MAX || (self.nonspace.base + 64 <= s.len() && nonspace_bits_ok(
                    self.nonspace.bits,
                    s,
                    self.nonspace.base as int,
                )),
                self.input == old(self).input,
                target == skip_ws(old(self).text(), old(self).at()),
            ensures
                self.pos == target,
                self.input == old(self).input,
            decreases len - self.pos,
        {
            let b = self.input[self.pos];
            if b == 0x20 || b == 0x09 || b == 0x0a || b == 0x0d {
                self.pos += 1;
            } else {
                break;
            }
        }
    }

    /// The byte at the current position.
    pub fn peek(&self) -> (r: Option<u8>)
        ensures
            r == if self.at() < self.text().len() {
                Some(self.text()[self.at()])
            } else {
                None::<u8>
            },
    {
        proof {
            use_type_invariant(self);
        }
        if self.pos < self.input.len() {
            Some(self.input[self.pos])
        } else {
            None
        }
    }

    /// Takes the byte at the current position.
    pub fn next(&mut self) -> (r: Option<u8>)
        ensures
            final(self).text() == old(self).text(),
            r == if old(self).at() < old(self).text().len() {
                Some(old(self).text()[old(self).at()])
            } else {
                None::<u8>
            },
            final(self).at() == if r is Some {
                old(self).at() + 1
            } else {
                old(self).at()
            },
    {
        proof {
            use_type_invariant(&*self);
        }
        if self.pos < self.input.len() {
            let c = self.input[self.pos];
            self.pos = self.pos + 1;
            Some(c)
        } else {
            None
        }
    }

    /// Takes the byte at the current position, which must be `expected`.
    pub fn expect(&mut self, expected: u8) -> (r: Result<(), JsonError>)
        ensures
            final(self).text() == old(self).text(),
            final(self).at() == if old(self).at() < old(self).text().len() {
                old(self).at() + 1
            } else {
                old(self).at()
            },
            r == if old(self).at() >= old(self).text().len() {
                Err(JsonError::Expected { expected, found: None })
            } else if old(self).text()[old(self).at()] == expected {
                Ok(())
            } else {
                Err(JsonError::Expected { expected, found: Some(old(self).text()[old(self).at()]) })
            },
    {
        match self.next() {
            Some(ch) => if ch == expected {
                Ok(())
            } else {
                Err(JsonError::Expected { expected, found: Some(ch) })
            },
            None => Err(JsonError::Expected { expected, found: None }),
        }
    }
}

proof fn lemma_shift_compose(b: u64, o: u64, j: u64)
    requires
        o + j < 64,
    ensures
        ((b >> o) >> j) & 1u64 == (b >> ((o + j) as u64)) & 1u64,
{
    assert(((b >> o) >> j) & 1u64 == (b >> ((o + j) as u64)) & 1u64) by (bit_vector)
        requires o + j < 64;
}

proof fn lemma_shift_bound(b: u64, o: u64, t: u64)
    requires
        o < 64,
        t < 64,
        ((b >> o) >> t) & 1u64 == 1u64,
    ensures
        o + t < 64,
{
    assert(o + t < 64) by (bit_vector)
        requires o < 64, t < 64, ((b >> o) >> t) & 1u64 == 1u64;
}

proof fn lemma_zero_bits(m: u64, j: u64)
    requires
        m == 0,
    ensures
        (m >> j) & 1u64 == 0u64,
{
    assert((m >> j) & 1u64 == 0u64) by (bit_vector)
        requires m == 0;
}

/// Skipping from `p` over the whitespace run `[p, q)` lands on `q` when `q`
/// holds a non-whitespace byte.
proof fn lemma_skip_ws_run(s: Seq<u8>, p: int, q: int)
    requires
        0 <= p <= q < s.len(),
        forall|j: int| p <= j < q ==> is_ws(#[trigger] s[j]),
        !is_ws(s[q]),
    ensures
        skip_ws(s, p) == q,
    decreases q - p,
{
    if p < q {
        lemma_skip_ws_run(s, p + 1, q);
    }
}

/// Skipping from `p` over the whitespace run `[p, q)` continues from `q`.
proof fn lemma_skip_ws_ws_run(s: Seq<u8>, p: int, q: int)
    requires
        0 <= p <= q <= s.len(),
        forall|j: int| p <= j < q ==> is_ws(#[trigger] s[j]),
    ensures
        skip_ws(s, p) == skip_ws(s, q),
    decreases q - p,
{
    if p < q {
        lemma_skip_ws_ws_run(s, p + 1, q);
    }
}

/// The length of the well-formed scalar that starts `s` at `p`, or 0 when
/// none does.
fn first_scalar_len(s: &[u8], p: usize) -> (r: usize)
    requires
        p < s@.len(),
    ensures
        r == if valid_first_scalar(s@.subrange(p as int, s@.len() as int)) {
            length_of_first_scalar(s@.subrange(p as int, s@.len() as int))
        } else {
            0
        },
{
    let ghost t = s@.subrange(p as int, s@.len() as int);
    let rest = s.len() - p;
    let b0 = s[p];
    if b0 <= 0x7f {
        return 1;
    }
    let (width, cp): (usize, u32) = if 0xc0 <= b0 && b0 <= 0xdf {
        if rest < 2 || !(0x80 <= s[p + 1] && s[p + 1] <= 0xbf) {
            return 0;
        }
        (2, (((b0 & 0x1F) as u32) << 6) | ((s[p + 1] & 0x3f) as u32))
    } else if 0xe0 <= b0 && b0 <= 0xef {
        if rest < 3 || !(0x80 <= s[p + 1] && s[p + 1] <= 0xbf) || !(0x80 <= s[p + 2] && s[p + 2] <= 0xbf) {
            return 0;
        }
        (3, (((b0 & 0x0F) as u32) << 12) | (((s[p + 1] & 0x3f) as u32) << 6) | ((s[p + 2] & 0x3f) as u32))
    } else if 0xf0 <= b0 && b0 <= 0xf7 {
        if rest < 4 || !(0x80 <= s[p + 1] && s[p + 1] <= 0xbf) || !(0x80 <= s[p + 2] && s[p + 2] <= 0xbf) || !(
        0x80 <= s[p + 3] && s[p + 3] <= 0xbf) {
            return 0;
        }
        (
            4,
            (((b0 & 0x07) as u32) << 18) | (((s[p + 1] & 0x3f) as u32) << 12) | (((s[p + 2] & 0x3f) as u32) << 6)
                | ((s[p + 3] & 0x3f) as u32),
        )
    } else {
        return 0;
    };
    proof {
        assert(t[0] == s@[p as int]);
        assert(width >= 2 ==> t[1] == s@[p + 1]);
        assert(width >= 3 ==> t[2] == s@[p + 2]);
        assert(width >= 4 ==> t[3] == s@[p + 3]);
        assert(cp == decode_first_codepoint(t));
    }
    let not_overlong = if width == 2 {
        0x80 <= cp
    } else if width == 3 {
        0x800 <= cp
    } else {
        0x10000 <= cp && cp <= 0x10ffff
    };
    if not_overlong && !(0xD800 <= cp && cp <= 0xDFFF) {
        width
    } else {
        0
    }
}

/// Whether `bytes` is valid UTF-8 (well-formed sequences, no overlong
/// forms, no surrogates, nothing past U+10FFFF), as `std::str::from_utf8`
/// decides it.
fn utf8_is_valid(bytes: &[u8]) -> (r: bool)
    ensures
        r == valid_utf8(bytes@),
{
    let n = bytes.len();
    let mut p: usize = 0;
    proof {
        assert(bytes@.subrange(0, n as int) =~= bytes@);
    }
    while p < n
        invariant
            p <= n,
            n == bytes@.len(),
            valid_utf8(bytes@) == valid_utf8(bytes@.subrange(p as int, n as int)),
        decreases n - p,
    {
        let ghost t = bytes@.subrange(p as int, n as int);
        let w = first_scalar_len(bytes, p);
        if w == 0 {
            return false;
        }
        proof {
            assert(pop_first_scalar(t) =~= bytes@.subrange(p + w, n as int));
        }
        p += w;
    }
    proof {
        assert(bytes@.subrange(p as int, n as int) =~= Seq::<u8>::empty());
    }
    true
}

fn is_ws_byte(b: u8) -> (r: bool)
    ensures
        r == is_ws(b),
{
    b == 0x20 || b == 0x09 || b == 0x0a || b == 0x0d
}

fn is_digit_byte(b: u8) -> (r: bool)
    ensures
        r == is_digit(b),
{
    0x30 <= b && b <= 0x39
}

/// Appends the UTF-8 encoding of `cp`.
fn push_utf8(out: &mut Vec<u8>, cp: u32)
    ensures
        final(out)@ == old(out)@ + utf8_encode(cp),
{
    if cp < 0x80 {
        out.push(cp as u8);
    } else if cp < 0x800 {
        out.push((0xC0u32 | (cp >> 6u32)) as u8);
        out.push((0x80u32 | (cp & 0x3Fu32)) as u8);
    } else if cp < 0x10000 {
        out.push((0xE0u32 | (cp >> 12u32)) as u8);
        out.push((0x80u32 | ((cp >> 6u32) & 0x3Fu32)) as u8);
        out.push((0x80u32 | (cp & 0x3Fu32)) as u8);
    } else {
        out.push((0xF0u32 | (cp >> 18u32)) as u8);
        out.push((0x80u32 | ((cp >> 12u32) & 0x3Fu32)) as u8);
        out.push((0x80u32 | ((cp >> 6u32) & 0x3Fu32)) as u8);
        out.push((0x80u32 | (cp & 0x3Fu32)) as u8);
    }
    proof {
        assert(final(out)@ =~= old(out)@ + utf8_encode(cp));
    }
}

proof fn lemma_digits_end(s: Seq<u8>, p: int)
    requires
        0 <= p,
    ensures
        p <= digits_end(s, p),
        p <= s.len() ==> digits_end(s, p) <= s.len(),
    decreases s.len() - p,
{
    if 0 <= p < s.len() && is_digit(s[p]) {
        lemma_digits_end(s, p + 1);
    }
}

impl<'a> JsonParser<'a> {
    /// Takes digits while they last.
    fn skip_digits(&mut self)
        ensures
            final(self).text() == old(self).text(),
            final(self).at() == digits_end(old(self).text(), old(self).at()),
            final(self).at() >= old(self).at(),
    {
        proof {
            use_type_invariant(&*self);
            lemma_digits_end(self.input@, self.pos as int);
        }
        let ghost target = digits_end(self.input@, self.pos as int);
        loop
            invariant_except_break
                self.input == old(self).input,
                digits_end(self.input@, self.pos as int) == target,
                target == digits_end(old(self).text(), old(self).at()),
            ensures
                self.input == old(self).input,
                self.pos == target,
            decreases self.input@.len() - self.pos,
        {
            proof {
                use_type_invariant(&*self);
            }
            match self.peek() {
                Some(b) => {
                    if is_digit_byte(b) {
                        self.next();
                    } else {
                        break;
                    }
                },
                None => {
                    break;
                },
            }
        }
    }

    /// Whether `lit` starts at the current position.
    fn literal_here(&self, lit: &[u8]) -> (r: bool)
        ensures
            r == matches_at(self.text(), self.at(), lit@),
    {
        proof {
            use_type_invariant(self);
        }
        let len = self.input.len();
        let p = self.pos;
        if len - p < lit.len() {
            return false;
        }
        let mut i: usize = 0;
        while i < lit.len()
            invariant
                p == self.pos,
                len == self.input@.len(),
                p + lit@.len() <= len,
                i <= lit@.len(),
                forall|j: int| 0 <= j < i ==> self.input@[p + j] == lit@[j],
            decreases lit@.len() - i,
        {
            if self.input[p + i] != lit[i] {
                proof {
                    assert(self.input@.subrange(self.pos as int, self.pos + lit@.len())[i as int] != lit@[i as int]);
                }
                return false;
            }
            i += 1;
        }
        proof {
            assert(self.input@.subrange(self.pos as int, self.pos + lit@.len()) =~= lit@);
        }
        true
    }

    /// Moves past `n` bytes known to be in the input.
    fn advance(&mut self, n: usize)
        requires
            old(self).at() + n <= old(self).text().len(),
        ensures
            final(self).text() == old(self).text(),
            final(self).at() == old(self).at() + n,
    {
        proof {
            use_type_invariant(&*self);
        }
        let _len = self.input.len();
        self.pos = self.pos + n;
    }

    /// A number at the current position: its text when it follows the JSON
    /// number grammar.
    pub fn parse_number(&mut self) -> (r: Result<JsonValue, JsonError>)
        ensures
            final(self).text() == old(self).text(),
            match number_end(old(self).text(), old(self).at()) {
                Some(e) => r matches Ok(v) && json_view(v) == JsonSpec::Number(
                    old(self).text().subrange(old(self).at(), e),
                ) && final(self).at() == e,
                None => r == Err::<JsonValue, JsonError>(JsonError::InvalidNumber),
            },
            r is Ok ==> final(self).at() > old(self).at(),
    {
        proof {
            use_type_invariant(&*self);
        }
        let ghost s = self.input@;
        let start = self.pos;
        if self.peek() == Some(0x2du8) {
            self.next();
        }
        let q = self.pos;
        match self.peek() {
            Some(b) => {
                if b == 0x30 {
                    self.next();
                } else if 0x31 <= b && b <= 0x39 {
                    self.next();
                    self.skip_digits();
                } else {
                    return Err(JsonError::InvalidNumber);
                }
            },
            None => {
                return Err(JsonError::InvalidNumber);
            },
        }
        let r = self.pos;
        proof {
            lemma_digits_end(s, q + 1);
        }
        if self.peek() == Some(0x2eu8) {
            self.next();
            match self.peek() {
                Some(b) => {
                    if !is_digit_byte(b) {
                        return Err(JsonError::InvalidNumber);
                    }
                },
                None => {
                    return Err(JsonError::InvalidNumber);
                },
            }
            self.skip_digits();
        }
        let f = self.pos;
        proof {
            lemma_digits_end(s, r + 2);
        }
        match self.peek() {
            Some(b) => {
                if b == 0x65 || b == 0x45 {
                    self.next();
                    match self.peek() {
                        Some(c) => {
                            if c == 0x2b || c == 0x2d {
                                self.next();
                            }
                        },
                        None => {},
                    }
                    match self.peek() {
                        Some(c) => {
                            if !is_digit_byte(c) {
                                return Err(JsonError::InvalidNumber);
                            }
                        },
                        None => {
                            return Err(JsonError::InvalidNumber);
                        },
                    }
                    self.skip_digits();
                }
            },
            None => {},
        }
        let end = self.pos;
        proof {
            use_type_invariant(&*self);
        }
        let text = vstd::slice::slice_to_vec(vstd::slice::slice_subrange(self.input, start, end));
        Ok(JsonValue::Number(text))
    }

    /// Four hex digits at the current position, as a code unit.
    pub fn parse_hex_escape(&mut self) -> (r: Result<u32, JsonError>)
        ensures
            final(self).text() == old(self).text(),
            r == spec_hex4(old(self).text(), old(self).at()),
            r is Ok ==> final(self).at() == old(self).at() + 4,
    {
        proof {
            use_type_invariant(&*self);
        }
        let ghost s = self.input@;
        let ghost p = self.pos as int;
        let mut hex: u32 = 0;
        let mut k: usize = 0;
        while k < 4
            invariant
                self.input@ == s,
                k <= 4,
                self.pos == p + k,
                spec_hex4(s, p) == spec_hex_from(s, p, k as int, hex),
                p == old(self).at(),
                s == old(self).text(),
            decreases 4 - k,
        {
            match self.next() {
                Some(ch) => {
                    let digit: u8 = if 0x30 <= ch && ch <= 0x39 {
                        ch - 0x30
                    } else if 0x61 <= ch && ch <= 0x66 {
                        ch - 0x61 + 10
                    } else if 0x41 <= ch && ch <= 0x46 {
                        ch - 0x41 + 10
                    } else {
                        return Err(JsonError::InvalidHexDigit(ch));
                    };
                    hex = (hex << 4u32) | (digit as u32);
                },
                None => {
                    return Err(JsonError::UnexpectedEndInUnicodeEscape);
                },
            }
            k += 1;
        }
        Ok(hex)
    }
}

proof fn lemma_shl10(x: u32)
    requires
        x < 1024,
    ensures
        x << 10u32 == x * 1024,
{
    assert(x << 10u32 == x * 1024) by (bit_vector)
        requires x < 1024;
}

impl<'a> JsonParser<'a> {
    /// A string at the current position: its decoded UTF-8 bytes, with the
    /// escapes resolved and surrogate pairs combined.
    pub fn parse_string(&mut self) -> (r: Result<Vec<u8>, JsonError>)
        ensures
            final(self).text() == old(self).text(),
            !(old(self).at() < old(self).text().len() && old(self).text()[old(self).at()] == 0x22) ==> r
                == Err::<Vec<u8>, JsonError>(JsonError::ExpectedQuote),
            (old(self).at() < old(self).text().len() && old(self).text()[old(self).at()] == 0x22) ==> match spec_string_from(
                old(self).text(),
                old(self).at() + 1,
                Seq::empty(),
            ) {
                Ok((bytes, e)) => r matches Ok(v) && v@ == bytes && final(self).at() == e,
                Err(x) => r == Err::<Vec<u8>, JsonError>(x),
            },
            r is Ok ==> final(self).at() > old(self).at(),
    {
        proof {
            use_type_invariant(&*self);
        }
        let ghost s = self.input@;
        let ghost start = self.pos as int;
        match self.next() {
            Some(c) => {
                if c != 0x22 {
                    return Err(JsonError::ExpectedQuote);
                }
            },
            None => {
                return Err(JsonError::ExpectedQuote);
            },
        }
        let len = self.input.len();
        let mut result: Vec<u8> = Vec::new();
        loop
            invariant
                self.input@ == s,
                s == old(self).text(),
                start == old(self).at(),
                len == s.len(),
                start < self.pos <= len,
                start < s.len() && s[start] == 0x22,
                spec_string_from(s, start + 1, Seq::empty()) == spec_string_from(s, self.pos as int, result@),
            decreases len + 16 - self.pos,
        {
            proof {
                use_type_invariant(&*self);
            }
            let p = self.pos;
            let ch = match self.next() {
                Some(ch) => ch,
                None => {
                    return Err(JsonError::UnterminatedString);
                },
            };
            if ch == 0x22 {
                return Ok(result);
            } else if ch == 0x5c {
                let e = match self.next() {
                    Some(e) => e,
                    None => {
                        return Err(JsonError::UnterminatedEscape);
                    },
                };
                if e == 0x22 {
                    result.push(0x22);
                } else if e == 0x5c {
                    result.push(0x5c);
                } else if e == 0x2f {
                    result.push(0x2f);
                } else if e == 0x62 {
                    result.push(0x08);
                } else if e == 0x66 {
                    result.push(0x0c);
                } else if e == 0x6e {
                    result.push(0x0a);
                } else if e == 0x72 {
                    result.push(0x0d);
                } else if e == 0x74 {
                    result.push(0x09);
                } else if e == 0x75 {
                    let cp = match self.parse_hex_escape() {
                        Ok(cp) => cp,
                        Err(x) => {
                            return Err(x);
                        },
                    };
                    if 0xD800 <= cp && cp <= 0xDBFF {
                        if self.next() != Some(0x5cu8) {
                            return Err(JsonError::ExpectedBackslashBeforeLowSurrogate);
                        }
                        if self.next() != Some(0x75u8) {
                            return Err(JsonError::ExpectedUBeforeLowSurrogate);
                        }
                        let low = match self.parse_hex_escape() {
                            Ok(low) => low,
                            Err(x) => {
                                return Err(x);
                            },
                        };
                        if !(0xDC00 <= low && low <= 0xDFFF) {
                            return Err(JsonError::InvalidLowSurrogate);
                        }
                        proof {
                            lemma_shl10((cp - 0xD800) as u32);
                        }
                        let full = 0x10000 + ((cp - 0xD800) << 10u32) + (low - 0xDC00);
                        push_utf8(&mut result, full);
                    } else if 0xDC00 <= cp && cp <= 0xDFFF {
                        return Err(JsonError::UnexpectedLowSurrogate);
                    } else {
                        push_utf8(&mut result, cp);
                    }
                } else {
                    return Err(JsonError::InvalidEscape(e));
                }
            } else if ch < 0x20 {
                return Err(JsonError::ControlCharacter(ch));
            } else if ch < 0x80 {
                result.push(ch);
            } else {
                if ch < 0xC0 {
                    return Err(JsonError::InvalidUtf8LeadingByte);
                }
                let width: usize = if ch < 0xE0 {
                    2
                } else if ch < 0xF0 {
                    3
                } else {
                    4
                };
                if len - p < width {
                    return Err(JsonError::IncompleteUtf8Sequence);
                }
                let mut i: usize = 1;
                while i < width
                    invariant
                        self.input@ == s,
                        s == old(self).text(),
                        start == old(self).at(),
                        start < s.len() && s[start] == 0x22,
                        spec_string_from(s, start + 1, Seq::empty()) == spec_string_from(s, p as int, result@),
                        p < s.len() && s[p as int] == ch && ch >= 0xC0,
                        width == utf8_width(ch),
                        len == s.len(),
                        p + width <= len,
                        1 <= i <= width,
                        forall|j: int| p + 1 <= j < p + i ==> (#[trigger] s[j] & 0xC0) == 0x80,
                    decreases width - i,
                {
                    if (self.input[p + i] & 0xC0) != 0x80 {
                        proof {
                            assert((s[p + i] & 0xC0) != 0x80);
                        }
                        return Err(JsonError::InvalidUtf8ContinuationByte);
                    }
                    i += 1;
                }
                self.advance(width - 1);
                if !utf8_is_valid(vstd::slice::slice_subrange(self.input, p, p + width)) {
                    return Err(JsonError::InvalidUtf8Sequence);
                }
                let ghost before = result@;
                let mut k: usize = 0;
                while k < width
                    invariant
                        self.input@ == s,
                        len == s.len(),
                        p + width <= len,
                        k <= width,
                        result@ == before + s.subrange(p as int, p + k),
                    decreases width - k,
                {
                    result.push(self.input[p + k]);
                    k += 1;
                    proof {
                        assert(result@ =~= before + s.subrange(p as int, p + k));
                    }
                }
            }
            proof {
                use_type_invariant(&*self);
            }
        }
    }
}

/// The views of a sequence of values.
pub open spec fn views(items: Seq<JsonValue>) -> Seq<JsonSpec> {
    Seq::new(items.len(), |i: int| if 0 <= i < items.len() { json_view(items[i]) } else { JsonSpec::Null })
}

/// The views of a sequence of object members.
pub open spec fn member_views(members: Seq<(Vec<u8>, JsonValue)>) -> Seq<(Seq<u8>, JsonSpec)> {
    Seq::new(
        members.len(),
        |i: int|
            if 0 <= i < members.len() {
                (members[i].0@, json_view(members[i].1))
            } else {
                (Seq::empty(), JsonSpec::Null)
            },
    )
}

impl<'a> JsonParser<'a> {
    /// The value at the current position (after whitespace).
    pub fn parse_value(&mut self) -> (r: Result<JsonValue, JsonError>)
        ensures
            final(self).text() == old(self).text(),
            match spec_value(old(self).text(), old(self).at()) {
                Ok((v, e)) => r matches Ok(x) && json_view(x) == v && final(self).at() == e,
                Err(x) => r == Err::<JsonValue, JsonError>(x),
            },
            r is Ok ==> final(self).at() > old(self).at(),
        decreases old(self).text().len() - old(self).at(), 1int,
    {
        proof {
            use_type_invariant(&*self);
            lemma_skip_ws(self.input@, self.pos as int);
        }
        let ghost s = self.input@;
        self.skip_whitespace();
        proof {
            use_type_invariant(&*self);
        }
        let q = self.pos;
        match self.peek() {
            Some(c) => {
                if c == 0x6e {
                    let lit = vec![0x6eu8, 0x75, 0x6c, 0x6c];
                    proof {
                        assert(lit@ =~= seq![0x6eu8, 0x75, 0x6c, 0x6c]);
                    }
                    if self.literal_here(lit.as_slice()) {
                        self.advance(4);
                        Ok(JsonValue::Null)
                    } else {
                        Err(JsonError::ExpectedNull)
                    }
                } else if c == 0x74 {
                    let lit = vec![0x74u8, 0x72, 0x75, 0x65];
                    proof {
                        assert(lit@ =~= seq![0x74u8, 0x72, 0x75, 0x65]);
                    }
                    if self.literal_here(lit.as_slice()) {
                        self.advance(4);
                        Ok(JsonValue::Bool(true))
                    } else {
                        Err(JsonError::ExpectedTrue)
                    }
                } else if c == 0x66 {
                    let lit = vec![0x66u8, 0x61, 0x6c, 0x73, 0x65];
                    proof {
                        assert(lit@ =~= seq![0x66u8, 0x61, 0x6c, 0x73, 0x65]);
                    }
                    if self.literal_here(lit.as_slice()) {
                        self.advance(5);
                        Ok(JsonValue::Bool(false))
                    } else {
                        Err(JsonError::ExpectedFalse)
                    }
                } else if c == 0x22 {
                    match self.parse_string() {
                        Ok(bytes) => Ok(JsonValue::String(bytes)),
                        Err(x) => Err(x),
                    }
                } else if c == 0x5b {
                    self.parse_array()
                } else if c == 0x7b {
                    self.parse_object()
                } else if c == 0x2d || is_digit_byte(c) {
                    self.parse_number()
                } else {
                    Err(JsonError::UnexpectedCharacter(c))
                }
            },
            None => Err(JsonError::UnexpectedEnd),
        }
    }

    /// An array at the current position (its `[`).
    pub fn parse_array(&mut self) -> (r: Result<JsonValue, JsonError>)
        requires
            old(self).at() < old(self).text().len(),
            old(self).text()[old(self).at()] == 0x5b,
        ensures
            final(self).text() == old(self).text(),
            match spec_array_from(old(self).text(), old(self).at() + 1, Seq::empty()) {
                Ok((v, e)) => r matches Ok(x) && json_view(x) == v && final(self).at() == e,
                Err(x) => r == Err::<JsonValue, JsonError>(x),
            },
            r is Ok ==> final(self).at() > old(self).at(),
        decreases old(self).text().len() - old(self).at(), 0int,
    {
        let ghost s = self.input@;
        let ghost start = self.pos as int;
        let _ = self.expect(0x5b);
        let mut elems: Vec<JsonValue> = Vec::new();
        proof {
            assert(views(elems@) =~= Seq::<JsonSpec>::empty());
            use_type_invariant(&*self);
        }
        loop
            invariant
                self.text() == s,
                s == old(self).text(),
                start == old(self).at(),
                start < self.at() <= s.len(),
                spec_array_from(s, start + 1, Seq::empty()) == spec_array_from(s, self.at(), views(elems@)),
            decreases s.len() - self.at(),
        {
            let ghost p = self.at();
            proof {
                lemma_skip_ws(s, p);
            }
            self.skip_whitespace();
            if self.peek() == Some(0x5du8) {
                self.next();
                proof {
                    let t = Seq::new(
                        elems@.len(),
                        |i: int| if 0 <= i < elems@.len() { json_view(elems@[i]) } else { JsonSpec::Null },
                    );
                    assert(views(elems@) =~= t);
                    match json_view(JsonValue::Array(elems)) {
                        JsonSpec::Array(t2) => {
                            assert(t2 =~= views(elems@));
                        },
                        _ => {
                            assert(false);
                        },
                    }
                }
                return Ok(JsonValue::Array(elems));
            }
            if elems.len() > 0 {
                match self.expect(0x2c) {
                    Ok(()) => {},
                    Err(x) => {
                        return Err(x);
                    },
                }
                proof {
                    lemma_skip_ws(s, self.at());
                }
                self.skip_whitespace();
                if self.peek() == Some(0x5du8) {
                    return Err(JsonError::TrailingCommaInArray);
                }
            }
            let ghost v = self.at();
            let x = match self.parse_value() {
                Ok(x) => x,
                Err(e) => {
                    return Err(e);
                },
            };
            let ghost before = elems@;
            elems.push(x);
            proof {
                assert(views(elems@) =~= views(before).push(json_view(x)));
                use_type_invariant(&*self);
            }
        }
    }

    /// An object at the current position (its `{`).
    pub fn parse_object(&mut self) -> (r: Result<JsonValue, JsonError>)
        requires
            old(self).at() < old(self).text().len(),
            old(self).text()[old(self).at()] == 0x7b,
        ensures
            final(self).text() == old(self).text(),
            match spec_object_from(old(self).text(), old(self).at() + 1, Seq::empty()) {
                Ok((v, e)) => r matches Ok(x) && json_view(x) == v && final(self).at() == e,
                Err(x) => r == Err::<JsonValue, JsonError>(x),
            },
            r is Ok ==> final(self).at() > old(self).at(),
        decreases old(self).text().len() - old(self).at(), 0int,
    {
        let ghost s = self.input@;
        let ghost start = self.pos as int;
        let _ = self.expect(0x7b);
        let mut pairs: Vec<(Vec<u8>, JsonValue)> = Vec::new();
        proof {
            assert(member_views(pairs@) =~= Seq::<(Seq<u8>, JsonSpec)>::empty());
            use_type_invariant(&*self);
        }
        loop
            invariant
                self.text() == s,
                s == old(self).text(),
                start == old(self).at(),
                start < self.at() <= s.len(),
                spec_object_from(s, start + 1, Seq::empty()) == spec_object_from(s, self.at(), member_views(pairs@)),
            decreases s.len() - self.at(),
        {
            let ghost p = self.at();
            proof {
                lemma_skip_ws(s, p);
            }
            self.skip_whitespace();
            if self.peek() == Some(0x7du8) {
                self.next();
                proof {
                    let t = Seq::new(
                        pairs@.len(),
                        |i: int|
                            if 0 <= i < pairs@.len() {
                                (pairs@[i].0@, json_view(pairs@[i].1))
                            } else {
                                (Seq::empty(), JsonSpec::Null)
                            },
                    );
                    assert(member_views(pairs@) =~= t);
                    match json_view(JsonValue::Object(pairs)) {
                        JsonSpec::Object(t2) => {
                            assert(t2 =~= member_views(pairs@));
                        },
                        _ => {
                            assert(false);
                        },
                    }
                }
                return Ok(JsonValue::Object(pairs));
            }
            if pairs.len() > 0 {
                match self.expect(0x2c) {
                    Ok(()) => {},
                    Err(x) => {
                        return Err(x);
                    },
                }
                proof {
                    lemma_skip_ws(s, self.at());
                }
                self.skip_whitespace();
                if self.peek() == Some(0x7du8) {
                    return Err(JsonError::TrailingCommaInObject);
                }
            }
            let key = match self.parse_string() {
                Ok(key) => key,
                Err(e) => {
                    return Err(e);
                },
            };
            proof {
                lemma_skip_ws(s, self.at());
            }
            self.skip_whitespace();
            match self.expect(0x3a) {
                Ok(()) => {},
                Err(x) => {
                    return Err(x);
                },
            }
            let value = match self.parse_value() {
                Ok(v) => v,
                Err(e) => {
                    return Err(e);
                },
            };
            let ghost before = pairs@;
            pairs.push((key, value));
            proof {
                assert(member_views(pairs@) =~= member_views(before).push((key@, json_view(value))));
                use_type_invariant(&*self);
            }
        }
    }
}

/// `JSON.parse` text: one value with only whitespace around it.
pub fn parse_json_text(text: &[u8]) -> (r: Result<JsonValue, JsonError>)
    ensures
        match spec_parse_text(text@) {
            Ok(v) => r matches Ok(x) && json_view(x) == v,
            Err(x) => r == Err::<JsonValue, JsonError>(x),
        },
{
    let mut parser = JsonParser::new(text);
    let value = match parser.parse_value() {
        Ok(v) => v,
        Err(e) => {
            return Err(e);
        },
    };
    parser.skip_whitespace();
    if parser.pos() < text.len() {
        return Err(JsonError::TrailingContent);
    }
    Ok(value)
}

/// Inside a string, each one-character escape stands for its fixed byte
/// (`\"` 0x22, `\\` 0x5C, `\/` 0x2F, `\b` 0x08, `\f` 0x0C, `\n` 0x0A,
/// `\r` 0x0D, `\t` 0x09) and the string goes on after the two bytes of the
/// escape; a backslash before any other byte but `u` is an error.
pub proof fn law_string_escapes_decode_to_fixed_bytes(s: Seq<u8>, p: int, acc: Seq<u8>)
    requires
        0 <= p,
        p + 1 < s.len(),
        s[p] == 0x5c,
    ensures
        s[p + 1] == 0x22 ==> spec_string_from(s, p, acc) == spec_string_from(s, p + 2, acc.push(0x22)),
        s[p + 1] == 0x5c ==> spec_string_from(s, p, acc) == spec_string_from(s, p + 2, acc.push(0x5c)),
        s[p + 1] == 0x2f ==> spec_string_from(s, p, acc) == spec_string_from(s, p + 2, acc.push(0x2f)),
        s[p + 1] == 0x62 ==> spec_string_from(s, p, acc) == spec_string_from(s, p + 2, acc.push(0x08)),
        s[p + 1] == 0x66 ==> spec_string_from(s, p, acc) == spec_string_from(s, p + 2, acc.push(0x0c)),
        s[p + 1] == 0x6e ==> spec_string_from(s, p, acc) == spec_string_from(s, p + 2, acc.push(0x0a)),
        s[p + 1] == 0x72 ==> spec_string_from(s, p, acc) == spec_string_from(s, p + 2, acc.push(0x0d)),
        s[p + 1] == 0x74 ==> spec_string_from(s, p, acc) == spec_string_from(s, p + 2, acc.push(0x09)),
        !(s[p + 1] == 0x22 || s[p + 1] == 0x5c || s[p + 1] == 0x2f || s[p + 1] == 0x62 || s[p + 1] == 0x66
            || s[p + 1] == 0x6e || s[p + 1] == 0x72 || s[p + 1] == 0x74 || s[p + 1] == 0x75) ==> spec_string_from(
            s,
            p,
            acc,
        ) == Err::<(Seq<u8>, int), JsonError>(JsonError::InvalidEscape(s[p + 1])),
{
}

/// Outside escapes, a quote ends the string with what was decoded so far,
/// a control byte is refused, and any other ASCII byte is kept as it is.
pub proof fn law_string_plain_bytes(s: Seq<u8>, p: int, acc: Seq<u8>)
    requires
        0 <= p < s.len(),
    ensures
        s[p] == 0x22 ==> spec_string_from(s, p, acc) == Ok::<(Seq<u8>, int), JsonError>((acc, p + 1)),
        s[p] < 0x20 ==> spec_string_from(s, p, acc) == Err::<(Seq<u8>, int), JsonError>(
            JsonError::ControlCharacter(s[p]),
        ),
        0x20 <= s[p] < 0x80 && s[p] != 0x22 && s[p] != 0x5c ==> spec_string_from(s, p, acc) == spec_string_from(
            s,
            p + 1,
            acc.push(s[p]),
        ),
{
}

/// A hex digit's value: `0`-`9` count 0 to 9, `a`-`f` and `A`-`F` 10 to 15.
pub proof fn law_hex_digit_values(d: u8)
    ensures
        d < 10 ==> is_hex_digit((0x30 + d) as u8) && hex_value((0x30 + d) as u8) == d,
        d < 6 ==> is_hex_digit((0x61 + d) as u8) && hex_value((0x61 + d) as u8) == 10 + d,
        d < 6 ==> is_hex_digit((0x41 + d) as u8) && hex_value((0x41 + d) as u8) == 10 + d,
        !((0x30 <= d <= 0x39) || (0x61 <= d <= 0x66) || (0x41 <= d <= 0x46)) ==> !is_hex_digit(d),
{
}

/// JSON whitespace is exactly space, tab, line feed and carriage return.
pub proof fn law_whitespace_bytes(b: u8)
    ensures
        is_ws(b) <==> (b == 0x20 || b == 0x09 || b == 0x0a || b == 0x0d),
{
}

/// Digits run up to the first non-digit: every byte before the end of the
/// run is a digit, and the byte at its end, if any, is not.
pub proof fn law_digit_runs(s: Seq<u8>, p: int)
    requires
        0 <= p <= s.len(),
    ensures
        p <= digits_end(s, p) <= s.len(),
        forall|i: int| p <= i < digits_end(s, p) ==> 0x30 <= #[trigger] s[i] <= 0x39,
        digits_end(s, p) < s.len() ==> !(0x30 <= s[digits_end(s, p)] <= 0x39),
    decreases s.len() - p,
{
    if p < s.len() && is_digit(s[p]) {
        law_digit_runs(s, p + 1);
    }
}

/// Whitespace before a value changes nothing.
pub proof fn law_leading_whitespace_is_skipped(s: Seq<u8>, p: int)
    requires
        0 <= p < s.len(),
        s[p] == 0x20 || s[p] == 0x09 || s[p] == 0x0a || s[p] == 0x0d,
    ensures
        spec_value(s, p) == spec_value(s, p + 1),
{
    lemma_skip_ws(s, p + 1);
}

/// The three literals: `null`, `true` and `false` at `q` are read whole;
/// a literal's first letter followed by anything else is an error.
pub proof fn law_literals(s: Seq<u8>, q: int)
    requires
        0 <= q,
    ensures
        q + 4 <= s.len() && s[q] == 0x6e && s[q + 1] == 0x75 && s[q + 2] == 0x6c && s[q + 3] == 0x6c
            ==> spec_value(s, q) == Ok::<(JsonSpec, int), JsonError>((JsonSpec::Null, q + 4)),
        q + 4 <= s.len() && s[q] == 0x74 && s[q + 1] == 0x72 && s[q + 2] == 0x75 && s[q + 3] == 0x65
            ==> spec_value(s, q) == Ok::<(JsonSpec, int), JsonError>((JsonSpec::Bool(true), q + 4)),
        q + 5 <= s.len() && s[q] == 0x66 && s[q + 1] == 0x61 && s[q + 2] == 0x6c && s[q + 3] == 0x73 && s[q + 4]
            == 0x65 ==> spec_value(s, q) == Ok::<(JsonSpec, int), JsonError>((JsonSpec::Bool(false), q + 5)),
        q < s.len() && s[q] == 0x6e && !(q + 4 <= s.len() && s[q + 1] == 0x75 && s[q + 2] == 0x6c && s[q + 3]
            == 0x6c) ==> spec_value(s, q) == Err::<(JsonSpec, int), JsonError>(JsonError::ExpectedNull),
        q < s.len() && s[q] == 0x74 && !(q + 4 <= s.len() && s[q + 1] == 0x72 && s[q + 2] == 0x75 && s[q + 3]
            == 0x65) ==> spec_value(s, q) == Err::<(JsonSpec, int), JsonError>(JsonError::ExpectedTrue),
        q < s.len() && s[q] == 0x66 && !(q + 5 <= s.len() && s[q + 1] == 0x61 && s[q + 2] == 0x6c && s[q + 3]
            == 0x73 && s[q + 4] == 0x65) ==> spec_value(s, q) == Err::<(JsonSpec, int), JsonError>(
            JsonError::ExpectedFalse,
        ),
        q >= s.len() ==> spec_value(s, q) == Err::<(JsonSpec, int), JsonError>(JsonError::UnexpectedEnd),
{
    if q + 4 <= s.len() && s[q] == 0x6e && s[q + 1] == 0x75 && s[q + 2] == 0x6c && s[q + 3] == 0x6c {
        assert(s.subrange(q, q + 4) =~= seq![0x6eu8, 0x75, 0x6c, 0x6c]);
    }
    if q + 4 <= s.len() && s[q] == 0x74 && s[q + 1] == 0x72 && s[q + 2] == 0x75 && s[q + 3] == 0x65 {
        assert(s.subrange(q, q + 4) =~= seq![0x74u8, 0x72, 0x75, 0x65]);
    }
    if q + 5 <= s.len() && s[q] == 0x66 && s[q + 1] == 0x61 && s[q + 2] == 0x6c && s[q + 3] == 0x73 && s[q + 4]
        == 0x65 {
        assert(s.subrange(q, q + 5) =~= seq![0x66u8, 0x61, 0x6c, 0x73, 0x65]);
    }
    if q < s.len() && s[q] == 0x6e && matches_at(s, q, seq![0x6eu8, 0x75, 0x6c, 0x6c]) {
        assert(s.subrange(q, q + 4)[1] == 0x75 && s.subrange(q, q + 4)[2] == 0x6c && s.subrange(q, q + 4)[3] == 0x6c);
    }
    if q < s.len() && s[q] == 0x74 && matches_at(s, q, seq![0x74u8, 0x72, 0x75, 0x65]) {
        assert(s.subrange(q, q + 4)[1] == 0x72 && s.subrange(q, q + 4)[2] == 0x75 && s.subrange(q, q + 4)[3] == 0x65);
    }
    if q < s.len() && s[q] == 0x66 && matches_at(s, q, seq![0x66u8, 0x61, 0x6c, 0x73, 0x65]) {
        assert(s.subrange(q, q + 5)[1] == 0x61 && s.subrange(q, q + 5)[2] == 0x6c && s.subrange(q, q + 5)[3]
            == 0x73 && s.subrange(q, q + 5)[4] == 0x65);
    }
}

/// A number is read as its own text, up to where the number grammar ends;
/// a minus sign not followed by a digit, a point not followed by a digit
/// and an exponent without digits are errors. A nonzero integer part runs
/// to the end of its digits, and a number ends on a digit.
pub proof fn law_numbers(s: Seq<u8>, q: int)
    requires
        0 <= q < s.len(),
    ensures
        (s[q] == 0x2d || 0x30 <= s[q] <= 0x39) ==> spec_value(s, q) == match number_end(s, q) {
            Some(e) => Ok::<(JsonSpec, int), JsonError>((JsonSpec::Number(s.subrange(q, e)), e)),
            None => Err(JsonError::InvalidNumber),
        },
        s[q] == 0x2d && !(q + 1 < s.len() && 0x30 <= s[q + 1] <= 0x39) ==> number_end(s, q) is None,
        number_end(s, q) matches Some(e) ==> q < e <= s.len() && 0x30 <= s[e - 1] <= 0x39,
        0x31 <= s[q] <= 0x39 && (digits_end(s, q + 1) == s.len() || !(s[digits_end(s, q + 1)] == 0x2e
            || s[digits_end(s, q + 1)] == 0x65 || s[digits_end(s, q + 1)] == 0x45)) ==> number_end(s, q) == Some(
            digits_end(s, q + 1),
        ),
        0x31 <= s[q] <= 0x39 && digits_end(s, q + 1) < s.len() && s[digits_end(s, q + 1)] == 0x2e && !(
        digits_end(s, q + 1) + 1 < s.len() && 0x30 <= s[digits_end(s, q + 1) + 1] <= 0x39) ==> number_end(s, q) is None,
{
    law_digit_runs(s, q + 1);
    if q + 1 < s.len() {
        law_digit_runs(s, q + 2);
    }
    let qq = if s[q] == 0x2d { q + 1 } else { q };
    if qq + 1 <= s.len() {
        law_digit_runs(s, qq + 1);
        let r = if qq < s.len() && s[qq] == 0x30 { qq + 1 } else { digits_end(s, qq + 1) };
        if r + 2 <= s.len() {
            law_digit_runs(s, r + 2);
        }
        let f = if r < s.len() && s[r] == 0x2e { digits_end(s, r + 2) } else { r };
        if f + 1 <= s.len() {
            law_digit_runs(s, f + 1);
        }
        if f + 2 <= s.len() {
            law_digit_runs(s, f + 2);
        }
        if f + 3 <= s.len() {
            law_digit_runs(s, f + 3);
        }
    }
}

/// Arrays and objects: an empty one closes right after its opening
/// bracket (whitespace aside); a comma before the closing bracket is an
/// error; elements after the first need a comma before them.
pub proof fn law_containers(s: Seq<u8>, p: int, items: Seq<JsonSpec>, members: Seq<(Seq<u8>, JsonSpec)>)
    requires
        0 <= p <= s.len(),
    ensures
        skip_ws(s, p) < s.len() && s[skip_ws(s, p)] == 0x5d ==> spec_array_from(s, p, items) == Ok::<
            (JsonSpec, int),
            JsonError,
        >((JsonSpec::Array(items), skip_ws(s, p) + 1)),
        skip_ws(s, p) < s.len() && s[skip_ws(s, p)] == 0x7d ==> spec_object_from(s, p, members) == Ok::<
            (JsonSpec, int),
            JsonError,
        >((JsonSpec::Object(members), skip_ws(s, p) + 1)),
        items.len() > 0 && skip_ws(s, p) < s.len() && s[skip_ws(s, p)] == 0x2c && skip_ws(s, skip_ws(s, p) + 1)
            < s.len() && s[skip_ws(s, skip_ws(s, p) + 1)] == 0x5d ==> spec_array_from(s, p, items) == Err::<
            (JsonSpec, int),
            JsonError,
        >(JsonError::TrailingCommaInArray),
        members.len() > 0 && skip_ws(s, p) < s.len() && s[skip_ws(s, p)] == 0x2c && skip_ws(s, skip_ws(s, p) + 1)
            < s.len() && s[skip_ws(s, skip_ws(s, p) + 1)] == 0x7d ==> spec_object_from(s, p, members) == Err::<
            (JsonSpec, int),
            JsonError,
        >(JsonError::TrailingCommaInObject),
        items.len() > 0 && skip_ws(s, p) < s.len() && s[skip_ws(s, p)] != 0x2c && s[skip_ws(s, p)] != 0x5d
            ==> spec_array_from(s, p, items) == Err::<(JsonSpec, int), JsonError>(
            JsonError::Expected { expected: 0x2c, found: Some(s[skip_ws(s, p)]) },
        ),
        items.len() > 0 && skip_ws(s, p) >= s.len() ==> spec_array_from(s, p, items) == Err::<
            (JsonSpec, int),
            JsonError,
        >(JsonError::Expected { expected: 0x2c, found: None }),
{
    lemma_skip_ws(s, p);
}

/// A text is one value with nothing but whitespace after it.
pub proof fn law_text_is_one_value(s: Seq<u8>)
    ensures
        spec_value(s, 0) is Err ==> spec_parse_text(s) == Err::<JsonSpec, JsonError>(spec_value(s, 0)->Err_0),
        spec_value(s, 0) matches Ok((v, e)) ==> spec_parse_text(s) == if skip_ws(s, e) < s.len() {
            Err::<JsonSpec, JsonError>(JsonError::TrailingContent)
        } else {
            Ok(v)
        },
{
}

proof fn lemma_shift_in_digit(acc: u32, h: u32)
    requires
        acc < 0x1000,
        h < 16,
    ensures
        ((acc << 4u32) | h) == acc * 16 + h,
{
    assert(((acc << 4u32) | h) == acc * 16 + h) by (bit_vector)
        requires
            acc < 0x1000,
            h < 16,
    ;
}

/// Four hex digits read as a number, the first the most significant.
pub proof fn law_hex4_value(s: Seq<u8>, p: int)
    requires
        0 <= p,
        p + 4 <= s.len(),
        is_hex_digit(s[p]) && is_hex_digit(s[p + 1]) && is_hex_digit(s[p + 2]) && is_hex_digit(s[p + 3]),
    ensures
        spec_hex4(s, p) == Ok::<u32, JsonError>(
            (hex_value(s[p]) * 4096 + hex_value(s[p + 1]) * 256 + hex_value(s[p + 2]) * 16 + hex_value(s[p + 3]))
                as u32,
        ),
{
    let h0 = hex_value(s[p]);
    let h1 = hex_value(s[p + 1]);
    let h2 = hex_value(s[p + 2]);
    let h3 = hex_value(s[p + 3]);
    lemma_shift_in_digit(0, h0);
    lemma_shift_in_digit(h0, h1);
    lemma_shift_in_digit((h0 * 16 + h1) as u32, h2);
    lemma_shift_in_digit((h0 * 256 + h1 * 16 + h2) as u32, h3);
    assert(spec_hex_from(s, p, 4, (h0 * 4096 + h1 * 256 + h2 * 16 + h3) as u32) == Ok::<u32, JsonError>(
        (h0 * 4096 + h1 * 256 + h2 * 16 + h3) as u32,
    ));
    assert(spec_hex_from(s, p, 3, (h0 * 256 + h1 * 16 + h2) as u32) == spec_hex_from(
        s,
        p,
        4,
        (h0 * 4096 + h1 * 256 + h2 * 16 + h3) as u32,
    ));
    assert(spec_hex_from(s, p, 2, (h0 * 16 + h1) as u32) == spec_hex_from(s, p, 3, (h0 * 256 + h1 * 16 + h2) as u32));
    assert(spec_hex_from(s, p, 1, h0) == spec_hex_from(s, p, 2, (h0 * 16 + h1) as u32));
    assert(spec_hex_from(s, p, 0, 0) == spec_hex_from(s, p, 1, h0));
}

/// UTF-8 encoding of a code point: one byte below 0x80, then two, three and
/// four bytes, the leading byte carrying the high bits after its length
/// marker and each continuation byte six more bits after `10`.
pub proof fn law_utf8_encoding(cp: u32)
    ensures
        cp < 0x80 ==> utf8_encode(cp) == seq![cp as u8],
        0x80 <= cp < 0x800 ==> utf8_encode(cp) =~= seq![(0xC0 + cp / 64) as u8, (0x80 + cp % 64) as u8],
        0x800 <= cp < 0x10000 ==> utf8_encode(cp) =~= seq![
            (0xE0 + cp / 4096) as u8,
            (0x80 + (cp / 64) % 64) as u8,
            (0x80 + cp % 64) as u8,
        ],
        0x10000 <= cp <= 0x10FFFF ==> utf8_encode(cp) =~= seq![
            (0xF0 + cp / 0x40000) as u8,
            (0x80 + (cp / 4096) % 64) as u8,
            (0x80 + (cp / 64) % 64) as u8,
            (0x80 + cp % 64) as u8,
        ],
{
    if 0x80 <= cp < 0x800 {
        assert((0xC0u32 | (cp >> 6u32)) == 0xC0 + cp / 64 && (0x80u32 | (cp & 0x3Fu32)) == 0x80 + cp % 64)
            by (bit_vector)
            requires
                0x80 <= cp < 0x800,
        ;
    }
    if 0x800 <= cp < 0x10000 {
        assert((0xE0u32 | (cp >> 12u32)) == 0xE0 + cp / 4096 && (0x80u32 | ((cp >> 6u32) & 0x3Fu32)) == 0x80 + (
        cp / 64) % 64 && (0x80u32 | (cp & 0x3Fu32)) == 0x80 + cp % 64) by (bit_vector)
            requires
                0x800 <= cp < 0x10000,
        ;
    }
    if 0x10000 <= cp <= 0x10FFFF {
        assert((0xF0u32 | (cp >> 18u32)) == 0xF0 + cp / 0x40000 && (0x80u32 | ((cp >> 12u32) & 0x3Fu32)) == 0x80 + (
        cp / 4096) % 64 && (0x80u32 | ((cp >> 6u32) & 0x3Fu32)) == 0x80 + (cp / 64) % 64 && (0x80u32 | (cp
            & 0x3Fu32)) == 0x80 + cp % 64) by (bit_vector)
            requires
                0x10000 <= cp <= 0x10FFFF,
        ;
    }
}

/// A `\u` escape of a code point outside the surrogates adds that code
/// point's UTF-8 bytes; a lone low surrogate is an error; a high surrogate
/// followed by `\u` and a low surrogate adds the combined code point.
pub proof fn law_unicode_escapes(s: Seq<u8>, p: int, acc: Seq<u8>, cp: u32, low: u32)
    requires
        0 <= p,
        p + 1 < s.len(),
        s[p] == 0x5c,
        s[p + 1] == 0x75,
        spec_hex4(s, p + 2) == Ok::<u32, JsonError>(cp),
    ensures
        !(0xD800 <= cp <= 0xDFFF) ==> spec_string_from(s, p, acc) == spec_string_from(s, p + 6, acc + utf8_encode(cp)),
        0xDC00 <= cp <= 0xDFFF ==> spec_string_from(s, p, acc) == Err::<(Seq<u8>, int), JsonError>(
            JsonError::UnexpectedLowSurrogate,
        ),
        0xD800 <= cp <= 0xDBFF && p + 7 < s.len() && s[p + 6] == 0x5c && s[p + 7] == 0x75 && spec_hex4(s, p + 8)
            == Ok::<u32, JsonError>(low) && 0xDC00 <= low <= 0xDFFF ==> spec_string_from(s, p, acc)
            == spec_string_from(s, p + 12, acc + utf8_encode((0x10000 + (cp - 0xD800) * 1024 + (low - 0xDC00)) as u32)),
        0xD800 <= cp <= 0xDBFF && p + 7 < s.len() && s[p + 6] == 0x5c && s[p + 7] == 0x75 && spec_hex4(s, p + 8)
            == Ok::<u32, JsonError>(low) && !(0xDC00 <= low <= 0xDFFF) ==> spec_string_from(s, p, acc) == Err::<
            (Seq<u8>, int),
            JsonError,
        >(JsonError::InvalidLowSurrogate),
{
}

/// Raw UTF-8 inside a string: a continuation byte cannot start a
/// character; a sequence cut short by the end of the text is refused; a
/// valid two-, three- or four-byte sequence (by its leading byte) is kept
/// as it is.
pub proof fn law_string_raw_utf8(s: Seq<u8>, p: int, acc: Seq<u8>)
    requires
        0 <= p < s.len(),
    ensures
        0x80 <= s[p] < 0xC0 ==> spec_string_from(s, p, acc) == Err::<(Seq<u8>, int), JsonError>(
            JsonError::InvalidUtf8LeadingByte,
        ),
        0xC0 <= s[p] < 0xE0 && p + 2 > s.len() ==> spec_string_from(s, p, acc) == Err::<(Seq<u8>, int), JsonError>(
            JsonError::IncompleteUtf8Sequence,
        ),
        0xE0 <= s[p] < 0xF0 && p + 3 > s.len() ==> spec_string_from(s, p, acc) == Err::<(Seq<u8>, int), JsonError>(
            JsonError::IncompleteUtf8Sequence,
        ),
        0xF0 <= s[p] && p + 4 > s.len() ==> spec_string_from(s, p, acc) == Err::<(Seq<u8>, int), JsonError>(
            JsonError::IncompleteUtf8Sequence,
        ),
        0xC0 <= s[p] < 0xE0 && p + 2 <= s.len() && (s[p + 1] & 0xC0) == 0x80 && valid_utf8(s.subrange(p, p + 2))
            ==> spec_string_from(s, p, acc) == spec_string_from(s, p + 2, acc + s.subrange(p, p + 2)),
        0xE0 <= s[p] < 0xF0 && p + 3 <= s.len() && (s[p + 1] & 0xC0) == 0x80 && (s[p + 2] & 0xC0) == 0x80
            && valid_utf8(s.subrange(p, p + 3)) ==> spec_string_from(s, p, acc) == spec_string_from(
            s,
            p + 3,
            acc + s.subrange(p, p + 3),
        ),
        0xF0 <= s[p] && p + 4 <= s.len() && (s[p + 1] & 0xC0) == 0x80 && (s[p + 2] & 0xC0) == 0x80 && (s[p + 3]
            & 0xC0) == 0x80 && valid_utf8(s.subrange(p, p + 4)) ==> spec_string_from(s, p, acc) == spec_string_from(
            s,
            p + 4,
            acc + s.subrange(p, p + 4),
        ),
{
    if 0xC0 <= s[p] < 0xE0 && p + 2 <= s.len() && (s[p + 1] & 0xC0) == 0x80 {
        assert(!exists|i: int| p + 1 <= i < p + 2 && (#[trigger] s[i] & 0xC0) != 0x80);
    }
    if 0xE0 <= s[p] < 0xF0 && p + 3 <= s.len() && (s[p + 1] & 0xC0) == 0x80 && (s[p + 2] & 0xC0) == 0x80 {
        assert(!exists|i: int| p + 1 <= i < p + 3 && (#[trigger] s[i] & 0xC0) != 0x80);
    }
    if 0xF0 <= s[p] && p + 4 <= s.len() && (s[p + 1] & 0xC0) == 0x80 && (s[p + 2] & 0xC0) == 0x80 && (s[p + 3]
        & 0xC0) == 0x80 {
        assert(!exists|i: int| p + 1 <= i < p + 4 && (#[trigger] s[i] & 0xC0) != 0x80);
    }
}

/// Structural bytes of a 32-byte string chunk: bit `i` of each mask is set
/// when byte `i` is a quote, a backslash, or an ASCII control byte.
#[derive(Debug, Clone, Copy, PartialEq, Eq, Structural)]
pub struct StringBlock {
    pub quote_bits: u32,
    pub backslash_bits: u32,
    pub control_bits: u32,
}

/// Bit `i` of `bits` is set exactly when byte `i` of `chunk` satisfies `f`.
pub open spec fn mask_of(bits: u32, chunk: Seq<u8>, f: spec_fn(u8) -> bool) -> bool {
    forall|i: u32| i < 32 ==> (#[trigger] ((bits >> i) & 1u32) == 1u32) == (i < chunk.len() && f(chunk[i as int]))
}

proof fn lemma_bit_set32(b: u32, k: u32, j: u32)
    requires
        k < 32,
        j < 32,
    ensures
        (((b | (1u32 << k)) >> j) & 1u32 == 1u32) == (j == k || ((b >> j) & 1u32) == 1u32),
{
    assert((((b | (1u32 << k)) >> j) & 1u32 == 1u32) == (j == k || ((b >> j) & 1u32) == 1u32)) by (bit_vector)
        requires k < 32, j < 32;
}

impl StringBlock {
    /// The masks of the first 32 bytes of `chunk` (fewer when it is shorter).
    pub fn from_bytes(chunk: &[u8]) -> (r: StringBlock)
        ensures
            mask_of(r.quote_bits, chunk@, |b: u8| b == 0x22),
            mask_of(r.backslash_bits, chunk@, |b: u8| b == 0x5c),
            mask_of(r.control_bits, chunk@, |b: u8| b < 0x20),
    {
        let n = if chunk.len() < 32 {
            chunk.len()
        } else {
            32
        };
        let mut q: u32 = 0;
        let mut b: u32 = 0;
        let mut k: u32 = 0;
        let mut i: usize = 0;
        proof {
            assert forall|j: u32| j < 32 implies ((q >> j) & 1u32) == 0u32 by {
                assert((0u32 >> j) & 1u32 == 0u32) by (bit_vector);
            }
        }
        while i < n
            invariant
                n <= 32,
                n <= chunk@.len(),
                n == chunk@.len() || n == 32,
                i <= n,
                forall|j: u32| j < 32 ==> (#[trigger] ((q >> j) & 1u32) == 1u32) == (j < i && chunk@[j as int] == 0x22),
                forall|j: u32| j < 32 ==> (#[trigger] ((b >> j) & 1u32) == 1u32) == (j < i && chunk@[j as int] == 0x5c),
                forall|j: u32| j < 32 ==> (#[trigger] ((k >> j) & 1u32) == 1u32) == (j < i && chunk@[j as int] < 0x20),
            decreases n - i,
        {
            let byte = chunk[i];
            let bit = i as u32;
            let ghost (q0, b0, k0) = (q, b, k);
            if byte == 0x22 {
                q = q | (1u32 << bit);
            }
            if byte == 0x5c {
                b = b | (1u32 << bit);
            }
            if byte < 0x20 {
                k = k | (1u32 << bit);
            }
            proof {
                assert forall|j: u32| j < 32 implies (#[trigger] ((q >> j) & 1u32) == 1u32) == (j < i + 1 && chunk@[j as int] == 0x22) by {
                    lemma_bit_set32(q0, bit, j);
                }
                assert forall|j: u32| j < 32 implies (#[trigger] ((b >> j) & 1u32) == 1u32) == (j < i + 1 && chunk@[j as int] == 0x5c) by {
                    lemma_bit_set32(b0, bit, j);
                }
                assert forall|j: u32| j < 32 implies (#[trigger] ((k >> j) & 1u32) == 1u32) == (j < i + 1 && chunk@[j as int] < 0x20) by {
                    lemma_bit_set32(k0, bit, j);
                }
            }
            i += 1;
        }
        StringBlock { quote_bits: q, backslash_bits: b, control_bits: k }
    }

    /// A quote comes before any backslash in the chunk.
    pub fn has_quote_first(&self) -> (r: bool)
        ensures
            r == (self.quote_bits != 0 && (self.backslash_bits == 0 || u32_trailing_zeros(self.quote_bits)
                < u32_trailing_zeros(self.backslash_bits))),
    {
        if self.quote_bits == 0 {
            return false;
        }
        if self.backslash_bits == 0 {
            return true;
        }
        self.quote_bits.trailing_zeros() < self.backslash_bits.trailing_zeros()
    }

    /// Index of the first quote (32 when there is none).
    pub fn quote_index(&self) -> (r: usize)
        ensures
            r == u32_trailing_zeros(self.quote_bits),
    {
        self.quote_bits.trailing_zeros() as usize
    }

    pub fn has_backslash(&self) -> (r: bool)
        ensures
            r == (self.backslash_bits != 0),
    {
        self.backslash_bits != 0
    }

    pub fn has_control(&self) -> (r: bool)
        ensures
            r == (self.control_bits != 0),
    {
        self.control_bits != 0
    }
}

} // verus!
