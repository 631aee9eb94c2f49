//! Scalars: five primitive kinds, a total order, and coercions between kinds.
//!
//! A float is held as its IEEE-754 bit pattern. What only floating-point
//! arithmetic can give (formatting a float, rounding it, widening an integer,
//! parsing a float) is computed by the caller and handed in.

use crate::bytes::{be_decode, be_encode, be_value, int_order, lex_compare, lex_order, pow256};
use std::cmp::Ordering;
use vstd::prelude::*;
use vstd::utf8::{decode_utf8, encode_utf8, valid_utf8};

verus! {

/// A primitive value of exactly one of five kinds.
#[derive(Debug, Clone, PartialEq)]
pub enum SimpleValue {
    Bool(bool),
    Integer(i128),
    /// A double-precision float, held as its IEEE-754 bit pattern.
    Float(u64),
    Text(String),
    Bytes(Vec<u8>),
}

pub const SIGN_BIT: u64 = 0x8000_0000_0000_0000;

pub const INFINITY_BITS: u64 = 0x7ff0_0000_0000_0000;

/// The fixed precedence of kinds: Bool < Integer < Float < Text < Bytes.
pub open spec fn rank(s: SimpleValue) -> int {
    match s {
        SimpleValue::Bool(_) => 1,
        SimpleValue::Integer(_) => 2,
        SimpleValue::Float(_) => 3,
        SimpleValue::Text(_) => 4,
        SimpleValue::Bytes(_) => 5,
    }
}

/// The bit pattern is a NaN.
pub open spec fn float_nan(bits: u64) -> bool {
    bits % SIGN_BIT > INFINITY_BITS
}

/// For bit patterns that are not NaN, an integer that orders them as the
/// floats they stand for are ordered (both zeros map to 0).
pub open spec fn float_key(bits: u64) -> int {
    let mag = (bits % SIGN_BIT) as int;
    if bits >= SIGN_BIT {
        -mag
    } else {
        mag
    }
}

pub open spec fn bool_int(b: bool) -> int {
    if b {
        1
    } else {
        0
    }
}

/// The UTF-8 bytes of a text.
pub open spec fn text_bytes(t: String) -> Seq<u8> {
    encode_utf8(t@)
}

/// The total order of scalars. Within a kind the natural order (texts and
/// byte strings lexicographically by bytes; a NaN is unordered with every
/// float and so compares as equal); across kinds the fixed precedence.
pub open spec fn scalar_cmp(a: SimpleValue, b: SimpleValue) -> Ordering {
    match (a, b) {
        (SimpleValue::Bool(x), SimpleValue::Bool(y)) => int_order(bool_int(x), bool_int(y)),
        (SimpleValue::Integer(x), SimpleValue::Integer(y)) => int_order(x as int, y as int),
        (SimpleValue::Float(x), SimpleValue::Float(y)) => if float_nan(x) || float_nan(y) {
            Ordering::Equal
        } else {
            int_order(float_key(x), float_key(y))
        },
        (SimpleValue::Text(x), SimpleValue::Text(y)) => lex_order(text_bytes(x), text_bytes(y)),
        (SimpleValue::Bytes(x), SimpleValue::Bytes(y)) => lex_order(x@, y@),
        _ => int_order(rank(a), rank(b)),
    }
}

/// Two scalars hold the same value: same kind, same payload.
pub open spec fn same_value(a: SimpleValue, b: SimpleValue) -> bool {
    match (a, b) {
        (SimpleValue::Bool(x), SimpleValue::Bool(y)) => x == y,
        (SimpleValue::Integer(x), SimpleValue::Integer(y)) => x == y,
        (SimpleValue::Float(x), SimpleValue::Float(y)) => x == y,
        (SimpleValue::Text(x), SimpleValue::Text(y)) => x@ == y@,
        (SimpleValue::Bytes(x), SimpleValue::Bytes(y)) => x@ == y@,
        _ => false,
    }
}

pub open spec fn is_nan_value(s: SimpleValue) -> bool {
    s is Float && float_nan(s->Float_0)
}

/// Both are floats of magnitude zero (+0.0 or -0.0).
pub open spec fn both_zero(a: SimpleValue, b: SimpleValue) -> bool {
    a is Float && b is Float && a->Float_0 % SIGN_BIT == 0 && b->Float_0 % SIGN_BIT == 0
}

fn float_is_nan(bits: u64) -> (r: bool)
    ensures
        r == float_nan(bits),
{
    bits % SIGN_BIT > INFINITY_BITS
}

fn float_order_key(bits: u64) -> (r: i128)
    ensures
        r == float_key(bits),
{
    let mag = (bits % SIGN_BIT) as i128;
    if bits >= SIGN_BIT {
        -mag
    } else {
        mag
    }
}

fn order_of(a: i128, b: i128) -> (r: Ordering)
    ensures
        r == int_order(a as int, b as int),
{
    if a < b {
        Ordering::Less
    } else if a == b {
        Ordering::Equal
    } else {
        Ordering::Greater
    }
}

impl SimpleValue {
    /// The kind's place in the fixed precedence, from 1 (Bool) to 5 (Bytes).
    pub fn weight(&self) -> (r: usize)
        ensures
            r == rank(*self),
    {
        match self {
            SimpleValue::Bool(_) => 1,
            SimpleValue::Integer(_) => 2,
            SimpleValue::Float(_) => 3,
            SimpleValue::Text(_) => 4,
            SimpleValue::Bytes(_) => 5,
        }
    }

    /// Compares two scalars in the total order of scalars.
    pub fn cmp(&self, other: &SimpleValue) -> (r: Ordering)
        ensures
            r == scalar_cmp(*self, *other),
    {
        match (self, other) {
            (SimpleValue::Bool(x), SimpleValue::Bool(y)) => {
                order_of(if *x { 1 } else { 0 }, if *y { 1 } else { 0 })
            },
            (SimpleValue::Integer(x), SimpleValue::Integer(y)) => order_of(*x, *y),
            (SimpleValue::Float(x), SimpleValue::Float(y)) => {
                if float_is_nan(*x) || float_is_nan(*y) {
                    Ordering::Equal
                } else {
                    order_of(float_order_key(*x), float_order_key(*y))
                }
            },
            (SimpleValue::Text(x), SimpleValue::Text(y)) => {
                lex_compare(x.as_str().as_bytes(), y.as_str().as_bytes())
            },
            (SimpleValue::Bytes(x), SimpleValue::Bytes(y)) => {
                lex_compare(x.as_slice(), y.as_slice())
            },
            _ => order_of(self.weight() as i128, other.weight() as i128),
        }
    }
}

/// The order is antisymmetric: `a` is below `b` exactly when `b` is above
/// `a`, and they compare equal in either direction alike.
pub proof fn lemma_cmp_antisymmetric(a: SimpleValue, b: SimpleValue)
    ensures
        scalar_cmp(a, b) == Ordering::Less <==> scalar_cmp(b, a) == Ordering::Greater,
        scalar_cmp(a, b) == Ordering::Equal <==> scalar_cmp(b, a) == Ordering::Equal,
{
    match (a, b) {
        (SimpleValue::Text(x), SimpleValue::Text(y)) => {
            crate::bytes::lemma_lex_antisymmetric(text_bytes(x), text_bytes(y));
        },
        (SimpleValue::Bytes(x), SimpleValue::Bytes(y)) => {
            crate::bytes::lemma_lex_antisymmetric(x@, y@);
        },
        _ => {},
    }
}

/// The strict order is transitive, for every three scalars.
pub proof fn lemma_cmp_transitive(a: SimpleValue, b: SimpleValue, c: SimpleValue)
    requires
        scalar_cmp(a, b) == Ordering::Less,
        scalar_cmp(b, c) == Ordering::Less,
    ensures
        scalar_cmp(a, c) == Ordering::Less,
{
    match (a, b, c) {
        (SimpleValue::Text(x), SimpleValue::Text(y), SimpleValue::Text(z)) => {
            crate::bytes::lemma_lex_transitive(text_bytes(x), text_bytes(y), text_bytes(z));
        },
        (SimpleValue::Bytes(x), SimpleValue::Bytes(y), SimpleValue::Bytes(z)) => {
            crate::bytes::lemma_lex_transitive(x@, y@, z@);
        },
        _ => {},
    }
}

/// Apart from NaN floats, two scalars compare equal exactly when they hold
/// the same value, or are the two zeros of the floats.
pub proof fn lemma_cmp_equal_only_to_self(a: SimpleValue, b: SimpleValue)
    requires
        !is_nan_value(a),
        !is_nan_value(b),
    ensures
        scalar_cmp(a, b) == Ordering::Equal <==> (same_value(a, b) || both_zero(a, b)),
{
    match (a, b) {
        (SimpleValue::Text(x), SimpleValue::Text(y)) => {
            crate::bytes::lemma_lex_equal(text_bytes(x), text_bytes(y));
            vstd::utf8::encode_utf8_decode_utf8(x@);
            vstd::utf8::encode_utf8_decode_utf8(y@);
        },
        (SimpleValue::Bytes(x), SimpleValue::Bytes(y)) => {
            crate::bytes::lemma_lex_equal(x@, y@);
        },
        (SimpleValue::Float(x), SimpleValue::Float(y)) => {
            assert(x >= SIGN_BIT ==> x == SIGN_BIT + x % SIGN_BIT);
            assert(x < SIGN_BIT ==> x == x % SIGN_BIT);
            assert(y >= SIGN_BIT ==> y == SIGN_BIT + y % SIGN_BIT);
            assert(y < SIGN_BIT ==> y == y % SIGN_BIT);
        },
        _ => {},
    }
}

pub open spec fn is_digit(c: char) -> bool {
    '0' <= c && c <= '9'
}

/// The number that a string of decimal digits writes.
pub open spec fn digits_value(s: Seq<char>) -> int
    decreases s.len(),
{
    if s.len() == 0 {
        0
    } else {
        digits_value(s.drop_last()) * 10 + ((s.last() as u32) as int - 48)
    }
}

/// A base-10 integer: an optional `+` or `-`, then one or more ASCII
/// digits, nothing else, with a value that fits in an `i128`.
pub open spec fn decimal_of(s: Seq<char>) -> Option<i128> {
    let signed = s.len() > 0 && (s[0] == '-' || s[0] == '+');
    let body = if signed {
        s.drop_first()
    } else {
        s
    };
    let v = if signed && s[0] == '-' {
        -digits_value(body)
    } else {
        digits_value(body)
    };
    if body.len() > 0 && (forall|i: int| 0 <= i < body.len() ==> is_digit(#[trigger] body[i]))
        && i128::MIN <= v <= i128::MAX {
        Some(v as i128)
    } else {
        None
    }
}

pub open spec fn digit_char(d: nat) -> char {
    ((d + 48) as u32) as char
}

/// The decimal digits of `n`, without leading zeros.
pub open spec fn digits_text(n: nat) -> Seq<char>
    decreases n,
{
    if n < 10 {
        seq![digit_char(n)]
    } else {
        digits_text(n / 10).push(digit_char(n % 10))
    }
}

/// The canonical decimal text of an integer.
pub open spec fn integer_text(x: int) -> Seq<char> {
    if x < 0 {
        seq!['-'] + digits_text((-x) as nat)
    } else {
        digits_text(x as nat)
    }
}

/// What `String::from_utf8_lossy` makes of a byte string.
pub uninterp spec fn lossy_text(b: Seq<u8>) -> Seq<char>;

/// Relies on `i128::from_str`: an optional sign, then ASCII digits only,
/// in range.
#[verifier::external_body]
fn parse_integer(s: &str) -> (r: Option<i128>)
    ensures
        r == decimal_of(s@),
{
    s.parse::<i128>().ok()
}

/// Relies on `i128`'s `Display`: the decimal digits, with `-` when negative.
#[verifier::external_body]
fn format_integer(x: i128) -> (r: String)
    ensures
        r@ == integer_text(x as int),
{
    x.to_string()
}

/// Relies on `String::from_utf8_lossy`, which decodes valid UTF-8 as it is.
#[verifier::external_body]
fn decode_lossy(b: &[u8]) -> (r: String)
    ensures
        r@ == lossy_text(b@),
        valid_utf8(b@) ==> r@ == decode_utf8(b@),
{
    String::from_utf8_lossy(b).into_owned()
}

/// The integer that a byte string reads as: big-endian two's complement,
/// left-padded with zero bytes to sixteen; longer strings read as nothing.
pub open spec fn bytes_integer(b: Seq<u8>) -> Option<i128> {
    if b.len() > 16 {
        None
    } else if b.len() == 16 && be_value(b) >= 0x8000_0000_0000_0000_0000_0000_0000_0000 {
        Some((be_value(b) - 0x1_0000_0000_0000_0000_0000_0000_0000_0000) as i128)
    } else {
        Some(be_value(b) as i128)
    }
}

/// The unsigned number whose sixteen bytes write `x` in two's complement.
pub open spec fn twos_complement(x: i128) -> nat {
    if x < 0 {
        (x + 0x1_0000_0000_0000_0000_0000_0000_0000_0000) as nat
    } else {
        x as nat
    }
}

/// Best-effort coercion to a boolean.
pub open spec fn bool_of(s: SimpleValue) -> Option<bool> {
    match s {
        SimpleValue::Bool(b) => Some(b),
        SimpleValue::Integer(x) => Some(x != 0),
        SimpleValue::Float(_) => None,
        SimpleValue::Text(t) => Some(t@.len() > 0),
        SimpleValue::Bytes(b) => Some(b@.len() > 0),
    }
}

/// Best-effort coercion to an integer; `rounded` stands for the float
/// payload rounded to the nearest integer.
pub open spec fn integer_of(s: SimpleValue, rounded: i128) -> Option<i128> {
    match s {
        SimpleValue::Bool(_) => None,
        SimpleValue::Integer(x) => Some(x),
        SimpleValue::Float(_) => Some(rounded),
        SimpleValue::Text(t) => decimal_of(t@),
        SimpleValue::Bytes(b) => bytes_integer(b@),
    }
}

/// Best-effort coercion to a float's bit pattern; `converted` stands for
/// the float that an integer widens to, or that a text parses as.
pub open spec fn float_of(s: SimpleValue, converted: Option<u64>) -> Option<u64> {
    match s {
        SimpleValue::Bool(_) => None,
        SimpleValue::Integer(_) => converted,
        SimpleValue::Float(x) => Some(x),
        SimpleValue::Text(_) => converted,
        SimpleValue::Bytes(b) => if b@.len() == 8 {
            Some(be_value(b@) as u64)
        } else {
            None
        },
    }
}

/// The text of a scalar; `float_text` stands for the float payload's
/// canonical decimal form.
pub open spec fn text_of(s: SimpleValue, float_text: Seq<char>) -> Seq<char> {
    match s {
        SimpleValue::Bool(b) => if b {
            "true"@
        } else {
            "false"@
        },
        SimpleValue::Integer(x) => integer_text(x as int),
        SimpleValue::Float(_) => float_text,
        SimpleValue::Text(t) => t@,
        SimpleValue::Bytes(b) => lossy_text(b@),
    }
}

/// `r` is the byte form of the scalar: one byte 0 or 1 for a boolean,
/// sixteen big-endian two's-complement bytes for an integer, the eight
/// big-endian bytes of a float's bit pattern, the UTF-8 of a text.
pub open spec fn bytes_of(s: SimpleValue, r: Seq<u8>) -> bool {
    match s {
        SimpleValue::Bool(b) => r == seq![if b { 1u8 } else { 0u8 }],
        SimpleValue::Integer(x) => r.len() == 16 && be_value(r) == twos_complement(x),
        SimpleValue::Float(x) => r.len() == 8 && be_value(r) == x,
        SimpleValue::Text(t) => r == text_bytes(t),
        SimpleValue::Bytes(b) => r == b@,
    }
}

impl SimpleValue {
    pub fn is_bool(&self) -> (r: bool)
        ensures
            r == self is Bool,
    {
        matches!(self, SimpleValue::Bool(_))
    }

    pub fn is_integer(&self) -> (r: bool)
        ensures
            r == self is Integer,
    {
        matches!(self, SimpleValue::Integer(_))
    }

    pub fn is_float(&self) -> (r: bool)
        ensures
            r == self is Float,
    {
        matches!(self, SimpleValue::Float(_))
    }

    pub fn is_text(&self) -> (r: bool)
        ensures
            r == self is Text,
    {
        matches!(self, SimpleValue::Text(_))
    }

    pub fn is_binary(&self) -> (r: bool)
        ensures
            r == self is Bytes,
    {
        matches!(self, SimpleValue::Bytes(_))
    }

    /// The boolean payload, only if the value is a boolean.
    pub fn bool(&self) -> (r: Option<bool>)
        ensures
            r == (if self is Bool {
                Some(self->Bool_0)
            } else {
                None
            }),
    {
        match self {
            SimpleValue::Bool(b) => Some(*b),
            _ => None,
        }
    }

    /// The integer payload, only if the value is an integer.
    pub fn integer(&self) -> (r: Option<i128>)
        ensures
            r == (if self is Integer {
                Some(self->Integer_0)
            } else {
                None
            }),
    {
        match self {
            SimpleValue::Integer(x) => Some(*x),
            _ => None,
        }
    }

    /// The float payload's bit pattern, only if the value is a float.
    pub fn float(&self) -> (r: Option<u64>)
        ensures
            r == (if self is Float {
                Some(self->Float_0)
            } else {
                None
            }),
    {
        match self {
            SimpleValue::Float(x) => Some(*x),
            _ => None,
        }
    }

    /// The text payload, only if the value is a text.
    pub fn text(&self) -> (r: Option<&str>)
        ensures
            self is Text <==> r is Some,
            r is Some ==> r->Some_0@ == self->Text_0@,
    {
        match self {
            SimpleValue::Text(t) => Some(t.as_str()),
            _ => None,
        }
    }

    /// The byte payload, only if the value is a byte string.
    pub fn binary(&self) -> (r: Option<&[u8]>)
        ensures
            self is Bytes <==> r is Some,
            r is Some ==> r->Some_0@ == self->Bytes_0@,
    {
        match self {
            SimpleValue::Bytes(b) => Some(b.as_slice()),
            _ => None,
        }
    }

    /// The integer payload as a `usize`, if it is an integer in range.
    pub fn as_usize(&self) -> (r: Option<usize>)
        ensures
            r == (if self is Integer && 0 <= self->Integer_0 <= usize::MAX {
                Some(self->Integer_0 as usize)
            } else {
                None
            }),
    {
        match self {
            SimpleValue::Integer(x) => {
                if 0 <= *x && *x <= usize::MAX as i128 {
                    Some(*x as usize)
                } else {
                    None
                }
            },
            _ => None,
        }
    }

    /// The integer payload as a `u64`, if it is an integer in range.
    pub fn as_u64(&self) -> (r: Option<u64>)
        ensures
            r == (if self is Integer && 0 <= self->Integer_0 <= u64::MAX {
                Some(self->Integer_0 as u64)
            } else {
                None
            }),
    {
        match self {
            SimpleValue::Integer(x) => {
                if 0 <= *x && *x <= u64::MAX as i128 {
                    Some(*x as u64)
                } else {
                    None
                }
            },
            _ => None,
        }
    }

    /// Best-effort coercion to a boolean; fails exactly on floats.
    pub fn as_bool(&self) -> (r: Option<bool>)
        ensures
            r == bool_of(*self),
            r is None <==> self is Float,
    {
        match self {
            SimpleValue::Bool(b) => Some(*b),
            SimpleValue::Integer(x) => Some(*x != 0),
            SimpleValue::Float(_) => None,
            SimpleValue::Text(t) => Some(!t.as_str().is_empty()),
            SimpleValue::Bytes(b) => Some(b.len() > 0),
        }
    }

    /// Best-effort coercion to an integer. `rounded` is the float payload
    /// rounded to the nearest integer; it is read only for a float.
    pub fn as_integer(&self, rounded: i128) -> (r: Option<i128>)
        ensures
            r == integer_of(*self, rounded),
    {
        match self {
            SimpleValue::Bool(_) => None,
            SimpleValue::Integer(x) => Some(*x),
            SimpleValue::Float(_) => Some(rounded),
            SimpleValue::Text(t) => parse_integer(t.as_str()),
            SimpleValue::Bytes(b) => {
                if b.len() > 16 {
                    None
                } else {
                    let u = be_decode(b.as_slice());
                    if b.len() == 16 && u >= 0x8000_0000_0000_0000_0000_0000_0000_0000 {
                        Some(i128::MIN + (u - 0x8000_0000_0000_0000_0000_0000_0000_0000) as i128)
                    } else {
                        proof {
                            if b@.len() < 16 {
                                crate::bytes::lemma_be_bound(b@);
                                crate::bytes::lemma_pow256_monotone(b@.len(), 15);
                                assert(pow256(16) == 256 * pow256(15));
                                crate::bytes::lemma_pow256_widths();
                            }
                        }
                        Some(u as i128)
                    }
                }
            },
        }
    }

    /// Best-effort coercion to a float's bit pattern. `converted` is the
    /// float that an integer payload widens to, or that a text payload
    /// parses as (`None` when it does not parse); it is read only for those.
    pub fn as_float(&self, converted: Option<u64>) -> (r: Option<u64>)
        ensures
            r == float_of(*self, converted),
    {
        match self {
            SimpleValue::Bool(_) => None,
            SimpleValue::Integer(_) => converted,
            SimpleValue::Float(x) => Some(*x),
            SimpleValue::Text(_) => converted,
            SimpleValue::Bytes(b) => {
                if b.len() == 8 {
                    proof {
                        crate::bytes::lemma_be_bound(b@);
                        crate::bytes::lemma_pow256_widths();
                    }
                    Some(be_decode(b.as_slice()) as u64)
                } else {
                    None
                }
            },
        }
    }

    /// The text of the scalar; never fails. `float_text` is the float
    /// payload's canonical decimal form; it is read only for a float.
    pub fn as_text(&self, float_text: &str) -> (r: String)
        ensures
            r@ == text_of(*self, float_text@),
    {
        match self {
            SimpleValue::Bool(b) => {
                if *b {
                    proof { reveal_strlit("true"); }
                    "true".to_owned()
                } else {
                    proof { reveal_strlit("false"); }
                    "false".to_owned()
                }
            },
            SimpleValue::Integer(x) => format_integer(*x),
            SimpleValue::Float(_) => float_text.to_owned(),
            SimpleValue::Text(t) => t.clone(),
            SimpleValue::Bytes(b) => decode_lossy(b.as_slice()),
        }
    }

    /// The byte form of the scalar; never fails.
    pub fn as_binary(&self) -> (r: Vec<u8>)
        ensures
            bytes_of(*self, r@),
    {
        match self {
            SimpleValue::Bool(b) => {
                let v = vec![if *b { 1u8 } else { 0u8 }];
                assert(v@ =~= seq![if *b { 1u8 } else { 0u8 }]);
                v
            },
            SimpleValue::Integer(x) => {
                let u: u128 = if *x < 0 {
                    (*x - i128::MIN) as u128 + 0x8000_0000_0000_0000_0000_0000_0000_0000
                } else {
                    *x as u128
                };
                proof {
                    crate::bytes::lemma_pow256_widths();
                }
                be_encode(u, 16)
            },
            SimpleValue::Float(x) => {
                proof {
                    crate::bytes::lemma_pow256_widths();
                }
                be_encode(*x as u128, 8)
            },
            SimpleValue::Text(t) => vstd::slice::slice_to_vec(t.as_str().as_bytes()),
            SimpleValue::Bytes(b) => vstd::slice::slice_to_vec(b.as_slice()),
        }
    }
}

/// Reading back the byte form of an integer as a big-endian integer of the
/// same width gives the integer again.
pub proof fn lemma_integer_bytes_round_trip(x: i128, r: Seq<u8>)
    requires
        bytes_of(SimpleValue::Integer(x), r),
    ensures
        bytes_integer(r) == Some(x),
{
}

} // verus!
