//! Decoding raw byte strings into typed values.
//!
//! A raw payload carries no assumed encoding. Each target kind states
//! exactly which byte strings it accepts and which value they denote:
//! text requires well-formed UTF-8, raw byte strings and path names
//! accept any bytes, and the arithmetic and boolean targets require
//! UTF-8 followed by a textual parse, surfacing whichever step failed.

use vstd::prelude::*;

verus! {

/// True if `b` is a UTF-8 continuation byte.
pub open spec fn is_cont(b: u8) -> bool {
    0x80 <= b <= 0xBF
}

/// Well-formedness of a byte sequence as UTF-8, following the encoding
/// table: one-byte units below 0x80, and two- to four-byte units whose
/// leading byte fixes the admissible range of the first continuation
/// byte (surrogates and values above 0x10FFFF are excluded).
pub open spec fn is_utf8(s: Seq<u8>) -> bool
    decreases s.len(),
{
    if s.len() == 0 {
        true
    } else {
        let b = s[0];
        if b < 0x80 {
            is_utf8(s.skip(1))
        } else if 0xC2 <= b && b <= 0xDF {
            s.len() >= 2 && is_cont(s[1]) && is_utf8(s.skip(2))
        } else if b == 0xE0 {
            s.len() >= 3 && 0xA0 <= s[1] && s[1] <= 0xBF && is_cont(s[2]) && is_utf8(s.skip(3))
        } else if b == 0xED {
            s.len() >= 3 && 0x80 <= s[1] && s[1] <= 0x9F && is_cont(s[2]) && is_utf8(s.skip(3))
        } else if 0xE1 <= b && b <= 0xEF {
            s.len() >= 3 && is_cont(s[1]) && is_cont(s[2]) && is_utf8(s.skip(3))
        } else if b == 0xF0 {
            s.len() >= 4 && 0x90 <= s[1] && s[1] <= 0xBF && is_cont(s[2]) && is_cont(s[3])
                && is_utf8(s.skip(4))
        } else if 0xF1 <= b && b <= 0xF3 {
            s.len() >= 4 && is_cont(s[1]) && is_cont(s[2]) && is_cont(s[3]) && is_utf8(s.skip(4))
        } else if b == 0xF4 {
            s.len() >= 4 && 0x80 <= s[1] && s[1] <= 0x8F && is_cont(s[2]) && is_cont(s[3])
                && is_utf8(s.skip(4))
        } else {
            false
        }
    }
}

/// Checks that `s` is well-formed UTF-8.
pub fn validate_utf8(s: &Vec<u8>) -> (r: bool)
    ensures
        r == is_utf8(s@),
{
    let n = s.len();
    let mut i: usize = 0;
    proof {
        assert(s@.skip(0) =~= s@);
    }
    while i < n
        invariant
            i <= n,
            n == s.len(),
            is_utf8(s@) == is_utf8(s@.skip(i as int)),
        decreases n - i,
    {
        let ghost rest = s@.skip(i as int);
        let b = s[i];
        let step: usize;
        if b < 0x80 {
            step = 1;
        } else if 0xC2 <= b && b <= 0xDF {
            if !(n - i >= 2 && is_cont_exec(s[i + 1])) {
                return false;
            }
            step = 2;
        } else if b == 0xE0 {
            if !(n - i >= 3 && 0xA0 <= s[i + 1] && s[i + 1] <= 0xBF && is_cont_exec(s[i + 2])) {
                return false;
            }
            step = 3;
        } else if b == 0xED {
            if !(n - i >= 3 && 0x80 <= s[i + 1] && s[i + 1] <= 0x9F && is_cont_exec(s[i + 2])) {
                return false;
            }
            step = 3;
        } else if 0xE1 <= b && b <= 0xEF {
            if !(n - i >= 3 && is_cont_exec(s[i + 1]) && is_cont_exec(s[i + 2])) {
                return false;
            }
            step = 3;
        } else if b == 0xF0 {
            if !(n - i >= 4 && 0x90 <= s[i + 1] && s[i + 1] <= 0xBF && is_cont_exec(s[i + 2])
                && is_cont_exec(s[i + 3])) {
                return false;
            }
            step = 4;
        } else if 0xF1 <= b && b <= 0xF3 {
            if !(n - i >= 4 && is_cont_exec(s[i + 1]) && is_cont_exec(s[i + 2])
                && is_cont_exec(s[i + 3])) {
                return false;
            }
            step = 4;
        } else if b == 0xF4 {
            if !(n - i >= 4 && 0x80 <= s[i + 1] && s[i + 1] <= 0x8F && is_cont_exec(s[i + 2])
                && is_cont_exec(s[i + 3])) {
                return false;
            }
            step = 4;
        } else {
            return false;
        }
        proof {
            assert(rest.skip(step as int) =~= s@.skip(i + step as int));
        }
        i += step;
    }
    proof {
        assert(s@.skip(n as int) =~= Seq::<u8>::empty());
    }
    true
}

fn is_cont_exec(b: u8) -> (r: bool)
    ensures
        r == is_cont(b),
{
    0x80 <= b && b <= 0xBF
}

/// True if `b` is an ASCII decimal digit.
pub open spec fn is_dec_digit(b: u8) -> bool {
    0x30 <= b <= 0x39
}

/// True if every byte of `s` is an ASCII decimal digit.
pub open spec fn all_digits(s: Seq<u8>) -> bool {
    forall|i: int| 0 <= i < s.len() ==> is_dec_digit(#[trigger] s[i])
}

/// The integer denoted by a sequence of ASCII decimal digits.
pub open spec fn dec_value(s: Seq<u8>) -> int
    decreases s.len(),
{
    if s.len() == 0 {
        0
    } else {
        dec_value(s.drop_last()) * 10 + (s.last() - 0x30)
    }
}

/// The value of a digit string is never negative.
pub proof fn lemma_dec_value_nonneg(s: Seq<u8>)
    requires
        all_digits(s),
    ensures
        dec_value(s) >= 0,
    decreases s.len(),
{
    if s.len() > 0 {
        assert(all_digits(s.drop_last()));
        lemma_dec_value_nonneg(s.drop_last());
    }
}

/// Extending a digit string to the right never decreases its value.
pub proof fn lemma_dec_value_prefix_le(s: Seq<u8>, i: int, j: int)
    requires
        all_digits(s),
        0 <= i <= j <= s.len(),
    ensures
        dec_value(s.subrange(0, i)) <= dec_value(s.subrange(0, j)),
    decreases j - i,
{
    if i < j {
        let t = s.subrange(0, j);
        assert(t.drop_last() =~= s.subrange(0, j - 1));
        assert(all_digits(t.drop_last()));
        lemma_dec_value_nonneg(t.drop_last());
        lemma_dec_value_prefix_le(s, i, j - 1);
    }
}

/// Why a textual parse failed.
#[derive(Debug, PartialEq, Eq, Structural, Clone, Copy)]
pub enum ParseError {
    /// The byte string was empty.
    Empty,
    /// A byte was not admissible at its position (a non-digit, a
    /// misplaced sign, or an unknown boolean word).
    InvalidDigit,
    /// The denoted value does not fit in the target type.
    Overflow,
}

/// Parses an unsigned decimal integer from every byte of `s`.
///
/// The result is `Ok(v)` exactly when `s` is a non-empty, all-digit
/// string whose value fits in a `u64`; each error names the first
/// condition that fails.
pub fn parse_u64(s: &Vec<u8>) -> (r: Result<u64, ParseError>)
    ensures
        s@.len() == 0 ==> r == Err::<u64, ParseError>(ParseError::Empty),
        s@.len() > 0 && !all_digits(s@) ==> r == Err::<u64, ParseError>(ParseError::InvalidDigit),
        all_digits(s@) && s@.len() > 0 && dec_value(s@) > u64::MAX ==> r == Err::<u64, ParseError>(
            ParseError::Overflow,
        ),
        all_digits(s@) && s@.len() > 0 && dec_value(s@) <= u64::MAX ==> (r matches Ok(v)
            && v == dec_value(s@)),
{
    let n = s.len();
    if n == 0 {
        return Err(ParseError::Empty);
    }
    let mut i: usize = 0;
    while i < n
        invariant
            i <= n,
            n == s.len(),
            forall|k: int| 0 <= k < i ==> is_dec_digit(#[trigger] s@[k]),
        decreases n - i,
    {
        let b = s[i];
        if b < 0x30 || b > 0x39 {
            return Err(ParseError::InvalidDigit);
        }
        i += 1;
    }
    let mut v: u64 = 0;
    let mut j: usize = 0;
    proof {
        assert(s@.subrange(0, 0) =~= Seq::<u8>::empty());
    }
    while j < n
        invariant
            j <= n,
            n == s.len(),
            all_digits(s@),
            v == dec_value(s@.subrange(0, j as int)),
        decreases n - j,
    {
        let d = s[j];
        if v > 1844674407370955161 || (v == 1844674407370955161 && d > 0x35) {
            proof {
                let p = s@.subrange(0, j + 1);
                assert(p.drop_last() =~= s@.subrange(0, j as int));
                assert(dec_value(p) > u64::MAX);
                lemma_dec_value_prefix_le(s@, j + 1, n as int);
                assert(s@.subrange(0, n as int) =~= s@);
            }
            return Err(ParseError::Overflow);
        }
        proof {
            let p = s@.subrange(0, j + 1);
            assert(p.drop_last() =~= s@.subrange(0, j as int));
        }
        v = v * 10 + (d - 0x30) as u64;
        j += 1;
    }
    proof {
        assert(s@.subrange(0, n as int) =~= s@);
    }
    Ok(v)
}

/// True if `s` is a well-formed signed decimal: an optional single
/// leading sign followed by at least one digit.
pub open spec fn is_int_text(s: Seq<u8>) -> bool {
    if s.len() == 0 {
        false
    } else if s[0] == 0x2D || s[0] == 0x2B {
        s.len() >= 2 && all_digits(s.skip(1))
    } else {
        all_digits(s)
    }
}

/// The integer denoted by a well-formed signed decimal.
pub open spec fn int_text_value(s: Seq<u8>) -> int {
    if s.len() > 0 && s[0] == 0x2D {
        -dec_value(s.skip(1))
    } else if s.len() > 0 && s[0] == 0x2B {
        dec_value(s.skip(1))
    } else {
        dec_value(s)
    }
}

/// Parses a signed decimal integer from every byte of `s`.
///
/// The result is `Ok(v)` exactly when `s` is a well-formed signed
/// decimal whose value fits in an `i64`.
pub fn parse_i64(s: &Vec<u8>) -> (r: Result<i64, ParseError>)
    ensures
        s@.len() == 0 ==> r == Err::<i64, ParseError>(ParseError::Empty),
        s@.len() > 0 && !is_int_text(s@) ==> r == Err::<i64, ParseError>(ParseError::InvalidDigit),
        is_int_text(s@) && !(i64::MIN <= int_text_value(s@) <= i64::MAX) ==> r == Err::<
            i64,
            ParseError,
        >(ParseError::Overflow),
        is_int_text(s@) && i64::MIN <= int_text_value(s@) <= i64::MAX ==> (r matches Ok(v) && v
            == int_text_value(s@)),
{
    let n = s.len();
    if n == 0 {
        return Err(ParseError::Empty);
    }
    let negative = s[0] == 0x2D;
    let signed = negative || s[0] == 0x2B;
    let start: usize = if signed {
        1
    } else {
        0
    };
    let mut digits: Vec<u8> = Vec::new();
    let mut i: usize = start;
    while i < n
        invariant
            start <= i <= n,
            n == s.len(),
            digits@ =~= s@.subrange(start as int, i as int),
        decreases n - i,
    {
        digits.push(s[i]);
        i += 1;
    }
    proof {
        assert(digits@ =~= s@.skip(start as int));
        assert(s@.skip(0) =~= s@);
    }
    let mag = match parse_u64(&digits) {
        Ok(m) => m,
        Err(ParseError::Empty) => {
            return Err(ParseError::InvalidDigit);
        },
        Err(ParseError::InvalidDigit) => {
            return Err(ParseError::InvalidDigit);
        },
        Err(ParseError::Overflow) => {
            proof {
                if is_int_text(s@) {
                    lemma_dec_value_nonneg(s@.skip(start as int));
                }
            }
            return Err(ParseError::Overflow);
        },
    };
    if negative {
        if mag > 9223372036854775808 {
            return Err(ParseError::Overflow);
        }
        if mag == 0 {
            Ok(0)
        } else {
            Ok(-1 - ((mag - 1) as i64))
        }
    } else {
        if mag > 9223372036854775807 {
            return Err(ParseError::Overflow);
        }
        Ok(mag as i64)
    }
}

/// The byte text of the boolean word for true.
pub open spec fn true_text() -> Seq<u8> {
    seq![0x74u8, 0x72, 0x75, 0x65]
}

/// The byte text of the boolean word for false.
pub open spec fn false_text() -> Seq<u8> {
    seq![0x66u8, 0x61, 0x6C, 0x73, 0x65]
}

/// Parses a boolean from every byte of `s`: exactly the two lower-case
/// boolean words are accepted.
pub fn parse_bool(s: &Vec<u8>) -> (r: Result<bool, ParseError>)
    ensures
        r == (if s@ == true_text() {
            Ok::<bool, ParseError>(true)
        } else if s@ == false_text() {
            Ok::<bool, ParseError>(false)
        } else {
            Err::<bool, ParseError>(ParseError::InvalidDigit)
        }),
{
    if s.len() == 4 && s[0] == 0x74 && s[1] == 0x72 && s[2] == 0x75 && s[3] == 0x65 {
        proof {
            assert(s@ =~= true_text());
        }
        Ok(true)
    } else if s.len() == 5 && s[0] == 0x66 && s[1] == 0x61 && s[2] == 0x6C && s[3] == 0x73 && s[4]
        == 0x65 {
        proof {
            assert(s@ =~= false_text());
        }
        Ok(false)
    } else {
        Err(ParseError::InvalidDigit)
    }
}

/// The target type a raw option payload is decoded to.
#[derive(Debug, Clone, Copy, PartialEq, Eq, Structural)]
pub enum ValueKind {
    /// A raw byte string; decoding always succeeds.
    RawBytes,
    /// Text; the bytes must be well-formed UTF-8.
    Text,
    /// A filesystem path; any bytes are accepted.
    PathName,
    /// A signed decimal integer.
    SignedInt,
    /// An unsigned decimal integer.
    UnsignedInt,
    /// One of the two boolean words.
    Boolean,
}

/// A typed value produced by decoding an option payload.
#[derive(Debug)]
pub enum DecodedValue {
    /// The fixed value yielded by an option that takes no payload.
    Unit,
    /// The declared value of an optional payload that was absent.
    Absent,
    /// Raw bytes, exactly the payload.
    Bytes(Vec<u8>),
    /// Well-formed UTF-8 text, exactly the payload bytes.
    Text(Vec<u8>),
    /// A filesystem path, exactly the payload bytes.
    PathName(Vec<u8>),
    /// A parsed signed integer.
    SignedInt(i64),
    /// A parsed unsigned integer.
    UnsignedInt(u64),
    /// A parsed boolean.
    Boolean(bool),
}

/// A conversion error: either the payload was not valid UTF-8 where the
/// target required it, or the textual parse after it failed.
#[derive(Debug, PartialEq, Eq, Structural, Clone, Copy)]
pub enum Utf8OrParseError {
    /// The payload was not well-formed UTF-8.
    Utf8,
    /// The payload was text, but not of the expected shape.
    Parse(ParseError),
}

/// Exactly when `r` is the correct result of decoding payload `s` to
/// target `kind`.
pub open spec fn converted(kind: ValueKind, s: Seq<u8>, r: Result<
    DecodedValue,
    Utf8OrParseError,
>) -> bool {
    match kind {
        ValueKind::RawBytes => r matches Ok(DecodedValue::Bytes(b)) && b@ == s,
        ValueKind::PathName => r matches Ok(DecodedValue::PathName(b)) && b@ == s,
        ValueKind::Text => if is_utf8(s) {
            r matches Ok(DecodedValue::Text(b)) && b@ == s
        } else {
            r == Err::<DecodedValue, Utf8OrParseError>(Utf8OrParseError::Utf8)
        },
        ValueKind::SignedInt => if !is_utf8(s) {
            r == Err::<DecodedValue, Utf8OrParseError>(Utf8OrParseError::Utf8)
        } else if s.len() == 0 {
            r == Err::<DecodedValue, Utf8OrParseError>(Utf8OrParseError::Parse(ParseError::Empty))
        } else if !is_int_text(s) {
            r == Err::<DecodedValue, Utf8OrParseError>(
                Utf8OrParseError::Parse(ParseError::InvalidDigit),
            )
        } else if !(i64::MIN <= int_text_value(s) <= i64::MAX) {
            r == Err::<DecodedValue, Utf8OrParseError>(
                Utf8OrParseError::Parse(ParseError::Overflow),
            )
        } else {
            r matches Ok(DecodedValue::SignedInt(v)) && v == int_text_value(s)
        },
        ValueKind::UnsignedInt => if !is_utf8(s) {
            r == Err::<DecodedValue, Utf8OrParseError>(Utf8OrParseError::Utf8)
        } else if s.len() == 0 {
            r == Err::<DecodedValue, Utf8OrParseError>(Utf8OrParseError::Parse(ParseError::Empty))
        } else if !all_digits(s) {
            r == Err::<DecodedValue, Utf8OrParseError>(
                Utf8OrParseError::Parse(ParseError::InvalidDigit),
            )
        } else if dec_value(s) > u64::MAX {
            r == Err::<DecodedValue, Utf8OrParseError>(
                Utf8OrParseError::Parse(ParseError::Overflow),
            )
        } else {
            r matches Ok(DecodedValue::UnsignedInt(v)) && v == dec_value(s)
        },
        ValueKind::Boolean => if !is_utf8(s) {
            r == Err::<DecodedValue, Utf8OrParseError>(Utf8OrParseError::Utf8)
        } else if s == true_text() {
            r == Ok::<DecodedValue, Utf8OrParseError>(DecodedValue::Boolean(true))
        } else if s == false_text() {
            r == Ok::<DecodedValue, Utf8OrParseError>(DecodedValue::Boolean(false))
        } else {
            r == Err::<DecodedValue, Utf8OrParseError>(
                Utf8OrParseError::Parse(ParseError::InvalidDigit),
            )
        },
    }
}

/// Decodes a raw payload to the given target kind.
pub fn convert(kind: ValueKind, bytes: Vec<u8>) -> (r: Result<DecodedValue, Utf8OrParseError>)
    ensures
        converted(kind, bytes@, r),
{
    match kind {
        ValueKind::RawBytes => Ok(DecodedValue::Bytes(bytes)),
        ValueKind::PathName => Ok(DecodedValue::PathName(bytes)),
        ValueKind::Text => {
            if validate_utf8(&bytes) {
                Ok(DecodedValue::Text(bytes))
            } else {
                Err(Utf8OrParseError::Utf8)
            }
        },
        ValueKind::SignedInt => {
            if !validate_utf8(&bytes) {
                return Err(Utf8OrParseError::Utf8);
            }
            match parse_i64(&bytes) {
                Ok(v) => Ok(DecodedValue::SignedInt(v)),
                Err(e) => Err(Utf8OrParseError::Parse(e)),
            }
        },
        ValueKind::UnsignedInt => {
            if !validate_utf8(&bytes) {
                return Err(Utf8OrParseError::Utf8);
            }
            match parse_u64(&bytes) {
                Ok(v) => Ok(DecodedValue::UnsignedInt(v)),
                Err(e) => Err(Utf8OrParseError::Parse(e)),
            }
        },
        ValueKind::Boolean => {
            if !validate_utf8(&bytes) {
                return Err(Utf8OrParseError::Utf8);
            }
            match parse_bool(&bytes) {
                Ok(b) => Ok(DecodedValue::Boolean(b)),
                Err(e) => Err(Utf8OrParseError::Parse(e)),
            }
        },
    }
}

/// True if `s` contains the C-string terminator byte.
pub open spec fn has_nul(s: Seq<u8>) -> bool {
    exists|i: int| 0 <= i < s.len() && s[i] == 0u8
}

/// Checks whether `s` contains the C-string terminator byte, which no
/// value handed to the host may embed.
pub fn contains_nul(s: &Vec<u8>) -> (r: bool)
    ensures
        r == has_nul(s@),
{
    let n = s.len();
    let mut i: usize = 0;
    while i < n
        invariant
            i <= n,
            n == s.len(),
            forall|k: int| 0 <= k < i ==> s@[k] != 0u8,
        decreases n - i,
    {
        if s[i] == 0 {
            return true;
        }
        i += 1;
    }
    false
}

/// Compares two byte strings for equality.
pub fn bytes_eq(a: &Vec<u8>, b: &Vec<u8>) -> (r: bool)
    ensures
        r == (a@ == b@),
{
    if a.len() != b.len() {
        return false;
    }
    let n = a.len();
    let mut i: usize = 0;
    while i < n
        invariant
            i <= n,
            n == a.len() == b.len(),
            forall|k: int| 0 <= k < i ==> a@[k] == b@[k],
        decreases n - i,
    {
        if a[i] != b[i] {
            return false;
        }
        i += 1;
    }
    proof {
        assert(a@ =~= b@);
    }
    true
}

/// True if `p` is a prefix of `s`.
pub open spec fn is_prefix_of(p: Seq<u8>, s: Seq<u8>) -> bool {
    p.len() <= s.len() && s.subrange(0, p.len() as int) == p
}

/// Checks whether `p` is a prefix of `s`.
pub fn starts_with(s: &Vec<u8>, p: &Vec<u8>) -> (r: bool)
    ensures
        r == is_prefix_of(p@, s@),
{
    if p.len() > s.len() {
        return false;
    }
    let n = p.len();
    let mut i: usize = 0;
    while i < n
        invariant
            i <= n,
            n == p.len() <= s.len(),
            forall|k: int| 0 <= k < i ==> s@[k] == p@[k],
        decreases n - i,
    {
        if s[i] != p[i] {
            proof {
                assert(s@.subrange(0, p@.len() as int)[i as int] != p@[i as int]);
            }
            return false;
        }
        i += 1;
    }
    proof {
        assert(s@.subrange(0, p@.len() as int) =~= p@);
    }
    true
}

} // verus!
