//! Byte-level encoding of the scalar values that appear in the text files of
//! the tree format: unsigned and signed decimal numbers and booleans.
//!
//! Every encoder has a spec-level twin, and a proved round-trip lemma says
//! that parsing an encoded value gives the value back.

use vstd::prelude::*;

verus! {

/// Line separator of the text format.
pub const NL: u8 = 10;
/// Carriage return; forbidden in names so trees written on any platform parse the same.
pub const CR: u8 = 13;
/// Key/value separator of the text format.
pub const EQ: u8 = 61;
/// Path separator; forbidden in names.
pub const SLASH: u8 = 47;
/// Windows path separator; forbidden in names.
pub const BACKSLASH: u8 = 92;
/// Sign of a negative decimal number.
pub const MINUS: u8 = 45;
/// The digit zero.
pub const D0: u8 = 48;
/// The digit nine.
pub const D9: u8 = 57;

pub open spec fn is_digit(b: u8) -> bool {
    D0 <= b <= D9
}

pub open spec fn all_digits(s: Seq<u8>) -> bool {
    forall|i: int| 0 <= i < s.len() ==> is_digit(#[trigger] s[i])
}

/// The decimal digits of `n`, most significant first.
pub open spec fn dec_of(n: nat) -> Seq<u8>
    decreases n,
{
    if n < 10 {
        seq![(D0 + n) as u8]
    } else {
        dec_of(n / 10).push((D0 + n % 10) as u8)
    }
}

/// The number denoted by a digit string.
pub open spec fn val_of(s: Seq<u8>) -> nat
    decreases s.len(),
{
    if s.len() == 0 {
        0
    } else {
        val_of(s.drop_last()) * 10 + (s.last() - D0) as nat
    }
}

/// What parsing an unsigned decimal value returns.
pub open spec fn parse_u64_spec(s: Seq<u8>) -> Option<u64> {
    if s.len() > 0 && all_digits(s) && val_of(s) <= u64::MAX {
        Some(val_of(s) as u64)
    } else {
        None
    }
}

pub proof fn lemma_dec_of_digits(n: nat)
    ensures
        dec_of(n).len() >= 1,
        all_digits(dec_of(n)),
    decreases n,
{
    if n >= 10 {
        lemma_dec_of_digits(n / 10);
        assert forall|i: int| 0 <= i < dec_of(n).len() implies is_digit(#[trigger] dec_of(n)[i]) by {
            if i < dec_of(n / 10).len() {
                assert(dec_of(n)[i] == dec_of(n / 10)[i]);
            }
        }
    }
}

pub proof fn lemma_val_of_dec(n: nat)
    ensures
        val_of(dec_of(n)) == n,
    decreases n,
{
    if n < 10 {
        let s = dec_of(n);
        assert(s =~= seq![(D0 + n) as u8]);
        assert(s.drop_last() =~= Seq::<u8>::empty());
        assert(val_of(s.drop_last()) == 0);
        assert(s.last() == (D0 + n) as u8);
        assert(val_of(s) == val_of(s.drop_last()) * 10 + (s.last() - D0) as nat);
        assert((s.last() - D0) as nat == n);
    } else {
        lemma_val_of_dec(n / 10);
        lemma_dec_of_digits(n / 10);
        let s = dec_of(n);
        assert(s =~= dec_of(n / 10).push((D0 + n % 10) as u8));
        assert(s.drop_last() =~= dec_of(n / 10));
        assert(s.last() == (D0 + n % 10) as u8);
        assert(val_of(s) == val_of(s.drop_last()) * 10 + (s.last() - D0) as nat);
        assert((s.last() - D0) as nat == n % 10);
        assert(n / 10 * 10 + n % 10 == n);
    }
}

/// Parsing the encoding of any `u64` gives it back.
pub proof fn lemma_u64_round_trip(n: u64)
    ensures
        parse_u64_spec(dec_of(n as nat)) == Some(n),
{
    lemma_dec_of_digits(n as nat);
    lemma_val_of_dec(n as nat);
}

/// A digit string is worth at least any of its prefixes.
pub proof fn lemma_val_of_prefix(s: Seq<u8>, i: int)
    requires
        0 <= i <= s.len(),
        all_digits(s),
    ensures
        val_of(s.take(i)) <= val_of(s),
    decreases s.len(),
{
    if i < s.len() {
        lemma_val_of_prefix(s.drop_last(), i);
        assert(s.drop_last().take(i) =~= s.take(i));
        assert(all_digits(s.drop_last()));
        assert(val_of(s) == val_of(s.drop_last()) * 10 + (s.last() - D0) as nat);
        assert(val_of(s.drop_last()) * 10 >= val_of(s.drop_last())) by {
            assert(val_of(s.drop_last()) * 10 - val_of(s.drop_last()) == val_of(s.drop_last()) * 9);
        }
    } else {
        assert(s.take(i) =~= s);
    }
}

/// Appends the decimal digits of `n` to `out`.
pub fn push_u64(out: &mut Vec<u8>, n: u64)
    ensures
        final(out)@ == old(out)@ + dec_of(n as nat),
    decreases n,
{
    if n < 10 {
        out.push(D0 + n as u8);
        assert(out@ =~= old(out)@ + dec_of(n as nat));
    } else {
        push_u64(out, n / 10);
        out.push(D0 + (n % 10) as u8);
        assert(out@ =~= old(out)@ + dec_of(n as nat));
    }
}

/// Parses an unsigned decimal value; `None` on an empty string, a non-digit,
/// or a value over `u64::MAX`.
pub fn parse_u64(s: &[u8]) -> (r: Option<u64>)
    ensures
        r == parse_u64_spec(s@),
{
    if s.len() == 0 {
        return None;
    }
    let mut acc: u64 = 0;
    let mut i: usize = 0;
    while i < s.len()
        invariant
            0 <= i <= s@.len(),
            all_digits(s@.take(i as int)),
            acc == val_of(s@.take(i as int)),
        decreases s@.len() - i,
    {
        let b = s[i];
        if b < D0 || b > D9 {
            assert(!is_digit(s@[i as int]));
            return None;
        }
        let d: u64 = (b - D0) as u64;
        if acc > (u64::MAX - d) / 10 {
            proof {
                let t = s@.take(i + 1);
                assert(t.drop_last() =~= s@.take(i as int));
                assert(t.last() == s@[i as int]);
                assert(val_of(t) == acc * 10 + d);
                assert(acc * 10 + d > u64::MAX) by {
                    let q = (u64::MAX - d) / 10;
                    assert(u64::MAX - d == q * 10 + (u64::MAX - d) % 10);
                    assert(acc >= q + 1);
                    assert(acc * 10 >= (q + 1) * 10) by {
                        assert((acc - (q + 1)) * 10 >= 0);
                        assert(acc * 10 - (q + 1) * 10 == (acc - (q + 1)) * 10);
                    }
                }
                if all_digits(s@) {
                    lemma_val_of_prefix(s@, i + 1);
                    assert(val_of(s@) > u64::MAX);
                } else {
                    assert(parse_u64_spec(s@) is None);
                }
            }
            return None;
        }
        proof {
            let t = s@.take(i + 1);
            assert(t.drop_last() =~= s@.take(i as int));
            assert(t.last() == s@[i as int]);
            assert(val_of(t) == acc * 10 + d);
            assert(acc <= (u64::MAX - d) / 10);
            let q = (u64::MAX - d) / 10;
            assert(u64::MAX - d >= q * 10);
            assert(acc * 10 <= q * 10) by {
                assert((q - acc) * 10 >= 0);
                assert(q * 10 - acc * 10 == (q - acc) * 10);
            }
        }
        acc = acc * 10 + d;
        i = i + 1;
    }
    proof {
        assert(s@.take(i as int) =~= s@);
    }
    Some(acc)
}

/// The decimal digits of a signed number: a minus sign for negative values.
pub open spec fn dec_of_int(v: int) -> Seq<u8> {
    if v < 0 {
        seq![MINUS] + dec_of((-v) as nat)
    } else {
        dec_of(v as nat)
    }
}

/// What parsing a signed decimal value returns.
pub open spec fn parse_i64_spec(s: Seq<u8>) -> Option<i64> {
    if s.len() >= 2 && s[0] == MINUS {
        let m = s.skip(1);
        if all_digits(m) && val_of(m) <= 0x8000_0000_0000_0000 {
            Some((-(val_of(m) as int)) as i64)
        } else {
            None
        }
    } else {
        match parse_u64_spec(s) {
            Some(n) => if n <= i64::MAX as u64 {
                Some(n as i64)
            } else {
                None
            },
            None => None,
        }
    }
}

/// Parsing the encoding of any `i64` gives it back.
pub proof fn lemma_i64_round_trip(v: i64)
    ensures
        parse_i64_spec(dec_of_int(v as int)) == Some(v),
{
    if v < 0 {
        let n = (-(v as int)) as nat;
        lemma_dec_of_digits(n);
        lemma_val_of_dec(n);
        let s = dec_of_int(v as int);
        assert(s.skip(1) =~= dec_of(n));
        assert(s[0] == MINUS);
    } else {
        lemma_dec_of_digits(v as nat);
        lemma_val_of_dec(v as nat);
        let s = dec_of_int(v as int);
        assert(s.len() >= 2 ==> s[0] != MINUS) by {
            lemma_dec_of_digits(v as nat);
        }
    }
}

/// Appends the decimal form of `v`, with a minus sign when negative.
pub fn push_i64(out: &mut Vec<u8>, v: i64)
    ensures
        final(out)@ == old(out)@ + dec_of_int(v as int),
{
    if v < 0 {
        out.push(MINUS);
        let m: u64 = if v == i64::MIN {
            0x8000_0000_0000_0000u64
        } else {
            (-v) as u64
        };
        assert(m == (-(v as int)) as nat);
        push_u64(out, m);
        assert(out@ =~= old(out)@ + dec_of_int(v as int));
    } else {
        push_u64(out, v as u64);
    }
}

/// Parses a signed decimal value.
pub fn parse_i64(s: &[u8]) -> (r: Option<i64>)
    ensures
        r == parse_i64_spec(s@),
{
    if s.len() >= 2 && s[0] == MINUS {
        let rest = vstd::slice::slice_subrange(s, 1, s.len());
        assert(rest@ =~= s@.skip(1));
        match parse_u64(rest) {
            Some(n) => {
                if n <= 0x8000_0000_0000_0000u64 {
                    if n == 0x8000_0000_0000_0000u64 {
                        Some(i64::MIN)
                    } else {
                        Some(-(n as i64))
                    }
                } else {
                    None
                }
            },
            None => {
                // A run of digits too large for u64 is also too large for i64.
                proof {
                    if all_digits(s@.skip(1)) && val_of(s@.skip(1)) <= 0x8000_0000_0000_0000 {
                        assert(val_of(s@.skip(1)) <= u64::MAX);
                    }
                }
                None
            },
        }
    } else {
        match parse_u64(s) {
            Some(n) => if n <= i64::MAX as u64 {
                Some(n as i64)
            } else {
                None
            },
            None => None,
        }
    }
}

/// Encoding of a boolean: the digit one or the digit zero.
pub open spec fn enc_bool(b: bool) -> Seq<u8> {
    if b {
        seq![(D0 + 1) as u8]
    } else {
        seq![D0]
    }
}

/// What parsing a boolean value returns.
pub open spec fn parse_bool_spec(s: Seq<u8>) -> Option<bool> {
    if s =~= seq![D0] {
        Some(false)
    } else if s =~= seq![(D0 + 1) as u8] {
        Some(true)
    } else {
        None
    }
}

pub proof fn lemma_bool_round_trip(b: bool)
    ensures
        parse_bool_spec(enc_bool(b)) == Some(b),
{
    if b {
        assert(enc_bool(b)[0] == (D0 + 1) as u8);
        assert(!(enc_bool(b) =~= seq![D0]));
        assert(enc_bool(b) =~= seq![(D0 + 1) as u8]);
    } else {
        assert(enc_bool(b) =~= seq![D0]);
    }
}

/// Appends the one-digit form of `b`.
pub fn push_bool(out: &mut Vec<u8>, b: bool)
    ensures
        final(out)@ == old(out)@ + enc_bool(b),
{
    if b {
        out.push(D0 + 1);
    } else {
        out.push(D0);
    }
    assert(out@ =~= old(out)@ + enc_bool(b));
}

/// Parses a boolean value.
pub fn parse_bool(s: &[u8]) -> (r: Option<bool>)
    ensures
        r == parse_bool_spec(s@),
{
    if s.len() == 1 && s[0] == D0 {
        assert(s@ =~= seq![D0]);
        Some(false)
    } else if s.len() == 1 && s[0] == D0 + 1 {
        assert(s@ =~= seq![(D0 + 1) as u8]);
        Some(true)
    } else {
        proof {
            if s@ =~= seq![D0] {
                assert(s@.len() == 1 && s@[0] == D0);
            }
            if s@ =~= seq![(D0 + 1) as u8] {
                assert(s@.len() == 1 && s@[0] == D0 + 1);
            }
        }
        None
    }
}

/// True when two byte slices hold the same bytes.
pub fn bytes_eq(a: &[u8], b: &[u8]) -> (r: bool)
    ensures
        r == (a@ =~= b@),
{
    if a.len() != b.len() {
        return false;
    }
    let mut i: usize = 0;
    while i < a.len()
        invariant
            a@.len() == b@.len(),
            0 <= i <= a@.len(),
            forall|j: int| 0 <= j < i ==> a@[j] == b@[j],
        decreases a@.len() - i,
    {
        if a[i] != b[i] {
            return false;
        }
        i = i + 1;
    }
    true
}

/// Copies a byte slice into a fresh vector.
pub fn bytes_to_vec(s: &[u8]) -> (r: Vec<u8>)
    ensures
        r@ == s@,
{
    let mut out: Vec<u8> = Vec::new();
    let mut i: usize = 0;
    while i < s.len()
        invariant
            0 <= i <= s@.len(),
            out@ =~= s@.take(i as int),
        decreases s@.len() - i,
    {
        out.push(s[i]);
        i = i + 1;
    }
    assert(out@ =~= s@);
    out
}

/// Appends all of `s` to `out`.
pub fn push_bytes(out: &mut Vec<u8>, s: &[u8])
    ensures
        final(out)@ == old(out)@ + s@,
{
    let mut i: usize = 0;
    while i < s.len()
        invariant
            0 <= i <= s@.len(),
            out@ =~= old(out)@ + s@.take(i as int),
        decreases s@.len() - i,
    {
        out.push(s[i]);
        i = i + 1;
    }
    assert(out@ =~= old(out)@ + s@);
}

} // verus!
