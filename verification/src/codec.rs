//! The binary codec: sign-magnitude base-256 numerator encoding, and the
//! fixed-layout record `valuation (2 bytes LE) | length (2 bytes LE) | bytes`.

use vstd::prelude::*;
use vstd::arithmetic::power::pow;
use vstd::arithmetic::power::lemma_pow_positive;
use vstd::arithmetic::div_mod::lemma_fundamental_div_mod;
use vstd::arithmetic::div_mod::lemma_div_decreases;
use vstd::arithmetic::div_mod::lemma_mod_division_less_than_divisor;
use vstd::arithmetic::div_mod::lemma_div_pos_is_pos;
use vstd::slice::slice_index_get;
use vstd::slice::slice_subrange;
use crate::big::int_add;
use crate::big::int_div_u32;
use crate::big::int_from_i32;
use crate::big::int_is_negative;
use crate::big::int_is_zero;
use crate::big::int_mul;
use crate::big::int_neg;
use crate::big::int_of;
use crate::big::int_rem_u32;
use crate::ops::QpOp;
use crate::value::Qp;
use crate::value::QpError;

verus! {

/// The little-endian base-256 digits of a magnitude, least significant
/// first, with no trailing zero digit; zero has no digits at all.
pub open spec fn mag_digits(m: nat) -> Seq<u8>
    decreases m,
{
    if m == 0 {
        Seq::empty()
    } else {
        seq![(m % 256) as u8] + mag_digits(m / 256)
    }
}

/// The sign-magnitude encoding of a numerator: zero is the single byte `0`;
/// otherwise a sign byte (`1` positive, `2` negative) then the magnitude's
/// digits.
pub open spec fn num_bytes(n: int) -> Seq<u8> {
    if n == 0 {
        seq![0u8]
    } else if n > 0 {
        seq![1u8] + mag_digits(n as nat)
    } else {
        seq![2u8] + mag_digits((-n) as nat)
    }
}

/// The magnitude read back from little-endian base-256 digits.
pub open spec fn digits_val(s: Seq<u8>) -> nat
    decreases s.len(),
{
    if s.len() == 0 {
        0
    } else {
        (s[0] + 256 * digits_val(s.skip(1))) as nat
    }
}

/// The numerator read back: an empty buffer is zero; a leading `2` negates,
/// any other leading byte reads as positive.
pub open spec fn decoded_num(b: Seq<u8>) -> int {
    if b.len() == 0 {
        0
    } else if b[0] == 2 {
        -(digits_val(b.skip(1)) as int)
    } else {
        digits_val(b.skip(1)) as int
    }
}

/// Reading little-endian digits undoes writing them.
pub proof fn lemma_digits_roundtrip(m: nat)
    ensures
        digits_val(mag_digits(m)) == m,
    decreases m,
{
    if m != 0 {
        lemma_div_decreases(m as int, 256);
        lemma_digits_roundtrip(m / 256);
        let s = mag_digits(m);
        assert(s[0] == (m % 256) as u8);
        assert(s.skip(1) =~= mag_digits(m / 256));
        lemma_fundamental_div_mod(m as int, 256);
    }
}

/// Decoding an encoded numerator gives the numerator back.
pub proof fn lemma_num_bytes_roundtrip(n: int)
    ensures
        decoded_num(num_bytes(n)) == n,
        1 <= num_bytes(n).len(),
{
    let b = num_bytes(n);
    if n == 0 {
        assert(b.skip(1) =~= Seq::<u8>::empty());
    } else if n > 0 {
        lemma_digits_roundtrip(n as nat);
        assert(b[0] == 1);
        assert(b.skip(1) =~= mag_digits(n as nat));
    } else {
        lemma_digits_roundtrip((-n) as nat);
        assert(b[0] == 2);
        assert(b.skip(1) =~= mag_digits((-n) as nat));
    }
}

/// A 16-bit value reinterpreted as unsigned, as the codec stores it.
pub open spec fn wrap16(v: int) -> int {
    if v < 0 {
        v + 0x1_0000
    } else {
        v
    }
}

/// Two bytes in little-endian order for an unsigned 16-bit value.
pub open spec fn le_bytes16(w: int) -> Seq<u8>
    recommends
        0 <= w < 0x1_0000,
{
    seq![(w % 256) as u8, (w / 256) as u8]
}

/// The two little-endian bytes read back as a signed 16-bit value.
pub open spec fn read_i16(b0: u8, b1: u8) -> int {
    let w = b0 + 256 * b1;
    if w < 0x8000 {
        w as int
    } else {
        w - 0x1_0000
    }
}

/// The serialized record of a value: valuation, then the byte length of the
/// encoded numerator, then the numerator's bytes.
pub open spec fn record_bytes(n: int, v: int) -> Seq<u8>
    recommends
        num_bytes(n).len() <= 0x7FFF,
        -0x8000 <= v < 0x8000,
{
    le_bytes16(wrap16(v)) + le_bytes16(num_bytes(n).len() as int) + num_bytes(n)
}

/// What decoding a byte stream yields: the numerator and valuation of the
/// record at its front, or the exact error for a malformed stream.
pub open spec fn parse_record(d: Seq<u8>) -> Result<(int, int), QpError> {
    if d.len() < 4 {
        Err(QpError::Truncated)
    } else {
        let v = read_i16(d[0], d[1]);
        let l = read_i16(d[2], d[3]);
        if l < 0 {
            Err(QpError::InvalidLength)
        } else if d.len() < 4 + l {
            Err(QpError::Truncated)
        } else {
            Ok((decoded_num(d.subrange(4, 4 + l)), v))
        }
    }
}

/// Decoding a saved record gives the value back exactly.
pub proof fn lemma_record_roundtrip(n: int, v: int)
    requires
        num_bytes(n).len() <= 0x7FFF,
        -0x8000 <= v < 0x8000,
    ensures
        parse_record(record_bytes(n, v)) == Ok::<(int, int), QpError>((n, v)),
{
    let d = record_bytes(n, v);
    let w = wrap16(v);
    let l = num_bytes(n).len() as int;
    lemma_mod_division_less_than_divisor(w, 256);
    lemma_mod_division_less_than_divisor(l, 256);
    lemma_fundamental_div_mod(w, 256);
    lemma_fundamental_div_mod(l, 256);
    lemma_div_pos_is_pos(w, 256);
    lemma_div_pos_is_pos(l, 256);
    assert(w / 256 < 0x100) by (nonlinear_arith)
        requires
            0 <= w < 0x1_0000,
    ;
    assert(l / 256 < 0x100) by (nonlinear_arith)
        requires
            0 <= l < 0x1_0000,
    ;
    assert(d[0] == (w % 256) as u8);
    assert(d[1] == (w / 256) as u8);
    assert(d[2] == (l % 256) as u8);
    assert(d[3] == (l / 256) as u8);
    assert(read_i16(d[0], d[1]) == v);
    assert(read_i16(d[2], d[3]) == l);
    assert(d.subrange(4, 4 + l) =~= num_bytes(n));
    lemma_num_bytes_roundtrip(n);
}

impl QpOp {
    /// Encodes a numerator in sign-magnitude base-256 form.
    pub fn save_to_vec(&self, x: &num_bigint::BigInt) -> (r: Vec<u8>)
        ensures
            r@ == num_bytes(int_of(*x)),
    {
        let ghost value = int_of(*x);
        if int_is_zero(x) {
            let mut out: Vec<u8> = Vec::new();
            out.push(0u8);
            proof {
                assert(out@ =~= num_bytes(value));
            }
            return out;
        }
        let mut out: Vec<u8> = Vec::new();
        let neg = int_is_negative(x);
        if neg {
            out.push(2u8);
        } else {
            out.push(1u8);
        }
        let mut n = if neg {
            int_neg(x)
        } else {
            x.clone()
        };
        let ghost mag = (if value < 0 {
            -value
        } else {
            value
        }) as nat;
        while !int_is_zero(&n)
            invariant
                0 <= int_of(n),
                1 <= out@.len(),
                out@[0] == (if value < 0 {
                    2u8
                } else {
                    1u8
                }),
                mag_digits(mag) =~= out@.skip(1) + mag_digits(int_of(n) as nat),
            decreases int_of(n),
        {
            let ghost cur = int_of(n) as nat;
            let d = int_rem_u32(&n, 256);
            let q = int_div_u32(&n, 256);
            out.push(d as u8);
            n = q;
            proof {
                lemma_mod_division_less_than_divisor(cur as int, 256);
                lemma_div_decreases(cur as int, 256);
                lemma_div_pos_is_pos(cur as int, 256);
                assert(d as int == cur as int % 256);
                assert(int_of(n) == cur as int / 256);
                assert(mag_digits(cur) == seq![(cur % 256) as u8] + mag_digits(cur / 256));
                assert(mag_digits(mag) =~= out@.skip(1) + mag_digits(int_of(n) as nat));
            }
        }
        proof {
            assert(mag_digits(0nat) =~= Seq::<u8>::empty());
            assert(out@.skip(1) =~= mag_digits(mag));
            assert(out@ =~= num_bytes(value));
        }
        out
    }

    /// Decodes a numerator from its sign-magnitude base-256 form.
    pub fn load_from_vec(&self, buf: &[u8]) -> (r: num_bigint::BigInt)
        ensures
            int_of(r) == decoded_num(buf@),
    {
        if buf.len() == 0 {
            return int_from_i32(0);
        }
        let mut res = int_from_i32(0);
        let mut vl = int_from_i32(1);
        let mut i: usize = 1;
        proof {
            vstd::arithmetic::power::lemma_pow0(256);
        }
        while i < buf.len()
            invariant
                1 <= i <= buf@.len(),
                int_of(vl) == pow(256, (i - 1) as nat),
                digits_val(buf@.skip(1)) == int_of(res) + int_of(vl) * digits_val(
                    buf@.skip(i as int),
                ),
                0 <= int_of(res),
            decreases buf@.len() - i,
        {
            let b = *slice_index_get(buf, i);
            let t = int_mul(&vl, &int_from_i32(b as i32));
            let res2 = int_add(&res, &t);
            let vl2 = int_mul(&vl, &int_from_i32(256));
            proof {
                reveal(pow);
                lemma_pow_positive(256, (i - 1) as nat);
                let rest = buf@.skip(i as int);
                assert(rest[0] == buf@[i as int]);
                assert(rest.skip(1) =~= buf@.skip(i + 1));
                assert(digits_val(rest) == buf@[i as int] + 256 * digits_val(buf@.skip(i + 1)));
                assert(int_of(vl) * digits_val(rest) == int_of(vl) * (buf@[i as int] as int) + (
                int_of(vl) * 256) * digits_val(buf@.skip(i + 1))) by (nonlinear_arith)
                    requires
                        digits_val(rest) == buf@[i as int] + 256 * digits_val(buf@.skip(i + 1)),
                ;
                assert(pow(256, i as nat) == 256 * pow(256, (i - 1) as nat));
                assert(0 <= int_of(vl) * (buf@[i as int] as int)) by (nonlinear_arith)
                    requires
                        0 < int_of(vl),
                        0 <= buf@[i as int],
                ;
            }
            res = res2;
            vl = vl2;
            i = i + 1;
        }
        proof {
            assert(buf@.skip(buf@.len() as int) =~= Seq::<u8>::empty());
            assert(int_of(vl) * 0 == 0) by (nonlinear_arith);
        }
        let first = *slice_index_get(buf, 0);
        if first == 2 {
            let negated = int_neg(&res);
            return negated;
        }
        res
    }

    /// Serializes `x` into the record layout; the numerator must encode into
    /// at most `0x7FFF` bytes to fit the 16-bit length field.
    pub fn save(&self, x: &Qp) -> (r: Result<Vec<u8>, QpError>)
        ensures
            match r {
                Ok(bytes) => num_bytes(x.num()).len() <= 0x7FFF && bytes@ == record_bytes(
                    x.num(),
                    x.val(),
                ),
                Err(e) => num_bytes(x.num()).len() > 0x7FFF && e == QpError::NumeratorTooLong,
            },
    {
        let mut nb = self.save_to_vec(&x.numerator);
        if nb.len() > 0x7FFF {
            return Err(QpError::NumeratorTooLong);
        }
        let mut out: Vec<u8> = Vec::new();
        let w: u16 = if x.valuation >= 0 {
            x.valuation as u16
        } else {
            ((x.valuation as i32) + 0x1_0000) as u16
        };
        out.push((w % 256) as u8);
        out.push((w / 256) as u8);
        let lw: u16 = nb.len() as u16;
        out.push((lw % 256) as u8);
        out.push((lw / 256) as u8);
        out.append(&mut nb);
        proof {
            assert(out@ =~= record_bytes(x.num(), x.val()));
        }
        Ok(out)
    }

    /// Deserializes the record at the front of `data`; bytes after the
    /// record are ignored.
    pub fn load(&self, data: &[u8]) -> (r: Result<Qp, QpError>)
        ensures
            match r {
                Ok(q) => parse_record(data@) == Ok::<(int, int), QpError>((q.num(), q.val())),
                Err(e) => parse_record(data@) == Err::<(int, int), QpError>(e),
            },
    {
        if data.len() < 4 {
            return Err(QpError::Truncated);
        }
        let b0 = *slice_index_get(data, 0);
        let b1 = *slice_index_get(data, 1);
        let b2 = *slice_index_get(data, 2);
        let b3 = *slice_index_get(data, 3);
        let v = read_le_i16(b0, b1);
        let l = read_le_i16(b2, b3);
        if l < 0 {
            return Err(QpError::InvalidLength);
        }
        let lu = l as usize;
        if data.len() - 4 < lu {
            return Err(QpError::Truncated);
        }
        let body = slice_subrange(data, 4, 4 + lu);
        let numerator = self.load_from_vec(body);
        Ok(Qp { numerator, valuation: v })
    }
}

/// Exactly `k` little-endian base-256 digits of a magnitude, trailing
/// zeros included.
pub open spec fn le_digits(m: nat, k: nat) -> Seq<u8>
    decreases k,
{
    if k == 0 {
        Seq::empty()
    } else {
        seq![(m % 256) as u8] + le_digits(m / 256, (k - 1) as nat)
    }
}

impl QpOp {
    /// The integer projection of `x` as 8 little-endian bytes; fails exactly
    /// as `int_part` does.
    pub fn save_as_integer(&self, x: &Qp) -> (r: Result<Vec<u8>, QpError>)
        requires
            self.wf(),
        ensures
            match r {
                Ok(bytes) => 0 <= x.val() && bytes@ == le_digits(
                    self.int_part_spec(x.num(), x.val()) as nat,
                    8,
                ),
                Err(e) => x.val() < 0 && e == QpError::NotIntegral,
            },
    {
        match self.int_part(x) {
            Err(e) => Err(e),
            Ok(w0) => {
                let mut out: Vec<u8> = Vec::new();
                let mut w = w0;
                let mut k: usize = 0;
                while k < 8
                    invariant
                        k <= 8,
                        le_digits(w0 as nat, 8) =~= out@ + le_digits(w as nat, (8 - k) as nat),
                        out@.len() == k,
                    decreases 8 - k,
                {
                    let ghost cur = w as nat;
                    out.push((w % 256) as u8);
                    w = w / 256;
                    k = k + 1;
                    proof {
                        assert(le_digits(cur, (8 - (k - 1)) as nat) == seq![(cur % 256) as u8]
                            + le_digits(cur / 256, (8 - k) as nat));
                        assert(le_digits(w0 as nat, 8) =~= out@ + le_digits(
                            w as nat,
                            (8 - k) as nat,
                        ));
                    }
                }
                proof {
                    assert(le_digits(w as nat, 0) =~= Seq::<u8>::empty());
                    assert(out@ =~= le_digits(w0 as nat, 8));
                }
                Ok(out)
            },
        }
    }
}

/// Rebuilds a signed 16-bit value from its little-endian bytes.
fn read_le_i16(b0: u8, b1: u8) -> (r: i16)
    ensures
        r as int == read_i16(b0, b1),
{
    let w: u16 = (b0 as u16) + 256 * (b1 as u16);
    if w < 0x8000 {
        w as i16
    } else {
        ((w as i32) - 0x1_0000) as i16
    }
}

} // verus!
