//! The primitive layer of the ahead-of-time encoding: LEB128 varints, counted byte strings and
//! the reader that takes them apart again.
//!
//! Every wire format `X` of this crate has two descriptions: `X_bytes(x)`, the bytes that stand
//! for `x`, and `X_at(s, pos)`, what reading `s` from `pos` yields. The lemmas here relate the
//! two (`*_reads_back`) and say that a read which succeeds on a prefix succeeds identically on
//! the whole (`*_extends`).

use vstd::prelude::*;

verus! {

/// Everything that can be wrong with encoded bytecode.
#[derive(Clone, Copy, Debug, PartialEq, Eq, Structural)]
pub enum DecodeError {
    Truncated,
    VarintOverflow,
    BadCount,
    U32Range,
    U16Range,
    BadBool(u8),
    BadUpdKind(u8),
    BadTypeofKind(u8),
    BadArithKind(u8),
    BadCmpKind(u8),
    BadOpTag(u8),
    BadConstTag(u8),
    BadBigInt,
    BadString,
    BadUtf8,
    BadFunction,
    BadCapInitTag(u8),
    BadCacheCount,
    FunctionCount,
    BadEntryOrder,
    BadEntryKind(u8),
    TrailingSection,
    TrailingChunk,
}

/// The outcome of reading a `T` at some position: the value and where it ends.
pub type Read<T> = Result<(T, int), DecodeError>;

/// `b` stands in `s` at `pos`.
pub open spec fn has_at(s: Seq<u8>, pos: int, b: Seq<u8>) -> bool {
    0 <= pos && pos + b.len() <= s.len() && s.subrange(pos, pos + b.len()) == b
}

pub proof fn lemma_has_at_split(s: Seq<u8>, pos: int, a: Seq<u8>, b: Seq<u8>)
    requires
        has_at(s, pos, a + b),
    ensures
        has_at(s, pos, a),
        has_at(s, pos + a.len(), b),
{
    let w = s.subrange(pos, pos + (a + b).len());
    assert(w.subrange(0, a.len() as int) =~= a);
    assert(w.subrange(a.len() as int, w.len() as int) =~= b);
    assert(s.subrange(pos, pos + a.len()) =~= w.subrange(0, a.len() as int));
    assert(s.subrange(pos + a.len(), pos + a.len() + b.len()) =~= w.subrange(
        a.len() as int,
        w.len() as int,
    ));
}

// ---- one byte -------------------------------------------------------------------------------

pub open spec fn u8_at(s: Seq<u8>, pos: int) -> Read<u8> {
    if 0 <= pos < s.len() {
        Ok((s[pos], pos + 1))
    } else {
        Err(DecodeError::Truncated)
    }
}

pub proof fn lemma_u8_reads_back(s: Seq<u8>, pos: int, b: u8)
    requires
        has_at(s, pos, seq![b]),
    ensures
        u8_at(s, pos) == Ok::<(u8, int), DecodeError>((b, pos + 1)),
{
    assert(s.subrange(pos, pos + 1)[0] == seq![b][0]);
}

// ---- varints --------------------------------------------------------------------------------

/// `128^k`: the weight of a varint's `k`-th byte.
pub open spec fn weight(k: nat) -> nat
    decreases k,
{
    if k == 0 {
        1
    } else {
        128 * weight((k - 1) as nat)
    }
}

/// One past the largest value a varint carries.
pub open spec fn uv_limit() -> nat {
    0x1_0000_0000_0000_0000
}

/// The bytes of varint `v`: seven bits each, least significant first, the high bit set on all
/// but the last.
pub open spec fn uv_bytes(v: nat) -> Seq<u8>
    decreases v,
{
    if v < 128 {
        seq![v as u8]
    } else {
        seq![(v % 128 + 128) as u8] + uv_bytes(v / 128)
    }
}

/// Reading a varint of which `k` bytes are already read: the rest's value (before it is reduced
/// to 64 bits) and its end. A varint has at most ten bytes.
pub open spec fn uv_rest_at(s: Seq<u8>, pos: int, k: nat) -> Read<nat>
    decreases 10 - k,
{
    match u8_at(s, pos) {
        Err(e) => Err(e),
        Ok((b, next)) => if b < 128 {
            Ok((b as nat, next))
        } else if k >= 9 {
            Err(DecodeError::VarintOverflow)
        } else {
            match uv_rest_at(s, next, k + 1) {
                Err(e) => Err(e),
                Ok((v, end)) => Ok(((b - 128) as nat + 128 * v, end)),
            }
        },
    }
}

/// Reading a varint: 64 bits, the excess bits of a tenth byte dropped.
pub open spec fn uv_at(s: Seq<u8>, pos: int) -> Read<u64> {
    match uv_rest_at(s, pos, 0) {
        Err(e) => Err(e),
        Ok((v, end)) => Ok(((v % uv_limit()) as u64, end)),
    }
}

pub proof fn lemma_uv_rest_bounds(s: Seq<u8>, pos: int, k: nat)
    requires
        0 <= pos,
    ensures
        uv_rest_at(s, pos, k) matches Ok((v, end)) ==> pos < end <= s.len(),
    decreases 10 - k,
{
    if let Ok((b, next)) = u8_at(s, pos) {
        if b >= 128 && k < 9 {
            lemma_uv_rest_bounds(s, next, k + 1);
        }
    }
}

pub proof fn lemma_uv_bytes_len(v: nat)
    ensures
        uv_bytes(v).len() >= 1,
    decreases v,
{
    if v >= 128 {
        lemma_uv_bytes_len(v / 128);
    }
}

proof fn lemma_uv_rest_reads_back(s: Seq<u8>, pos: int, v: nat, k: nat)
    requires
        has_at(s, pos, uv_bytes(v)),
        k <= 9,
        v * weight(k) < uv_limit(),
    ensures
        uv_rest_at(s, pos, k) == Ok::<(nat, int), DecodeError>((v, pos + uv_bytes(v).len())),
    decreases v,
{
    if v < 128 {
        lemma_u8_reads_back(s, pos, v as u8);
    } else {
        let head = seq![(v % 128 + 128) as u8];
        lemma_has_at_split(s, pos, head, uv_bytes(v / 128));
        lemma_u8_reads_back(s, pos, (v % 128 + 128) as u8);
        if k == 9 {
            assert(weight(9) == 0x8000_0000_0000_0000) by {
                reveal_with_fuel(weight, 11);
            }
            assert(false);
        }
        let w = weight(k);
        assert(weight(k + 1) == 128 * w);
        assert((v / 128) * (128 * w) <= v * w) by (nonlinear_arith)
            requires
                v >= 0,
                w >= 0,
        ;
        lemma_uv_rest_reads_back(s, pos + 1, v / 128, k + 1);
    }
}

/// Reading the bytes of a 64-bit varint gives the varint back.
pub proof fn lemma_uv_reads_back(s: Seq<u8>, pos: int, v: u64)
    requires
        has_at(s, pos, uv_bytes(v as nat)),
    ensures
        uv_at(s, pos) == Ok::<(u64, int), DecodeError>((v, pos + uv_bytes(v as nat).len())),
{
    assert(weight(0) == 1);
    lemma_uv_rest_reads_back(s, pos, v as nat, 0);
}

proof fn lemma_uv_rest_extends(s: Seq<u8>, cut: int, pos: int, k: nat)
    requires
        0 <= pos,
        0 <= cut <= s.len(),
        uv_rest_at(s.take(cut), pos, k) is Ok,
    ensures
        uv_rest_at(s, pos, k) == uv_rest_at(s.take(cut), pos, k),
    decreases 10 - k,
{
    let b = s.take(cut)[pos];
    assert(b == s[pos]);
    if b >= 128 && k < 9 {
        lemma_uv_rest_extends(s, cut, pos + 1, k + 1);
    }
}

pub proof fn lemma_uv_extends(s: Seq<u8>, cut: int, pos: int)
    requires
        0 <= pos,
        0 <= cut <= s.len(),
        uv_at(s.take(cut), pos) is Ok,
    ensures
        uv_at(s, pos) == uv_at(s.take(cut), pos),
{
    lemma_uv_rest_extends(s, cut, pos, 0);
}

/// Appends varint `v`.
pub fn uv(out: &mut Vec<u8>, v: u64)
    ensures
        final(out)@ == old(out)@ + uv_bytes(v as nat),
{
    let mut rest: u64 = v;
    let ghost start = out@;
    while rest >= 128
        invariant
            start + uv_bytes(v as nat) == out@ + uv_bytes(rest as nat),
        decreases rest,
    {
        let byte: u8 = (rest % 128) as u8 + 128;
        proof {
            assert(uv_bytes(rest as nat) == seq![byte] + uv_bytes((rest / 128) as nat));
            assert(out@ + (seq![byte] + uv_bytes((rest / 128) as nat)) =~= out@.push(byte)
                + uv_bytes((rest / 128) as nat));
        }
        out.push(byte);
        rest = rest / 128;
    }
    proof {
        assert(out@ + uv_bytes(rest as nat) =~= out@.push(rest as u8));
    }
    out.push(rest as u8);
}

// ---- counts and byte strings ----------------------------------------------------------------

/// Reading a count: every counted item takes at least one byte, so a count past the remaining
/// input is an error.
pub open spec fn count_at(s: Seq<u8>, pos: int) -> Read<u64> {
    match uv_at(s, pos) {
        Err(e) => Err(e),
        Ok((n, next)) => if n > s.len() - next {
            Err(DecodeError::BadCount)
        } else {
            Ok((n, next))
        },
    }
}

pub proof fn lemma_count_extends(s: Seq<u8>, cut: int, pos: int)
    requires
        0 <= pos,
        0 <= cut <= s.len(),
        count_at(s.take(cut), pos) is Ok,
    ensures
        count_at(s, pos) == count_at(s.take(cut), pos),
{
    lemma_uv_extends(s, cut, pos);
}

pub proof fn lemma_count_reads_back(s: Seq<u8>, pos: int, n: u64)
    requires
        has_at(s, pos, uv_bytes(n as nat)),
        pos + uv_bytes(n as nat).len() + n <= s.len(),
    ensures
        count_at(s, pos) == Ok::<(u64, int), DecodeError>((n, pos + uv_bytes(n as nat).len())),
{
    lemma_uv_reads_back(s, pos, n);
}

pub open spec fn bytes_at(s: Seq<u8>, pos: int, n: int) -> Read<Seq<u8>> {
    if 0 <= pos && 0 <= n && pos + n <= s.len() {
        Ok((s.subrange(pos, pos + n), pos + n))
    } else {
        Err(DecodeError::Truncated)
    }
}

/// A reader over encoded bytes.
pub struct Rd<'a> {
    pub b: &'a [u8],
    pub pos: usize,
}

impl<'a> Rd<'a> {
    /// The reader stands inside (or at the end of) its bytes.
    pub open spec fn wf(&self) -> bool {
        self.pos <= self.b@.len()
    }

    /// What reading from here yielded: the reader moved to the end of what was read.
    pub open spec fn moved<T>(&self, before: &Rd<'a>, res: Result<T, DecodeError>, spec: Read<
        T,
    >) -> bool {
        &&& self.b@ == before.b@
        &&& self.wf()
        &&& match (res, spec) {
            (Ok(v), Ok((w, end))) => v == w && self.pos == end,
            (Err(e), Err(f)) => e == f,
            _ => false,
        }
    }

    pub fn new(b: &'a [u8]) -> (r: Rd<'a>)
        ensures
            r.b@ == b@,
            r.pos == 0,
            r.wf(),
    {
        Rd { b, pos: 0 }
    }

    pub fn u8(&mut self) -> (r: Result<u8, DecodeError>)
        requires
            old(self).wf(),
        ensures
            final(self).moved(old(self), r, u8_at(old(self).b@, old(self).pos as int)),
    {
        if self.pos < self.b.len() {
            let v: u8 = self.b[self.pos];
            self.pos = self.pos + 1;
            Ok(v)
        } else {
            Err(DecodeError::Truncated)
        }
    }

    pub fn uv(&mut self) -> (r: Result<u64, DecodeError>)
        requires
            old(self).wf(),
        ensures
            final(self).moved(old(self), r, uv_at(old(self).b@, old(self).pos as int)),
            r is Ok ==> final(self).pos > old(self).pos,
    {
        let mut v: u64 = 0;
        let mut scale: u64 = 1;
        let mut k: u64 = 0;
        let ghost s = self.b@;
        let ghost start = self.pos as int;
        proof {
            reveal_with_fuel(weight, 11);
        }
        loop
            invariant
                self.b@ == s,
                self.wf(),
                start <= self.pos,
                s == old(self).b@,
                start == old(self).pos,
                k <= 9,
                scale == weight(k as nat),
                v < scale,
                weight(9) == 0x8000_0000_0000_0000,
                weight(8) == 0x100_0000_0000_0000,
                k < 9 ==> scale <= 0x100_0000_0000_0000,
                uv_rest_at(s, start, 0) matches Err(e) ==> uv_rest_at(s, self.pos as int, k as nat)
                    == Err::<(nat, int), DecodeError>(e),
                uv_rest_at(s, start, 0) matches Ok((t, end)) ==> (uv_rest_at(
                    s,
                    self.pos as int,
                    k as nat,
                ) matches Ok((u, end2)) && end == end2 && t == v + scale * u),
            decreases 10 - k,
        {
            let ghost here = self.pos as int;
            let b: u8 = self.u8()?;
            let low: u64 = (b % 128) as u64;
            if k == 9 {
                if b < 128 {
                    proof {
                        let total = v + scale * low;
                        assert(total % uv_limit() as int == v + (low % 2) * scale) by {
                            assert(scale * low == (low / 2) * uv_limit() + (low % 2) * scale) by (nonlinear_arith)
                                requires
                                    scale == 0x8000_0000_0000_0000,
                                    uv_limit() == 0x1_0000_0000_0000_0000,
                            ;
                            let r = v + (low % 2) * scale;
                            assert(r < uv_limit()) by (nonlinear_arith)
                                requires
                                    r == v + (low % 2) * scale,
                                    v < scale,
                                    scale == 0x8000_0000_0000_0000,
                                    uv_limit() == 0x1_0000_0000_0000_0000,
                            ;
                            vstd::arithmetic::div_mod::lemma_mod_multiples_vanish(
                                (low / 2) as int,
                                r,
                                uv_limit() as int,
                            );
                            vstd::arithmetic::div_mod::lemma_small_mod(r as nat, uv_limit());
                            vstd::arithmetic::mul::lemma_mul_is_commutative(
                                (low / 2) as int,
                                uv_limit() as int,
                            );
                        }
                        assert((low % 2) * scale <= scale) by (nonlinear_arith)
                            requires
                                low % 2 <= 1,
                        ;
                    }
                    return Ok(v + (low % 2) * scale);
                }
                return Err(DecodeError::VarintOverflow);
            }
            proof {
                assert(low * scale <= 127 * scale) by (nonlinear_arith)
                    requires
                        low <= 127,
                ;
                assert(low * scale == scale * low) by (nonlinear_arith);
            }
            let next: u64 = v + low * scale;
            if b < 128 {
                proof {
                    vstd::arithmetic::div_mod::lemma_small_mod(next as nat, uv_limit());
                }
                return Ok(next);
            }
            proof {
                assert(weight((k + 1) as nat) == 128 * weight(k as nat));
                if let Ok((u, end)) = uv_rest_at(s, here + 1, (k + 1) as nat) {
                    assert(v + scale * (low + 128 * u) == next + (scale * 128) * u)
                        by (nonlinear_arith)
                        requires
                            next == v + low * scale,
                    ;
                }
                lemma_weight_small(k as nat + 1);
            }
            v = next;
            scale = scale * 128;
            k = k + 1;
        }
    }

    /// A count (see [`count_at`]).
    pub fn len(&mut self) -> (r: Result<usize, DecodeError>)
        requires
            old(self).wf(),
        ensures
            final(self).b@ == old(self).b@,
            final(self).wf(),
            match (r, count_at(old(self).b@, old(self).pos as int)) {
                (Ok(n), Ok((m, end))) => n == m && final(self).pos == end && n + end
                    <= old(self).b@.len() && end > old(self).pos,
                (Err(e), Err(f)) => e == f,
                _ => false,
            },
    {
        let n: u64 = self.uv()?;
        if n > (self.b.len() - self.pos) as u64 {
            return Err(DecodeError::BadCount);
        }
        Ok(n as usize)
    }

    pub fn bytes(&mut self, n: usize) -> (r: Result<&'a [u8], DecodeError>)
        requires
            old(self).wf(),
        ensures
            final(self).b@ == old(self).b@,
            final(self).wf(),
            match (r, bytes_at(old(self).b@, old(self).pos as int, n as int)) {
                (Ok(v), Ok((w, end))) => v@ == w && final(self).pos == end,
                (Err(e), Err(f)) => e == f,
                _ => false,
            },
    {
        if n > self.b.len() - self.pos {
            return Err(DecodeError::Truncated);
        }
        let start: usize = self.pos;
        self.pos = start + n;
        Ok(vstd::slice::slice_subrange(self.b, start, start + n))
    }
}

proof fn lemma_weight_small(k: nat)
    requires
        k <= 9,
    ensures
        k < 9 ==> weight(k) <= 0x100_0000_0000_0000,
{
    reveal_with_fuel(weight, 11);
}

} // verus!
