//! Big-endian scalar and raw-byte primitives: the mathematical model of a
//! byte run (`be_bytes` / `be_val`), spec-level readers over a bounded
//! window, and the verified executable readers and writers.

use vstd::prelude::*;

use crate::err::CodecError;

verus! {

/// 256 to the power `w`: the number of values a `w`-byte field can hold.
pub open spec fn pow256(w: nat) -> nat
    decreases w,
{
    if w == 0 {
        1
    } else {
        256 * pow256((w - 1) as nat)
    }
}

/// The `w` bytes of `v`, most significant first.
pub open spec fn be_bytes(v: nat, w: nat) -> Seq<u8>
    decreases w,
{
    if w == 0 {
        Seq::empty()
    } else {
        be_bytes(v / 256, (w - 1) as nat) + seq![(v % 256) as u8]
    }
}

/// The unsigned value of a big-endian byte run.
pub open spec fn be_val(s: Seq<u8>) -> nat
    decreases s.len(),
{
    if s.len() == 0 {
        0
    } else {
        be_val(s.drop_last()) * 256 + s.last() as nat
    }
}

/// The field widths the schema uses, written out; 16 bytes exactly fill a
/// `u128`.
pub proof fn lemma_pow256_16()
    ensures
        pow256(1) == 0x100,
        pow256(2) == 0x10000,
        pow256(3) == 0x1000000,
        pow256(4) == 0x100000000,
        pow256(5) == 0x10000000000,
        pow256(8) == 0x10000000000000000,
        pow256(16) == 0x100000000000000000000000000000000,
{
    assert(pow256(0) == 1);
    assert(pow256(1) == 0x100);
    assert(pow256(2) == 0x10000);
    assert(pow256(3) == 0x1000000);
    assert(pow256(4) == 0x100000000);
    assert(pow256(5) == 0x10000000000);
    assert(pow256(6) == 0x1000000000000);
    assert(pow256(7) == 0x100000000000000);
    assert(pow256(8) == 0x10000000000000000);
    assert(pow256(9) == 0x1000000000000000000);
    assert(pow256(10) == 0x100000000000000000000);
    assert(pow256(11) == 0x10000000000000000000000);
    assert(pow256(12) == 0x1000000000000000000000000);
    assert(pow256(13) == 0x100000000000000000000000000);
    assert(pow256(14) == 0x10000000000000000000000000000);
    assert(pow256(15) == 0x1000000000000000000000000000000);
    assert(pow256(16) == 0x100000000000000000000000000000000);
}

pub proof fn lemma_pow256_pos(w: nat)
    ensures
        pow256(w) >= 1,
    decreases w,
{
    if w > 0 {
        lemma_pow256_pos((w - 1) as nat);
    }
}

pub proof fn lemma_pow256_mono(a: nat, b: nat)
    requires
        a <= b,
    ensures
        pow256(a) <= pow256(b),
    decreases b,
{
    if a < b {
        lemma_pow256_mono(a, (b - 1) as nat);
        lemma_pow256_pos((b - 1) as nat);
    }
}

pub proof fn lemma_be_bytes_len(v: nat, w: nat)
    ensures
        be_bytes(v, w).len() == w,
    decreases w,
{
    if w > 0 {
        lemma_be_bytes_len(v / 256, (w - 1) as nat);
    }
}

pub proof fn lemma_be_val_bound(s: Seq<u8>)
    ensures
        be_val(s) < pow256(s.len()),
    decreases s.len(),
{
    if s.len() > 0 {
        lemma_be_val_bound(s.drop_last());
    }
}

/// Reading back the bytes of `v` yields `v`.
pub proof fn lemma_be_val_of_be_bytes(v: nat, w: nat)
    requires
        v < pow256(w),
    ensures
        be_val(be_bytes(v, w)) == v,
    decreases w,
{
    if w > 0 {
        let p: nat = pow256((w - 1) as nat);
        assert(v / 256 < p) by (nonlinear_arith)
            requires
                v < 256 * p,
                p >= 1,
        {
        }
        lemma_be_bytes_len(v / 256, (w - 1) as nat);
        assert(be_bytes(v, w).drop_last() =~= be_bytes(v / 256, (w - 1) as nat));
        lemma_be_val_of_be_bytes(v / 256, (w - 1) as nat);
    } else {
        lemma_pow256_pos(w);
    }
}

/// The bytes of the value of a run are the run itself.
pub proof fn lemma_be_bytes_of_be_val(s: Seq<u8>)
    ensures
        be_bytes(be_val(s), s.len()) == s,
    decreases s.len(),
{
    if s.len() > 0 {
        let a: nat = be_val(s.drop_last());
        let b: u8 = s.last();
        assert((a * 256 + b) / 256 == a && (a * 256 + b) % 256 == b) by (nonlinear_arith)
            requires
                b < 256,
        {
        }
        lemma_be_bytes_of_be_val(s.drop_last());
        lemma_be_bytes_len(a, (s.len() - 1) as nat);
        assert(be_bytes(be_val(s), s.len()) =~= s);
    } else {
        assert(be_bytes(be_val(s), s.len()) =~= s);
    }
}

/// Spec reader for a `w`-byte big-endian unsigned integer at `pos`, bounded
/// by `end`. Yields the value and the position after the field.
pub open spec fn sdec_uint(s: Seq<u8>, pos: int, end: int, w: int) -> Result<(nat, int), CodecError> {
    if end - pos < w {
        Err(CodecError::UnexpectedEnd)
    } else {
        Ok((be_val(s.subrange(pos, pos + w)), pos + w))
    }
}

/// Spec reader for `n` raw bytes at `pos`, bounded by `end`.
pub open spec fn sdec_fixed(s: Seq<u8>, pos: int, end: int, n: int) -> Result<(Seq<u8>, int), CodecError> {
    if end - pos < n {
        Err(CodecError::UnexpectedEnd)
    } else {
        Ok((s.subrange(pos, pos + n), pos + n))
    }
}

/// Reads a `w`-byte big-endian unsigned integer, exactly as `sdec_uint` says.
pub fn read_uint(buf: &Vec<u8>, pos: usize, end: usize, w: usize) -> (r: Result<(u128, usize), CodecError>)
    requires
        pos <= end <= buf@.len(),
        1 <= w <= 16,
    ensures
        match r {
            Ok((v, p2)) => sdec_uint(buf@, pos as int, end as int, w as int) == Ok::<(nat, int), CodecError>((v as nat, p2 as int))
                && p2 == pos + w && (v as nat) < pow256(w as nat),
            Err(e) => sdec_uint(buf@, pos as int, end as int, w as int) == Err::<(nat, int), CodecError>(e),
        },
{
    if end - pos < w {
        return Err(CodecError::UnexpectedEnd);
    }
    let mut acc: u128 = 0;
    let mut i: usize = 0;
    while i < w
        invariant
            pos + w <= end <= buf@.len(),
            w <= 16,
            0 <= i <= w,
            acc as nat == be_val(buf@.subrange(pos as int, pos + i)),
            (acc as nat) < pow256(i as nat),
        decreases w - i,
    {
        proof {
            lemma_pow256_mono(i as nat, 15);
            assert(pow256(16) == 256 * pow256(15));
            lemma_pow256_16();
            let sub1 = buf@.subrange(pos as int, pos + i + 1);
            assert(sub1.drop_last() =~= buf@.subrange(pos as int, pos + i));
            assert(sub1.last() == buf@[pos + i]);
        }
        acc = acc * 256 + (buf[pos + i] as u128);
        i = i + 1;
        proof {
            lemma_pow256_pos((i - 1) as nat);
        }
    }
    Ok((acc, pos + w))
}

/// Copies `n` raw bytes out of the buffer, exactly as `sdec_fixed` says.
pub fn read_fixed(buf: &Vec<u8>, pos: usize, end: usize, n: usize) -> (r: Result<(Vec<u8>, usize), CodecError>)
    requires
        pos <= end <= buf@.len(),
    ensures
        match r {
            Ok((v, p2)) => sdec_fixed(buf@, pos as int, end as int, n as int) == Ok::<(Seq<u8>, int), CodecError>((v@, p2 as int))
                && p2 == pos + n,
            Err(e) => sdec_fixed(buf@, pos as int, end as int, n as int) == Err::<(Seq<u8>, int), CodecError>(e),
        },
{
    if end - pos < n {
        return Err(CodecError::UnexpectedEnd);
    }
    let mut out: Vec<u8> = Vec::new();
    let mut i: usize = 0;
    while i < n
        invariant
            pos + n <= end <= buf@.len(),
            0 <= i <= n,
            out@ =~= buf@.subrange(pos as int, pos + i),
        decreases n - i,
    {
        out.push(buf[pos + i]);
        proof {
            assert(out@ =~= buf@.subrange(pos as int, pos + i + 1));
        }
        i = i + 1;
    }
    Ok((out, pos + n))
}

/// Appends the `w`-byte big-endian form of `v`.
pub fn write_uint(out: &mut Vec<u8>, v: u128, w: usize)
    requires
        (v as nat) < pow256(w as nat),
        w <= 16,
    ensures
        final(out)@ == old(out)@ + be_bytes(v as nat, w as nat),
    decreases w,
{
    if w > 0 {
        proof {
            let p: nat = pow256((w - 1) as nat);
            assert((v as nat) / 256 < p) by (nonlinear_arith)
                requires
                    (v as nat) < 256 * p,
                    p >= 1,
            {
            }
        }
        write_uint(out, v / 256, w - 1);
        out.push((v % 256) as u8);
        proof {
            assert(out@ =~= old(out)@ + be_bytes(v as nat, w as nat));
        }
    } else {
        proof {
            assert(out@ =~= old(out)@ + be_bytes(v as nat, w as nat));
        }
    }
}

/// Appends `n` raw bytes taken verbatim from `src`.
pub fn write_fixed(out: &mut Vec<u8>, src: &Vec<u8>)
    ensures
        final(out)@ == old(out)@ + src@,
{
    let mut i: usize = 0;
    while i < src.len()
        invariant
            0 <= i <= src@.len(),
            out@ =~= old(out)@ + src@.subrange(0, i as int),
        decreases src@.len() - i,
    {
        out.push(src[i]);
        proof {
            assert(out@ =~= old(out)@ + src@.subrange(0, i + 1));
        }
        i = i + 1;
    }
    proof {
        assert(src@.subrange(0, src@.len() as int) =~= src@);
    }
}

} // verus!
