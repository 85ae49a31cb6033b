//! The codec's laws, proved against the spec encoders and decoders in
//! `model`: decoding inverts encoding (round trip), encoding inverts
//! decoding (byte stability), the selector gates every decode, union tags
//! outside the declared variants are rejected, and the width-limited
//! deadline field decodes as a zero-extended five-byte value.

use vstd::prelude::*;

use crate::err::CodecError;
use crate::model::{
    b2n, d_asset, d_pair, d_pool_update, d_tob, d_u128, d_user_order, e_asset, e_pair,
    e_pool_update, e_tob, e_u128, e_user_order, pu_bitmap, sdec_bundle, sdec_byte_vec, sdec_elems,
    sdec_opt_addr, sdec_opt_hook, sdec_opt_sv, sdec_order_quantities, sdec_pair, sdec_pool_update,
    sdec_rewards_update, sdec_signature, sdec_standing_validation, sdec_top_of_block_order,
    sdec_user_order, sdec_vec, senc_asset, senc_bundle, senc_byte_vec, senc_cat,
    senc_order_quantities, senc_pair, senc_pool_update, senc_rewards_update, senc_signature,
    senc_standing_validation, senc_top_of_block_order, senc_user_order, senc_vec, sig_tag, oq_tag,
    ru_tag, tob_bitmap, uo_bitmap, wf_asset, wf_bundle, wf_byte_vec, wf_pair, wf_pool_update,
    wf_rewards_update, wf_signature, wf_standing_validation, wf_top_of_block_order, wf_user_order,
    wf_vec, sdec_asset, senc_opt_addr, senc_opt_hook, senc_opt_sv,
};
use crate::prim::{
    be_bytes, be_val, lemma_be_bytes_len, lemma_be_bytes_of_be_val, lemma_be_val_bound,
    lemma_be_val_of_be_bytes, lemma_pow256_16, pow256, sdec_fixed, sdec_uint,
};
use crate::{has_selector, spec_decode_call, strip_0x};
use crate::prim::lemma_pow256_mono;
use vstd::arithmetic::div_mod::{
    lemma_div_denominator, lemma_fundamental_div_mod, lemma_fundamental_div_mod_converse,
};
use crate::types::{
    AngstromBundleV, AssetV, OrderQuantitiesV, PairV, PoolUpdateV, RewardsUpdateV, SignatureV,
    StandingValidationV, TopOfBlockOrderV, UserOrderV,
};

verus! {

/// A piece of a byte run embedded at `pos` is the same piece of the run.
pub proof fn lemma_embed_sub(s: Seq<u8>, pos: int, t: Seq<u8>, a: int, b: int)
    requires
        0 <= pos,
        pos + t.len() <= s.len(),
        s.subrange(pos, pos + t.len() as int) == t,
        0 <= a <= b <= t.len(),
    ensures
        s.subrange(pos + a, pos + b) == t.subrange(a, b),
{
    assert forall|k: int| 0 <= k < b - a implies s.subrange(pos + a, pos + b)[k] == t.subrange(
        a,
        b,
    )[k] by {
        assert(s.subrange(pos, pos + t.len() as int)[a + k] == s[pos + (a + k)]);
        assert(s.subrange(pos + a, pos + b)[k] == s[pos + a + k]);
        assert(t.subrange(a, b)[k] == t[a + k]);
    }
    assert(s.subrange(pos + a, pos + b) =~= t.subrange(a, b));
}

/// Elements whose own decoders invert their encoders fill a window and are
/// read back in order.
pub proof fn lemma_elems_rt<T>(
    s: Seq<u8>,
    pos: int,
    vs: Seq<T>,
    e: spec_fn(T) -> Seq<u8>,
    wf: spec_fn(T) -> bool,
    d: spec_fn(Seq<u8>, int, int) -> Result<(T, int), CodecError>,
)
    requires
        forall|s2: Seq<u8>, p2: int, end2: int, v: T|
            #![trigger d(s2, p2, end2), e(v)]
            (wf(v) && 0 <= p2 && p2 + e(v).len() <= end2 <= s2.len()
                && s2.subrange(p2, p2 + e(v).len() as int) == e(v))
                ==> d(s2, p2, end2) == Ok::<(T, int), CodecError>((v, p2 + e(v).len())),
        forall|v: T| #[trigger] wf(v) ==> e(v).len() >= 1,
        forall|i: int| 0 <= i < vs.len() ==> wf(#[trigger] vs[i]),
        0 <= pos,
        pos + senc_cat(vs, e).len() <= s.len(),
        s.subrange(pos, pos + senc_cat(vs, e).len() as int) == senc_cat(vs, e),
    ensures
        sdec_elems(s, pos, pos + senc_cat(vs, e).len() as int, d)
            == Ok::<(Seq<T>, int), CodecError>((vs, pos + senc_cat(vs, e).len())),
    decreases vs.len(),
{
    let cat = senc_cat(vs, e);
    let end = pos + cat.len();
    if vs.len() == 0 {
        assert(vs =~= Seq::<T>::empty());
    } else {
        let head = vs[0];
        let tail = vs.skip(1);
        let hb = e(head);
        let tb = senc_cat(tail, e);
        assert(cat == hb + tb);
        assert(cat.len() == hb.len() + tb.len());
        lemma_embed_sub(s, pos, cat, 0, hb.len() as int);
        assert(cat.subrange(0, hb.len() as int) =~= hb);
        assert(s.subrange(pos, pos + e(head).len() as int) == e(head));
        assert(d(s, pos, end) == Ok::<(T, int), CodecError>((head, pos + e(head).len())));
        lemma_embed_sub(s, pos, cat, hb.len() as int, cat.len() as int);
        assert(cat.subrange(hb.len() as int, cat.len() as int) =~= tb);
        assert(s.subrange(pos + hb.len(), pos + hb.len() + tb.len() as int) == tb);
        assert(forall|i: int| 0 <= i < tail.len() ==> wf(#[trigger] tail[i]));
        lemma_elems_rt(s, pos + hb.len() as int, tail, e, wf, d);
        assert(seq![head] + tail =~= vs);
    }
}

/// Whatever a window of elements decodes to re-encodes to exactly the
/// window's bytes.
pub proof fn lemma_elems_sound<T>(
    s: Seq<u8>,
    pos: int,
    end: int,
    e: spec_fn(T) -> Seq<u8>,
    wf: spec_fn(T) -> bool,
    d: spec_fn(Seq<u8>, int, int) -> Result<(T, int), CodecError>,
)
    requires
        forall|s2: Seq<u8>, p2: int, end2: int| 0 <= p2 <= end2 <= s2.len()
            ==> match #[trigger] d(s2, p2, end2) {
                Ok((v, q)) => p2 < q <= end2 && wf(v) && e(v) == s2.subrange(p2, q),
                Err(_) => true,
            },
        0 <= pos <= end <= s.len(),
    ensures
        match sdec_elems(s, pos, end, d) {
            Ok((vs, p3)) => p3 == end && senc_cat(vs, e) == s.subrange(pos, end)
                && (forall|i: int| 0 <= i < vs.len() ==> wf(#[trigger] vs[i])),
            Err(_) => true,
        },
    decreases end - pos,
{
    if pos >= end {
        assert(senc_cat(Seq::<T>::empty(), e) =~= s.subrange(pos, end));
    } else {
        match d(s, pos, end) {
            Err(_) => {},
            Ok((v, p2)) => {
                lemma_elems_sound(s, p2, end, e, wf, d);
                match sdec_elems(s, p2, end, d) {
                    Err(_) => {},
                    Ok((vs2, p3)) => {
                        let vs = seq![v] + vs2;
                        assert(vs[0] == v);
                        assert(vs.skip(1) =~= vs2);
                        assert(senc_cat(vs, e) == e(v) + senc_cat(vs2, e));
                        assert(e(v) + senc_cat(vs2, e) =~= s.subrange(pos, end));
                        assert(forall|i: int| 0 <= i < vs.len() ==> wf(#[trigger] vs[i])) by {
                            assert(forall|i: int| 1 <= i < vs.len() ==> vs[i] == vs2[i - 1]);
                        }
                    },
                }
            },
        }
    }
}

/// A well-formed sequence embedded at `pos` is read back whole.
pub proof fn lemma_vec_rt<T>(
    s: Seq<u8>,
    pos: int,
    end: int,
    vs: Seq<T>,
    e: spec_fn(T) -> Seq<u8>,
    wf: spec_fn(T) -> bool,
    d: spec_fn(Seq<u8>, int, int) -> Result<(T, int), CodecError>,
)
    requires
        forall|s2: Seq<u8>, p2: int, end2: int, v: T|
            #![trigger d(s2, p2, end2), e(v)]
            (wf(v) && 0 <= p2 && p2 + e(v).len() <= end2 <= s2.len()
                && s2.subrange(p2, p2 + e(v).len() as int) == e(v))
                ==> d(s2, p2, end2) == Ok::<(T, int), CodecError>((v, p2 + e(v).len())),
        forall|v: T| #[trigger] wf(v) ==> e(v).len() >= 1,
        wf_vec(vs, e, wf),
        0 <= pos,
        pos + senc_vec(vs, e).len() <= end <= s.len(),
        s.subrange(pos, pos + senc_vec(vs, e).len() as int) == senc_vec(vs, e),
    ensures
        senc_vec(vs, e).len() == 3 + senc_cat(vs, e).len(),
        sdec_vec(s, pos, end, d) == Ok::<(Seq<T>, int), CodecError>((vs, pos + senc_vec(vs, e).len())),
{
    lemma_pow256_16();
    let cat = senc_cat(vs, e);
    let l: nat = cat.len();
    lemma_be_bytes_len(l, 3);
    let t = senc_vec(vs, e);
    assert(t.len() == 3 + l);
    lemma_embed_sub(s, pos, t, 0, 3);
    assert(t.subrange(0, 3) =~= be_bytes(l, 3));
    lemma_be_val_of_be_bytes(l, 3);
    assert(sdec_uint(s, pos, end, 3) == Ok::<(nat, int), CodecError>((l, pos + 3)));
    lemma_embed_sub(s, pos, t, 3, t.len() as int);
    assert(t.subrange(3, t.len() as int) =~= cat);
    assert(s.subrange(pos + 3, pos + 3 + senc_cat(vs, e).len() as int) == senc_cat(vs, e));
    lemma_elems_rt(s, pos + 3, vs, e, wf, d);
}

/// Whatever a sequence decodes to is well formed and re-encodes to exactly
/// the consumed bytes.
pub proof fn lemma_vec_sound<T>(
    s: Seq<u8>,
    pos: int,
    end: int,
    e: spec_fn(T) -> Seq<u8>,
    wf: spec_fn(T) -> bool,
    d: spec_fn(Seq<u8>, int, int) -> Result<(T, int), CodecError>,
)
    requires
        forall|s2: Seq<u8>, p2: int, end2: int| 0 <= p2 <= end2 <= s2.len()
            ==> match #[trigger] d(s2, p2, end2) {
                Ok((v, q)) => p2 < q <= end2 && wf(v) && e(v) == s2.subrange(p2, q),
                Err(_) => true,
            },
        0 <= pos <= end <= s.len(),
    ensures
        match sdec_vec(s, pos, end, d) {
            Ok((vs, p2)) => pos + 3 <= p2 <= end && wf_vec(vs, e, wf)
                && senc_vec(vs, e) == s.subrange(pos, p2),
            Err(_) => true,
        },
{
    lemma_pow256_16();
    match sdec_uint(s, pos, end, 3) {
        Err(_) => {},
        Ok((l, p1)) => {
            lemma_be_val_bound(s.subrange(pos, pos + 3));
            if p1 + l <= end {
                lemma_elems_sound(s, p1, p1 + l, e, wf, d);
                match sdec_elems(s, p1, p1 + l, d) {
                    Err(_) => {},
                    Ok((vs, p3)) => {
                        assert(senc_cat(vs, e) == s.subrange(p1, p1 + l));
                        assert(senc_cat(vs, e).len() == l);
                        lemma_be_bytes_of_be_val(s.subrange(pos, pos + 3));
                        assert(senc_vec(vs, e) =~= s.subrange(pos, p1 + l));
                    },
                }
            }
        },
    }
}

/// A well-formed byte run embedded at `pos` is read back whole.
pub proof fn lemma_byte_vec_rt(s: Seq<u8>, pos: int, end: int, b: Seq<u8>)
    requires
        wf_byte_vec(b),
        0 <= pos,
        pos + senc_byte_vec(b).len() <= end <= s.len(),
        s.subrange(pos, pos + senc_byte_vec(b).len() as int) == senc_byte_vec(b),
    ensures
        senc_byte_vec(b).len() == 3 + b.len(),
        sdec_byte_vec(s, pos, end) == Ok::<(Seq<u8>, int), CodecError>((b, pos + 3 + b.len())),
{
    lemma_pow256_16();
    lemma_be_bytes_len(b.len(), 3);
    let t = senc_byte_vec(b);
    lemma_embed_sub(s, pos, t, 0, 3);
    assert(t.subrange(0, 3) =~= be_bytes(b.len(), 3));
    lemma_be_val_of_be_bytes(b.len(), 3);
    lemma_embed_sub(s, pos, t, 3, t.len() as int);
    assert(t.subrange(3, t.len() as int) =~= b);
}

/// Whatever a byte run decodes to re-encodes to exactly the consumed bytes.
pub proof fn lemma_byte_vec_sound(s: Seq<u8>, pos: int, end: int)
    requires
        0 <= pos <= end <= s.len(),
    ensures
        match sdec_byte_vec(s, pos, end) {
            Ok((b, p2)) => pos + 3 <= p2 <= end && wf_byte_vec(b)
                && senc_byte_vec(b) == s.subrange(pos, p2),
            Err(_) => true,
        },
{
    lemma_pow256_16();
    match sdec_uint(s, pos, end, 3) {
        Err(_) => {},
        Ok((l, p1)) => {
            lemma_be_val_bound(s.subrange(pos, pos + 3));
            if p1 + l <= end {
                lemma_be_bytes_of_be_val(s.subrange(pos, pos + 3));
                assert(senc_byte_vec(s.subrange(p1, p1 + l)) =~= s.subrange(pos, p1 + l));
            }
        },
    }
}

/// A big-endian field embedded inside a larger embedded run decodes to its
/// value.
pub proof fn lemma_uint_field(s: Seq<u8>, pos: int, end: int, t: Seq<u8>, a: int, v: nat, w: nat)
    requires
        0 <= pos,
        pos + t.len() <= end <= s.len(),
        s.subrange(pos, pos + t.len() as int) == t,
        0 <= a,
        a + w <= t.len(),
        1 <= w,
        v < pow256(w),
        t.subrange(a, a + w) == be_bytes(v, w),
    ensures
        sdec_uint(s, pos + a, end, w as int) == Ok::<(nat, int), CodecError>((v, pos + a + w)),
{
    lemma_embed_sub(s, pos, t, a, a + w);
    lemma_be_val_of_be_bytes(v, w);
}

/// A raw byte field embedded inside a larger embedded run decodes to its
/// bytes.
pub proof fn lemma_fixed_field(s: Seq<u8>, pos: int, end: int, t: Seq<u8>, a: int, fb: Seq<u8>)
    requires
        0 <= pos,
        pos + t.len() <= end <= s.len(),
        s.subrange(pos, pos + t.len() as int) == t,
        0 <= a,
        a + fb.len() <= t.len(),
        t.subrange(a, a + fb.len() as int) == fb,
    ensures
        sdec_fixed(s, pos + a, end, fb.len() as int) == Ok::<(Seq<u8>, int), CodecError>((fb, pos + a + fb.len())),
{
    lemma_embed_sub(s, pos, t, a, a + fb.len() as int);
}

// ---------------------------------------------------------------- Asset

pub proof fn lemma_asset_rt(s: Seq<u8>, pos: int, end: int, v: AssetV)
    requires
        wf_asset(v),
        0 <= pos,
        pos + senc_asset(v).len() <= end <= s.len(),
        s.subrange(pos, pos + senc_asset(v).len() as int) == senc_asset(v),
    ensures
        senc_asset(v).len() == 68,
        sdec_asset(s, pos, end) == Ok::<(AssetV, int), CodecError>((v, pos + 68)),
{
    lemma_pow256_16();
    lemma_be_bytes_len(v.save as nat, 16);
    lemma_be_bytes_len(v.take as nat, 16);
    lemma_be_bytes_len(v.settle as nat, 16);
    let t = senc_asset(v);
    assert(t.len() == 68);
    assert(t.subrange(0, 20) =~= v.addr);
    lemma_fixed_field(s, pos, end, t, 0, v.addr);
    assert(t.subrange(20, 36) =~= be_bytes(v.save as nat, 16));
    lemma_uint_field(s, pos, end, t, 20, v.save as nat, 16);
    assert(t.subrange(36, 52) =~= be_bytes(v.take as nat, 16));
    lemma_uint_field(s, pos, end, t, 36, v.take as nat, 16);
    assert(t.subrange(52, 68) =~= be_bytes(v.settle as nat, 16));
    lemma_uint_field(s, pos, end, t, 52, v.settle as nat, 16);
}

pub proof fn lemma_asset_sound(s: Seq<u8>, pos: int, end: int)
    requires
        0 <= pos <= end <= s.len(),
    ensures
        match sdec_asset(s, pos, end) {
            Ok((v, p2)) => pos < p2 <= end && wf_asset(v) && senc_asset(v) == s.subrange(pos, p2),
            Err(_) => true,
        },
{
    lemma_pow256_16();
    match sdec_asset(s, pos, end) {
        Err(_) => {},
        Ok((v, p2)) => {
            lemma_be_val_bound(s.subrange(pos + 20, pos + 36));
            lemma_be_bytes_of_be_val(s.subrange(pos + 20, pos + 36));
            lemma_be_val_bound(s.subrange(pos + 36, pos + 52));
            lemma_be_bytes_of_be_val(s.subrange(pos + 36, pos + 52));
            lemma_be_val_bound(s.subrange(pos + 52, pos + 68));
            lemma_be_bytes_of_be_val(s.subrange(pos + 52, pos + 68));
            assert(senc_asset(v) =~= s.subrange(pos, p2));
        },
    }
}

// ---------------------------------------------------------------- Pair

pub proof fn lemma_pair_rt(s: Seq<u8>, pos: int, end: int, v: PairV)
    requires
        wf_pair(v),
        0 <= pos,
        pos + senc_pair(v).len() <= end <= s.len(),
        s.subrange(pos, pos + senc_pair(v).len() as int) == senc_pair(v),
    ensures
        senc_pair(v).len() == 38,
        sdec_pair(s, pos, end) == Ok::<(PairV, int), CodecError>((v, pos + 38)),
{
    lemma_pow256_16();
    lemma_be_bytes_len(v.index0 as nat, 2);
    lemma_be_bytes_len(v.index1 as nat, 2);
    lemma_be_bytes_len(v.store_index as nat, 2);
    let t = senc_pair(v);
    assert(t.len() == 38);
    assert(t.subrange(0, 2) =~= be_bytes(v.index0 as nat, 2));
    lemma_uint_field(s, pos, end, t, 0, v.index0 as nat, 2);
    assert(t.subrange(2, 4) =~= be_bytes(v.index1 as nat, 2));
    lemma_uint_field(s, pos, end, t, 2, v.index1 as nat, 2);
    assert(t.subrange(4, 6) =~= be_bytes(v.store_index as nat, 2));
    lemma_uint_field(s, pos, end, t, 4, v.store_index as nat, 2);
    assert(t.subrange(6, 38) =~= v.price_1over0);
    lemma_fixed_field(s, pos, end, t, 6, v.price_1over0);
}

pub proof fn lemma_pair_sound(s: Seq<u8>, pos: int, end: int)
    requires
        0 <= pos <= end <= s.len(),
    ensures
        match sdec_pair(s, pos, end) {
            Ok((v, p2)) => pos < p2 <= end && wf_pair(v) && senc_pair(v) == s.subrange(pos, p2),
            Err(_) => true,
        },
{
    lemma_pow256_16();
    match sdec_pair(s, pos, end) {
        Err(_) => {},
        Ok((v, p2)) => {
            lemma_be_val_bound(s.subrange(pos, pos + 2));
            lemma_be_bytes_of_be_val(s.subrange(pos, pos + 2));
            lemma_be_val_bound(s.subrange(pos + 2, pos + 4));
            lemma_be_bytes_of_be_val(s.subrange(pos + 2, pos + 4));
            lemma_be_val_bound(s.subrange(pos + 4, pos + 6));
            lemma_be_bytes_of_be_val(s.subrange(pos + 4, pos + 6));
            assert(senc_pair(v) =~= s.subrange(pos, p2));
        },
    }
}

// ------------------------------------------------------- StandingValidation

pub proof fn lemma_standing_validation_rt(s: Seq<u8>, pos: int, end: int, v: StandingValidationV)
    requires
        wf_standing_validation(v),
        0 <= pos,
        pos + senc_standing_validation(v).len() <= end <= s.len(),
        s.subrange(pos, pos + senc_standing_validation(v).len() as int) == senc_standing_validation(v),
    ensures
        senc_standing_validation(v).len() == 13,
        sdec_standing_validation(s, pos, end) == Ok::<(StandingValidationV, int), CodecError>((v, pos + 13)),
{
    lemma_pow256_16();
    lemma_be_bytes_len(v.nonce as nat, 8);
    lemma_be_bytes_len(v.deadline as nat, 5);
    let t = senc_standing_validation(v);
    assert(t.len() == 13);
    assert(t.subrange(0, 8) =~= be_bytes(v.nonce as nat, 8));
    lemma_uint_field(s, pos, end, t, 0, v.nonce as nat, 8);
    assert(t.subrange(8, 13) =~= be_bytes(v.deadline as nat, 5));
    lemma_uint_field(s, pos, end, t, 8, v.deadline as nat, 5);
}

pub proof fn lemma_standing_validation_sound(s: Seq<u8>, pos: int, end: int)
    requires
        0 <= pos <= end <= s.len(),
    ensures
        match sdec_standing_validation(s, pos, end) {
            Ok((v, p2)) => pos < p2 <= end && wf_standing_validation(v)
                && senc_standing_validation(v) == s.subrange(pos, p2),
            Err(_) => true,
        },
{
    lemma_pow256_16();
    match sdec_standing_validation(s, pos, end) {
        Err(_) => {},
        Ok((v, p2)) => {
            lemma_be_val_bound(s.subrange(pos, pos + 8));
            lemma_be_bytes_of_be_val(s.subrange(pos, pos + 8));
            lemma_be_val_bound(s.subrange(pos + 8, pos + 13));
            lemma_be_bytes_of_be_val(s.subrange(pos + 8, pos + 13));
            assert(senc_standing_validation(v) =~= s.subrange(pos, p2));
        },
    }
}

// ---------------------------------------------------------- OrderQuantities

pub proof fn lemma_order_quantities_rt(s: Seq<u8>, pos: int, end: int, v: OrderQuantitiesV)
    requires
        0 <= pos,
        pos + senc_order_quantities(v).len() <= end <= s.len(),
        s.subrange(pos, pos + senc_order_quantities(v).len() as int) == senc_order_quantities(v),
    ensures
        sdec_order_quantities(s, pos, end, oq_tag(v))
            == Ok::<(OrderQuantitiesV, int), CodecError>((v, pos + senc_order_quantities(v).len())),
{
    lemma_pow256_16();
    let t = senc_order_quantities(v);
    match v {
        OrderQuantitiesV::Exact { quantity } => {
            lemma_be_bytes_len(quantity as nat, 16);
            assert(t.subrange(0, 16) =~= be_bytes(quantity as nat, 16));
            lemma_uint_field(s, pos, end, t, 0, quantity as nat, 16);
        },
        OrderQuantitiesV::Partial { min_quantity_in, max_quantity_in, filled_quantity } => {
            lemma_be_bytes_len(min_quantity_in as nat, 16);
            lemma_be_bytes_len(max_quantity_in as nat, 16);
            lemma_be_bytes_len(filled_quantity as nat, 16);
            assert(t.len() == 48);
            assert(t.subrange(0, 16) =~= be_bytes(min_quantity_in as nat, 16));
            lemma_uint_field(s, pos, end, t, 0, min_quantity_in as nat, 16);
            assert(t.subrange(16, 32) =~= be_bytes(max_quantity_in as nat, 16));
            lemma_uint_field(s, pos, end, t, 16, max_quantity_in as nat, 16);
            assert(t.subrange(32, 48) =~= be_bytes(filled_quantity as nat, 16));
            lemma_uint_field(s, pos, end, t, 32, filled_quantity as nat, 16);
        },
    }
}

pub proof fn lemma_order_quantities_sound(s: Seq<u8>, pos: int, end: int, tag: nat)
    requires
        0 <= pos <= end <= s.len(),
    ensures
        match sdec_order_quantities(s, pos, end, tag) {
            Ok((v, p2)) => pos < p2 <= end && oq_tag(v) == tag
                && senc_order_quantities(v) == s.subrange(pos, p2),
            Err(_) => true,
        },
{
    lemma_pow256_16();
    match sdec_order_quantities(s, pos, end, tag) {
        Err(_) => {},
        Ok((v, p2)) => {
            if tag == 0 {
                lemma_be_val_bound(s.subrange(pos, pos + 16));
                lemma_be_bytes_of_be_val(s.subrange(pos, pos + 16));
                assert(senc_order_quantities(v) =~= s.subrange(pos, p2));
            } else {
                lemma_be_val_bound(s.subrange(pos, pos + 16));
                lemma_be_bytes_of_be_val(s.subrange(pos, pos + 16));
                lemma_be_val_bound(s.subrange(pos + 16, pos + 32));
                lemma_be_bytes_of_be_val(s.subrange(pos + 16, pos + 32));
                lemma_be_val_bound(s.subrange(pos + 32, pos + 48));
                lemma_be_bytes_of_be_val(s.subrange(pos + 32, pos + 48));
                assert(senc_order_quantities(v) =~= s.subrange(pos, p2));
            }
        },
    }
}

// ---------------------------------------------------------------- Signature

pub proof fn lemma_signature_rt(s: Seq<u8>, pos: int, end: int, v: SignatureV)
    requires
        wf_signature(v),
        0 <= pos,
        pos + senc_signature(v).len() <= end <= s.len(),
        s.subrange(pos, pos + senc_signature(v).len() as int) == senc_signature(v),
    ensures
        senc_signature(v).len() >= 1,
        sdec_signature(s, pos, end, sig_tag(v))
            == Ok::<(SignatureV, int), CodecError>((v, pos + senc_signature(v).len())),
{
    lemma_pow256_16();
    let t = senc_signature(v);
    match v {
        SignatureV::Contract { from, signature } => {
            lemma_be_bytes_len(signature.len(), 3);
            assert(t.len() == 20 + 3 + signature.len());
            assert(t.subrange(0, 20) =~= from);
            lemma_fixed_field(s, pos, end, t, 0, from);
            assert(t.subrange(20, t.len() as int) =~= senc_byte_vec(signature));
            lemma_embed_sub(s, pos, t, 20, t.len() as int);
            lemma_byte_vec_rt(s, pos + 20, end, signature);
        },
        SignatureV::Ecdsa { v: vb, r, s: sv } => {
            lemma_be_bytes_len(vb as nat, 1);
            assert(t.len() == 65);
            assert(t.subrange(0, 1) =~= be_bytes(vb as nat, 1));
            lemma_uint_field(s, pos, end, t, 0, vb as nat, 1);
            assert(t.subrange(1, 33) =~= r);
            lemma_fixed_field(s, pos, end, t, 1, r);
            assert(t.subrange(33, 65) =~= sv);
            lemma_fixed_field(s, pos, end, t, 33, sv);
        },
    }
}

pub proof fn lemma_signature_sound(s: Seq<u8>, pos: int, end: int, tag: nat)
    requires
        0 <= pos <= end <= s.len(),
    ensures
        match sdec_signature(s, pos, end, tag) {
            Ok((v, p2)) => pos < p2 <= end && sig_tag(v) == tag && wf_signature(v)
                && senc_signature(v) == s.subrange(pos, p2),
            Err(_) => true,
        },
{
    lemma_pow256_16();
    match sdec_signature(s, pos, end, tag) {
        Err(_) => {},
        Ok((v, p2)) => {
            if tag == 0 {
                lemma_byte_vec_sound(s, pos + 20, end);
                assert(senc_signature(v) =~= s.subrange(pos, p2));
            } else {
                lemma_be_val_bound(s.subrange(pos, pos + 1));
                lemma_be_bytes_of_be_val(s.subrange(pos, pos + 1));
                assert(senc_signature(v) =~= s.subrange(pos, p2));
            }
        },
    }
}

// ------------------------------------------------- quantities (u128 lists)

/// The element decoder for 16-byte quantities inverts the element encoder.
pub proof fn lemma_u128_elem_hyps()
    ensures
        forall|s2: Seq<u8>, p2: int, end2: int, v: u128|
            #![trigger d_u128()(s2, p2, end2), e_u128()(v)]
            (0 <= p2 && p2 + e_u128()(v).len() <= end2 <= s2.len()
                && s2.subrange(p2, p2 + e_u128()(v).len() as int) == e_u128()(v))
                ==> d_u128()(s2, p2, end2) == Ok::<(u128, int), CodecError>((v, p2 + e_u128()(v).len())),
        forall|v: u128| #[trigger] e_u128()(v).len() == 16,
        forall|s2: Seq<u8>, p2: int, end2: int| 0 <= p2 <= end2 <= s2.len()
            ==> match #[trigger] d_u128()(s2, p2, end2) {
                Ok((v, q)) => p2 < q <= end2 && e_u128()(v) == s2.subrange(p2, q),
                Err(_) => true,
            },
{
    lemma_pow256_16();
    assert forall|v: u128| #[trigger] e_u128()(v).len() == 16 by {
        lemma_be_bytes_len(v as nat, 16);
    }
    assert forall|s2: Seq<u8>, p2: int, end2: int, v: u128|
        #![trigger d_u128()(s2, p2, end2), e_u128()(v)]
        (0 <= p2 && p2 + e_u128()(v).len() <= end2 <= s2.len()
            && s2.subrange(p2, p2 + e_u128()(v).len() as int) == e_u128()(v))
            implies d_u128()(s2, p2, end2) == Ok::<(u128, int), CodecError>((v, p2 + e_u128()(v).len())) by {
        lemma_be_bytes_len(v as nat, 16);
        lemma_be_val_of_be_bytes(v as nat, 16);
    }
    assert forall|s2: Seq<u8>, p2: int, end2: int| 0 <= p2 <= end2 <= s2.len()
        implies match #[trigger] d_u128()(s2, p2, end2) {
            Ok((v, q)) => p2 < q <= end2 && e_u128()(v) == s2.subrange(p2, q),
            Err(_) => true,
        } by {
        match d_u128()(s2, p2, end2) {
            Ok((v, q)) => {
                lemma_be_val_bound(s2.subrange(p2, p2 + 16));
                lemma_be_bytes_of_be_val(s2.subrange(p2, p2 + 16));
            },
            Err(_) => {},
        }
    }
}

// ------------------------------------------------------------ RewardsUpdate

pub proof fn lemma_rewards_update_rt(s: Seq<u8>, pos: int, end: int, v: RewardsUpdateV)
    requires
        wf_rewards_update(v),
        0 <= pos,
        pos + senc_rewards_update(v).len() <= end <= s.len(),
        s.subrange(pos, pos + senc_rewards_update(v).len() as int) == senc_rewards_update(v),
    ensures
        senc_rewards_update(v).len() >= 1,
        sdec_rewards_update(s, pos, end, ru_tag(v))
            == Ok::<(RewardsUpdateV, int), CodecError>((v, pos + senc_rewards_update(v).len())),
{
    lemma_pow256_16();
    lemma_u128_elem_hyps();
    let t = senc_rewards_update(v);
    match v {
        RewardsUpdateV::MultiTick { start_tick, start_liquidity, quantities, reward_checksum } => {
            lemma_be_bytes_len(start_liquidity as nat, 16);
            let qv = senc_vec(quantities, e_u128());
            lemma_be_bytes_len(senc_cat(quantities, e_u128()).len(), 3);
            assert(t.len() == 3 + 16 + qv.len() + 20);
            assert(t.subrange(0, 3) =~= start_tick);
            lemma_fixed_field(s, pos, end, t, 0, start_tick);
            assert(t.subrange(3, 19) =~= be_bytes(start_liquidity as nat, 16));
            lemma_uint_field(s, pos, end, t, 3, start_liquidity as nat, 16);
            assert(t.subrange(19, 19 + qv.len() as int) =~= qv);
            lemma_embed_sub(s, pos, t, 19, 19 + qv.len() as int);
            lemma_vec_rt(s, pos + 19, end, quantities, e_u128(), |q: u128| true, d_u128());
            assert(t.subrange(19 + qv.len() as int, t.len() as int) =~= reward_checksum);
            lemma_fixed_field(s, pos, end, t, 19 + qv.len() as int, reward_checksum);
        },
        RewardsUpdateV::CurrentOnly { amount, expected_liquidity } => {
            lemma_be_bytes_len(amount as nat, 16);
            lemma_be_bytes_len(expected_liquidity as nat, 16);
            assert(t.len() == 32);
            assert(t.subrange(0, 16) =~= be_bytes(amount as nat, 16));
            lemma_uint_field(s, pos, end, t, 0, amount as nat, 16);
            assert(t.subrange(16, 32) =~= be_bytes(expected_liquidity as nat, 16));
            lemma_uint_field(s, pos, end, t, 16, expected_liquidity as nat, 16);
        },
    }
}

pub proof fn lemma_rewards_update_sound(s: Seq<u8>, pos: int, end: int, tag: nat)
    requires
        0 <= pos <= end <= s.len(),
    ensures
        match sdec_rewards_update(s, pos, end, tag) {
            Ok((v, p2)) => pos < p2 <= end && ru_tag(v) == tag && wf_rewards_update(v)
                && senc_rewards_update(v) == s.subrange(pos, p2),
            Err(_) => true,
        },
{
    lemma_pow256_16();
    lemma_u128_elem_hyps();
    match sdec_rewards_update(s, pos, end, tag) {
        Err(_) => {},
        Ok((v, p2)) => {
            if tag == 0 {
                lemma_be_val_bound(s.subrange(pos + 3, pos + 19));
                lemma_be_bytes_of_be_val(s.subrange(pos + 3, pos + 19));
                lemma_vec_sound(s, pos + 19, end, e_u128(), |q: u128| true, d_u128());
                assert(senc_rewards_update(v) =~= s.subrange(pos, p2));
            } else {
                lemma_be_val_bound(s.subrange(pos, pos + 16));
                lemma_be_bytes_of_be_val(s.subrange(pos, pos + 16));
                lemma_be_val_bound(s.subrange(pos + 16, pos + 32));
                lemma_be_bytes_of_be_val(s.subrange(pos + 16, pos + 32));
                assert(senc_rewards_update(v) =~= s.subrange(pos, p2));
            }
        },
    }
}

// --------------------------------------------------------------- PoolUpdate

pub proof fn lemma_pool_update_rt(s: Seq<u8>, pos: int, end: int, v: PoolUpdateV)
    requires
        wf_pool_update(v),
        0 <= pos,
        pos + senc_pool_update(v).len() <= end <= s.len(),
        s.subrange(pos, pos + senc_pool_update(v).len() as int) == senc_pool_update(v),
    ensures
        senc_pool_update(v).len() >= 1,
        sdec_pool_update(s, pos, end)
            == Ok::<(PoolUpdateV, int), CodecError>((v, pos + senc_pool_update(v).len())),
{
    lemma_pow256_16();
    let t = senc_pool_update(v);
    let bm = pu_bitmap(v);
    assert(ru_tag(v.rewards_update) == 0 || ru_tag(v.rewards_update) == 1);
    assert(bm < 4);
    lemma_be_bytes_len(bm, 1);
    lemma_be_bytes_len(v.pair_index as nat, 2);
    lemma_be_bytes_len(v.swap_in_quantity as nat, 16);
    let rb = senc_rewards_update(v.rewards_update);
    assert(t.len() == 19 + rb.len());
    assert(t.subrange(0, 1) =~= be_bytes(bm, 1));
    lemma_uint_field(s, pos, end, t, 0, bm, 1);
    assert(bm % 2 == b2n(v.zero_for_one) && bm / 2 == ru_tag(v.rewards_update));
    assert(t.subrange(1, 3) =~= be_bytes(v.pair_index as nat, 2));
    lemma_uint_field(s, pos, end, t, 1, v.pair_index as nat, 2);
    assert(t.subrange(3, 19) =~= be_bytes(v.swap_in_quantity as nat, 16));
    lemma_uint_field(s, pos, end, t, 3, v.swap_in_quantity as nat, 16);
    assert(t.subrange(19, t.len() as int) =~= rb);
    lemma_embed_sub(s, pos, t, 19, t.len() as int);
    lemma_rewards_update_rt(s, pos + 19, end, v.rewards_update);
}

pub proof fn lemma_pool_update_sound(s: Seq<u8>, pos: int, end: int)
    requires
        0 <= pos <= end <= s.len(),
    ensures
        match sdec_pool_update(s, pos, end) {
            Ok((v, p2)) => pos < p2 <= end && wf_pool_update(v)
                && senc_pool_update(v) == s.subrange(pos, p2),
            Err(_) => true,
        },
{
    lemma_pow256_16();
    match sdec_pool_update(s, pos, end) {
        Err(_) => {},
        Ok((v, p2)) => {
            let bm = be_val(s.subrange(pos, pos + 1));
            lemma_rewards_update_sound(s, pos + 3 + 16, end, bm / 2);
            assert(pu_bitmap(v) == bm) by {
                assert(bm < 4);
                lemma_bits8_recompose(bm);
                assert(b2n(v.zero_for_one) == bm % 2);
                assert(ru_tag(v.rewards_update) == bm / 2);
            }
            lemma_be_val_bound(s.subrange(pos, pos + 1));
            lemma_be_bytes_of_be_val(s.subrange(pos, pos + 1));
            lemma_be_val_bound(s.subrange(pos + 1, pos + 3));
            lemma_be_bytes_of_be_val(s.subrange(pos + 1, pos + 3));
            lemma_be_val_bound(s.subrange(pos + 3, pos + 19));
            lemma_be_bytes_of_be_val(s.subrange(pos + 3, pos + 19));
            assert(senc_pool_update(v) =~= s.subrange(pos, p2));
        },
    }
}

// ----------------------------------------------------------- bitmap bytes

/// Eight flag bits packed least significant bit first are read back by
/// division.
pub proof fn lemma_bits8(c0: nat, c1: nat, c2: nat, c3: nat, c4: nat, c5: nat, c6: nat, c7: nat)
    requires
        c0 < 2,
        c1 < 2,
        c2 < 2,
        c3 < 2,
        c4 < 2,
        c5 < 2,
        c6 < 2,
        c7 < 2,
    ensures
        ({
            let bm = c0 + 2 * c1 + 4 * c2 + 8 * c3 + 16 * c4 + 32 * c5 + 64 * c6 + 128 * c7;
            bm < 256 && bm % 2 == c0 && bm / 2 % 2 == c1 && bm / 4 % 2 == c2 && bm / 8 % 2 == c3
                && bm / 16 % 2 == c4 && bm / 32 % 2 == c5 && bm / 64 % 2 == c6 && bm / 128 == c7
                && bm / 8 == c3 + 2 * c4 + 4 * c5 + 8 * c6 + 16 * c7
        }),
{
    let bm = (c0 + 2 * c1 + 4 * c2 + 8 * c3 + 16 * c4 + 32 * c5 + 64 * c6 + 128 * c7) as int;
    let k1 = (c1 + 2 * c2 + 4 * c3 + 8 * c4 + 16 * c5 + 32 * c6 + 64 * c7) as int;
    let k2 = (c2 + 2 * c3 + 4 * c4 + 8 * c5 + 16 * c6 + 32 * c7) as int;
    let k3 = (c3 + 2 * c4 + 4 * c5 + 8 * c6 + 16 * c7) as int;
    let k4 = (c4 + 2 * c5 + 4 * c6 + 8 * c7) as int;
    let k5 = (c5 + 2 * c6 + 4 * c7) as int;
    let k6 = (c6 + 2 * c7) as int;
    let k7 = c7 as int;
    lemma_fundamental_div_mod_converse(bm, 2, k1, c0 as int);
    lemma_fundamental_div_mod_converse(bm, 4, k2, (c0 + 2 * c1) as int);
    lemma_fundamental_div_mod_converse(bm, 8, k3, (c0 + 2 * c1 + 4 * c2) as int);
    lemma_fundamental_div_mod_converse(bm, 16, k4, (c0 + 2 * c1 + 4 * c2 + 8 * c3) as int);
    lemma_fundamental_div_mod_converse(bm, 32, k5, (c0 + 2 * c1 + 4 * c2 + 8 * c3 + 16 * c4) as int);
    lemma_fundamental_div_mod_converse(bm, 64, k6, (c0 + 2 * c1 + 4 * c2 + 8 * c3 + 16 * c4 + 32 * c5) as int);
    lemma_fundamental_div_mod_converse(bm, 128, k7, (c0 + 2 * c1 + 4 * c2 + 8 * c3 + 16 * c4 + 32 * c5 + 64 * c6) as int);
    lemma_fundamental_div_mod_converse(k1, 2, k2, c1 as int);
    lemma_fundamental_div_mod_converse(k2, 2, k3, c2 as int);
    lemma_fundamental_div_mod_converse(k3, 2, k4, c3 as int);
    lemma_fundamental_div_mod_converse(k4, 2, k5, c4 as int);
    lemma_fundamental_div_mod_converse(k5, 2, k6, c5 as int);
    lemma_fundamental_div_mod_converse(k6, 2, k7, c6 as int);
}

/// Any bitmap byte is exactly the packing of the bits read back from it.
pub proof fn lemma_bits8_recompose(bm: nat)
    requires
        bm < 256,
    ensures
        bm == bm % 2 + 2 * (bm / 2 % 2) + 4 * (bm / 4 % 2) + 8 * (bm / 8 % 2) + 16 * (bm / 16 % 2)
            + 32 * (bm / 32 % 2) + 64 * (bm / 64 % 2) + 128 * (bm / 128),
        bm / 128 < 2,
        bm < 16 ==> bm == bm % 2 + 2 * (bm / 2 % 2) + 4 * (bm / 4 % 2) + 8 * (bm / 8),
        bm < 16 ==> bm / 8 < 2,
        bm < 4 ==> bm == bm % 2 + 2 * (bm / 2) && bm / 2 < 2,
{
    let x = bm as int;
    lemma_fundamental_div_mod(x, 2);
    lemma_fundamental_div_mod(x, 4);
    lemma_fundamental_div_mod(x, 8);
    lemma_fundamental_div_mod(x, 16);
    lemma_fundamental_div_mod(x, 32);
    lemma_fundamental_div_mod(x, 64);
    lemma_fundamental_div_mod(x, 128);
    lemma_fundamental_div_mod(x / 2, 2);
    lemma_fundamental_div_mod(x / 4, 2);
    lemma_fundamental_div_mod(x / 8, 2);
    lemma_fundamental_div_mod(x / 16, 2);
    lemma_fundamental_div_mod(x / 32, 2);
    lemma_fundamental_div_mod(x / 64, 2);
    lemma_div_denominator(x, 2, 2);
    lemma_div_denominator(x, 4, 2);
    lemma_div_denominator(x, 8, 2);
    lemma_div_denominator(x, 16, 2);
    lemma_div_denominator(x, 32, 2);
    lemma_div_denominator(x, 64, 2);
}

// ---------------------------------------------------------- TopOfBlockOrder

#[verifier::rlimit(100)]
pub proof fn lemma_top_of_block_order_rt(s: Seq<u8>, pos: int, end: int, v: TopOfBlockOrderV)
    requires
        wf_top_of_block_order(v),
        0 <= pos,
        pos + senc_top_of_block_order(v).len() <= end <= s.len(),
        s.subrange(pos, pos + senc_top_of_block_order(v).len() as int) == senc_top_of_block_order(v),
    ensures
        senc_top_of_block_order(v).len() >= 1,
        sdec_top_of_block_order(s, pos, end)
            == Ok::<(TopOfBlockOrderV, int), CodecError>((v, pos + senc_top_of_block_order(v).len())),
{
    lemma_pow256_16();
    let t = senc_top_of_block_order(v);
    let bm = tob_bitmap(v);
    let ca = b2n(v.use_internal);
    let cb = b2n(v.zero_for_1);
    let cc = b2n(v.recipient is Some);
    let cd = sig_tag(v.signature);
    assert(cd == 0 || cd == 1);
    assert(bm == ca + 2 * cb + 4 * cc + 8 * cd);
    lemma_bits8(ca, cb, cc, cd, 0, 0, 0, 0);
    assert(bm < 16);
    assert(bm % 2 == ca && bm / 2 % 2 == cb && bm / 4 % 2 == cc && bm / 8 == cd);
    lemma_be_bytes_len(bm, 1);
    lemma_be_bytes_len(v.quantity_in as nat, 16);
    lemma_be_bytes_len(v.quantity_out as nat, 16);
    lemma_be_bytes_len(v.max_gas_asset_0 as nat, 16);
    lemma_be_bytes_len(v.gas_used_asset_0 as nat, 16);
    lemma_be_bytes_len(v.pairs_index as nat, 2);
    let rb = senc_opt_addr(v.recipient);
    let sb = senc_signature(v.signature);
    assert(t.len() == 67 + rb.len() + sb.len());
    assert(t.subrange(0, 1) =~= be_bytes(bm, 1));
    lemma_uint_field(s, pos, end, t, 0, bm, 1);
    assert(t.subrange(1, 17) =~= be_bytes(v.quantity_in as nat, 16));
    lemma_uint_field(s, pos, end, t, 1, v.quantity_in as nat, 16);
    assert(t.subrange(17, 33) =~= be_bytes(v.quantity_out as nat, 16));
    lemma_uint_field(s, pos, end, t, 17, v.quantity_out as nat, 16);
    assert(t.subrange(33, 49) =~= be_bytes(v.max_gas_asset_0 as nat, 16));
    lemma_uint_field(s, pos, end, t, 33, v.max_gas_asset_0 as nat, 16);
    assert(t.subrange(49, 65) =~= be_bytes(v.gas_used_asset_0 as nat, 16));
    lemma_uint_field(s, pos, end, t, 49, v.gas_used_asset_0 as nat, 16);
    assert(t.subrange(65, 67) =~= be_bytes(v.pairs_index as nat, 2));
    lemma_uint_field(s, pos, end, t, 65, v.pairs_index as nat, 2);
    match v.recipient {
        Some(ab) => {
            assert(t.subrange(67, 87) =~= ab);
            lemma_fixed_field(s, pos, end, t, 67, ab);
        },
        None => {},
    }
    assert(t.subrange(67 + rb.len() as int, t.len() as int) =~= sb);
    lemma_embed_sub(s, pos, t, 67 + rb.len() as int, t.len() as int);
    lemma_signature_rt(s, pos + 67 + rb.len(), end, v.signature);
}

pub proof fn lemma_top_of_block_order_sound(s: Seq<u8>, pos: int, end: int)
    requires
        0 <= pos <= end <= s.len(),
    ensures
        match sdec_top_of_block_order(s, pos, end) {
            Ok((v, p2)) => pos < p2 <= end && wf_top_of_block_order(v)
                && senc_top_of_block_order(v) == s.subrange(pos, p2),
            Err(_) => true,
        },
{
    lemma_pow256_16();
    match sdec_top_of_block_order(s, pos, end) {
        Err(_) => {},
        Ok((v, p2)) => {
            let bm = be_val(s.subrange(pos, pos + 1));
            let rp = if bm / 4 % 2 == 1 { 20int } else { 0int };
            lemma_signature_sound(s, pos + 67 + rp, end, bm / 8);
            assert(tob_bitmap(v) == bm) by {
                assert(bm < 16);
                lemma_bits8_recompose(bm);
                assert(b2n(v.use_internal) == bm % 2);
                assert(b2n(v.zero_for_1) == bm / 2 % 2);
                assert(b2n(v.recipient is Some) == bm / 4 % 2);
                assert(sig_tag(v.signature) == bm / 8);
            }
            lemma_be_val_bound(s.subrange(pos, pos + 1));
            lemma_be_bytes_of_be_val(s.subrange(pos, pos + 1));
            lemma_be_val_bound(s.subrange(pos + 1, pos + 17));
            lemma_be_bytes_of_be_val(s.subrange(pos + 1, pos + 17));
            lemma_be_val_bound(s.subrange(pos + 17, pos + 33));
            lemma_be_bytes_of_be_val(s.subrange(pos + 17, pos + 33));
            lemma_be_val_bound(s.subrange(pos + 33, pos + 49));
            lemma_be_bytes_of_be_val(s.subrange(pos + 33, pos + 49));
            lemma_be_val_bound(s.subrange(pos + 49, pos + 65));
            lemma_be_bytes_of_be_val(s.subrange(pos + 49, pos + 65));
            lemma_be_val_bound(s.subrange(pos + 65, pos + 67));
            lemma_be_bytes_of_be_val(s.subrange(pos + 65, pos + 67));
            assert(senc_top_of_block_order(v) =~= s.subrange(pos, p2));
        },
    }
}

// ------------------------------------------------------------ option parts

pub proof fn lemma_opt_addr_rt(s: Seq<u8>, pos: int, end: int, r: Option<Seq<u8>>)
    requires
        (match r {
            Some(a) => a.len() == 20,
            None => true,
        }),
        0 <= pos,
        pos + senc_opt_addr(r).len() <= end <= s.len(),
        s.subrange(pos, pos + senc_opt_addr(r).len() as int) == senc_opt_addr(r),
    ensures
        sdec_opt_addr(s, pos, end, r is Some)
            == Ok::<(Option<Seq<u8>>, int), CodecError>((r, pos + senc_opt_addr(r).len())),
{
}

pub proof fn lemma_opt_addr_sound(s: Seq<u8>, pos: int, end: int, present: bool)
    requires
        0 <= pos <= end <= s.len(),
    ensures
        match sdec_opt_addr(s, pos, end, present) {
            Ok((r, p2)) => pos <= p2 <= end && (r is Some <==> present) && (match r {
                Some(a) => a.len() == 20,
                None => true,
            }) && senc_opt_addr(r) == s.subrange(pos, p2),
            Err(_) => true,
        },
{
    match sdec_opt_addr(s, pos, end, present) {
        Err(_) => {},
        Ok((r, p2)) => {
            assert(senc_opt_addr(r) =~= s.subrange(pos, p2));
        },
    }
}

pub proof fn lemma_opt_hook_rt(s: Seq<u8>, pos: int, end: int, h: Option<Seq<u8>>)
    requires
        (match h {
            Some(b) => wf_byte_vec(b),
            None => true,
        }),
        0 <= pos,
        pos + senc_opt_hook(h).len() <= end <= s.len(),
        s.subrange(pos, pos + senc_opt_hook(h).len() as int) == senc_opt_hook(h),
    ensures
        sdec_opt_hook(s, pos, end, h is Some)
            == Ok::<(Option<Seq<u8>>, int), CodecError>((h, pos + senc_opt_hook(h).len())),
{
    match h {
        Some(b) => {
            lemma_byte_vec_rt(s, pos, end, b);
        },
        None => {},
    }
}

pub proof fn lemma_opt_hook_sound(s: Seq<u8>, pos: int, end: int, present: bool)
    requires
        0 <= pos <= end <= s.len(),
    ensures
        match sdec_opt_hook(s, pos, end, present) {
            Ok((h, p2)) => pos <= p2 <= end && (h is Some <==> present) && (match h {
                Some(b) => wf_byte_vec(b),
                None => true,
            }) && senc_opt_hook(h) == s.subrange(pos, p2),
            Err(_) => true,
        },
{
    lemma_byte_vec_sound(s, pos, end);
    match sdec_opt_hook(s, pos, end, present) {
        Err(_) => {},
        Ok((h, p2)) => {
            if !present {
                assert(senc_opt_hook(h) =~= s.subrange(pos, p2));
            }
        },
    }
}

pub proof fn lemma_opt_sv_rt(s: Seq<u8>, pos: int, end: int, sv: Option<StandingValidationV>)
    requires
        (match sv {
            Some(x) => wf_standing_validation(x),
            None => true,
        }),
        0 <= pos,
        pos + senc_opt_sv(sv).len() <= end <= s.len(),
        s.subrange(pos, pos + senc_opt_sv(sv).len() as int) == senc_opt_sv(sv),
    ensures
        sdec_opt_sv(s, pos, end, sv is Some)
            == Ok::<(Option<StandingValidationV>, int), CodecError>((sv, pos + senc_opt_sv(sv).len())),
{
    match sv {
        Some(x) => {
            lemma_standing_validation_rt(s, pos, end, x);
        },
        None => {},
    }
}

pub proof fn lemma_opt_sv_sound(s: Seq<u8>, pos: int, end: int, present: bool)
    requires
        0 <= pos <= end <= s.len(),
    ensures
        match sdec_opt_sv(s, pos, end, present) {
            Ok((sv, p2)) => pos <= p2 <= end && (sv is Some <==> present) && (match sv {
                Some(x) => wf_standing_validation(x),
                None => true,
            }) && senc_opt_sv(sv) == s.subrange(pos, p2),
            Err(_) => true,
        },
{
    lemma_standing_validation_sound(s, pos, end);
    match sdec_opt_sv(s, pos, end, present) {
        Err(_) => {},
        Ok((sv, p2)) => {
            if !present {
                assert(senc_opt_sv(sv) =~= s.subrange(pos, p2));
            }
        },
    }
}

/// Adjacent pieces of a buffer join into one piece.
pub proof fn lemma_sub_join(s: Seq<u8>, a: int, b: int, c: int)
    requires
        0 <= a <= b <= c <= s.len(),
    ensures
        s.subrange(a, b) + s.subrange(b, c) == s.subrange(a, c),
{
    assert(s.subrange(a, b) + s.subrange(b, c) =~= s.subrange(a, c));
}

// ---------------------------------------------------------------- UserOrder

/// Where each part of an encoded user order sits inside the whole.
#[verifier::rlimit(100)]
pub proof fn lemma_uo_layout(v: UserOrderV)
    requires
        wf_user_order(v),
    ensures
        ({
            let t = senc_user_order(v);
            let rb = senc_opt_addr(v.recipient);
            let hb = senc_opt_hook(v.hook_data);
            let vb = senc_opt_sv(v.standing_validation);
            let qb = senc_order_quantities(v.order_quantities);
            let sb = senc_signature(v.signature);
            let o1 = 39 + rb.len() as int;
            let o2 = o1 + hb.len() as int;
            let o3 = o2 + vb.len() as int;
            let o4 = o3 + qb.len() as int;
            let o5 = o4 + 32;
            t.len() == o5 + sb.len() && t.subrange(0, 1) == be_bytes(uo_bitmap(v), 1)
                && t.subrange(1, 5) == be_bytes(v.ref_id as nat, 4)
                && t.subrange(5, 7) == be_bytes(v.pair_index as nat, 2)
                && t.subrange(7, 39) == v.min_price && t.subrange(39, o1) == rb
                && t.subrange(o1, o2) == hb && t.subrange(o2, o3) == vb
                && t.subrange(o3, o4) == qb
                && t.subrange(o4, o4 + 16) == be_bytes(v.max_extra_fee_asset0 as nat, 16)
                && t.subrange(o4 + 16, o5) == be_bytes(v.extra_fee_asset0 as nat, 16)
                && t.subrange(o5, t.len() as int) == sb
        }),
{
    lemma_be_bytes_len(uo_bitmap(v), 1);
    lemma_be_bytes_len(v.ref_id as nat, 4);
    lemma_be_bytes_len(v.pair_index as nat, 2);
    lemma_be_bytes_len(v.max_extra_fee_asset0 as nat, 16);
    lemma_be_bytes_len(v.extra_fee_asset0 as nat, 16);
    let t = senc_user_order(v);
    let rb = senc_opt_addr(v.recipient);
    let hb = senc_opt_hook(v.hook_data);
    let vb = senc_opt_sv(v.standing_validation);
    let qb = senc_order_quantities(v.order_quantities);
    let sb = senc_signature(v.signature);
    let o1 = 39 + rb.len() as int;
    let o2 = o1 + hb.len() as int;
    let o3 = o2 + vb.len() as int;
    let o4 = o3 + qb.len() as int;
    let o5 = o4 + 32;
    assert(t.len() == o5 + sb.len());
    assert(t.subrange(0, 1) =~= be_bytes(uo_bitmap(v), 1));
    assert(t.subrange(1, 5) =~= be_bytes(v.ref_id as nat, 4));
    assert(t.subrange(5, 7) =~= be_bytes(v.pair_index as nat, 2));
    assert(t.subrange(7, 39) =~= v.min_price);
    assert(t.subrange(39, o1) =~= rb);
    assert(t.subrange(o1, o2) =~= hb);
    assert(t.subrange(o2, o3) =~= vb);
    assert(t.subrange(o3, o4) =~= qb);
    assert(t.subrange(o4, o4 + 16) =~= be_bytes(v.max_extra_fee_asset0 as nat, 16));
    assert(t.subrange(o4 + 16, o5) =~= be_bytes(v.extra_fee_asset0 as nat, 16));
    assert(t.subrange(o5, t.len() as int) =~= sb);
}

/// The user-order decoder evaluates through its eleven steps.
pub proof fn lemma_uo_compose(s: Seq<u8>, pos: int, end: int, v: UserOrderV, bm: nat, q1: int, q2: int, q3: int, q4: int, q5: int, q6: int, q7: int, q8: int, q9: int, q10: int, q11: int)
    requires
        sdec_uint(s, pos, end, 1) == Ok::<(nat, int), CodecError>((bm, q1)),
        sdec_uint(s, q1, end, 4) == Ok::<(nat, int), CodecError>((v.ref_id as nat, q2)),
        sdec_uint(s, q2, end, 2) == Ok::<(nat, int), CodecError>((v.pair_index as nat, q3)),
        sdec_fixed(s, q3, end, 32) == Ok::<(Seq<u8>, int), CodecError>((v.min_price, q4)),
        sdec_opt_addr(s, q4, end, bm / 2 % 2 == 1) == Ok::<(Option<Seq<u8>>, int), CodecError>((v.recipient, q5)),
        sdec_opt_hook(s, q5, end, bm / 4 % 2 == 1) == Ok::<(Option<Seq<u8>>, int), CodecError>((v.hook_data, q6)),
        sdec_opt_sv(s, q6, end, bm / 16 % 2 == 1) == Ok::<(Option<StandingValidationV>, int), CodecError>((v.standing_validation, q7)),
        sdec_order_quantities(s, q7, end, bm / 32 % 2) == Ok::<(OrderQuantitiesV, int), CodecError>((v.order_quantities, q8)),
        sdec_uint(s, q8, end, 16) == Ok::<(nat, int), CodecError>((v.max_extra_fee_asset0 as nat, q9)),
        sdec_uint(s, q9, end, 16) == Ok::<(nat, int), CodecError>((v.extra_fee_asset0 as nat, q10)),
        sdec_signature(s, q10, end, bm / 128) == Ok::<(SignatureV, int), CodecError>((v.signature, q11)),
        (bm % 2 == 1) == v.use_internal,
        (bm / 8 % 2 == 1) == v.zero_for_one,
        (bm / 64 % 2 == 1) == v.exact_in,
    ensures
        sdec_user_order(s, pos, end) == Ok::<(UserOrderV, int), CodecError>((v, q11)),
{
}

/// The first five steps of an encoded user order decode in place.
#[verifier::rlimit(100)]
pub proof fn lemma_uo_steps1(s: Seq<u8>, pos: int, end: int, v: UserOrderV)
    requires
        wf_user_order(v),
        0 <= pos,
        pos + senc_user_order(v).len() <= end <= s.len(),
        s.subrange(pos, pos + senc_user_order(v).len() as int) == senc_user_order(v),
    ensures
        sdec_uint(s, pos, end, 1) == Ok::<(nat, int), CodecError>((uo_bitmap(v), pos + 1)),
        sdec_uint(s, pos + 1, end, 4) == Ok::<(nat, int), CodecError>((v.ref_id as nat, pos + 5)),
        sdec_uint(s, pos + 5, end, 2) == Ok::<(nat, int), CodecError>((v.pair_index as nat, pos + 7)),
        sdec_fixed(s, pos + 7, end, 32) == Ok::<(Seq<u8>, int), CodecError>((v.min_price, pos + 39)),
        sdec_opt_addr(s, pos + 39, end, v.recipient is Some) == Ok::<(Option<Seq<u8>>, int), CodecError>((
            v.recipient,
            pos + 39 + senc_opt_addr(v.recipient).len(),
        )),
{
    lemma_pow256_16();
    let t = senc_user_order(v);
    lemma_uo_layout(v);
    let bm = uo_bitmap(v);
    assert(bm < 256) by {
        let c5 = oq_tag(v.order_quantities);
        let c7 = sig_tag(v.signature);
        assert(c5 == 0 || c5 == 1);
        assert(c7 == 0 || c7 == 1);
    }
    lemma_uint_field(s, pos, end, t, 0, bm, 1);
    lemma_uint_field(s, pos, end, t, 1, v.ref_id as nat, 4);
    lemma_uint_field(s, pos, end, t, 5, v.pair_index as nat, 2);
    lemma_fixed_field(s, pos, end, t, 7, v.min_price);
    lemma_embed_sub(s, pos, t, 39, 39 + senc_opt_addr(v.recipient).len() as int);
    lemma_opt_addr_rt(s, pos + 39, end, v.recipient);
}

/// The remaining steps of an encoded user order decode in place.
#[verifier::rlimit(100)]
pub proof fn lemma_uo_steps2(s: Seq<u8>, pos: int, end: int, v: UserOrderV)
    requires
        wf_user_order(v),
        0 <= pos,
        pos + senc_user_order(v).len() <= end <= s.len(),
        s.subrange(pos, pos + senc_user_order(v).len() as int) == senc_user_order(v),
    ensures
        ({
            let t = senc_user_order(v);
            let o1 = 39 + senc_opt_addr(v.recipient).len() as int;
            let o2 = o1 + senc_opt_hook(v.hook_data).len() as int;
            let o3 = o2 + senc_opt_sv(v.standing_validation).len() as int;
            let o4 = o3 + senc_order_quantities(v.order_quantities).len() as int;
            let o5 = o4 + 32;
            sdec_opt_hook(s, pos + o1, end, v.hook_data is Some)
                == Ok::<(Option<Seq<u8>>, int), CodecError>((v.hook_data, pos + o2))
                && sdec_opt_sv(s, pos + o2, end, v.standing_validation is Some)
                == Ok::<(Option<StandingValidationV>, int), CodecError>((v.standing_validation, pos + o3))
                && sdec_order_quantities(s, pos + o3, end, oq_tag(v.order_quantities))
                == Ok::<(OrderQuantitiesV, int), CodecError>((v.order_quantities, pos + o4))
                && sdec_uint(s, pos + o4, end, 16)
                == Ok::<(nat, int), CodecError>((v.max_extra_fee_asset0 as nat, pos + o4 + 16))
                && sdec_uint(s, pos + o4 + 16, end, 16)
                == Ok::<(nat, int), CodecError>((v.extra_fee_asset0 as nat, pos + o5))
                && sdec_signature(s, pos + o5, end, sig_tag(v.signature))
                == Ok::<(SignatureV, int), CodecError>((v.signature, pos + t.len()))
        }),
{
    lemma_pow256_16();
    let t = senc_user_order(v);
    lemma_uo_layout(v);
    let o1: int = 39 + senc_opt_addr(v.recipient).len() as int;
    let o2: int = o1 + senc_opt_hook(v.hook_data).len() as int;
    let o3: int = o2 + senc_opt_sv(v.standing_validation).len() as int;
    let o4: int = o3 + senc_order_quantities(v.order_quantities).len() as int;
    let o5: int = o4 + 32;
    lemma_embed_sub(s, pos, t, o1, o2);
    lemma_opt_hook_rt(s, pos + o1, end, v.hook_data);
    lemma_embed_sub(s, pos, t, o2, o3);
    lemma_opt_sv_rt(s, pos + o2, end, v.standing_validation);
    lemma_embed_sub(s, pos, t, o3, o4);
    lemma_order_quantities_rt(s, pos + o3, end, v.order_quantities);
    lemma_uint_field(s, pos, end, t, o4, v.max_extra_fee_asset0 as nat, 16);
    lemma_uint_field(s, pos, end, t, o4 + 16, v.extra_fee_asset0 as nat, 16);
    lemma_embed_sub(s, pos, t, o5, t.len() as int);
    lemma_signature_rt(s, pos + o5, end, v.signature);
}

#[verifier::rlimit(100)]
pub proof fn lemma_user_order_rt(s: Seq<u8>, pos: int, end: int, v: UserOrderV)
    requires
        wf_user_order(v),
        0 <= pos,
        pos + senc_user_order(v).len() <= end <= s.len(),
        s.subrange(pos, pos + senc_user_order(v).len() as int) == senc_user_order(v),
    ensures
        senc_user_order(v).len() >= 1,
        sdec_user_order(s, pos, end)
            == Ok::<(UserOrderV, int), CodecError>((v, pos + senc_user_order(v).len())),
{
    let t = senc_user_order(v);
    let bm = uo_bitmap(v);
    let c5 = oq_tag(v.order_quantities);
    let c7 = sig_tag(v.signature);
    assert(c5 == 0 || c5 == 1);
    assert(c7 == 0 || c7 == 1);
    lemma_bits8(b2n(v.use_internal), b2n(v.recipient is Some), b2n(v.hook_data is Some),
        b2n(v.zero_for_one), b2n(v.standing_validation is Some), c5, b2n(v.exact_in), c7);
    lemma_uo_layout(v);
    lemma_uo_steps1(s, pos, end, v);
    lemma_uo_steps2(s, pos, end, v);
    let o1: int = 39 + senc_opt_addr(v.recipient).len() as int;
    let o2: int = o1 + senc_opt_hook(v.hook_data).len() as int;
    let o3: int = o2 + senc_opt_sv(v.standing_validation).len() as int;
    let o4: int = o3 + senc_order_quantities(v.order_quantities).len() as int;
    let o5: int = o4 + 32;
    assert((bm % 2 == 1) == v.use_internal);
    assert((bm / 2 % 2 == 1) == (v.recipient is Some));
    assert((bm / 4 % 2 == 1) == (v.hook_data is Some));
    assert((bm / 8 % 2 == 1) == v.zero_for_one);
    assert((bm / 16 % 2 == 1) == (v.standing_validation is Some));
    assert(bm / 32 % 2 == oq_tag(v.order_quantities));
    assert((bm / 64 % 2 == 1) == v.exact_in);
    assert(bm / 128 == sig_tag(v.signature));
    lemma_uo_compose(s, pos, end, v, bm, pos + 1, pos + 5, pos + 7, pos + 39, pos + o1, pos + o2,
        pos + o3, pos + o4, pos + o4 + 16, pos + o5, pos + t.len() as int);
}

#[verifier::rlimit(100)]
pub proof fn lemma_user_order_sound(s: Seq<u8>, pos: int, end: int)
    requires
        0 <= pos <= end <= s.len(),
    ensures
        match sdec_user_order(s, pos, end) {
            Ok((v, p2)) => pos < p2 <= end && wf_user_order(v)
                && senc_user_order(v) == s.subrange(pos, p2),
            Err(_) => true,
        },
{
    lemma_pow256_16();
    match sdec_user_order(s, pos, end) {
        Err(_) => {},
        Ok((v, p2)) => {
            let bm = be_val(s.subrange(pos, pos + 1));
            lemma_be_val_bound(s.subrange(pos, pos + 1));
            let q4: int = pos + 39;
            lemma_opt_addr_sound(s, q4, end, bm / 2 % 2 == 1);
            let q5: int = sdec_opt_addr(s, q4, end, bm / 2 % 2 == 1)->Ok_0.1;
            lemma_opt_hook_sound(s, q5, end, bm / 4 % 2 == 1);
            let q6: int = sdec_opt_hook(s, q5, end, bm / 4 % 2 == 1)->Ok_0.1;
            lemma_opt_sv_sound(s, q6, end, bm / 16 % 2 == 1);
            let q7: int = sdec_opt_sv(s, q6, end, bm / 16 % 2 == 1)->Ok_0.1;
            lemma_order_quantities_sound(s, q7, end, bm / 32 % 2);
            let q8: int = sdec_order_quantities(s, q7, end, bm / 32 % 2)->Ok_0.1;
            lemma_signature_sound(s, q8 + 32, end, bm / 128);
            assert(uo_bitmap(v) == bm) by {
                assert(bm < 256);
                lemma_bits8_recompose(bm);
                assert(b2n(v.use_internal) == bm % 2);
                assert(b2n(v.recipient is Some) == bm / 2 % 2);
                assert(b2n(v.hook_data is Some) == bm / 4 % 2);
                assert(b2n(v.zero_for_one) == bm / 8 % 2);
                assert(b2n(v.standing_validation is Some) == bm / 16 % 2);
                assert(oq_tag(v.order_quantities) == bm / 32 % 2);
                assert(b2n(v.exact_in) == bm / 64 % 2);
                assert(sig_tag(v.signature) == bm / 128);
            }
            lemma_be_bytes_of_be_val(s.subrange(pos, pos + 1));
            lemma_be_val_bound(s.subrange(pos + 1, pos + 5));
            lemma_be_bytes_of_be_val(s.subrange(pos + 1, pos + 5));
            lemma_be_val_bound(s.subrange(pos + 5, pos + 7));
            lemma_be_bytes_of_be_val(s.subrange(pos + 5, pos + 7));
            lemma_be_val_bound(s.subrange(q8, q8 + 16));
            lemma_be_bytes_of_be_val(s.subrange(q8, q8 + 16));
            lemma_be_val_bound(s.subrange(q8 + 16, q8 + 32));
            lemma_be_bytes_of_be_val(s.subrange(q8 + 16, q8 + 32));
            lemma_sub_join(s, pos, pos + 1, pos + 5);
            lemma_sub_join(s, pos, pos + 5, pos + 7);
            lemma_sub_join(s, pos, pos + 7, pos + 39);
            lemma_sub_join(s, pos, pos + 39, q5);
            lemma_sub_join(s, pos, q5, q6);
            lemma_sub_join(s, pos, q6, q7);
            lemma_sub_join(s, pos, q7, q8);
            lemma_sub_join(s, pos, q8, q8 + 16);
            lemma_sub_join(s, pos, q8 + 16, q8 + 32);
            lemma_sub_join(s, pos, q8 + 32, p2);
            assert(senc_user_order(v) == s.subrange(pos, p2));
        },
    }
}


// ----------------------------------------------------------- AngstromBundle


pub proof fn lemma_asset_hyps()
    ensures
        forall|s2: Seq<u8>, p2: int, end2: int, x: AssetV|
            #![trigger d_asset()(s2, p2, end2), e_asset()(x)]
            (wf_asset(x) && 0 <= p2 && p2 + e_asset()(x).len() <= end2 <= s2.len()
                && s2.subrange(p2, p2 + e_asset()(x).len() as int) == e_asset()(x))
                ==> d_asset()(s2, p2, end2) == Ok::<(AssetV, int), CodecError>((x, p2 + e_asset()(x).len())),
        forall|x: AssetV| wf_asset(x) ==> #[trigger] e_asset()(x).len() >= 1,
        forall|s2: Seq<u8>, p2: int, end2: int| 0 <= p2 <= end2 <= s2.len()
            ==> match #[trigger] d_asset()(s2, p2, end2) {
                Ok((x, q)) => p2 < q <= end2 && wf_asset(x) && e_asset()(x) == s2.subrange(p2, q),
                Err(_) => true,
            },
{
    assert forall|s2: Seq<u8>, p2: int, end2: int, x: AssetV|
        #![trigger d_asset()(s2, p2, end2), e_asset()(x)]
        (wf_asset(x) && 0 <= p2 && p2 + e_asset()(x).len() <= end2 <= s2.len()
            && s2.subrange(p2, p2 + e_asset()(x).len() as int) == e_asset()(x))
            implies d_asset()(s2, p2, end2) == Ok::<(AssetV, int), CodecError>((x, p2 + e_asset()(x).len())) by {
        lemma_asset_rt(s2, p2, end2, x);
    }
    assert forall|x: AssetV| wf_asset(x) implies #[trigger] e_asset()(x).len() >= 1 by {
        lemma_asset_rt_len(x);
    }
    assert forall|s2: Seq<u8>, p2: int, end2: int| 0 <= p2 <= end2 <= s2.len()
        implies match #[trigger] d_asset()(s2, p2, end2) {
            Ok((x, q)) => p2 < q <= end2 && wf_asset(x) && e_asset()(x) == s2.subrange(p2, q),
            Err(_) => true,
        } by {
        lemma_asset_sound(s2, p2, end2);
    }
}

pub proof fn lemma_pair_hyps()
    ensures
        forall|s2: Seq<u8>, p2: int, end2: int, x: PairV|
            #![trigger d_pair()(s2, p2, end2), e_pair()(x)]
            (wf_pair(x) && 0 <= p2 && p2 + e_pair()(x).len() <= end2 <= s2.len()
                && s2.subrange(p2, p2 + e_pair()(x).len() as int) == e_pair()(x))
                ==> d_pair()(s2, p2, end2) == Ok::<(PairV, int), CodecError>((x, p2 + e_pair()(x).len())),
        forall|x: PairV| wf_pair(x) ==> #[trigger] e_pair()(x).len() >= 1,
        forall|s2: Seq<u8>, p2: int, end2: int| 0 <= p2 <= end2 <= s2.len()
            ==> match #[trigger] d_pair()(s2, p2, end2) {
                Ok((x, q)) => p2 < q <= end2 && wf_pair(x) && e_pair()(x) == s2.subrange(p2, q),
                Err(_) => true,
            },
{
    assert forall|s2: Seq<u8>, p2: int, end2: int, x: PairV|
        #![trigger d_pair()(s2, p2, end2), e_pair()(x)]
        (wf_pair(x) && 0 <= p2 && p2 + e_pair()(x).len() <= end2 <= s2.len()
            && s2.subrange(p2, p2 + e_pair()(x).len() as int) == e_pair()(x))
            implies d_pair()(s2, p2, end2) == Ok::<(PairV, int), CodecError>((x, p2 + e_pair()(x).len())) by {
        lemma_pair_rt(s2, p2, end2, x);
    }
    assert forall|x: PairV| wf_pair(x) implies #[trigger] e_pair()(x).len() >= 1 by {
        lemma_pair_rt_len(x);
    }
    assert forall|s2: Seq<u8>, p2: int, end2: int| 0 <= p2 <= end2 <= s2.len()
        implies match #[trigger] d_pair()(s2, p2, end2) {
            Ok((x, q)) => p2 < q <= end2 && wf_pair(x) && e_pair()(x) == s2.subrange(p2, q),
            Err(_) => true,
        } by {
        lemma_pair_sound(s2, p2, end2);
    }
}

pub proof fn lemma_pool_update_hyps()
    ensures
        forall|s2: Seq<u8>, p2: int, end2: int, x: PoolUpdateV|
            #![trigger d_pool_update()(s2, p2, end2), e_pool_update()(x)]
            (wf_pool_update(x) && 0 <= p2 && p2 + e_pool_update()(x).len() <= end2 <= s2.len()
                && s2.subrange(p2, p2 + e_pool_update()(x).len() as int) == e_pool_update()(x))
                ==> d_pool_update()(s2, p2, end2) == Ok::<(PoolUpdateV, int), CodecError>((x, p2 + e_pool_update()(x).len())),
        forall|x: PoolUpdateV| wf_pool_update(x) ==> #[trigger] e_pool_update()(x).len() >= 1,
        forall|s2: Seq<u8>, p2: int, end2: int| 0 <= p2 <= end2 <= s2.len()
            ==> match #[trigger] d_pool_update()(s2, p2, end2) {
                Ok((x, q)) => p2 < q <= end2 && wf_pool_update(x) && e_pool_update()(x) == s2.subrange(p2, q),
                Err(_) => true,
            },
{
    assert forall|s2: Seq<u8>, p2: int, end2: int, x: PoolUpdateV|
        #![trigger d_pool_update()(s2, p2, end2), e_pool_update()(x)]
        (wf_pool_update(x) && 0 <= p2 && p2 + e_pool_update()(x).len() <= end2 <= s2.len()
            && s2.subrange(p2, p2 + e_pool_update()(x).len() as int) == e_pool_update()(x))
            implies d_pool_update()(s2, p2, end2) == Ok::<(PoolUpdateV, int), CodecError>((x, p2 + e_pool_update()(x).len())) by {
        lemma_pool_update_rt(s2, p2, end2, x);
    }
    assert forall|x: PoolUpdateV| wf_pool_update(x) implies #[trigger] e_pool_update()(x).len() >= 1 by {
        lemma_pu_rt_len(x);
    }
    assert forall|s2: Seq<u8>, p2: int, end2: int| 0 <= p2 <= end2 <= s2.len()
        implies match #[trigger] d_pool_update()(s2, p2, end2) {
            Ok((x, q)) => p2 < q <= end2 && wf_pool_update(x) && e_pool_update()(x) == s2.subrange(p2, q),
            Err(_) => true,
        } by {
        lemma_pool_update_sound(s2, p2, end2);
    }
}

pub proof fn lemma_tob_hyps()
    ensures
        forall|s2: Seq<u8>, p2: int, end2: int, x: TopOfBlockOrderV|
            #![trigger d_tob()(s2, p2, end2), e_tob()(x)]
            (wf_top_of_block_order(x) && 0 <= p2 && p2 + e_tob()(x).len() <= end2 <= s2.len()
                && s2.subrange(p2, p2 + e_tob()(x).len() as int) == e_tob()(x))
                ==> d_tob()(s2, p2, end2) == Ok::<(TopOfBlockOrderV, int), CodecError>((x, p2 + e_tob()(x).len())),
        forall|x: TopOfBlockOrderV| wf_top_of_block_order(x) ==> #[trigger] e_tob()(x).len() >= 1,
        forall|s2: Seq<u8>, p2: int, end2: int| 0 <= p2 <= end2 <= s2.len()
            ==> match #[trigger] d_tob()(s2, p2, end2) {
                Ok((x, q)) => p2 < q <= end2 && wf_top_of_block_order(x) && e_tob()(x) == s2.subrange(p2, q),
                Err(_) => true,
            },
{
    assert forall|s2: Seq<u8>, p2: int, end2: int, x: TopOfBlockOrderV|
        #![trigger d_tob()(s2, p2, end2), e_tob()(x)]
        (wf_top_of_block_order(x) && 0 <= p2 && p2 + e_tob()(x).len() <= end2 <= s2.len()
            && s2.subrange(p2, p2 + e_tob()(x).len() as int) == e_tob()(x))
            implies d_tob()(s2, p2, end2) == Ok::<(TopOfBlockOrderV, int), CodecError>((x, p2 + e_tob()(x).len())) by {
        lemma_top_of_block_order_rt(s2, p2, end2, x);
    }
    assert forall|x: TopOfBlockOrderV| wf_top_of_block_order(x) implies #[trigger] e_tob()(x).len() >= 1 by {
        lemma_tob_rt_len(x);
    }
    assert forall|s2: Seq<u8>, p2: int, end2: int| 0 <= p2 <= end2 <= s2.len()
        implies match #[trigger] d_tob()(s2, p2, end2) {
            Ok((x, q)) => p2 < q <= end2 && wf_top_of_block_order(x) && e_tob()(x) == s2.subrange(p2, q),
            Err(_) => true,
        } by {
        lemma_top_of_block_order_sound(s2, p2, end2);
    }
}

pub proof fn lemma_user_order_hyps()
    ensures
        forall|s2: Seq<u8>, p2: int, end2: int, x: UserOrderV|
            #![trigger d_user_order()(s2, p2, end2), e_user_order()(x)]
            (wf_user_order(x) && 0 <= p2 && p2 + e_user_order()(x).len() <= end2 <= s2.len()
                && s2.subrange(p2, p2 + e_user_order()(x).len() as int) == e_user_order()(x))
                ==> d_user_order()(s2, p2, end2) == Ok::<(UserOrderV, int), CodecError>((x, p2 + e_user_order()(x).len())),
        forall|x: UserOrderV| wf_user_order(x) ==> #[trigger] e_user_order()(x).len() >= 1,
        forall|s2: Seq<u8>, p2: int, end2: int| 0 <= p2 <= end2 <= s2.len()
            ==> match #[trigger] d_user_order()(s2, p2, end2) {
                Ok((x, q)) => p2 < q <= end2 && wf_user_order(x) && e_user_order()(x) == s2.subrange(p2, q),
                Err(_) => true,
            },
{
    assert forall|s2: Seq<u8>, p2: int, end2: int, x: UserOrderV|
        #![trigger d_user_order()(s2, p2, end2), e_user_order()(x)]
        (wf_user_order(x) && 0 <= p2 && p2 + e_user_order()(x).len() <= end2 <= s2.len()
            && s2.subrange(p2, p2 + e_user_order()(x).len() as int) == e_user_order()(x))
            implies d_user_order()(s2, p2, end2) == Ok::<(UserOrderV, int), CodecError>((x, p2 + e_user_order()(x).len())) by {
        lemma_user_order_rt(s2, p2, end2, x);
    }
    assert forall|x: UserOrderV| wf_user_order(x) implies #[trigger] e_user_order()(x).len() >= 1 by {
        lemma_uo_rt_len(x);
    }
    assert forall|s2: Seq<u8>, p2: int, end2: int| 0 <= p2 <= end2 <= s2.len()
        implies match #[trigger] d_user_order()(s2, p2, end2) {
            Ok((x, q)) => p2 < q <= end2 && wf_user_order(x) && e_user_order()(x) == s2.subrange(p2, q),
            Err(_) => true,
        } by {
        lemma_user_order_sound(s2, p2, end2);
    }
}

/// The bundle decoder evaluates through its five sequences.
pub proof fn lemma_bundle_compose(s: Seq<u8>, pos: int, end: int, v: AngstromBundleV, q1: int, q2: int, q3: int, q4: int, q5: int)
    requires
        sdec_vec(s, pos, end, d_asset()) == Ok::<(Seq<AssetV>, int), CodecError>((v.assets, q1)),
        sdec_vec(s, q1, end, d_pair()) == Ok::<(Seq<PairV>, int), CodecError>((v.pairs, q2)),
        sdec_vec(s, q2, end, d_pool_update()) == Ok::<(Seq<PoolUpdateV>, int), CodecError>((v.pool_updates, q3)),
        sdec_vec(s, q3, end, d_tob()) == Ok::<(Seq<TopOfBlockOrderV>, int), CodecError>((v.top_of_block_orders, q4)),
        sdec_vec(s, q4, end, d_user_order()) == Ok::<(Seq<UserOrderV>, int), CodecError>((v.user_orders, q5)),
    ensures
        sdec_bundle(s, pos, end) == Ok::<(AngstromBundleV, int), CodecError>((v, q5)),
{
}

/// Where each of the five sequences sits inside an encoded bundle.
#[verifier::rlimit(100)]
pub proof fn lemma_bundle_layout(v: AngstromBundleV)
    ensures
        ({
            let t = senc_bundle(v);
            let a1 = senc_vec(v.assets, e_asset());
            let a2 = senc_vec(v.pairs, e_pair());
            let a3 = senc_vec(v.pool_updates, e_pool_update());
            let a4 = senc_vec(v.top_of_block_orders, e_tob());
            let a5 = senc_vec(v.user_orders, e_user_order());
            let z1 = a1.len() as int;
            let z2 = z1 + a2.len() as int;
            let z3 = z2 + a3.len() as int;
            let z4 = z3 + a4.len() as int;
            let z5 = z4 + a5.len() as int;
            t.len() == z5 && t.subrange(0, z1) == a1 && t.subrange(z1, z2) == a2
                && t.subrange(z2, z3) == a3 && t.subrange(z3, z4) == a4
                && t.subrange(z4, z5) == a5
        }),
{
    let t = senc_bundle(v);
    let a1 = senc_vec(v.assets, e_asset());
    let a2 = senc_vec(v.pairs, e_pair());
    let a3 = senc_vec(v.pool_updates, e_pool_update());
    let a4 = senc_vec(v.top_of_block_orders, e_tob());
    let a5 = senc_vec(v.user_orders, e_user_order());
    let z1 = a1.len() as int;
    let z2 = z1 + a2.len() as int;
    let z3 = z2 + a3.len() as int;
    let z4 = z3 + a4.len() as int;
    let z5 = z4 + a5.len() as int;
    assert(t.len() == z5);
    assert(t.subrange(0, z1) =~= a1);
    assert(t.subrange(z1, z2) =~= a2);
    assert(t.subrange(z2, z3) =~= a3);
    assert(t.subrange(z3, z4) =~= a4);
    assert(t.subrange(z4, z5) =~= a5);
}

/// A well-formed bundle embedded at `pos` is read back whole: the round
/// trip, decode of encode.
#[verifier::rlimit(100)]
pub proof fn lemma_bundle_rt(s: Seq<u8>, pos: int, end: int, v: AngstromBundleV)
    requires
        wf_bundle(v),
        0 <= pos,
        pos + senc_bundle(v).len() <= end <= s.len(),
        s.subrange(pos, pos + senc_bundle(v).len() as int) == senc_bundle(v),
    ensures
        sdec_bundle(s, pos, end) == Ok::<(AngstromBundleV, int), CodecError>((v, pos + senc_bundle(v).len())),
{
    lemma_pow256_16();
    lemma_asset_hyps();
    lemma_pair_hyps();
    lemma_pool_update_hyps();
    lemma_tob_hyps();
    lemma_user_order_hyps();
    let t = senc_bundle(v);
    let a1 = senc_vec(v.assets, e_asset());
    let a2 = senc_vec(v.pairs, e_pair());
    let a3 = senc_vec(v.pool_updates, e_pool_update());
    let a4 = senc_vec(v.top_of_block_orders, e_tob());
    let a5 = senc_vec(v.user_orders, e_user_order());
    let z1 = a1.len() as int;
    let z2 = z1 + a2.len() as int;
    let z3 = z2 + a3.len() as int;
    let z4 = z3 + a4.len() as int;
    let z5 = z4 + a5.len() as int;
    lemma_bundle_layout(v);
    lemma_embed_sub(s, pos, t, 0, z1);
    lemma_vec_rt(s, pos, end, v.assets, e_asset(), |a: AssetV| wf_asset(a), d_asset());
    lemma_embed_sub(s, pos, t, z1, z2);
    lemma_vec_rt(s, pos + z1, end, v.pairs, e_pair(), |a: PairV| wf_pair(a), d_pair());
    lemma_embed_sub(s, pos, t, z2, z3);
    lemma_vec_rt(s, pos + z2, end, v.pool_updates, e_pool_update(), |a: PoolUpdateV| wf_pool_update(a), d_pool_update());
    lemma_embed_sub(s, pos, t, z3, z4);
    lemma_vec_rt(s, pos + z3, end, v.top_of_block_orders, e_tob(), |a: TopOfBlockOrderV| wf_top_of_block_order(a), d_tob());
    lemma_embed_sub(s, pos, t, z4, z5);
    lemma_vec_rt(s, pos + z4, end, v.user_orders, e_user_order(), |a: UserOrderV| wf_user_order(a), d_user_order());
    lemma_bundle_compose(s, pos, end, v, pos + z1, pos + z2, pos + z3, pos + z4, pos + z5);
}

pub proof fn lemma_asset_rt_len(x: AssetV)
    ensures
        e_asset()(x).len() == x.addr.len() + 48,
{
    lemma_be_bytes_len(x.save as nat, 16);
    lemma_be_bytes_len(x.take as nat, 16);
    lemma_be_bytes_len(x.settle as nat, 16);
}

pub proof fn lemma_pair_rt_len(x: PairV)
    ensures
        e_pair()(x).len() == 6 + x.price_1over0.len(),
{
    lemma_be_bytes_len(x.index0 as nat, 2);
    lemma_be_bytes_len(x.index1 as nat, 2);
    lemma_be_bytes_len(x.store_index as nat, 2);
}

pub proof fn lemma_pu_rt_len(x: PoolUpdateV)
    ensures
        e_pool_update()(x).len() >= 19,
{
    lemma_be_bytes_len(pu_bitmap(x), 1);
    lemma_be_bytes_len(x.pair_index as nat, 2);
    lemma_be_bytes_len(x.swap_in_quantity as nat, 16);
}

pub proof fn lemma_tob_rt_len(x: TopOfBlockOrderV)
    ensures
        e_tob()(x).len() >= 67,
{
    lemma_be_bytes_len(tob_bitmap(x), 1);
    lemma_be_bytes_len(x.quantity_in as nat, 16);
    lemma_be_bytes_len(x.quantity_out as nat, 16);
    lemma_be_bytes_len(x.max_gas_asset_0 as nat, 16);
    lemma_be_bytes_len(x.gas_used_asset_0 as nat, 16);
    lemma_be_bytes_len(x.pairs_index as nat, 2);
}

pub proof fn lemma_uo_rt_len(x: UserOrderV)
    ensures
        e_user_order()(x).len() >= 39,
{
    lemma_be_bytes_len(uo_bitmap(x), 1);
    lemma_be_bytes_len(x.ref_id as nat, 4);
    lemma_be_bytes_len(x.pair_index as nat, 2);
    lemma_be_bytes_len(x.max_extra_fee_asset0 as nat, 16);
    lemma_be_bytes_len(x.extra_fee_asset0 as nat, 16);
}

/// Whatever a bundle decode accepts is well formed and re-encodes to
/// exactly the consumed bytes: byte stability, encode of decode.
#[verifier::rlimit(100)]
pub proof fn lemma_bundle_sound(s: Seq<u8>, pos: int, end: int)
    requires
        0 <= pos <= end <= s.len(),
    ensures
        match sdec_bundle(s, pos, end) {
            Ok((v, p2)) => pos < p2 <= end && wf_bundle(v) && senc_bundle(v) == s.subrange(pos, p2),
            Err(_) => true,
        },
{
    lemma_pow256_16();
    lemma_asset_hyps();
    lemma_pair_hyps();
    lemma_pool_update_hyps();
    lemma_tob_hyps();
    lemma_user_order_hyps();
    match sdec_bundle(s, pos, end) {
        Err(_) => {},
        Ok((v, p2)) => {
            lemma_vec_sound(s, pos, end, e_asset(), |a: AssetV| wf_asset(a), d_asset());
            let q1: int = sdec_vec(s, pos, end, d_asset())->Ok_0.1;
            lemma_vec_sound(s, q1, end, e_pair(), |a: PairV| wf_pair(a), d_pair());
            let q2: int = sdec_vec(s, q1, end, d_pair())->Ok_0.1;
            lemma_vec_sound(s, q2, end, e_pool_update(), |a: PoolUpdateV| wf_pool_update(a), d_pool_update());
            let q3: int = sdec_vec(s, q2, end, d_pool_update())->Ok_0.1;
            lemma_vec_sound(s, q3, end, e_tob(), |a: TopOfBlockOrderV| wf_top_of_block_order(a), d_tob());
            let q4: int = sdec_vec(s, q3, end, d_tob())->Ok_0.1;
            lemma_vec_sound(s, q4, end, e_user_order(), |a: UserOrderV| wf_user_order(a), d_user_order());
            lemma_sub_join(s, pos, q1, q2);
            lemma_sub_join(s, pos, q2, q3);
            lemma_sub_join(s, pos, q3, q4);
            lemma_sub_join(s, pos, q4, p2);
            assert(senc_bundle(v) == s.subrange(pos, p2));
        },
    }
}

// ------------------------------------------------------------- the laws

/// Round trip: a well-formed bundle, encoded and then decoded from the
/// start of the resulting buffer, comes back unchanged, consuming the whole
/// buffer.
pub proof fn lemma_round_trip(v: AngstromBundleV)
    requires
        wf_bundle(v),
    ensures
        sdec_bundle(senc_bundle(v), 0, senc_bundle(v).len() as int)
            == Ok::<(AngstromBundleV, int), CodecError>((v, senc_bundle(v).len() as int)),
{
    let s = senc_bundle(v);
    assert(s.subrange(0, s.len() as int) =~= s);
    lemma_bundle_rt(s, 0, s.len() as int, v);
}

/// Byte stability: any buffer a bundle decode accepts whole re-encodes to
/// exactly itself, and the decoded value is well formed.
pub proof fn lemma_byte_stability(b: Seq<u8>, v: AngstromBundleV)
    requires
        sdec_bundle(b, 0, b.len() as int) == Ok::<(AngstromBundleV, int), CodecError>((v, b.len() as int)),
    ensures
        wf_bundle(v),
        senc_bundle(v) == b,
{
    lemma_bundle_sound(b, 0, b.len() as int);
    assert(b.subrange(0, b.len() as int) =~= b);
}

/// Selector gate: call text whose hex does not open with the selector is
/// rejected as such before any decoding, whatever follows.
pub proof fn lemma_selector_gate(sb: Seq<u8>)
    requires
        !has_selector(strip_0x(sb)),
    ensures
        spec_decode_call(sb) == Err::<AngstromBundleV, CodecError>(CodecError::InvalidSelector),
{
}

/// Tag bounds: each union rejects every tag at or past its two declared
/// variants.
pub proof fn lemma_tag_bounds(s: Seq<u8>, pos: int, end: int, tag: nat)
    requires
        tag >= 2,
    ensures
        sdec_signature(s, pos, end, tag) == Err::<(SignatureV, int), CodecError>(CodecError::InvalidVariant),
        sdec_order_quantities(s, pos, end, tag) == Err::<(OrderQuantitiesV, int), CodecError>(CodecError::InvalidVariant),
        sdec_rewards_update(s, pos, end, tag) == Err::<(RewardsUpdateV, int), CodecError>(CodecError::InvalidVariant),
{
}

/// Width-limited field: a standing validation's deadline is read from five
/// wire bytes, zero-extended into its eight-byte native width; every
/// five-byte value decodes, and nothing at or past two to the fortieth can
/// come back.
pub proof fn lemma_deadline_width(s: Seq<u8>, pos: int, end: int)
    requires
        0 <= pos,
        pos + 13 <= end <= s.len(),
    ensures
        sdec_standing_validation(s, pos, end) == Ok::<(StandingValidationV, int), CodecError>((
            StandingValidationV {
                nonce: be_val(s.subrange(pos, pos + 8)) as u64,
                deadline: be_val(s.subrange(pos + 8, pos + 13)) as u64,
            },
            pos + 13,
        )),
        be_val(s.subrange(pos + 8, pos + 13)) < pow256(5),
        (be_val(s.subrange(pos + 8, pos + 13)) as u64) as nat == be_val(s.subrange(pos + 8, pos + 13)),
{
    lemma_pow256_16();
    lemma_be_val_bound(s.subrange(pos + 8, pos + 13));
    lemma_pow256_mono(5, 8);
    lemma_be_val_bound(s.subrange(pos, pos + 8));
}

} // verus!
