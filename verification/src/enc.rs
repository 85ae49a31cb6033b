//! The executable encoders. Each one succeeds exactly on well-formed
//! values, and then returns exactly the bytes its spec encoder in `model`
//! describes; otherwise it reports `Overflow`.

use vstd::prelude::*;

use crate::err::CodecError;
use crate::model::{
    senc_opt_addr, senc_opt_hook, senc_opt_sv, view_opt_bytes, view_opt_sv,
    e_asset, e_pair, e_pool_update, e_tob, e_u128, e_user_order, lemma_senc_cat_snoc, pu_bitmap,
    senc_asset, senc_bundle, senc_byte_vec, senc_cat, senc_order_quantities, senc_pair,
    senc_pool_update, senc_rewards_update, senc_signature, senc_standing_validation,
    senc_top_of_block_order, senc_user_order, senc_vec, tob_bitmap, uo_bitmap, wf_asset,
    wf_bundle, wf_byte_vec, wf_pair, wf_pool_update, wf_rewards_update, wf_signature,
    wf_standing_validation, wf_top_of_block_order, wf_user_order, wf_vec,
};
use crate::prim::{be_bytes, lemma_pow256_16, pow256, write_fixed, write_uint};
use crate::types::{
    AngstromBundle, Asset, AssetV, OrderQuantities, Pair, PairV, PoolUpdate, PoolUpdateV,
    RewardsUpdate, Signature, StandingValidation, TopOfBlockOrder, TopOfBlockOrderV, UserOrder,
    UserOrderV,
};

verus! {

/// The largest payload count a 3-byte sequence prefix can carry, plus one.
pub const SEQ_LIMIT: usize = 0x1000000;

/// One asset record.
pub fn encode_asset(v: &Asset) -> (r: Result<Vec<u8>, CodecError>)
    ensures
        match r {
            Ok(b) => wf_asset(v@) && b@ == senc_asset(v@),
            Err(e) => !wf_asset(v@) && e == CodecError::Overflow,
        },
{
    if v.addr.len() != 20 {
        return Err(CodecError::Overflow);
    }
    proof {
        lemma_pow256_16();
    }
    let mut out: Vec<u8> = Vec::new();
    write_fixed(&mut out, &v.addr);
    write_uint(&mut out, v.save, 16);
    write_uint(&mut out, v.take, 16);
    write_uint(&mut out, v.settle, 16);
    proof {
        assert(out@ =~= senc_asset(v@));
    }
    Ok(out)
}

/// One pair record.
pub fn encode_pair(v: &Pair) -> (r: Result<Vec<u8>, CodecError>)
    ensures
        match r {
            Ok(b) => wf_pair(v@) && b@ == senc_pair(v@),
            Err(e) => !wf_pair(v@) && e == CodecError::Overflow,
        },
{
    if v.price_1over0.len() != 32 {
        return Err(CodecError::Overflow);
    }
    proof {
        lemma_pow256_16();
    }
    let mut out: Vec<u8> = Vec::new();
    write_uint(&mut out, v.index0 as u128, 2);
    write_uint(&mut out, v.index1 as u128, 2);
    write_uint(&mut out, v.store_index as u128, 2);
    write_fixed(&mut out, &v.price_1over0);
    proof {
        assert(out@ =~= senc_pair(v@));
    }
    Ok(out)
}

/// A standing validation; the deadline must fit its five-byte width.
pub fn encode_standing_validation(v: &StandingValidation) -> (r: Result<Vec<u8>, CodecError>)
    ensures
        match r {
            Ok(b) => wf_standing_validation(v@) && b@ == senc_standing_validation(v@),
            Err(e) => !wf_standing_validation(v@) && e == CodecError::Overflow,
        },
{
    proof {
        lemma_pow256_16();
    }
    if v.deadline >= 0x10000000000u64 {
        return Err(CodecError::Overflow);
    }
    let mut out: Vec<u8> = Vec::new();
    write_uint(&mut out, v.nonce as u128, 8);
    write_uint(&mut out, v.deadline as u128, 5);
    proof {
        assert(out@ =~= senc_standing_validation(v@));
    }
    Ok(out)
}

/// An opaque byte run with its 3-byte count.
pub fn encode_byte_vec(b: &Vec<u8>) -> (r: Result<Vec<u8>, CodecError>)
    ensures
        match r {
            Ok(o) => wf_byte_vec(b@) && o@ == senc_byte_vec(b@),
            Err(e) => !wf_byte_vec(b@) && e == CodecError::Overflow,
        },
{
    proof {
        lemma_pow256_16();
    }
    if b.len() >= SEQ_LIMIT {
        return Err(CodecError::Overflow);
    }
    let mut out: Vec<u8> = Vec::new();
    write_uint(&mut out, b.len() as u128, 3);
    write_fixed(&mut out, b);
    proof {
        assert(out@ =~= senc_byte_vec(b@));
    }
    Ok(out)
}

/// The payload of a `Signature` union; its tag bit lives in the bitmap of
/// the record holding it.
pub fn encode_signature(v: &Signature) -> (r: Result<Vec<u8>, CodecError>)
    ensures
        match r {
            Ok(b) => wf_signature(v@) && b@ == senc_signature(v@),
            Err(e) => !wf_signature(v@) && e == CodecError::Overflow,
        },
{
    proof {
        lemma_pow256_16();
    }
    match v {
        Signature::Contract { from, signature } => {
            if from.len() != 20 {
                return Err(CodecError::Overflow);
            }
            let mut sig = match encode_byte_vec(signature) {
                Ok(x) => x,
                Err(e) => {
                    return Err(e);
                },
            };
            let mut out: Vec<u8> = Vec::new();
            write_fixed(&mut out, from);
            out.append(&mut sig);
            proof {
                assert(out@ =~= senc_signature(v@));
            }
            Ok(out)
        },
        Signature::Ecdsa { v: vb, r: rw, s: sw } => {
            if rw.len() != 32 || sw.len() != 32 {
                return Err(CodecError::Overflow);
            }
            let mut out: Vec<u8> = Vec::new();
            write_uint(&mut out, *vb as u128, 1);
            write_fixed(&mut out, rw);
            write_fixed(&mut out, sw);
            proof {
                assert(out@ =~= senc_signature(v@));
            }
            Ok(out)
        },
    }
}

/// The payload of an `OrderQuantities` union.
pub fn encode_order_quantities(v: &OrderQuantities) -> (r: Result<Vec<u8>, CodecError>)
    ensures
        match r {
            Ok(b) => b@ == senc_order_quantities(v@),
            Err(e) => false,
        },
{
    proof {
        lemma_pow256_16();
    }
    match v {
        OrderQuantities::Exact { quantity } => {
            let mut out: Vec<u8> = Vec::new();
            write_uint(&mut out, *quantity, 16);
            proof {
                assert(out@ =~= senc_order_quantities(v@));
            }
            Ok(out)
        },
        OrderQuantities::Partial { min_quantity_in, max_quantity_in, filled_quantity } => {
            let mut out: Vec<u8> = Vec::new();
            write_uint(&mut out, *min_quantity_in, 16);
            write_uint(&mut out, *max_quantity_in, 16);
            write_uint(&mut out, *filled_quantity, 16);
            proof {
                assert(out@ =~= senc_order_quantities(v@));
            }
            Ok(out)
        },
    }
}

/// The `quantities` sequence of a rewards update, with its 3-byte count.
#[verifier::loop_isolation(false)]
pub fn encode_quantities(vs: &Vec<u128>) -> (r: Result<Vec<u8>, CodecError>)
    ensures
        match r {
            Ok(b) => wf_vec(vs@, e_u128(), |q: u128| true) && b@ == senc_vec(vs@, e_u128()),
            Err(e) => !wf_vec(vs@, e_u128(), |q: u128| true) && e == CodecError::Overflow,
        },
{
    proof {
        lemma_pow256_16();
    }
    let mut body: Vec<u8> = Vec::new();
    let mut i: usize = 0;
    while i < vs.len()
        invariant
            0 <= i <= vs@.len(),
            body@ == senc_cat(vs@.take(i as int), e_u128()),
        decreases vs@.len() - i,
    {
        let ghost old_body = body@;
        write_uint(&mut body, vs[i], 16);
        proof {
            lemma_senc_cat_snoc(vs@.take(i as int), vs@[i as int], e_u128());
            assert(vs@.take(i as int).push(vs@[i as int]) =~= vs@.take(i + 1));
            assert(e_u128()(vs@[i as int]) == be_bytes(vs@[i as int] as nat, 16));
        }
        i = i + 1;
    }
    proof {
        assert(vs@.take(vs@.len() as int) =~= vs@);
    }
    if body.len() >= SEQ_LIMIT {
        return Err(CodecError::Overflow);
    }
    let mut out: Vec<u8> = Vec::new();
    write_uint(&mut out, body.len() as u128, 3);
    out.append(&mut body);
    Ok(out)
}

/// The payload of a `RewardsUpdate` union.
pub fn encode_rewards_update(v: &RewardsUpdate) -> (r: Result<Vec<u8>, CodecError>)
    ensures
        match r {
            Ok(b) => wf_rewards_update(v@) && b@ == senc_rewards_update(v@),
            Err(e) => !wf_rewards_update(v@) && e == CodecError::Overflow,
        },
{
    proof {
        lemma_pow256_16();
    }
    match v {
        RewardsUpdate::MultiTick { start_tick, start_liquidity, quantities, reward_checksum } => {
            if start_tick.len() != 3 || reward_checksum.len() != 20 {
                return Err(CodecError::Overflow);
            }
            let mut qs = match encode_quantities(quantities) {
                Ok(x) => x,
                Err(e) => {
                    return Err(e);
                },
            };
            let mut out: Vec<u8> = Vec::new();
            write_fixed(&mut out, start_tick);
            write_uint(&mut out, *start_liquidity, 16);
            out.append(&mut qs);
            write_fixed(&mut out, reward_checksum);
            proof {
                assert(out@ =~= senc_rewards_update(v@));
            }
            Ok(out)
        },
        RewardsUpdate::CurrentOnly { amount, expected_liquidity } => {
            let mut out: Vec<u8> = Vec::new();
            write_uint(&mut out, *amount, 16);
            write_uint(&mut out, *expected_liquidity, 16);
            proof {
                assert(out@ =~= senc_rewards_update(v@));
            }
            Ok(out)
        },
    }
}

/// One pool update, with its bitmap byte.
pub fn encode_pool_update(v: &PoolUpdate) -> (r: Result<Vec<u8>, CodecError>)
    ensures
        match r {
            Ok(b) => wf_pool_update(v@) && b@ == senc_pool_update(v@),
            Err(e) => !wf_pool_update(v@) && e == CodecError::Overflow,
        },
{
    proof {
        lemma_pow256_16();
    }
    let mut ru = match encode_rewards_update(&v.rewards_update) {
        Ok(x) => x,
        Err(e) => {
            return Err(e);
        },
    };
    let bm: u8 = (if v.zero_for_one {
        1u8
    } else {
        0u8
    }) + (match &v.rewards_update {
        RewardsUpdate::MultiTick { .. } => 0u8,
        RewardsUpdate::CurrentOnly { .. } => 2u8,
    });
    let mut out: Vec<u8> = Vec::new();
    proof {
        assert(bm as nat == pu_bitmap(v@));
    }
    write_uint(&mut out, bm as u128, 1);
    write_uint(&mut out, v.pair_index as u128, 2);
    write_uint(&mut out, v.swap_in_quantity, 16);
    out.append(&mut ru);
    proof {
        assert(out@ =~= senc_pool_update(v@));
    }
    Ok(out)
}

/// One top-of-block order, with its bitmap byte.
pub fn encode_top_of_block_order(v: &TopOfBlockOrder) -> (r: Result<Vec<u8>, CodecError>)
    ensures
        match r {
            Ok(b) => wf_top_of_block_order(v@) && b@ == senc_top_of_block_order(v@),
            Err(e) => !wf_top_of_block_order(v@) && e == CodecError::Overflow,
        },
{
    proof {
        lemma_pow256_16();
    }
    let mut sig = match encode_signature(&v.signature) {
        Ok(x) => x,
        Err(e) => {
            return Err(e);
        },
    };
    let bm: u8 = (if v.use_internal {
        1u8
    } else {
        0u8
    }) + (if v.zero_for_1 {
        2u8
    } else {
        0u8
    }) + (match &v.recipient {
        Some(_) => 4u8,
        None => 0u8,
    }) + (match &v.signature {
        Signature::Contract { .. } => 0u8,
        Signature::Ecdsa { .. } => 8u8,
    });
    let mut out: Vec<u8> = Vec::new();
    proof {
        assert(bm as nat == tob_bitmap(v@));
    }
    write_uint(&mut out, bm as u128, 1);
    write_uint(&mut out, v.quantity_in, 16);
    write_uint(&mut out, v.quantity_out, 16);
    write_uint(&mut out, v.max_gas_asset_0, 16);
    write_uint(&mut out, v.gas_used_asset_0, 16);
    write_uint(&mut out, v.pairs_index as u128, 2);
    match &v.recipient {
        Some(a) => {
            if a.len() != 20 {
                return Err(CodecError::Overflow);
            }
            write_fixed(&mut out, a);
        },
        None => {},
    }
    out.append(&mut sig);
    proof {
        assert(out@ =~= senc_top_of_block_order(v@));
    }
    Ok(out)
}

/// An optional 20-byte address: its bytes if present, nothing otherwise.
fn encode_opt_addr(r: &Option<Vec<u8>>) -> (res: Result<Vec<u8>, CodecError>)
    ensures
        match res {
            Ok(b) => (match view_opt_bytes(*r) {
                Some(a) => a.len() == 20,
                None => true,
            }) && b@ == senc_opt_addr(view_opt_bytes(*r)),
            Err(e) => (match view_opt_bytes(*r) {
                Some(a) => a.len() != 20,
                None => false,
            }) && e == CodecError::Overflow,
        },
{
    match r {
        Some(a) => {
            if a.len() != 20 {
                return Err(CodecError::Overflow);
            }
            let mut out: Vec<u8> = Vec::new();
            write_fixed(&mut out, a);
            proof {
                assert(out@ =~= senc_opt_addr(view_opt_bytes(*r)));
            }
            Ok(out)
        },
        None => Ok(Vec::new()),
    }
}

/// An optional opaque byte run with its count, or nothing.
fn encode_opt_hook(h: &Option<Vec<u8>>) -> (res: Result<Vec<u8>, CodecError>)
    ensures
        match res {
            Ok(b) => (match view_opt_bytes(*h) {
                Some(x) => wf_byte_vec(x),
                None => true,
            }) && b@ == senc_opt_hook(view_opt_bytes(*h)),
            Err(e) => (match view_opt_bytes(*h) {
                Some(x) => !wf_byte_vec(x),
                None => false,
            }) && e == CodecError::Overflow,
        },
{
    match h {
        Some(x) => {
            match encode_byte_vec(x) {
                Ok(b) => Ok(b),
                Err(e) => Err(e),
            }
        },
        None => Ok(Vec::new()),
    }
}

/// An optional standing validation, or nothing.
fn encode_opt_sv(sv: &Option<StandingValidation>) -> (res: Result<Vec<u8>, CodecError>)
    ensures
        match res {
            Ok(b) => (match view_opt_sv(*sv) {
                Some(x) => wf_standing_validation(x),
                None => true,
            }) && b@ == senc_opt_sv(view_opt_sv(*sv)),
            Err(e) => (match view_opt_sv(*sv) {
                Some(x) => !wf_standing_validation(x),
                None => false,
            }) && e == CodecError::Overflow,
        },
{
    match sv {
        Some(x) => {
            match encode_standing_validation(x) {
                Ok(b) => Ok(b),
                Err(e) => Err(e),
            }
        },
        None => Ok(Vec::new()),
    }
}

/// The bitmap byte of a user order: its eight flags packed least
/// significant bit first in declaration order.
fn uo_bitmap_byte(v: &UserOrder) -> (bm: u8)
    ensures
        bm as nat == uo_bitmap(v@),
{
    (if v.use_internal {
        1u8
    } else {
        0u8
    }) + (match &v.recipient {
        Some(_) => 2u8,
        None => 0u8,
    }) + (match &v.hook_data {
        Some(_) => 4u8,
        None => 0u8,
    }) + (if v.zero_for_one {
        8u8
    } else {
        0u8
    }) + (match &v.standing_validation {
        Some(_) => 16u8,
        None => 0u8,
    }) + (match &v.order_quantities {
        OrderQuantities::Exact { .. } => 0u8,
        OrderQuantities::Partial { .. } => 32u8,
    }) + (if v.exact_in {
        64u8
    } else {
        0u8
    }) + (match &v.signature {
        Signature::Contract { .. } => 0u8,
        Signature::Ecdsa { .. } => 128u8,
    })
}

/// One user order, with its bitmap byte of eight declared flags.
#[verifier::rlimit(100)]
pub fn encode_user_order(v: &UserOrder) -> (r: Result<Vec<u8>, CodecError>)
    ensures
        match r {
            Ok(b) => wf_user_order(v@) && b@ == senc_user_order(v@),
            Err(e) => !wf_user_order(v@) && e == CodecError::Overflow,
        },
{
    proof {
        lemma_pow256_16();
    }
    if v.min_price.len() != 32 {
        return Err(CodecError::Overflow);
    }
    let mut sig = match encode_signature(&v.signature) {
        Ok(x) => x,
        Err(e) => {
            return Err(e);
        },
    };
    let mut oq = match encode_order_quantities(&v.order_quantities) {
        Ok(x) => x,
        Err(e) => {
            return Err(e);
        },
    };
    let bm: u8 = uo_bitmap_byte(v);
    let mut rb = match encode_opt_addr(&v.recipient) {
        Ok(x) => x,
        Err(e) => {
            return Err(e);
        },
    };
    let mut hb = match encode_opt_hook(&v.hook_data) {
        Ok(x) => x,
        Err(e) => {
            return Err(e);
        },
    };
    let mut vb = match encode_opt_sv(&v.standing_validation) {
        Ok(x) => x,
        Err(e) => {
            return Err(e);
        },
    };
    proof {
        assert(bm as nat == uo_bitmap(v@));
        assert(view_opt_bytes(v.recipient) == v@.recipient);
        assert(view_opt_bytes(v.hook_data) == v@.hook_data);
        assert(view_opt_sv(v.standing_validation) == v@.standing_validation);
    }
    let mut out: Vec<u8> = Vec::new();
    write_uint(&mut out, bm as u128, 1);
    proof {
        assert(out@ =~= be_bytes(uo_bitmap(v@), 1));
    }
    write_uint(&mut out, v.ref_id as u128, 4);
    proof {
        assert(out@ == be_bytes(uo_bitmap(v@), 1) + be_bytes(v@.ref_id as nat, 4));
    }
    write_uint(&mut out, v.pair_index as u128, 2);
    write_fixed(&mut out, &v.min_price);
    out.append(&mut rb);
    out.append(&mut hb);
    out.append(&mut vb);
    out.append(&mut oq);
    write_uint(&mut out, v.max_extra_fee_asset0, 16);
    write_uint(&mut out, v.extra_fee_asset0, 16);
    out.append(&mut sig);
    proof {
        assert(out@ == senc_user_order(v@));
    }
    Ok(out)
}

/// The `assets` sequence with its 3-byte payload count.
#[verifier::loop_isolation(false)]
pub fn encode_assets(vs: &Vec<Asset>) -> (r: Result<Vec<u8>, CodecError>)
    ensures
        match r {
            Ok(b) => wf_vec(vs@.map_values(|a: Asset| a@), e_asset(), |a: AssetV| wf_asset(a))
                && b@ == senc_vec(vs@.map_values(|a: Asset| a@), e_asset()),
            Err(e) => !wf_vec(vs@.map_values(|a: Asset| a@), e_asset(), |a: AssetV| wf_asset(a))
                && e == CodecError::Overflow,
        },
{
    proof {
        lemma_pow256_16();
    }
    let ghost m = vs@.map_values(|a: Asset| a@);
    let mut body: Vec<u8> = Vec::new();
    let mut i: usize = 0;
    while i < vs.len()
        invariant
            0 <= i <= vs@.len(),
            body@ == senc_cat(m.take(i as int), e_asset()),
            forall|j: int| 0 <= j < i ==> wf_asset(#[trigger] m[j]),
        decreases vs@.len() - i,
    {
        let mut eb = match encode_asset(&vs[i]) {
            Ok(x) => x,
            Err(e) => {
                proof {
                    assert(!wf_asset(m[i as int]));
                }
                return Err(e);
            },
        };
        body.append(&mut eb);
        proof {
            lemma_senc_cat_snoc(m.take(i as int), m[i as int], e_asset());
            assert(m.take(i as int).push(m[i as int]) =~= m.take(i + 1));
        }
        i = i + 1;
    }
    proof {
        assert(m.take(m.len() as int) =~= m);
    }
    if body.len() >= SEQ_LIMIT {
        return Err(CodecError::Overflow);
    }
    let mut out: Vec<u8> = Vec::new();
    write_uint(&mut out, body.len() as u128, 3);
    out.append(&mut body);
    Ok(out)
}

/// The `pairs` sequence with its 3-byte payload count.
#[verifier::loop_isolation(false)]
pub fn encode_pairs(vs: &Vec<Pair>) -> (r: Result<Vec<u8>, CodecError>)
    ensures
        match r {
            Ok(b) => wf_vec(vs@.map_values(|a: Pair| a@), e_pair(), |a: PairV| wf_pair(a))
                && b@ == senc_vec(vs@.map_values(|a: Pair| a@), e_pair()),
            Err(e) => !wf_vec(vs@.map_values(|a: Pair| a@), e_pair(), |a: PairV| wf_pair(a))
                && e == CodecError::Overflow,
        },
{
    proof {
        lemma_pow256_16();
    }
    let ghost m = vs@.map_values(|a: Pair| a@);
    let mut body: Vec<u8> = Vec::new();
    let mut i: usize = 0;
    while i < vs.len()
        invariant
            0 <= i <= vs@.len(),
            body@ == senc_cat(m.take(i as int), e_pair()),
            forall|j: int| 0 <= j < i ==> wf_pair(#[trigger] m[j]),
        decreases vs@.len() - i,
    {
        let mut eb = match encode_pair(&vs[i]) {
            Ok(x) => x,
            Err(e) => {
                proof {
                    assert(!wf_pair(m[i as int]));
                }
                return Err(e);
            },
        };
        body.append(&mut eb);
        proof {
            lemma_senc_cat_snoc(m.take(i as int), m[i as int], e_pair());
            assert(m.take(i as int).push(m[i as int]) =~= m.take(i + 1));
        }
        i = i + 1;
    }
    proof {
        assert(m.take(m.len() as int) =~= m);
    }
    if body.len() >= SEQ_LIMIT {
        return Err(CodecError::Overflow);
    }
    let mut out: Vec<u8> = Vec::new();
    write_uint(&mut out, body.len() as u128, 3);
    out.append(&mut body);
    Ok(out)
}

/// The `pool_updates` sequence with its 3-byte payload count.
#[verifier::loop_isolation(false)]
pub fn encode_pool_updates(vs: &Vec<PoolUpdate>) -> (r: Result<Vec<u8>, CodecError>)
    ensures
        match r {
            Ok(b) => wf_vec(vs@.map_values(|a: PoolUpdate| a@), e_pool_update(), |a: PoolUpdateV| wf_pool_update(a))
                && b@ == senc_vec(vs@.map_values(|a: PoolUpdate| a@), e_pool_update()),
            Err(e) => !wf_vec(vs@.map_values(|a: PoolUpdate| a@), e_pool_update(), |a: PoolUpdateV| wf_pool_update(a))
                && e == CodecError::Overflow,
        },
{
    proof {
        lemma_pow256_16();
    }
    let ghost m = vs@.map_values(|a: PoolUpdate| a@);
    let mut body: Vec<u8> = Vec::new();
    let mut i: usize = 0;
    while i < vs.len()
        invariant
            0 <= i <= vs@.len(),
            body@ == senc_cat(m.take(i as int), e_pool_update()),
            forall|j: int| 0 <= j < i ==> wf_pool_update(#[trigger] m[j]),
        decreases vs@.len() - i,
    {
        let mut eb = match encode_pool_update(&vs[i]) {
            Ok(x) => x,
            Err(e) => {
                proof {
                    assert(!wf_pool_update(m[i as int]));
                }
                return Err(e);
            },
        };
        body.append(&mut eb);
        proof {
            lemma_senc_cat_snoc(m.take(i as int), m[i as int], e_pool_update());
            assert(m.take(i as int).push(m[i as int]) =~= m.take(i + 1));
        }
        i = i + 1;
    }
    proof {
        assert(m.take(m.len() as int) =~= m);
    }
    if body.len() >= SEQ_LIMIT {
        return Err(CodecError::Overflow);
    }
    let mut out: Vec<u8> = Vec::new();
    write_uint(&mut out, body.len() as u128, 3);
    out.append(&mut body);
    Ok(out)
}

/// The `top_of_block_orders` sequence with its 3-byte payload count.
#[verifier::loop_isolation(false)]
pub fn encode_top_of_block_orders(vs: &Vec<TopOfBlockOrder>) -> (r: Result<Vec<u8>, CodecError>)
    ensures
        match r {
            Ok(b) => wf_vec(vs@.map_values(|a: TopOfBlockOrder| a@), e_tob(), |a: TopOfBlockOrderV| wf_top_of_block_order(a))
                && b@ == senc_vec(vs@.map_values(|a: TopOfBlockOrder| a@), e_tob()),
            Err(e) => !wf_vec(vs@.map_values(|a: TopOfBlockOrder| a@), e_tob(), |a: TopOfBlockOrderV| wf_top_of_block_order(a))
                && e == CodecError::Overflow,
        },
{
    proof {
        lemma_pow256_16();
    }
    let ghost m = vs@.map_values(|a: TopOfBlockOrder| a@);
    let mut body: Vec<u8> = Vec::new();
    let mut i: usize = 0;
    while i < vs.len()
        invariant
            0 <= i <= vs@.len(),
            body@ == senc_cat(m.take(i as int), e_tob()),
            forall|j: int| 0 <= j < i ==> wf_top_of_block_order(#[trigger] m[j]),
        decreases vs@.len() - i,
    {
        let mut eb = match encode_top_of_block_order(&vs[i]) {
            Ok(x) => x,
            Err(e) => {
                proof {
                    assert(!wf_top_of_block_order(m[i as int]));
                }
                return Err(e);
            },
        };
        body.append(&mut eb);
        proof {
            lemma_senc_cat_snoc(m.take(i as int), m[i as int], e_tob());
            assert(m.take(i as int).push(m[i as int]) =~= m.take(i + 1));
        }
        i = i + 1;
    }
    proof {
        assert(m.take(m.len() as int) =~= m);
    }
    if body.len() >= SEQ_LIMIT {
        return Err(CodecError::Overflow);
    }
    let mut out: Vec<u8> = Vec::new();
    write_uint(&mut out, body.len() as u128, 3);
    out.append(&mut body);
    Ok(out)
}

/// The `user_orders` sequence with its 3-byte payload count.
#[verifier::loop_isolation(false)]
pub fn encode_user_orders(vs: &Vec<UserOrder>) -> (r: Result<Vec<u8>, CodecError>)
    ensures
        match r {
            Ok(b) => wf_vec(vs@.map_values(|a: UserOrder| a@), e_user_order(), |a: UserOrderV| wf_user_order(a))
                && b@ == senc_vec(vs@.map_values(|a: UserOrder| a@), e_user_order()),
            Err(e) => !wf_vec(vs@.map_values(|a: UserOrder| a@), e_user_order(), |a: UserOrderV| wf_user_order(a))
                && e == CodecError::Overflow,
        },
{
    proof {
        lemma_pow256_16();
    }
    let ghost m = vs@.map_values(|a: UserOrder| a@);
    let mut body: Vec<u8> = Vec::new();
    let mut i: usize = 0;
    while i < vs.len()
        invariant
            0 <= i <= vs@.len(),
            body@ == senc_cat(m.take(i as int), e_user_order()),
            forall|j: int| 0 <= j < i ==> wf_user_order(#[trigger] m[j]),
        decreases vs@.len() - i,
    {
        let mut eb = match encode_user_order(&vs[i]) {
            Ok(x) => x,
            Err(e) => {
                proof {
                    assert(!wf_user_order(m[i as int]));
                }
                return Err(e);
            },
        };
        body.append(&mut eb);
        proof {
            lemma_senc_cat_snoc(m.take(i as int), m[i as int], e_user_order());
            assert(m.take(i as int).push(m[i as int]) =~= m.take(i + 1));
        }
        i = i + 1;
    }
    proof {
        assert(m.take(m.len() as int) =~= m);
    }
    if body.len() >= SEQ_LIMIT {
        return Err(CodecError::Overflow);
    }
    let mut out: Vec<u8> = Vec::new();
    write_uint(&mut out, body.len() as u128, 3);
    out.append(&mut body);
    Ok(out)
}

/// A whole bundle: its five sequences in order. Succeeds exactly on
/// well-formed bundles and then returns exactly the wire bytes.
pub fn encode_bundle(v: &AngstromBundle) -> (r: Result<Vec<u8>, CodecError>)
    ensures
        match r {
            Ok(b) => wf_bundle(v@) && b@ == senc_bundle(v@),
            Err(e) => !wf_bundle(v@) && e == CodecError::Overflow,
        },
{
    let mut out = match encode_assets(&v.assets) {
        Ok(x) => x,
        Err(e) => {
            return Err(e);
        },
    };
    let mut pb = match encode_pairs(&v.pairs) {
        Ok(x) => x,
        Err(e) => {
            return Err(e);
        },
    };
    let mut ub = match encode_pool_updates(&v.pool_updates) {
        Ok(x) => x,
        Err(e) => {
            return Err(e);
        },
    };
    let mut tb = match encode_top_of_block_orders(&v.top_of_block_orders) {
        Ok(x) => x,
        Err(e) => {
            return Err(e);
        },
    };
    let mut ob = match encode_user_orders(&v.user_orders) {
        Ok(x) => x,
        Err(e) => {
            return Err(e);
        },
    };
    out.append(&mut pb);
    out.append(&mut ub);
    out.append(&mut tb);
    out.append(&mut ob);
    proof {
        assert(out@ =~= senc_bundle(v@));
    }
    Ok(out)
}

} // verus!
