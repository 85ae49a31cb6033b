//! The executable decoders. Each one returns exactly what its spec decoder
//! in `model` says, value, final position and error alike, and consumes at
//! least one byte on success.

use vstd::prelude::*;

use crate::err::CodecError;
use crate::model::{
    d_asset, d_pair, d_pool_update, d_tob, d_u128, d_user_order, sdec_asset, sdec_bundle,
    sdec_byte_vec, sdec_elems, sdec_opt_addr, sdec_opt_hook, sdec_opt_sv, sdec_order_quantities,
    sdec_pair, sdec_pool_update, sdec_rewards_update, sdec_signature, sdec_standing_validation,
    sdec_top_of_block_order, sdec_user_order, sdec_vec,
};
use crate::prim::{lemma_pow256_16, pow256, read_fixed, read_uint};
use crate::types::{
    AngstromBundle, AngstromBundleV, Asset, AssetV, OrderQuantities, OrderQuantitiesV, Pair, PairV,
    PoolUpdate, PoolUpdateV, RewardsUpdate, RewardsUpdateV, Signature, SignatureV,
    StandingValidation, StandingValidationV, TopOfBlockOrder, TopOfBlockOrderV, UserOrder,
    UserOrderV,
};

verus! {

/// One asset record: a 20-byte address and three 16-byte quantities.
pub fn decode_asset(buf: &Vec<u8>, pos: usize, end: usize) -> (r: Result<(Asset, usize), CodecError>)
    requires
        pos <= end <= buf@.len(),
    ensures
        match r {
            Ok((v, p2)) => sdec_asset(buf@, pos as int, end as int)
                == Ok::<(AssetV, int), CodecError>((v@, p2 as int)) && pos < p2 <= end,
            Err(e) => sdec_asset(buf@, pos as int, end as int) == Err::<(AssetV, int), CodecError>(e),
        },
{
    let (addr, p1) = match read_fixed(buf, pos, end, 20) {
        Ok(x) => x,
        Err(e) => {
            return Err(e);
        },
    };
    let (save, p2) = match read_uint(buf, p1, end, 16) {
        Ok(x) => x,
        Err(e) => {
            return Err(e);
        },
    };
    let (take, p3) = match read_uint(buf, p2, end, 16) {
        Ok(x) => x,
        Err(e) => {
            return Err(e);
        },
    };
    let (settle, p4) = match read_uint(buf, p3, end, 16) {
        Ok(x) => x,
        Err(e) => {
            return Err(e);
        },
    };
    Ok((Asset { addr, save, take, settle }, p4))
}

/// The `assets` sequence: a 3-byte payload count, then asset records that
/// fill the window exactly.
#[verifier::loop_isolation(false)]
pub fn decode_assets(buf: &Vec<u8>, pos: usize, end: usize) -> (r: Result<(Vec<Asset>, usize), CodecError>)
    requires
        pos <= end <= buf@.len(),
    ensures
        match r {
            Ok((v, p2)) => sdec_vec(buf@, pos as int, end as int, d_asset())
                == Ok::<(Seq<AssetV>, int), CodecError>((v@.map_values(|a: Asset| a@), p2 as int))
                && pos < p2 <= end,
            Err(e) => sdec_vec(buf@, pos as int, end as int, d_asset())
                == Err::<(Seq<AssetV>, int), CodecError>(e),
        },
{
    let (l, p1) = match read_uint(buf, pos, end, 3) {
        Ok(x) => x,
        Err(e) => {
            return Err(e);
        },
    };
    proof {
        lemma_pow256_16();
    }
    let lu: usize = l as usize;
    if lu > end - p1 {
        return Err(CodecError::UnexpectedEnd);
    }
    let wend: usize = p1 + lu;
    let mut out: Vec<Asset> = Vec::new();
    let mut cur: usize = p1;
    while cur < wend
        invariant
            pos + 3 == p1,
            p1 <= cur <= wend <= end <= buf@.len(),
            (match sdec_elems(buf@, cur as int, wend as int, d_asset()) {
                Ok((vs, p3)) => sdec_elems(buf@, p1 as int, wend as int, d_asset())
                    == Ok::<(Seq<AssetV>, int), CodecError>((out@.map_values(|a: Asset| a@) + vs, p3)),
                Err(e) => sdec_elems(buf@, p1 as int, wend as int, d_asset())
                    == Err::<(Seq<AssetV>, int), CodecError>(e),
            }),
        decreases wend - cur,
    {
        match decode_asset(buf, cur, wend) {
            Err(e) => {
                proof {
                    assert(d_asset()(buf@, cur as int, wend as int) == sdec_asset(buf@, cur as int, wend as int));
                }
                return Err(e);
            },
            Ok((a, p2)) => {
                let ghost old_map = out@.map_values(|x: Asset| x@);
                proof {
                    assert(d_asset()(buf@, cur as int, wend as int) == sdec_asset(buf@, cur as int, wend as int));
                }
                out.push(a);
                proof {
                    assert(out@.map_values(|x: Asset| x@) =~= old_map.push(a@));
                    match sdec_elems(buf@, p2 as int, wend as int, d_asset()) {
                        Ok((vs2, p3)) => {
                            assert(sdec_elems(buf@, cur as int, wend as int, d_asset())
                                == Ok::<(Seq<AssetV>, int), CodecError>((seq![a@] + vs2, p3)));
                            assert(old_map + (seq![a@] + vs2) =~= old_map.push(a@) + vs2);
                        },
                        Err(_) => {},
                    }
                }
                cur = p2;
            },
        }
    }
    proof {
        assert(out@.map_values(|a: Asset| a@) + Seq::<AssetV>::empty() =~= out@.map_values(|a: Asset| a@));
    }
    Ok((out, wend))
}

/// One pair record: three 2-byte indices and a 32-byte price word.
pub fn decode_pair(buf: &Vec<u8>, pos: usize, end: usize) -> (r: Result<(Pair, usize), CodecError>)
    requires
        pos <= end <= buf@.len(),
    ensures
        match r {
            Ok((v, p2)) => sdec_pair(buf@, pos as int, end as int)
                == Ok::<(PairV, int), CodecError>((v@, p2 as int)) && pos < p2 <= end,
            Err(e) => sdec_pair(buf@, pos as int, end as int) == Err::<(PairV, int), CodecError>(e),
        },
{
    let (i0, p1) = match read_uint(buf, pos, end, 2) {
        Ok(x) => x,
        Err(e) => {
            return Err(e);
        },
    };
    let (i1, p2) = match read_uint(buf, p1, end, 2) {
        Ok(x) => x,
        Err(e) => {
            return Err(e);
        },
    };
    let (st, p3) = match read_uint(buf, p2, end, 2) {
        Ok(x) => x,
        Err(e) => {
            return Err(e);
        },
    };
    let (price, p4) = match read_fixed(buf, p3, end, 32) {
        Ok(x) => x,
        Err(e) => {
            return Err(e);
        },
    };
    proof {
        lemma_pow256_16();
    }
    Ok((
        Pair {
            index0: i0 as u16,
            index1: i1 as u16,
            store_index: st as u16,
            price_1over0: price,
        },
        p4,
    ))
}

/// A standing validation: an 8-byte nonce, then the deadline in its
/// five-byte overridden width.
pub fn decode_standing_validation(buf: &Vec<u8>, pos: usize, end: usize) -> (r: Result<(StandingValidation, usize), CodecError>)
    requires
        pos <= end <= buf@.len(),
    ensures
        match r {
            Ok((v, p2)) => sdec_standing_validation(buf@, pos as int, end as int)
                == Ok::<(StandingValidationV, int), CodecError>((v@, p2 as int)) && pos < p2 <= end,
            Err(e) => sdec_standing_validation(buf@, pos as int, end as int)
                == Err::<(StandingValidationV, int), CodecError>(e),
        },
{
    let (nonce, p1) = match read_uint(buf, pos, end, 8) {
        Ok(x) => x,
        Err(e) => {
            return Err(e);
        },
    };
    let (deadline, p2) = match read_uint(buf, p1, end, 5) {
        Ok(x) => x,
        Err(e) => {
            return Err(e);
        },
    };
    proof {
        lemma_pow256_16();
    }
    Ok((StandingValidation { nonce: nonce as u64, deadline: deadline as u64 }, p2))
}

/// An opaque byte run: 3-byte count, then that many raw bytes.
pub fn decode_byte_vec(buf: &Vec<u8>, pos: usize, end: usize) -> (r: Result<(Vec<u8>, usize), CodecError>)
    requires
        pos <= end <= buf@.len(),
    ensures
        match r {
            Ok((v, p2)) => sdec_byte_vec(buf@, pos as int, end as int)
                == Ok::<(Seq<u8>, int), CodecError>((v@, p2 as int)) && pos < p2 <= end,
            Err(e) => sdec_byte_vec(buf@, pos as int, end as int) == Err::<(Seq<u8>, int), CodecError>(e),
        },
{
    let (l, p1) = match read_uint(buf, pos, end, 3) {
        Ok(x) => x,
        Err(e) => {
            return Err(e);
        },
    };
    proof {
        lemma_pow256_16();
    }
    let lu: usize = l as usize;
    if lu > end - p1 {
        return Err(CodecError::UnexpectedEnd);
    }
    let (v, p2) = match read_fixed(buf, p1, end, lu) {
        Ok(x) => x,
        Err(e) => {
            return Err(e);
        },
    };
    Ok((v, p2))
}

/// The variant of a `Signature` union named by `tag`: a contract signer and
/// opaque bytes, or an ECDSA triple. A tag outside the two variants is
/// invalid.
pub fn decode_signature(buf: &Vec<u8>, pos: usize, end: usize, tag: u8) -> (r: Result<(Signature, usize), CodecError>)
    requires
        pos <= end <= buf@.len(),
    ensures
        match r {
            Ok((v, p2)) => sdec_signature(buf@, pos as int, end as int, tag as nat)
                == Ok::<(SignatureV, int), CodecError>((v@, p2 as int)) && pos < p2 <= end,
            Err(e) => sdec_signature(buf@, pos as int, end as int, tag as nat)
                == Err::<(SignatureV, int), CodecError>(e),
        },
{
    if tag == 0 {
        let (from, p1) = match read_fixed(buf, pos, end, 20) {
            Ok(x) => x,
            Err(e) => {
                return Err(e);
            },
        };
        let (sig, p2) = match decode_byte_vec(buf, p1, end) {
            Ok(x) => x,
            Err(e) => {
                return Err(e);
            },
        };
        Ok((Signature::Contract { from, signature: sig }, p2))
    } else if tag == 1 {
        let (vb, p1) = match read_uint(buf, pos, end, 1) {
            Ok(x) => x,
            Err(e) => {
                return Err(e);
            },
        };
        let (rw, p2) = match read_fixed(buf, p1, end, 32) {
            Ok(x) => x,
            Err(e) => {
                return Err(e);
            },
        };
        let (sw, p3) = match read_fixed(buf, p2, end, 32) {
            Ok(x) => x,
            Err(e) => {
                return Err(e);
            },
        };
        proof {
            lemma_pow256_16();
        }
        Ok((Signature::Ecdsa { v: vb as u8, r: rw, s: sw }, p3))
    } else {
        Err(CodecError::InvalidVariant)
    }
}

/// The variant of an `OrderQuantities` union named by `tag`.
pub fn decode_order_quantities(buf: &Vec<u8>, pos: usize, end: usize, tag: u8) -> (r: Result<(OrderQuantities, usize), CodecError>)
    requires
        pos <= end <= buf@.len(),
    ensures
        match r {
            Ok((v, p2)) => sdec_order_quantities(buf@, pos as int, end as int, tag as nat)
                == Ok::<(OrderQuantitiesV, int), CodecError>((v@, p2 as int)) && pos < p2 <= end,
            Err(e) => sdec_order_quantities(buf@, pos as int, end as int, tag as nat)
                == Err::<(OrderQuantitiesV, int), CodecError>(e),
        },
{
    if tag == 0 {
        let (q, p1) = match read_uint(buf, pos, end, 16) {
            Ok(x) => x,
            Err(e) => {
                return Err(e);
            },
        };
        Ok((OrderQuantities::Exact { quantity: q }, p1))
    } else if tag == 1 {
        let (mn, p1) = match read_uint(buf, pos, end, 16) {
            Ok(x) => x,
            Err(e) => {
                return Err(e);
            },
        };
        let (mx, p2) = match read_uint(buf, p1, end, 16) {
            Ok(x) => x,
            Err(e) => {
                return Err(e);
            },
        };
        let (fl, p3) = match read_uint(buf, p2, end, 16) {
            Ok(x) => x,
            Err(e) => {
                return Err(e);
            },
        };
        Ok((
            OrderQuantities::Partial {
                min_quantity_in: mn,
                max_quantity_in: mx,
                filled_quantity: fl,
            },
            p3,
        ))
    } else {
        Err(CodecError::InvalidVariant)
    }
}

/// The `quantities` sequence of a rewards update: 16-byte values filling the
/// window exactly.
#[verifier::loop_isolation(false)]
pub fn decode_quantities(buf: &Vec<u8>, pos: usize, end: usize) -> (r: Result<(Vec<u128>, usize), CodecError>)
    requires
        pos <= end <= buf@.len(),
    ensures
        match r {
            Ok((v, p2)) => sdec_vec(buf@, pos as int, end as int, d_u128())
                == Ok::<(Seq<u128>, int), CodecError>((v@, p2 as int)) && pos < p2 <= end,
            Err(e) => sdec_vec(buf@, pos as int, end as int, d_u128())
                == Err::<(Seq<u128>, int), CodecError>(e),
        },
{
    let (l, p1) = match read_uint(buf, pos, end, 3) {
        Ok(x) => x,
        Err(e) => {
            return Err(e);
        },
    };
    proof {
        lemma_pow256_16();
    }
    let lu: usize = l as usize;
    if lu > end - p1 {
        return Err(CodecError::UnexpectedEnd);
    }
    let wend: usize = p1 + lu;
    let mut out: Vec<u128> = Vec::new();
    let mut cur: usize = p1;
    while cur < wend
        invariant
            pos + 3 == p1,
            p1 <= cur <= wend <= end <= buf@.len(),
            (match sdec_elems(buf@, cur as int, wend as int, d_u128()) {
                Ok((vs, p3)) => sdec_elems(buf@, p1 as int, wend as int, d_u128())
                    == Ok::<(Seq<u128>, int), CodecError>((out@ + vs, p3)),
                Err(e) => sdec_elems(buf@, p1 as int, wend as int, d_u128())
                    == Err::<(Seq<u128>, int), CodecError>(e),
            }),
        decreases wend - cur,
    {
        match read_uint(buf, cur, wend, 16) {
            Err(e) => {
                return Err(e);
            },
            Ok((q, p2)) => {
                let ghost old_v = out@;
                out.push(q);
                proof {
                    match sdec_elems(buf@, p2 as int, wend as int, d_u128()) {
                        Ok((vs2, p3)) => {
                            assert(sdec_elems(buf@, cur as int, wend as int, d_u128())
                                == Ok::<(Seq<u128>, int), CodecError>((seq![q] + vs2, p3)));
                            assert(old_v + (seq![q] + vs2) =~= old_v.push(q) + vs2);
                        },
                        Err(_) => {},
                    }
                }
                cur = p2;
            },
        }
    }
    proof {
        assert(out@ + Seq::<u128>::empty() =~= out@);
    }
    Ok((out, wend))
}

/// The variant of a `RewardsUpdate` union named by `tag`.
pub fn decode_rewards_update(buf: &Vec<u8>, pos: usize, end: usize, tag: u8) -> (r: Result<(RewardsUpdate, usize), CodecError>)
    requires
        pos <= end <= buf@.len(),
    ensures
        match r {
            Ok((v, p2)) => sdec_rewards_update(buf@, pos as int, end as int, tag as nat)
                == Ok::<(RewardsUpdateV, int), CodecError>((v@, p2 as int)) && pos < p2 <= end,
            Err(e) => sdec_rewards_update(buf@, pos as int, end as int, tag as nat)
                == Err::<(RewardsUpdateV, int), CodecError>(e),
        },
{
    if tag == 0 {
        let (tick, p1) = match read_fixed(buf, pos, end, 3) {
            Ok(x) => x,
            Err(e) => {
                return Err(e);
            },
        };
        let (liq, p2) = match read_uint(buf, p1, end, 16) {
            Ok(x) => x,
            Err(e) => {
                return Err(e);
            },
        };
        let (qs, p3) = match decode_quantities(buf, p2, end) {
            Ok(x) => x,
            Err(e) => {
                return Err(e);
            },
        };
        let (chk, p4) = match read_fixed(buf, p3, end, 20) {
            Ok(x) => x,
            Err(e) => {
                return Err(e);
            },
        };
        Ok((
            RewardsUpdate::MultiTick {
                start_tick: tick,
                start_liquidity: liq,
                quantities: qs,
                reward_checksum: chk,
            },
            p4,
        ))
    } else if tag == 1 {
        let (amt, p1) = match read_uint(buf, pos, end, 16) {
            Ok(x) => x,
            Err(e) => {
                return Err(e);
            },
        };
        let (liq, p2) = match read_uint(buf, p1, end, 16) {
            Ok(x) => x,
            Err(e) => {
                return Err(e);
            },
        };
        Ok((RewardsUpdate::CurrentOnly { amount: amt, expected_liquidity: liq }, p2))
    } else {
        Err(CodecError::InvalidVariant)
    }
}

/// One pool update: its bitmap byte, plain fields, then the rewards-update
/// variant the bitmap names.
pub fn decode_pool_update(buf: &Vec<u8>, pos: usize, end: usize) -> (r: Result<(PoolUpdate, usize), CodecError>)
    requires
        pos <= end <= buf@.len(),
    ensures
        match r {
            Ok((v, p2)) => sdec_pool_update(buf@, pos as int, end as int)
                == Ok::<(PoolUpdateV, int), CodecError>((v@, p2 as int)) && pos < p2 <= end,
            Err(e) => sdec_pool_update(buf@, pos as int, end as int)
                == Err::<(PoolUpdateV, int), CodecError>(e),
        },
{
    let (bm, p1) = match read_uint(buf, pos, end, 1) {
        Ok(x) => x,
        Err(e) => {
            return Err(e);
        },
    };
    proof {
        lemma_pow256_16();
    }
    if bm >= 4 {
        return Err(CodecError::InvalidBoolean);
    }
    let (pi, p2) = match read_uint(buf, p1, end, 2) {
        Ok(x) => x,
        Err(e) => {
            return Err(e);
        },
    };
    let (siq, p3) = match read_uint(buf, p2, end, 16) {
        Ok(x) => x,
        Err(e) => {
            return Err(e);
        },
    };
    let (ru, p4) = match decode_rewards_update(buf, p3, end, (bm / 2) as u8) {
        Ok(x) => x,
        Err(e) => {
            return Err(e);
        },
    };
    proof {
        lemma_pow256_16();
    }
    Ok((
        PoolUpdate {
            zero_for_one: bm % 2 == 1,
            pair_index: pi as u16,
            swap_in_quantity: siq,
            rewards_update: ru,
        },
        p4,
    ))
}

/// One top-of-block order: its bitmap byte, plain fields, the optional
/// recipient, then the signature variant the bitmap names.
pub fn decode_top_of_block_order(buf: &Vec<u8>, pos: usize, end: usize) -> (r: Result<(TopOfBlockOrder, usize), CodecError>)
    requires
        pos <= end <= buf@.len(),
    ensures
        match r {
            Ok((v, p2)) => sdec_top_of_block_order(buf@, pos as int, end as int)
                == Ok::<(TopOfBlockOrderV, int), CodecError>((v@, p2 as int)) && pos < p2 <= end,
            Err(e) => sdec_top_of_block_order(buf@, pos as int, end as int)
                == Err::<(TopOfBlockOrderV, int), CodecError>(e),
        },
{
    let (bm, p1) = match read_uint(buf, pos, end, 1) {
        Ok(x) => x,
        Err(e) => {
            return Err(e);
        },
    };
    proof {
        lemma_pow256_16();
    }
    if bm >= 16 {
        return Err(CodecError::InvalidBoolean);
    }
    let (qi, p2) = match read_uint(buf, p1, end, 16) {
        Ok(x) => x,
        Err(e) => {
            return Err(e);
        },
    };
    let (qo, p3) = match read_uint(buf, p2, end, 16) {
        Ok(x) => x,
        Err(e) => {
            return Err(e);
        },
    };
    let (mg, p4) = match read_uint(buf, p3, end, 16) {
        Ok(x) => x,
        Err(e) => {
            return Err(e);
        },
    };
    let (gu, p5) = match read_uint(buf, p4, end, 16) {
        Ok(x) => x,
        Err(e) => {
            return Err(e);
        },
    };
    let (pi, p6) = match read_uint(buf, p5, end, 2) {
        Ok(x) => x,
        Err(e) => {
            return Err(e);
        },
    };
    let (rec, p7) = if (bm / 4) % 2 == 1 {
        match read_fixed(buf, p6, end, 20) {
            Ok((a, p)) => (Some(a), p),
            Err(e) => {
                return Err(e);
            },
        }
    } else {
        (None, p6)
    };
    let (sig, p8) = match decode_signature(buf, p7, end, (bm / 8) as u8) {
        Ok(x) => x,
        Err(e) => {
            return Err(e);
        },
    };
    proof {
        lemma_pow256_16();
    }
    Ok((
        TopOfBlockOrder {
            use_internal: bm % 2 == 1,
            quantity_in: qi,
            quantity_out: qo,
            max_gas_asset_0: mg,
            gas_used_asset_0: gu,
            pairs_index: pi as u16,
            zero_for_1: (bm / 2) % 2 == 1,
            recipient: rec,
            signature: sig,
        },
        p8,
    ))
}

/// One user order: its bitmap byte (all eight bits are declared flags),
/// plain fields, the optional parts, then the two union variants the bitmap
/// names.
#[verifier::rlimit(100)]
pub fn decode_user_order(buf: &Vec<u8>, pos: usize, end: usize) -> (r: Result<(UserOrder, usize), CodecError>)
    requires
        pos <= end <= buf@.len(),
    ensures
        match r {
            Ok((v, p2)) => sdec_user_order(buf@, pos as int, end as int)
                == Ok::<(UserOrderV, int), CodecError>((v@, p2 as int)) && pos < p2 <= end,
            Err(e) => sdec_user_order(buf@, pos as int, end as int)
                == Err::<(UserOrderV, int), CodecError>(e),
        },
{
    let (bm, p1) = match read_uint(buf, pos, end, 1) {
        Ok(x) => x,
        Err(e) => {
            return Err(e);
        },
    };
    proof {
        lemma_pow256_16();
    }
    let (rid, p2) = match read_uint(buf, p1, end, 4) {
        Ok(x) => x,
        Err(e) => {
            return Err(e);
        },
    };
    let (pi, p3) = match read_uint(buf, p2, end, 2) {
        Ok(x) => x,
        Err(e) => {
            return Err(e);
        },
    };
    let (mp, p4) = match read_fixed(buf, p3, end, 32) {
        Ok(x) => x,
        Err(e) => {
            return Err(e);
        },
    };
    let (rec, p5) = if (bm / 2) % 2 == 1 {
        match read_fixed(buf, p4, end, 20) {
            Ok((a, p)) => (Some(a), p),
            Err(e) => {
                return Err(e);
            },
        }
    } else {
        (None, p4)
    };
    let (hook, p6) = if (bm / 4) % 2 == 1 {
        match decode_byte_vec(buf, p5, end) {
            Ok((h, p)) => (Some(h), p),
            Err(e) => {
                return Err(e);
            },
        }
    } else {
        (None, p5)
    };
    let (sv, p7) = if (bm / 16) % 2 == 1 {
        match decode_standing_validation(buf, p6, end) {
            Ok((x, p)) => (Some(x), p),
            Err(e) => {
                return Err(e);
            },
        }
    } else {
        (None, p6)
    };
    let (oq, p8) = match decode_order_quantities(buf, p7, end, ((bm / 32) % 2) as u8) {
        Ok(x) => x,
        Err(e) => {
            return Err(e);
        },
    };
    let (mx, p9) = match read_uint(buf, p8, end, 16) {
        Ok(x) => x,
        Err(e) => {
            return Err(e);
        },
    };
    let (xf, p10) = match read_uint(buf, p9, end, 16) {
        Ok(x) => x,
        Err(e) => {
            return Err(e);
        },
    };
    let (sig, p11) = match decode_signature(buf, p10, end, (bm / 128) as u8) {
        Ok(x) => x,
        Err(e) => {
            return Err(e);
        },
    };
    proof {
        lemma_pow256_16();
    }
    Ok((
        UserOrder {
            ref_id: rid as u32,
            use_internal: bm % 2 == 1,
            pair_index: pi as u16,
            min_price: mp,
            recipient: rec,
            hook_data: hook,
            zero_for_one: (bm / 8) % 2 == 1,
            standing_validation: sv,
            order_quantities: oq,
            max_extra_fee_asset0: mx,
            extra_fee_asset0: xf,
            exact_in: (bm / 64) % 2 == 1,
            signature: sig,
        },
        p11,
    ))
}

/// The `pairs` sequence.
#[verifier::loop_isolation(false)]
pub fn decode_pairs(buf: &Vec<u8>, pos: usize, end: usize) -> (r: Result<(Vec<Pair>, usize), CodecError>)
    requires
        pos <= end <= buf@.len(),
    ensures
        match r {
            Ok((v, p2)) => sdec_vec(buf@, pos as int, end as int, d_pair())
                == Ok::<(Seq<PairV>, int), CodecError>((v@.map_values(|a: Pair| a@), p2 as int))
                && pos < p2 <= end,
            Err(e) => sdec_vec(buf@, pos as int, end as int, d_pair())
                == Err::<(Seq<PairV>, int), CodecError>(e),
        },
{
    let (l, p1) = match read_uint(buf, pos, end, 3) {
        Ok(x) => x,
        Err(e) => {
            return Err(e);
        },
    };
    proof {
        lemma_pow256_16();
    }
    let lu: usize = l as usize;
    if lu > end - p1 {
        return Err(CodecError::UnexpectedEnd);
    }
    let wend: usize = p1 + lu;
    let mut out: Vec<Pair> = Vec::new();
    let mut cur: usize = p1;
    while cur < wend
        invariant
            pos + 3 == p1,
            p1 <= cur <= wend <= end <= buf@.len(),
            (match sdec_elems(buf@, cur as int, wend as int, d_pair()) {
                Ok((vs, p3)) => sdec_elems(buf@, p1 as int, wend as int, d_pair())
                    == Ok::<(Seq<PairV>, int), CodecError>((out@.map_values(|a: Pair| a@) + vs, p3)),
                Err(e) => sdec_elems(buf@, p1 as int, wend as int, d_pair())
                    == Err::<(Seq<PairV>, int), CodecError>(e),
            }),
        decreases wend - cur,
    {
        match decode_pair(buf, cur, wend) {
            Err(e) => {
                return Err(e);
            },
            Ok((a, p2)) => {
                let ghost old_map = out@.map_values(|x: Pair| x@);
                out.push(a);
                proof {
                    assert(out@.map_values(|x: Pair| x@) =~= old_map.push(a@));
                    match sdec_elems(buf@, p2 as int, wend as int, d_pair()) {
                        Ok((vs2, p3)) => {
                            assert(sdec_elems(buf@, cur as int, wend as int, d_pair())
                                == Ok::<(Seq<PairV>, int), CodecError>((seq![a@] + vs2, p3)));
                            assert(old_map + (seq![a@] + vs2) =~= old_map.push(a@) + vs2);
                        },
                        Err(_) => {},
                    }
                }
                cur = p2;
            },
        }
    }
    proof {
        assert(out@.map_values(|a: Pair| a@) + Seq::<PairV>::empty() =~= out@.map_values(|a: Pair| a@));
    }
    Ok((out, wend))
}

/// The `pool_updates` sequence.
#[verifier::loop_isolation(false)]
pub fn decode_pool_updates(buf: &Vec<u8>, pos: usize, end: usize) -> (r: Result<(Vec<PoolUpdate>, usize), CodecError>)
    requires
        pos <= end <= buf@.len(),
    ensures
        match r {
            Ok((v, p2)) => sdec_vec(buf@, pos as int, end as int, d_pool_update())
                == Ok::<(Seq<PoolUpdateV>, int), CodecError>((v@.map_values(|a: PoolUpdate| a@), p2 as int))
                && pos < p2 <= end,
            Err(e) => sdec_vec(buf@, pos as int, end as int, d_pool_update())
                == Err::<(Seq<PoolUpdateV>, int), CodecError>(e),
        },
{
    let (l, p1) = match read_uint(buf, pos, end, 3) {
        Ok(x) => x,
        Err(e) => {
            return Err(e);
        },
    };
    proof {
        lemma_pow256_16();
    }
    let lu: usize = l as usize;
    if lu > end - p1 {
        return Err(CodecError::UnexpectedEnd);
    }
    let wend: usize = p1 + lu;
    let mut out: Vec<PoolUpdate> = Vec::new();
    let mut cur: usize = p1;
    while cur < wend
        invariant
            pos + 3 == p1,
            p1 <= cur <= wend <= end <= buf@.len(),
            (match sdec_elems(buf@, cur as int, wend as int, d_pool_update()) {
                Ok((vs, p3)) => sdec_elems(buf@, p1 as int, wend as int, d_pool_update())
                    == Ok::<(Seq<PoolUpdateV>, int), CodecError>((out@.map_values(|a: PoolUpdate| a@) + vs, p3)),
                Err(e) => sdec_elems(buf@, p1 as int, wend as int, d_pool_update())
                    == Err::<(Seq<PoolUpdateV>, int), CodecError>(e),
            }),
        decreases wend - cur,
    {
        match decode_pool_update(buf, cur, wend) {
            Err(e) => {
                return Err(e);
            },
            Ok((a, p2)) => {
                let ghost old_map = out@.map_values(|x: PoolUpdate| x@);
                out.push(a);
                proof {
                    assert(out@.map_values(|x: PoolUpdate| x@) =~= old_map.push(a@));
                    match sdec_elems(buf@, p2 as int, wend as int, d_pool_update()) {
                        Ok((vs2, p3)) => {
                            assert(sdec_elems(buf@, cur as int, wend as int, d_pool_update())
                                == Ok::<(Seq<PoolUpdateV>, int), CodecError>((seq![a@] + vs2, p3)));
                            assert(old_map + (seq![a@] + vs2) =~= old_map.push(a@) + vs2);
                        },
                        Err(_) => {},
                    }
                }
                cur = p2;
            },
        }
    }
    proof {
        assert(out@.map_values(|a: PoolUpdate| a@) + Seq::<PoolUpdateV>::empty()
            =~= out@.map_values(|a: PoolUpdate| a@));
    }
    Ok((out, wend))
}

/// The `top_of_block_orders` sequence.
#[verifier::loop_isolation(false)]
pub fn decode_top_of_block_orders(buf: &Vec<u8>, pos: usize, end: usize) -> (r: Result<(Vec<TopOfBlockOrder>, usize), CodecError>)
    requires
        pos <= end <= buf@.len(),
    ensures
        match r {
            Ok((v, p2)) => sdec_vec(buf@, pos as int, end as int, d_tob())
                == Ok::<(Seq<TopOfBlockOrderV>, int), CodecError>((v@.map_values(|a: TopOfBlockOrder| a@), p2 as int))
                && pos < p2 <= end,
            Err(e) => sdec_vec(buf@, pos as int, end as int, d_tob())
                == Err::<(Seq<TopOfBlockOrderV>, int), CodecError>(e),
        },
{
    let (l, p1) = match read_uint(buf, pos, end, 3) {
        Ok(x) => x,
        Err(e) => {
            return Err(e);
        },
    };
    proof {
        lemma_pow256_16();
    }
    let lu: usize = l as usize;
    if lu > end - p1 {
        return Err(CodecError::UnexpectedEnd);
    }
    let wend: usize = p1 + lu;
    let mut out: Vec<TopOfBlockOrder> = Vec::new();
    let mut cur: usize = p1;
    while cur < wend
        invariant
            pos + 3 == p1,
            p1 <= cur <= wend <= end <= buf@.len(),
            (match sdec_elems(buf@, cur as int, wend as int, d_tob()) {
                Ok((vs, p3)) => sdec_elems(buf@, p1 as int, wend as int, d_tob())
                    == Ok::<(Seq<TopOfBlockOrderV>, int), CodecError>((out@.map_values(|a: TopOfBlockOrder| a@) + vs, p3)),
                Err(e) => sdec_elems(buf@, p1 as int, wend as int, d_tob())
                    == Err::<(Seq<TopOfBlockOrderV>, int), CodecError>(e),
            }),
        decreases wend - cur,
    {
        match decode_top_of_block_order(buf, cur, wend) {
            Err(e) => {
                return Err(e);
            },
            Ok((a, p2)) => {
                let ghost old_map = out@.map_values(|x: TopOfBlockOrder| x@);
                out.push(a);
                proof {
                    assert(out@.map_values(|x: TopOfBlockOrder| x@) =~= old_map.push(a@));
                    match sdec_elems(buf@, p2 as int, wend as int, d_tob()) {
                        Ok((vs2, p3)) => {
                            assert(sdec_elems(buf@, cur as int, wend as int, d_tob())
                                == Ok::<(Seq<TopOfBlockOrderV>, int), CodecError>((seq![a@] + vs2, p3)));
                            assert(old_map + (seq![a@] + vs2) =~= old_map.push(a@) + vs2);
                        },
                        Err(_) => {},
                    }
                }
                cur = p2;
            },
        }
    }
    proof {
        assert(out@.map_values(|a: TopOfBlockOrder| a@) + Seq::<TopOfBlockOrderV>::empty()
            =~= out@.map_values(|a: TopOfBlockOrder| a@));
    }
    Ok((out, wend))
}

/// The `user_orders` sequence.
#[verifier::loop_isolation(false)]
#[verifier::rlimit(100)]
pub fn decode_user_orders(buf: &Vec<u8>, pos: usize, end: usize) -> (r: Result<(Vec<UserOrder>, usize), CodecError>)
    requires
        pos <= end <= buf@.len(),
    ensures
        match r {
            Ok((v, p2)) => sdec_vec(buf@, pos as int, end as int, d_user_order())
                == Ok::<(Seq<UserOrderV>, int), CodecError>((v@.map_values(|a: UserOrder| a@), p2 as int))
                && pos < p2 <= end,
            Err(e) => sdec_vec(buf@, pos as int, end as int, d_user_order())
                == Err::<(Seq<UserOrderV>, int), CodecError>(e),
        },
{
    let (l, p1) = match read_uint(buf, pos, end, 3) {
        Ok(x) => x,
        Err(e) => {
            return Err(e);
        },
    };
    proof {
        lemma_pow256_16();
    }
    let lu: usize = l as usize;
    if lu > end - p1 {
        return Err(CodecError::UnexpectedEnd);
    }
    let wend: usize = p1 + lu;
    let mut out: Vec<UserOrder> = Vec::new();
    let mut cur: usize = p1;
    while cur < wend
        invariant
            pos + 3 == p1,
            p1 <= cur <= wend <= end <= buf@.len(),
            (match sdec_elems(buf@, cur as int, wend as int, d_user_order()) {
                Ok((vs, p3)) => sdec_elems(buf@, p1 as int, wend as int, d_user_order())
                    == Ok::<(Seq<UserOrderV>, int), CodecError>((out@.map_values(|a: UserOrder| a@) + vs, p3)),
                Err(e) => sdec_elems(buf@, p1 as int, wend as int, d_user_order())
                    == Err::<(Seq<UserOrderV>, int), CodecError>(e),
            }),
        decreases wend - cur,
    {
        match decode_user_order(buf, cur, wend) {
            Err(e) => {
                return Err(e);
            },
            Ok((a, p2)) => {
                let ghost old_map = out@.map_values(|x: UserOrder| x@);
                out.push(a);
                proof {
                    assert(out@.map_values(|x: UserOrder| x@) =~= old_map.push(a@));
                    match sdec_elems(buf@, p2 as int, wend as int, d_user_order()) {
                        Ok((vs2, p3)) => {
                            assert(sdec_elems(buf@, cur as int, wend as int, d_user_order())
                                == Ok::<(Seq<UserOrderV>, int), CodecError>((seq![a@] + vs2, p3)));
                            assert(old_map + (seq![a@] + vs2) =~= old_map.push(a@) + vs2);
                        },
                        Err(_) => {},
                    }
                }
                cur = p2;
            },
        }
    }
    proof {
        assert(out@.map_values(|a: UserOrder| a@) + Seq::<UserOrderV>::empty()
            =~= out@.map_values(|a: UserOrder| a@));
    }
    Ok((out, wend))
}

/// A whole bundle record starting at `pos`: its five sequences in order.
/// Trailing bytes after the last sequence are left to the caller.
pub fn decode_bundle_at(buf: &Vec<u8>, pos: usize, end: usize) -> (r: Result<(AngstromBundle, usize), CodecError>)
    requires
        pos <= end <= buf@.len(),
    ensures
        match r {
            Ok((v, p2)) => sdec_bundle(buf@, pos as int, end as int)
                == Ok::<(AngstromBundleV, int), CodecError>((v@, p2 as int)) && pos < p2 <= end,
            Err(e) => sdec_bundle(buf@, pos as int, end as int)
                == Err::<(AngstromBundleV, int), CodecError>(e),
        },
{
    let (assets, p1) = match decode_assets(buf, pos, end) {
        Ok(x) => x,
        Err(e) => {
            return Err(e);
        },
    };
    let (pairs, p2) = match decode_pairs(buf, p1, end) {
        Ok(x) => x,
        Err(e) => {
            return Err(e);
        },
    };
    let (pool_updates, p3) = match decode_pool_updates(buf, p2, end) {
        Ok(x) => x,
        Err(e) => {
            return Err(e);
        },
    };
    let (tobs, p4) = match decode_top_of_block_orders(buf, p3, end) {
        Ok(x) => x,
        Err(e) => {
            return Err(e);
        },
    };
    let (uos, p5) = match decode_user_orders(buf, p4, end) {
        Ok(x) => x,
        Err(e) => {
            return Err(e);
        },
    };
    Ok((
        AngstromBundle {
            assets,
            pairs,
            pool_updates,
            top_of_block_orders: tobs,
            user_orders: uos,
        },
        p5,
    ))
}

} // verus!
