//! The wire format as mathematics: for every schema type, a well-formedness
//! predicate, an encoder to a byte sequence, and a decoder over a bounded
//! window. Every executable codec function's contract is stated against
//! these.
//!
//! Wire rules, pinned against the published reference payload:
//! - multi-byte integers are big-endian; a width override reads fewer bytes
//!   and zero-extends;
//! - a sequence is a 3-byte big-endian count of its payload bytes, then the
//!   elements back to back, filling that count exactly;
//! - a record's `bool` fields, optional-field presence flags and union tags
//!   are packed, least significant bit first in field declaration order,
//!   into one leading bitmap byte; a set bit outside the declared flags is
//!   rejected. A union's fields follow inline at the union field's position.

use vstd::prelude::*;

use crate::err::CodecError;
use crate::prim::{be_bytes, pow256, sdec_fixed, sdec_uint};
use crate::types::{
    AngstromBundleV, AssetV, OrderQuantitiesV, PairV, PoolUpdateV, RewardsUpdateV, SignatureV,
    StandingValidationV, TopOfBlockOrderV, UserOrderV,
};

verus! {

// ---------------------------------------------------------------- sequences

/// The concatenated encodings of a run of elements.
pub open spec fn senc_cat<T>(vs: Seq<T>, e: spec_fn(T) -> Seq<u8>) -> Seq<u8>
    decreases vs.len(),
{
    if vs.len() == 0 {
        Seq::empty()
    } else {
        e(vs[0]) + senc_cat(vs.skip(1), e)
    }
}

/// Appending one element extends the concatenated encoding at the back.
pub proof fn lemma_senc_cat_snoc<T>(s: Seq<T>, x: T, e: spec_fn(T) -> Seq<u8>)
    ensures
        senc_cat(s.push(x), e) == senc_cat(s, e) + e(x),
    decreases s.len(),
{
    if s.len() == 0 {
        assert(s.push(x)[0] == x);
        assert(s.push(x).skip(1) =~= Seq::<T>::empty());
        assert(senc_cat(s.push(x).skip(1), e) == Seq::<u8>::empty());
        assert(senc_cat(s, e) == Seq::<u8>::empty());
        assert(senc_cat(s.push(x), e) =~= senc_cat(s, e) + e(x));
    } else {
        assert(s.push(x).skip(1) =~= s.skip(1).push(x));
        lemma_senc_cat_snoc(s.skip(1), x, e);
        assert(s.push(x)[0] == s[0]);
        assert(senc_cat(s.push(x), e) == e(s[0]) + (senc_cat(s.skip(1), e) + e(x)));
        assert(senc_cat(s, e) == e(s[0]) + senc_cat(s.skip(1), e));
        assert(senc_cat(s.push(x), e) =~= senc_cat(s, e) + e(x));
    }
}

/// A sequence on the wire: 3-byte payload byte count, then the elements.
pub open spec fn senc_vec<T>(vs: Seq<T>, e: spec_fn(T) -> Seq<u8>) -> Seq<u8> {
    be_bytes(senc_cat(vs, e).len(), 3) + senc_cat(vs, e)
}

pub open spec fn wf_vec<T>(vs: Seq<T>, e: spec_fn(T) -> Seq<u8>, wf: spec_fn(T) -> bool) -> bool {
    senc_cat(vs, e).len() < pow256(3) && (forall|i: int| 0 <= i < vs.len() ==> wf(#[trigger] vs[i]))
}

/// Decodes elements until the window `[pos, end)` is exactly used up.
/// An element that decodes past the window, or without progress, is an error.
pub open spec fn sdec_elems<T>(
    s: Seq<u8>,
    pos: int,
    end: int,
    d: spec_fn(Seq<u8>, int, int) -> Result<(T, int), CodecError>,
) -> Result<(Seq<T>, int), CodecError>
    decreases end - pos,
{
    if pos >= end {
        Ok((Seq::empty(), pos))
    } else {
        match d(s, pos, end) {
            Err(e) => Err(e),
            Ok((v, p2)) => if pos < p2 <= end {
                match sdec_elems(s, p2, end, d) {
                    Err(e) => Err(e),
                    Ok((vs, p3)) => Ok((seq![v] + vs, p3)),
                }
            } else {
                Err(CodecError::UnexpectedEnd)
            },
        }
    }
}

/// A sequence: its 3-byte payload count, then a window holding exactly the
/// elements.
pub open spec fn sdec_vec<T>(
    s: Seq<u8>,
    pos: int,
    end: int,
    d: spec_fn(Seq<u8>, int, int) -> Result<(T, int), CodecError>,
) -> Result<(Seq<T>, int), CodecError> {
    match sdec_uint(s, pos, end, 3) {
        Err(e) => Err(e),
        Ok((l, p1)) => if p1 + l > end {
            Err(CodecError::UnexpectedEnd)
        } else {
            sdec_elems(s, p1, p1 + l, d)
        },
    }
}

/// An opaque byte run: 3-byte count, then that many raw bytes.
pub open spec fn senc_byte_vec(b: Seq<u8>) -> Seq<u8> {
    be_bytes(b.len(), 3) + b
}

pub open spec fn wf_byte_vec(b: Seq<u8>) -> bool {
    b.len() < pow256(3)
}

pub open spec fn sdec_byte_vec(s: Seq<u8>, pos: int, end: int) -> Result<(Seq<u8>, int), CodecError> {
    match sdec_uint(s, pos, end, 3) {
        Err(e) => Err(e),
        Ok((l, p1)) => if p1 + l > end {
            Err(CodecError::UnexpectedEnd)
        } else {
            Ok((s.subrange(p1, p1 + l), p1 + l))
        },
    }
}


/// The ghost value of an optional byte field.
pub open spec fn view_opt_bytes(o: Option<Vec<u8>>) -> Option<Seq<u8>> {
    match o {
        Some(a) => Some(a@),
        None => None,
    }
}

/// The ghost value of an optional standing validation.
pub open spec fn view_opt_sv(o: Option<crate::types::StandingValidation>) -> Option<StandingValidationV> {
    match o {
        Some(x) => Some(x@),
        None => None,
    }
}

pub open spec fn b2n(b: bool) -> nat {
    if b {
        1
    } else {
        0
    }
}

// ---------------------------------------------------------------- Asset

pub open spec fn wf_asset(v: AssetV) -> bool {
    v.addr.len() == 20
}

pub open spec fn senc_asset(v: AssetV) -> Seq<u8> {
    v.addr + be_bytes(v.save as nat, 16) + be_bytes(v.take as nat, 16) + be_bytes(v.settle as nat, 16)
}

pub open spec fn sdec_asset(s: Seq<u8>, pos: int, end: int) -> Result<(AssetV, int), CodecError> {
    match sdec_fixed(s, pos, end, 20) {
        Err(e) => Err(e),
        Ok((addr, p1)) => match sdec_uint(s, p1, end, 16) {
            Err(e) => Err(e),
            Ok((save, p2)) => match sdec_uint(s, p2, end, 16) {
                Err(e) => Err(e),
                Ok((take, p3)) => match sdec_uint(s, p3, end, 16) {
                    Err(e) => Err(e),
                    Ok((settle, p4)) => Ok((
                        AssetV {
                            addr,
                            save: save as u128,
                            take: take as u128,
                            settle: settle as u128,
                        },
                        p4,
                    )),
                },
            },
        },
    }
}

// ---------------------------------------------------------------- Pair

pub open spec fn wf_pair(v: PairV) -> bool {
    v.price_1over0.len() == 32
}

pub open spec fn senc_pair(v: PairV) -> Seq<u8> {
    be_bytes(v.index0 as nat, 2) + be_bytes(v.index1 as nat, 2) + be_bytes(v.store_index as nat, 2)
        + v.price_1over0
}

pub open spec fn sdec_pair(s: Seq<u8>, pos: int, end: int) -> Result<(PairV, int), CodecError> {
    match sdec_uint(s, pos, end, 2) {
        Err(e) => Err(e),
        Ok((i0, p1)) => match sdec_uint(s, p1, end, 2) {
            Err(e) => Err(e),
            Ok((i1, p2)) => match sdec_uint(s, p2, end, 2) {
                Err(e) => Err(e),
                Ok((st, p3)) => match sdec_fixed(s, p3, end, 32) {
                    Err(e) => Err(e),
                    Ok((price, p4)) => Ok((
                        PairV {
                            index0: i0 as u16,
                            index1: i1 as u16,
                            store_index: st as u16,
                            price_1over0: price,
                        },
                        p4,
                    )),
                },
            },
        },
    }
}

// ------------------------------------------------------- StandingValidation

pub open spec fn wf_standing_validation(v: StandingValidationV) -> bool {
    (v.deadline as nat) < pow256(5)
}

pub open spec fn senc_standing_validation(v: StandingValidationV) -> Seq<u8> {
    be_bytes(v.nonce as nat, 8) + be_bytes(v.deadline as nat, 5)
}

pub open spec fn sdec_standing_validation(s: Seq<u8>, pos: int, end: int) -> Result<(StandingValidationV, int), CodecError> {
    match sdec_uint(s, pos, end, 8) {
        Err(e) => Err(e),
        Ok((nonce, p1)) => match sdec_uint(s, p1, end, 5) {
            Err(e) => Err(e),
            Ok((deadline, p2)) => Ok((
                StandingValidationV { nonce: nonce as u64, deadline: deadline as u64 },
                p2,
            )),
        },
    }
}

// ---------------------------------------------------------------- Signature

/// The positional tag of the active variant; its bit sits in the bitmap of
/// the record holding the union.
pub open spec fn sig_tag(v: SignatureV) -> nat {
    match v {
        SignatureV::Contract { .. } => 0,
        SignatureV::Ecdsa { .. } => 1,
    }
}

pub open spec fn wf_signature(v: SignatureV) -> bool {
    match v {
        SignatureV::Contract { from, signature } => from.len() == 20 && wf_byte_vec(signature),
        SignatureV::Ecdsa { v: _, r, s } => r.len() == 32 && s.len() == 32,
    }
}

pub open spec fn senc_signature(v: SignatureV) -> Seq<u8> {
    match v {
        SignatureV::Contract { from, signature } => from + senc_byte_vec(signature),
        SignatureV::Ecdsa { v: vb, r, s } => be_bytes(vb as nat, 1) + r + s,
    }
}

/// Decodes the variant named by `tag`; a tag outside the two declared
/// variants is invalid.
pub open spec fn sdec_signature(s: Seq<u8>, pos: int, end: int, tag: nat) -> Result<(SignatureV, int), CodecError> {
    if tag == 0 {
        match sdec_fixed(s, pos, end, 20) {
            Err(e) => Err(e),
            Ok((from, p1)) => match sdec_byte_vec(s, p1, end) {
                Err(e) => Err(e),
                Ok((sig, p2)) => Ok((SignatureV::Contract { from, signature: sig }, p2)),
            },
        }
    } else if tag == 1 {
        match sdec_uint(s, pos, end, 1) {
            Err(e) => Err(e),
            Ok((vb, p1)) => match sdec_fixed(s, p1, end, 32) {
                Err(e) => Err(e),
                Ok((r, p2)) => match sdec_fixed(s, p2, end, 32) {
                    Err(e) => Err(e),
                    Ok((sv, p3)) => Ok((SignatureV::Ecdsa { v: vb as u8, r, s: sv }, p3)),
                },
            },
        }
    } else {
        Err(CodecError::InvalidVariant)
    }
}

// ---------------------------------------------------------- OrderQuantities

pub open spec fn oq_tag(v: OrderQuantitiesV) -> nat {
    match v {
        OrderQuantitiesV::Exact { .. } => 0,
        OrderQuantitiesV::Partial { .. } => 1,
    }
}

pub open spec fn senc_order_quantities(v: OrderQuantitiesV) -> Seq<u8> {
    match v {
        OrderQuantitiesV::Exact { quantity } => be_bytes(quantity as nat, 16),
        OrderQuantitiesV::Partial { min_quantity_in, max_quantity_in, filled_quantity } =>
            be_bytes(min_quantity_in as nat, 16) + be_bytes(max_quantity_in as nat, 16)
                + be_bytes(filled_quantity as nat, 16),
    }
}

pub open spec fn sdec_order_quantities(s: Seq<u8>, pos: int, end: int, tag: nat) -> Result<(OrderQuantitiesV, int), CodecError> {
    if tag == 0 {
        match sdec_uint(s, pos, end, 16) {
            Err(e) => Err(e),
            Ok((q, p1)) => Ok((OrderQuantitiesV::Exact { quantity: q as u128 }, p1)),
        }
    } else if tag == 1 {
        match sdec_uint(s, pos, end, 16) {
            Err(e) => Err(e),
            Ok((mn, p1)) => match sdec_uint(s, p1, end, 16) {
                Err(e) => Err(e),
                Ok((mx, p2)) => match sdec_uint(s, p2, end, 16) {
                    Err(e) => Err(e),
                    Ok((fl, p3)) => Ok((
                        OrderQuantitiesV::Partial {
                            min_quantity_in: mn as u128,
                            max_quantity_in: mx as u128,
                            filled_quantity: fl as u128,
                        },
                        p3,
                    )),
                },
            },
        }
    } else {
        Err(CodecError::InvalidVariant)
    }
}

// ------------------------------------------------------------ RewardsUpdate

pub open spec fn e_u128() -> spec_fn(u128) -> Seq<u8> {
    |q: u128| be_bytes(q as nat, 16)
}

pub open spec fn d_u128() -> spec_fn(Seq<u8>, int, int) -> Result<(u128, int), CodecError> {
    |s: Seq<u8>, pos: int, end: int|
        match sdec_uint(s, pos, end, 16) {
            Err(e) => Err(e),
            Ok((q, p1)) => Ok((q as u128, p1)),
        }
}

pub open spec fn ru_tag(v: RewardsUpdateV) -> nat {
    match v {
        RewardsUpdateV::MultiTick { .. } => 0,
        RewardsUpdateV::CurrentOnly { .. } => 1,
    }
}

pub open spec fn wf_rewards_update(v: RewardsUpdateV) -> bool {
    match v {
        RewardsUpdateV::MultiTick { start_tick, start_liquidity: _, quantities, reward_checksum } =>
            start_tick.len() == 3 && reward_checksum.len() == 20
                && wf_vec(quantities, e_u128(), |q: u128| true),
        RewardsUpdateV::CurrentOnly { .. } => true,
    }
}

pub open spec fn senc_rewards_update(v: RewardsUpdateV) -> Seq<u8> {
    match v {
        RewardsUpdateV::MultiTick { start_tick, start_liquidity, quantities, reward_checksum } =>
            start_tick + be_bytes(start_liquidity as nat, 16) + senc_vec(quantities, e_u128())
                + reward_checksum,
        RewardsUpdateV::CurrentOnly { amount, expected_liquidity } =>
            be_bytes(amount as nat, 16) + be_bytes(expected_liquidity as nat, 16),
    }
}

pub open spec fn sdec_rewards_update(s: Seq<u8>, pos: int, end: int, tag: nat) -> Result<(RewardsUpdateV, int), CodecError> {
    if tag == 0 {
        match sdec_fixed(s, pos, end, 3) {
            Err(e) => Err(e),
            Ok((tick, p1)) => match sdec_uint(s, p1, end, 16) {
                Err(e) => Err(e),
                Ok((liq, p2)) => match sdec_vec(s, p2, end, d_u128()) {
                    Err(e) => Err(e),
                    Ok((qs, p3)) => match sdec_fixed(s, p3, end, 20) {
                        Err(e) => Err(e),
                        Ok((chk, p4)) => Ok((
                            RewardsUpdateV::MultiTick {
                                start_tick: tick,
                                start_liquidity: liq as u128,
                                quantities: qs,
                                reward_checksum: chk,
                            },
                            p4,
                        )),
                    },
                },
            },
        }
    } else if tag == 1 {
        match sdec_uint(s, pos, end, 16) {
            Err(e) => Err(e),
            Ok((amt, p1)) => match sdec_uint(s, p1, end, 16) {
                Err(e) => Err(e),
                Ok((liq, p2)) => Ok((
                    RewardsUpdateV::CurrentOnly { amount: amt as u128, expected_liquidity: liq as u128 },
                    p2,
                )),
            },
        }
    } else {
        Err(CodecError::InvalidVariant)
    }
}

// --------------------------------------------------------------- PoolUpdate

/// Flag bits, declaration order: bit 0 `zero_for_one`, bit 1 the
/// `rewards_update` tag.
pub open spec fn pu_bitmap(v: PoolUpdateV) -> nat {
    b2n(v.zero_for_one) + 2 * ru_tag(v.rewards_update)
}

pub open spec fn wf_pool_update(v: PoolUpdateV) -> bool {
    wf_rewards_update(v.rewards_update)
}

pub open spec fn senc_pool_update(v: PoolUpdateV) -> Seq<u8> {
    be_bytes(pu_bitmap(v), 1) + be_bytes(v.pair_index as nat, 2)
        + be_bytes(v.swap_in_quantity as nat, 16) + senc_rewards_update(v.rewards_update)
}

pub open spec fn sdec_pool_update(s: Seq<u8>, pos: int, end: int) -> Result<(PoolUpdateV, int), CodecError> {
    match sdec_uint(s, pos, end, 1) {
        Err(e) => Err(e),
        Ok((bm, p1)) => if bm >= 4 {
            Err(CodecError::InvalidBoolean)
        } else {
            match sdec_uint(s, p1, end, 2) {
                Err(e) => Err(e),
                Ok((pi, p2)) => match sdec_uint(s, p2, end, 16) {
                    Err(e) => Err(e),
                    Ok((siq, p3)) => match sdec_rewards_update(s, p3, end, bm / 2) {
                        Err(e) => Err(e),
                        Ok((ru, p4)) => Ok((
                            PoolUpdateV {
                                zero_for_one: bm % 2 == 1,
                                pair_index: pi as u16,
                                swap_in_quantity: siq as u128,
                                rewards_update: ru,
                            },
                            p4,
                        )),
                    },
                },
            }
        },
    }
}

// ---------------------------------------------------------- TopOfBlockOrder

/// Flag bits, declaration order: bit 0 `use_internal`, bit 1 `zero_for_1`,
/// bit 2 `recipient` present, bit 3 the `signature` tag.
pub open spec fn tob_bitmap(v: TopOfBlockOrderV) -> nat {
    b2n(v.use_internal) + 2 * b2n(v.zero_for_1) + 4 * b2n(v.recipient is Some)
        + 8 * sig_tag(v.signature)
}

pub open spec fn wf_top_of_block_order(v: TopOfBlockOrderV) -> bool {
    (match v.recipient {
        Some(a) => a.len() == 20,
        None => true,
    }) && wf_signature(v.signature)
}

pub open spec fn senc_opt_addr(r: Option<Seq<u8>>) -> Seq<u8> {
    match r {
        Some(a) => a,
        None => Seq::empty(),
    }
}

pub open spec fn senc_top_of_block_order(v: TopOfBlockOrderV) -> Seq<u8> {
    be_bytes(tob_bitmap(v), 1) + be_bytes(v.quantity_in as nat, 16)
        + be_bytes(v.quantity_out as nat, 16) + be_bytes(v.max_gas_asset_0 as nat, 16)
        + be_bytes(v.gas_used_asset_0 as nat, 16) + be_bytes(v.pairs_index as nat, 2)
        + senc_opt_addr(v.recipient) + senc_signature(v.signature)
}

pub open spec fn sdec_opt_addr(s: Seq<u8>, pos: int, end: int, present: bool) -> Result<(Option<Seq<u8>>, int), CodecError> {
    if present {
        match sdec_fixed(s, pos, end, 20) {
            Err(e) => Err(e),
            Ok((a, p1)) => Ok((Some(a), p1)),
        }
    } else {
        Ok((None, pos))
    }
}

pub open spec fn sdec_top_of_block_order(s: Seq<u8>, pos: int, end: int) -> Result<(TopOfBlockOrderV, int), CodecError> {
    match sdec_uint(s, pos, end, 1) {
        Err(e) => Err(e),
        Ok((bm, p1)) => if bm >= 16 {
            Err(CodecError::InvalidBoolean)
        } else {
            match sdec_uint(s, p1, end, 16) {
                Err(e) => Err(e),
                Ok((qi, p2)) => match sdec_uint(s, p2, end, 16) {
                    Err(e) => Err(e),
                    Ok((qo, p3)) => match sdec_uint(s, p3, end, 16) {
                        Err(e) => Err(e),
                        Ok((mg, p4)) => match sdec_uint(s, p4, end, 16) {
                            Err(e) => Err(e),
                            Ok((gu, p5)) => match sdec_uint(s, p5, end, 2) {
                                Err(e) => Err(e),
                                Ok((pi, p6)) => match sdec_opt_addr(s, p6, end, (bm / 4) % 2 == 1) {
                                    Err(e) => Err(e),
                                    Ok((rec, p7)) => match sdec_signature(s, p7, end, bm / 8) {
                                        Err(e) => Err(e),
                                        Ok((sig, p8)) => Ok((
                                            TopOfBlockOrderV {
                                                use_internal: bm % 2 == 1,
                                                quantity_in: qi as u128,
                                                quantity_out: qo as u128,
                                                max_gas_asset_0: mg as u128,
                                                gas_used_asset_0: gu as u128,
                                                pairs_index: pi as u16,
                                                zero_for_1: (bm / 2) % 2 == 1,
                                                recipient: rec,
                                                signature: sig,
                                            },
                                            p8,
                                        )),
                                    },
                                },
                            },
                        },
                    },
                },
            }
        },
    }
}

// ---------------------------------------------------------------- UserOrder

/// Flag bits, declaration order: bit 0 `use_internal`, bit 1 `recipient`
/// present, bit 2 `hook_data` present, bit 3 `zero_for_one`, bit 4
/// `standing_validation` present, bit 5 the `order_quantities` tag, bit 6
/// `exact_in`, bit 7 the `signature` tag. All eight bits are declared, so
/// every bitmap byte is admissible.
pub open spec fn uo_bitmap(v: UserOrderV) -> nat {
    b2n(v.use_internal) + 2 * b2n(v.recipient is Some) + 4 * b2n(v.hook_data is Some)
        + 8 * b2n(v.zero_for_one) + 16 * b2n(v.standing_validation is Some)
        + 32 * oq_tag(v.order_quantities) + 64 * b2n(v.exact_in) + 128 * sig_tag(v.signature)
}

pub open spec fn wf_user_order(v: UserOrderV) -> bool {
    v.min_price.len() == 32 && (match v.recipient {
        Some(a) => a.len() == 20,
        None => true,
    }) && (match v.hook_data {
        Some(h) => wf_byte_vec(h),
        None => true,
    }) && (match v.standing_validation {
        Some(sv) => wf_standing_validation(sv),
        None => true,
    }) && wf_signature(v.signature)
}

pub open spec fn senc_opt_hook(h: Option<Seq<u8>>) -> Seq<u8> {
    match h {
        Some(b) => senc_byte_vec(b),
        None => Seq::empty(),
    }
}

pub open spec fn senc_opt_sv(sv: Option<StandingValidationV>) -> Seq<u8> {
    match sv {
        Some(v) => senc_standing_validation(v),
        None => Seq::empty(),
    }
}

pub open spec fn senc_user_order(v: UserOrderV) -> Seq<u8> {
    be_bytes(uo_bitmap(v), 1) + be_bytes(v.ref_id as nat, 4) + be_bytes(v.pair_index as nat, 2)
        + v.min_price + senc_opt_addr(v.recipient) + senc_opt_hook(v.hook_data)
        + senc_opt_sv(v.standing_validation) + senc_order_quantities(v.order_quantities)
        + be_bytes(v.max_extra_fee_asset0 as nat, 16) + be_bytes(v.extra_fee_asset0 as nat, 16)
        + senc_signature(v.signature)
}

pub open spec fn sdec_opt_hook(s: Seq<u8>, pos: int, end: int, present: bool) -> Result<(Option<Seq<u8>>, int), CodecError> {
    if present {
        match sdec_byte_vec(s, pos, end) {
            Err(e) => Err(e),
            Ok((h, p1)) => Ok((Some(h), p1)),
        }
    } else {
        Ok((None, pos))
    }
}

pub open spec fn sdec_opt_sv(s: Seq<u8>, pos: int, end: int, present: bool) -> Result<(Option<StandingValidationV>, int), CodecError> {
    if present {
        match sdec_standing_validation(s, pos, end) {
            Err(e) => Err(e),
            Ok((sv, p1)) => Ok((Some(sv), p1)),
        }
    } else {
        Ok((None, pos))
    }
}

pub open spec fn sdec_user_order(s: Seq<u8>, pos: int, end: int) -> Result<(UserOrderV, int), CodecError> {
    match sdec_uint(s, pos, end, 1) {
        Err(e) => Err(e),
        Ok((bm, p1)) => match sdec_uint(s, p1, end, 4) {
            Err(e) => Err(e),
            Ok((rid, p2)) => match sdec_uint(s, p2, end, 2) {
                Err(e) => Err(e),
                Ok((pi, p3)) => match sdec_fixed(s, p3, end, 32) {
                    Err(e) => Err(e),
                    Ok((mp, p4)) => match sdec_opt_addr(s, p4, end, (bm / 2) % 2 == 1) {
                        Err(e) => Err(e),
                        Ok((rec, p5)) => match sdec_opt_hook(s, p5, end, (bm / 4) % 2 == 1) {
                            Err(e) => Err(e),
                            Ok((hook, p6)) => match sdec_opt_sv(s, p6, end, (bm / 16) % 2 == 1) {
                                Err(e) => Err(e),
                                Ok((sv, p7)) => match sdec_order_quantities(s, p7, end, (bm / 32) % 2) {
                                    Err(e) => Err(e),
                                    Ok((oq, p8)) => match sdec_uint(s, p8, end, 16) {
                                        Err(e) => Err(e),
                                        Ok((mx, p9)) => match sdec_uint(s, p9, end, 16) {
                                            Err(e) => Err(e),
                                            Ok((xf, p10)) => match sdec_signature(s, p10, end, bm / 128) {
                                                Err(e) => Err(e),
                                                Ok((sig, p11)) => Ok((
                                                    UserOrderV {
                                                        ref_id: rid as u32,
                                                        use_internal: bm % 2 == 1,
                                                        pair_index: pi as u16,
                                                        min_price: mp,
                                                        recipient: rec,
                                                        hook_data: hook,
                                                        zero_for_one: (bm / 8) % 2 == 1,
                                                        standing_validation: sv,
                                                        order_quantities: oq,
                                                        max_extra_fee_asset0: mx as u128,
                                                        extra_fee_asset0: xf as u128,
                                                        exact_in: (bm / 64) % 2 == 1,
                                                        signature: sig,
                                                    },
                                                    p11,
                                                )),
                                            },
                                        },
                                    },
                                },
                            },
                        },
                    },
                },
            },
        },
    }
}

// ----------------------------------------------------------- AngstromBundle

pub open spec fn e_asset() -> spec_fn(AssetV) -> Seq<u8> {
    |v: AssetV| senc_asset(v)
}

pub open spec fn d_asset() -> spec_fn(Seq<u8>, int, int) -> Result<(AssetV, int), CodecError> {
    |s: Seq<u8>, pos: int, end: int| sdec_asset(s, pos, end)
}

pub open spec fn e_pair() -> spec_fn(PairV) -> Seq<u8> {
    |v: PairV| senc_pair(v)
}

pub open spec fn d_pair() -> spec_fn(Seq<u8>, int, int) -> Result<(PairV, int), CodecError> {
    |s: Seq<u8>, pos: int, end: int| sdec_pair(s, pos, end)
}

pub open spec fn e_pool_update() -> spec_fn(PoolUpdateV) -> Seq<u8> {
    |v: PoolUpdateV| senc_pool_update(v)
}

pub open spec fn d_pool_update() -> spec_fn(Seq<u8>, int, int) -> Result<(PoolUpdateV, int), CodecError> {
    |s: Seq<u8>, pos: int, end: int| sdec_pool_update(s, pos, end)
}

pub open spec fn e_tob() -> spec_fn(TopOfBlockOrderV) -> Seq<u8> {
    |v: TopOfBlockOrderV| senc_top_of_block_order(v)
}

pub open spec fn d_tob() -> spec_fn(Seq<u8>, int, int) -> Result<(TopOfBlockOrderV, int), CodecError> {
    |s: Seq<u8>, pos: int, end: int| sdec_top_of_block_order(s, pos, end)
}

pub open spec fn e_user_order() -> spec_fn(UserOrderV) -> Seq<u8> {
    |v: UserOrderV| senc_user_order(v)
}

pub open spec fn d_user_order() -> spec_fn(Seq<u8>, int, int) -> Result<(UserOrderV, int), CodecError> {
    |s: Seq<u8>, pos: int, end: int| sdec_user_order(s, pos, end)
}

pub open spec fn wf_bundle(v: AngstromBundleV) -> bool {
    wf_vec(v.assets, e_asset(), |a: AssetV| wf_asset(a))
        && wf_vec(v.pairs, e_pair(), |p: PairV| wf_pair(p))
        && wf_vec(v.pool_updates, e_pool_update(), |p: PoolUpdateV| wf_pool_update(p))
        && wf_vec(v.top_of_block_orders, e_tob(), |t: TopOfBlockOrderV| wf_top_of_block_order(t))
        && wf_vec(v.user_orders, e_user_order(), |u: UserOrderV| wf_user_order(u))
}

pub open spec fn senc_bundle(v: AngstromBundleV) -> Seq<u8> {
    senc_vec(v.assets, e_asset()) + senc_vec(v.pairs, e_pair())
        + senc_vec(v.pool_updates, e_pool_update())
        + senc_vec(v.top_of_block_orders, e_tob()) + senc_vec(v.user_orders, e_user_order())
}

pub open spec fn sdec_bundle(s: Seq<u8>, pos: int, end: int) -> Result<(AngstromBundleV, int), CodecError> {
    match sdec_vec(s, pos, end, d_asset()) {
        Err(e) => Err(e),
        Ok((assets, p1)) => match sdec_vec(s, p1, end, d_pair()) {
            Err(e) => Err(e),
            Ok((pairs, p2)) => match sdec_vec(s, p2, end, d_pool_update()) {
                Err(e) => Err(e),
                Ok((pus, p3)) => match sdec_vec(s, p3, end, d_tob()) {
                    Err(e) => Err(e),
                    Ok((tobs, p4)) => match sdec_vec(s, p4, end, d_user_order()) {
                        Err(e) => Err(e),
                        Ok((uos, p5)) => Ok((
                            AngstromBundleV {
                                assets,
                                pairs,
                                pool_updates: pus,
                                top_of_block_orders: tobs,
                                user_orders: uos,
                            },
                            p5,
                        )),
                    },
                },
            },
        },
    }
}

} // verus!
