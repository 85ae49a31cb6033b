//! The settlement-bundle schema: the executable record and union types, and
//! for each a ghost view used by every contract. Fixed-size identifiers are
//! byte vectors whose length is part of each type's well-formedness.

use vstd::prelude::*;

verus! {

/// Per-token accounting entry. `addr` is a 20-byte token address.
#[derive(Clone, Debug, PartialEq, Eq)]
pub struct Asset {
    pub addr: Vec<u8>,
    pub save: u128,
    pub take: u128,
    pub settle: u128,
}

pub struct AssetV {
    pub addr: Seq<u8>,
    pub save: u128,
    pub take: u128,
    pub settle: u128,
}

impl View for Asset {
    type V = AssetV;

    open spec fn view(&self) -> AssetV {
        AssetV { addr: self.addr@, save: self.save, take: self.take, settle: self.settle }
    }
}

/// A trading pair, referring to assets by index. `price_1over0` is a 32-byte word.
#[derive(Clone, Debug, PartialEq, Eq)]
pub struct Pair {
    pub index0: u16,
    pub index1: u16,
    pub store_index: u16,
    pub price_1over0: Vec<u8>,
}

pub struct PairV {
    pub index0: u16,
    pub index1: u16,
    pub store_index: u16,
    pub price_1over0: Seq<u8>,
}

impl View for Pair {
    type V = PairV;

    open spec fn view(&self) -> PairV {
        PairV {
            index0: self.index0,
            index1: self.index1,
            store_index: self.store_index,
            price_1over0: self.price_1over0@,
        }
    }
}

/// How a pool's rewards change. `start_tick` is a 3-byte signed tick kept as
/// raw bytes; `reward_checksum` is a 20-byte word.
#[derive(Clone, Debug, PartialEq, Eq)]
pub enum RewardsUpdate {
    MultiTick { start_tick: Vec<u8>, start_liquidity: u128, quantities: Vec<u128>, reward_checksum: Vec<u8> },
    CurrentOnly { amount: u128, expected_liquidity: u128 },
}

pub enum RewardsUpdateV {
    MultiTick { start_tick: Seq<u8>, start_liquidity: u128, quantities: Seq<u128>, reward_checksum: Seq<u8> },
    CurrentOnly { amount: u128, expected_liquidity: u128 },
}

impl View for RewardsUpdate {
    type V = RewardsUpdateV;

    open spec fn view(&self) -> RewardsUpdateV {
        match self {
            RewardsUpdate::MultiTick { start_tick, start_liquidity, quantities, reward_checksum } =>
                RewardsUpdateV::MultiTick {
                    start_tick: start_tick@,
                    start_liquidity: *start_liquidity,
                    quantities: quantities@,
                    reward_checksum: reward_checksum@,
                },
            RewardsUpdate::CurrentOnly { amount, expected_liquidity } =>
                RewardsUpdateV::CurrentOnly { amount: *amount, expected_liquidity: *expected_liquidity },
        }
    }
}

/// One liquidity update against a pair.
#[derive(Clone, Debug, PartialEq, Eq)]
pub struct PoolUpdate {
    pub zero_for_one: bool,
    pub pair_index: u16,
    pub swap_in_quantity: u128,
    pub rewards_update: RewardsUpdate,
}

pub struct PoolUpdateV {
    pub zero_for_one: bool,
    pub pair_index: u16,
    pub swap_in_quantity: u128,
    pub rewards_update: RewardsUpdateV,
}

impl View for PoolUpdate {
    type V = PoolUpdateV;

    open spec fn view(&self) -> PoolUpdateV {
        PoolUpdateV {
            zero_for_one: self.zero_for_one,
            pair_index: self.pair_index,
            swap_in_quantity: self.swap_in_quantity,
            rewards_update: self.rewards_update@,
        }
    }
}

/// A signed order's signature: either a contract signature (20-byte signer
/// plus opaque bytes) or a plain ECDSA triple.
#[derive(Clone, Debug, PartialEq, Eq)]
pub enum Signature {
    Contract { from: Vec<u8>, signature: Vec<u8> },
    Ecdsa { v: u8, r: Vec<u8>, s: Vec<u8> },
}

pub enum SignatureV {
    Contract { from: Seq<u8>, signature: Seq<u8> },
    Ecdsa { v: u8, r: Seq<u8>, s: Seq<u8> },
}

impl View for Signature {
    type V = SignatureV;

    open spec fn view(&self) -> SignatureV {
        match self {
            Signature::Contract { from, signature } =>
                SignatureV::Contract { from: from@, signature: signature@ },
            Signature::Ecdsa { v, r, s } => SignatureV::Ecdsa { v: *v, r: r@, s: s@ },
        }
    }
}

/// Top-of-block order record. `recipient` is an optional 20-byte address.
#[derive(Clone, Debug, PartialEq, Eq)]
pub struct TopOfBlockOrder {
    pub use_internal: bool,
    pub quantity_in: u128,
    pub quantity_out: u128,
    pub max_gas_asset_0: u128,
    pub gas_used_asset_0: u128,
    pub pairs_index: u16,
    pub zero_for_1: bool,
    pub recipient: Option<Vec<u8>>,
    pub signature: Signature,
}

pub struct TopOfBlockOrderV {
    pub use_internal: bool,
    pub quantity_in: u128,
    pub quantity_out: u128,
    pub max_gas_asset_0: u128,
    pub gas_used_asset_0: u128,
    pub pairs_index: u16,
    pub zero_for_1: bool,
    pub recipient: Option<Seq<u8>>,
    pub signature: SignatureV,
}

impl View for TopOfBlockOrder {
    type V = TopOfBlockOrderV;

    open spec fn view(&self) -> TopOfBlockOrderV {
        TopOfBlockOrderV {
            use_internal: self.use_internal,
            quantity_in: self.quantity_in,
            quantity_out: self.quantity_out,
            max_gas_asset_0: self.max_gas_asset_0,
            gas_used_asset_0: self.gas_used_asset_0,
            pairs_index: self.pairs_index,
            zero_for_1: self.zero_for_1,
            recipient: match &self.recipient {
                Some(a) => Some(a@),
                None => None,
            },
            signature: self.signature@,
        }
    }
}

/// Replay protection for a standing order: a nonce and a deadline that is
/// wire-encoded in only five bytes.
#[derive(Clone, Debug, PartialEq, Eq)]
pub struct StandingValidation {
    pub nonce: u64,
    pub deadline: u64,
}

pub struct StandingValidationV {
    pub nonce: u64,
    pub deadline: u64,
}

impl View for StandingValidation {
    type V = StandingValidationV;

    open spec fn view(&self) -> StandingValidationV {
        StandingValidationV { nonce: self.nonce, deadline: self.deadline }
    }
}

/// How much of a user order is to be filled.
#[derive(Clone, Debug, PartialEq, Eq)]
pub enum OrderQuantities {
    Exact { quantity: u128 },
    Partial { min_quantity_in: u128, max_quantity_in: u128, filled_quantity: u128 },
}

pub enum OrderQuantitiesV {
    Exact { quantity: u128 },
    Partial { min_quantity_in: u128, max_quantity_in: u128, filled_quantity: u128 },
}

impl View for OrderQuantities {
    type V = OrderQuantitiesV;

    open spec fn view(&self) -> OrderQuantitiesV {
        match self {
            OrderQuantities::Exact { quantity } => OrderQuantitiesV::Exact { quantity: *quantity },
            OrderQuantities::Partial { min_quantity_in, max_quantity_in, filled_quantity } =>
                OrderQuantitiesV::Partial {
                    min_quantity_in: *min_quantity_in,
                    max_quantity_in: *max_quantity_in,
                    filled_quantity: *filled_quantity,
                },
        }
    }
}

/// A user's limit order. `min_price` is a 32-byte word; `hook_data` is an
/// optional opaque byte run.
#[derive(Clone, Debug, PartialEq, Eq)]
pub struct UserOrder {
    pub ref_id: u32,
    pub use_internal: bool,
    pub pair_index: u16,
    pub min_price: Vec<u8>,
    pub recipient: Option<Vec<u8>>,
    pub hook_data: Option<Vec<u8>>,
    pub zero_for_one: bool,
    pub standing_validation: Option<StandingValidation>,
    pub order_quantities: OrderQuantities,
    pub max_extra_fee_asset0: u128,
    pub extra_fee_asset0: u128,
    pub exact_in: bool,
    pub signature: Signature,
}

pub struct UserOrderV {
    pub ref_id: u32,
    pub use_internal: bool,
    pub pair_index: u16,
    pub min_price: Seq<u8>,
    pub recipient: Option<Seq<u8>>,
    pub hook_data: Option<Seq<u8>>,
    pub zero_for_one: bool,
    pub standing_validation: Option<StandingValidationV>,
    pub order_quantities: OrderQuantitiesV,
    pub max_extra_fee_asset0: u128,
    pub extra_fee_asset0: u128,
    pub exact_in: bool,
    pub signature: SignatureV,
}

impl View for UserOrder {
    type V = UserOrderV;

    open spec fn view(&self) -> UserOrderV {
        UserOrderV {
            ref_id: self.ref_id,
            use_internal: self.use_internal,
            pair_index: self.pair_index,
            min_price: self.min_price@,
            recipient: match &self.recipient {
                Some(a) => Some(a@),
                None => None,
            },
            hook_data: match &self.hook_data {
                Some(h) => Some(h@),
                None => None,
            },
            zero_for_one: self.zero_for_one,
            standing_validation: match &self.standing_validation {
                Some(sv) => Some(sv@),
                None => None,
            },
            order_quantities: self.order_quantities@,
            max_extra_fee_asset0: self.max_extra_fee_asset0,
            extra_fee_asset0: self.extra_fee_asset0,
            exact_in: self.exact_in,
            signature: self.signature@,
        }
    }
}

/// The root record: five length-prefixed sequences.
#[derive(Clone, Debug, PartialEq, Eq)]
pub struct AngstromBundle {
    pub assets: Vec<Asset>,
    pub pairs: Vec<Pair>,
    pub pool_updates: Vec<PoolUpdate>,
    pub top_of_block_orders: Vec<TopOfBlockOrder>,
    pub user_orders: Vec<UserOrder>,
}

pub struct AngstromBundleV {
    pub assets: Seq<AssetV>,
    pub pairs: Seq<PairV>,
    pub pool_updates: Seq<PoolUpdateV>,
    pub top_of_block_orders: Seq<TopOfBlockOrderV>,
    pub user_orders: Seq<UserOrderV>,
}

impl View for AngstromBundle {
    type V = AngstromBundleV;

    open spec fn view(&self) -> AngstromBundleV {
        AngstromBundleV {
            assets: self.assets@.map_values(|a: Asset| a@),
            pairs: self.pairs@.map_values(|p: Pair| p@),
            pool_updates: self.pool_updates@.map_values(|p: PoolUpdate| p@),
            top_of_block_orders: self.top_of_block_orders@.map_values(|t: TopOfBlockOrder| t@),
            user_orders: self.user_orders@.map_values(|u: UserOrder| u@),
        }
    }
}

} // verus!
