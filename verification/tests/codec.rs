use rs_bundle_decode::dec::{
    decode_bundle_at, decode_pool_update, decode_signature, decode_standing_validation,
    decode_order_quantities, decode_rewards_update,
};
use rs_bundle_decode::enc::{encode_bundle, encode_standing_validation};
use rs_bundle_decode::err::CodecError;
use rs_bundle_decode::types::{
    AngstromBundle, Asset, OrderQuantities, Pair, PoolUpdate, RewardsUpdate, Signature,
    StandingValidation, TopOfBlockOrder, UserOrder,
};
use rs_bundle_decode::decode_bundle;

const SAMPLE: &str = "09c5eabe00000000000000000000000000000000000000000000000000000000000000200000000000000000000000000000000000000000000000000000000000000174000088a0b86991c6218b36c1d19d4a2e9eb0ce3606eb480000000000000000000000000001dd7e000000000000000000000000013dcd7600000000000000000000000000000000c02aaa39b223fe8d0a0e5c4f27ead9083c756cc200000000000000000000000000000000000000000000000000000000000000000000000000000000001bed63d818030b00002600000001000000000000000000000000000000000000000000000000000000000000000000000000330200000000000000000000001bed63d818030b0000000000000000000000000000000a0000000000000000000013806b76267d000084080000000000000000001bed63d818030b000000000000000000000000013dcd6c0000000000000000000000000003bafc0000000000000000000000000001dd7e00001ce7254b94c5bea4da8303c64c16dd07106247ca887e452f283f4a69d53c304a453f213d526e766320c829d2189748ab1a4ddd8c3d0ce12e96723b64ddae6fe6e8000000000000000000000000000000";

fn sample_bytes() -> Vec<u8> {
    hex::decode(SAMPLE).unwrap()
}

#[test]
fn test_bundle_matches() {
    // The reference payload: selector, two opaque 32-byte words, then the
    // bundle body; re-encoding the decoded bundle reproduces the body
    // exactly (the trailing bytes are call-data padding).
    let bytes = sample_bytes();
    let bundle = decode_bundle(SAMPLE).unwrap();
    let encoded = encode_bundle(&bundle).unwrap();
    assert_eq!(encoded.as_slice(), &bytes[(4 + 32 + 32)..(4 + 32 + 32 + 372)]);
}

#[test]
fn sample_sequence_lengths() {
    let bundle = decode_bundle(SAMPLE).unwrap();
    assert_eq!(bundle.assets.len(), 2);
    assert_eq!(bundle.pairs.len(), 1);
    assert_eq!(bundle.pool_updates.len(), 1);
    assert_eq!(bundle.top_of_block_orders.len(), 1);
    assert_eq!(bundle.user_orders.len(), 0);
}

#[test]
fn sample_decoded_values() {
    let bundle = decode_bundle(SAMPLE).unwrap();
    let a0 = &bundle.assets[0];
    assert_eq!(a0.addr, hex::decode("a0b86991c6218b36c1d19d4a2e9eb0ce3606eb48").unwrap());
    assert_eq!(a0.save, 0x1dd7e);
    assert_eq!(a0.take, 0x13dcd76);
    assert_eq!(a0.settle, 0);
    let a1 = &bundle.assets[1];
    assert_eq!(a1.settle, 0x1bed63d818030b);
    assert_eq!(bundle.pairs[0].index0, 0);
    assert_eq!(bundle.pairs[0].index1, 1);
    match &bundle.pool_updates[0].rewards_update {
        RewardsUpdate::CurrentOnly { amount, expected_liquidity } => {
            assert_eq!(*amount, 10);
            assert_eq!(*expected_liquidity, 0x13806b76267d);
        },
        _ => panic!("wrong rewards variant"),
    }
    match &bundle.top_of_block_orders[0].signature {
        Signature::Ecdsa { v, r, s } => {
            assert_eq!(*v, 28);
            assert_eq!(r.len(), 32);
            assert_eq!(s.len(), 32);
        },
        _ => panic!("wrong signature variant"),
    }
}

fn rich_bundle() -> AngstromBundle {
    AngstromBundle {
        assets: vec![Asset { addr: vec![7u8; 20], save: 1, take: u128::MAX, settle: 3 }],
        pairs: vec![Pair { index0: 1, index1: 2, store_index: 3, price_1over0: vec![9u8; 32] }],
        pool_updates: vec![PoolUpdate {
            zero_for_one: true,
            pair_index: 4,
            swap_in_quantity: 55,
            rewards_update: RewardsUpdate::MultiTick {
                start_tick: vec![1, 2, 3],
                start_liquidity: 77,
                quantities: vec![5, 6, 7],
                reward_checksum: vec![8u8; 20],
            },
        }],
        top_of_block_orders: vec![TopOfBlockOrder {
            use_internal: true,
            quantity_in: 10,
            quantity_out: 20,
            max_gas_asset_0: 30,
            gas_used_asset_0: 40,
            pairs_index: 5,
            zero_for_1: false,
            recipient: Some(vec![3u8; 20]),
            signature: Signature::Contract { from: vec![2u8; 20], signature: vec![0xaa, 0xbb] },
        }],
        user_orders: vec![UserOrder {
            ref_id: 99,
            use_internal: false,
            pair_index: 6,
            min_price: vec![1u8; 32],
            recipient: Some(vec![4u8; 20]),
            hook_data: Some(vec![0xde, 0xad]),
            zero_for_one: true,
            standing_validation: Some(StandingValidation { nonce: 123, deadline: 0xFF_FFFF_FFFF }),
            order_quantities: OrderQuantities::Partial {
                min_quantity_in: 1,
                max_quantity_in: 2,
                filled_quantity: 3,
            },
            max_extra_fee_asset0: 4,
            extra_fee_asset0: 5,
            exact_in: true,
            signature: Signature::Ecdsa { v: 27, r: vec![6u8; 32], s: vec![7u8; 32] },
        }],
    }
}

#[test]
fn round_trip_rich_bundle() {
    // Round trip: decode of encode gives the value back, consuming all bytes.
    let v = rich_bundle();
    let b = encode_bundle(&v).unwrap();
    let (decoded, end) = decode_bundle_at(&b, 0, b.len()).unwrap();
    assert_eq!(end, b.len());
    assert_eq!(decoded, v);
}

#[test]
fn byte_stability_rich_bundle() {
    // Byte stability: re-encoding a decoded buffer reproduces it exactly.
    let v = rich_bundle();
    let b = encode_bundle(&v).unwrap();
    let (decoded, _) = decode_bundle_at(&b, 0, b.len()).unwrap();
    assert_eq!(encode_bundle(&decoded).unwrap(), b);
}

#[test]
fn selector_gate() {
    // Any input whose hex does not open with the selector is rejected first.
    assert_eq!(decode_bundle("deadbeef"), Err(CodecError::InvalidSelector));
    assert_eq!(decode_bundle(""), Err(CodecError::InvalidSelector));
    assert_eq!(decode_bundle("0x"), Err(CodecError::InvalidSelector));
    // The selector characters are the lower-case hex text.
    assert_eq!(decode_bundle("09C5EABE"), Err(CodecError::InvalidSelector));
    // Garbage after a valid selector is a hex error, also InvalidSelector.
    assert_eq!(decode_bundle("09c5eabezz"), Err(CodecError::InvalidSelector));
    // Odd length is not hex.
    assert_eq!(decode_bundle("09c5eabe0"), Err(CodecError::InvalidSelector));
    // A well-formed payload passes with or without the 0x prefix.
    let with_prefix = format!("0x{}", SAMPLE);
    assert!(decode_bundle(&with_prefix).is_ok());
    assert!(decode_bundle(SAMPLE).is_ok());
}

#[test]
fn short_payload_is_unexpected_end() {
    // The selector plus both opaque words must be present.
    assert_eq!(decode_bundle("09c5eabe"), Err(CodecError::UnexpectedEnd));
}

#[test]
fn truncation_always_fails() {
    // Cutting a valid encoded bundle anywhere never yields a successful decode.
    let v = rich_bundle();
    let b = encode_bundle(&v).unwrap();
    for cut in 0..b.len() {
        assert!(decode_bundle_at(&b, 0, cut).is_err(), "cut at {}", cut);
    }
    let bytes = sample_bytes();
    for cut in 68..(68 + 372) {
        assert!(decode_bundle_at(&bytes, 68, cut).is_err(), "cut at {}", cut);
    }
}

#[test]
fn tag_bounds_rejected() {
    // A union tag at or past the two declared variants is invalid.
    let buf = vec![0u8; 200];
    for tag in 2..=255u8 {
        assert_eq!(decode_signature(&buf, 0, 200, tag), Err(CodecError::InvalidVariant));
        assert_eq!(decode_order_quantities(&buf, 0, 200, tag), Err(CodecError::InvalidVariant));
        assert_eq!(decode_rewards_update(&buf, 0, 200, tag), Err(CodecError::InvalidVariant));
    }
}

#[test]
fn undeclared_flag_bits_rejected() {
    // A pool update declares two flag bits; any higher bit set is refused.
    let mut buf = vec![0u8; 60];
    buf[0] = 4;
    assert_eq!(decode_pool_update(&buf, 0, 60), Err(CodecError::InvalidBoolean));
    buf[0] = 2;
    assert!(decode_pool_update(&buf, 0, 60).is_ok());
}

#[test]
fn deadline_five_byte_width() {
    // The deadline is wire-encoded in five bytes, zero-extended to u64.
    let mut buf = vec![0u8; 13];
    for i in 8..13 {
        buf[i] = 0xFF;
    }
    let (sv, end) = decode_standing_validation(&buf, 0, 13).unwrap();
    assert_eq!(end, 13);
    assert_eq!(sv.nonce, 0);
    assert_eq!(sv.deadline, (1u64 << 40) - 1);
    // The largest five-byte value encodes; one past it overflows.
    let ok = StandingValidation { nonce: 1, deadline: (1u64 << 40) - 1 };
    assert!(encode_standing_validation(&ok).is_ok());
    let too_big = StandingValidation { nonce: 1, deadline: 1u64 << 40 };
    assert_eq!(encode_standing_validation(&too_big), Err(CodecError::Overflow));
}

#[test]
fn sequence_too_long_overflows() {
    // A byte run longer than the 3-byte count can carry is refused.
    let v = AngstromBundle {
        assets: vec![],
        pairs: vec![],
        pool_updates: vec![],
        top_of_block_orders: vec![TopOfBlockOrder {
            use_internal: false,
            quantity_in: 0,
            quantity_out: 0,
            max_gas_asset_0: 0,
            gas_used_asset_0: 0,
            pairs_index: 0,
            zero_for_1: false,
            recipient: None,
            signature: Signature::Contract { from: vec![0u8; 20], signature: vec![0u8; 0x1000000] },
        }],
        user_orders: vec![],
    };
    assert_eq!(encode_bundle(&v), Err(CodecError::Overflow));
}

#[test]
fn empty_bundle_round_trips() {
    let v = AngstromBundle {
        assets: vec![],
        pairs: vec![],
        pool_updates: vec![],
        top_of_block_orders: vec![],
        user_orders: vec![],
    };
    let b = encode_bundle(&v).unwrap();
    assert_eq!(b, vec![0u8; 15]);
    let (decoded, end) = decode_bundle_at(&b, 0, b.len()).unwrap();
    assert_eq!(end, 15);
    assert_eq!(decoded, v);
}
