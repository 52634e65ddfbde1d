use prismswap::asset::{Asset, AssetInfo, Coin};
use prismswap::decimal::Decimal;
use prismswap::factory::FeeConfig;
use prismswap::pair::{
    assert_max_spread, assert_slippage_tolerance, compute_offer_amount, compute_swap,
    cw20_swap_authorized, instantiate, provide_liquidity, query_reverse_simulation,
    query_simulation, set_liquidity_token, swap, withdraw_liquidity, Config, PairAction,
};
use prismswap::ContractError;

fn native(denom: &str) -> AssetInfo {
    AssetInfo::Native(denom.to_string())
}

fn cw20(addr: &str) -> AssetInfo {
    AssetInfo::Cw20(addr.to_string())
}

fn pair_config() -> Config {
    let mut config = instantiate(
        [native("uusd"), cw20("asset0000")],
        "pair0000".to_string(),
        "factory0000".to_string(),
    )
    .unwrap();
    set_liquidity_token(&mut config, "liquidity0000".to_string()).unwrap();
    config
}

#[test]
fn instantiate_rejects_doubled_assets() {
    let err = instantiate(
        [cw20("asset0000"), cw20("asset0000")],
        "pair0000".to_string(),
        "factory0000".to_string(),
    )
    .unwrap_err();
    assert_eq!(err, ContractError::DoublingAssets);
}

#[test]
fn liquidity_token_binds_once() {
    let mut config = instantiate(
        [native("uusd"), cw20("asset0000")],
        "pair0000".to_string(),
        "factory0000".to_string(),
    )
    .unwrap();
    set_liquidity_token(&mut config, "liquidity0000".to_string()).unwrap();
    let err = set_liquidity_token(&mut config, "liquidity0001".to_string()).unwrap_err();
    assert_eq!(err, ContractError::PermissionDenied);
    assert_eq!(config.pair_info.liquidity_token, "liquidity0000".to_string());
}

#[test]
fn cw20_hook_authorization() {
    let config = pair_config();
    assert!(cw20_swap_authorized(&config, &"asset0000".to_string()));
    assert!(!cw20_swap_authorized(&config, &"asset0001".to_string()));
    assert!(!cw20_swap_authorized(&config, &"uusd".to_string()));
}

#[test]
fn compute_swap_concrete() {
    // pools 1,000,000 / 1,000,000, offer 1,000, total fee 0.3%
    let (return_amount, spread_amount, commission_amount) = compute_swap(
        1_000_000,
        1_000_000,
        1_000,
        &Decimal::permille(3),
    );
    assert_eq!(return_amount, 997);
    assert_eq!(spread_amount, 1);
    assert_eq!(commission_amount, 2);

    // the pool's constant product never shrinks:
    // (1,000,000 + 1,000) * (1,000,000 - 997 - 2) >= 1,000,000 * 1,000,000
    let lhs: u128 = (1_000_000 + 1_000) * (1_000_000 - 997 - 2);
    assert!(lhs >= 1_000_000u128 * 1_000_000u128);

    // with no fee the commission is zero
    let (return_amount, spread_amount, commission_amount) =
        compute_swap(1_000_000, 1_000_000, 1_000, &Decimal::zero());
    assert_eq!(return_amount, 999);
    assert_eq!(spread_amount, 1);
    assert_eq!(commission_amount, 0);
}

#[test]
fn compute_offer_amount_concrete() {
    // how much uusd buys 997 of the ask asset, at 0.3% fee
    let (offer_amount, spread_amount, commission_amount) =
        compute_offer_amount(1_000_000, 1_000_000, 997, &Decimal::permille(3)).unwrap();
    assert_eq!(offer_amount, 999);
    assert_eq!(spread_amount, 0);
    assert_eq!(commission_amount, 2);

    // asking for more than the pool can release fails arithmetically
    let err =
        compute_offer_amount(1_000_000, 1_000, 2_000, &Decimal::permille(3)).unwrap_err();
    assert_eq!(err, ContractError::ArithmeticError);
}

#[test]
fn max_spread_checks() {
    // expected return 1,000,000 at belief price 1; only 989,999 comes back
    let err = assert_max_spread(
        Some(Decimal::one()),
        Some(Decimal::from_ratio(1, 100)),
        1_000_000,
        989_999,
        0,
    )
    .unwrap_err();
    assert_eq!(err, ContractError::SlippageExceeded);

    // 990,000 is exactly within the 1% limit
    assert_max_spread(
        Some(Decimal::one()),
        Some(Decimal::from_ratio(1, 100)),
        1_000_000,
        990_000,
        0,
    )
    .unwrap();

    // without a belief price the pool spread is measured directly
    let err = assert_max_spread(
        None,
        Some(Decimal::from_ratio(1, 100)),
        1_000_000,
        989_999,
        10_001,
    )
    .unwrap_err();
    assert_eq!(err, ContractError::SlippageExceeded);

    assert_max_spread(
        None,
        Some(Decimal::from_ratio(1, 100)),
        1_000_000,
        990_000,
        10_000,
    )
    .unwrap();

    // no limit, no check
    assert_max_spread(Some(Decimal::one()), None, 1_000_000, 1, 1).unwrap();
}

#[test]
fn slippage_tolerance_checks() {
    // deposits twice as rich in asset 0 as the pool allows at 1% tolerance
    let err = assert_slippage_tolerance(
        Some(Decimal::from_ratio(1, 100)),
        &[200, 100],
        &[100, 100],
    )
    .unwrap_err();
    assert_eq!(err, ContractError::SlippageExceeded);

    // proportional deposits pass
    assert_slippage_tolerance(Some(Decimal::from_ratio(1, 100)), &[100, 100], &[500, 500])
        .unwrap();

    // a tolerance above one is itself rejected
    let err = assert_slippage_tolerance(
        Some(Decimal {
            atomics: 1_000_000_000_000_000_001,
        }),
        &[100, 100],
        &[500, 500],
    )
    .unwrap_err();
    assert_eq!(err, ContractError::ValidationError);

    // no tolerance, no check
    assert_slippage_tolerance(None, &[200, 100], &[100, 100]).unwrap();
}

#[test]
fn provide_liquidity_initial_and_proportional() {
    let config = pair_config();
    let sender = "addr0000".to_string();

    // initial provision: pools hold only the pre-credited native deposit
    let pools = [
        Asset {
            info: native("uusd"),
            amount: 100_000,
        },
        Asset {
            info: cw20("asset0000"),
            amount: 0,
        },
    ];
    let assets = [
        Asset {
            info: native("uusd"),
            amount: 100_000,
        },
        Asset {
            info: cw20("asset0000"),
            amount: 400_000,
        },
    ];
    let funds = vec![Coin {
        denom: "uusd".to_string(),
        amount: 100_000,
    }];
    let resp =
        provide_liquidity(&config, &pools, 0, &assets, None, &sender, None, &funds).unwrap();
    // isqrt(100,000 * 400,000) = 200,000 shares
    assert_eq!(resp.share, 200_000);
    assert_eq!(resp.receiver, "addr0000".to_string());
    assert_eq!(resp.actions.len(), 2);
    match &resp.actions[0] {
        PairAction::TransferFrom {
            token,
            owner,
            recipient,
            amount,
        } => {
            assert_eq!(token, "asset0000");
            assert_eq!(owner, "addr0000");
            assert_eq!(recipient, "pair0000");
            assert_eq!(*amount, 400_000);
        }
        _ => panic!("expected a pull transfer"),
    }
    match &resp.actions[1] {
        PairAction::Mint {
            token,
            recipient,
            amount,
        } => {
            assert_eq!(token, "liquidity0000");
            assert_eq!(recipient, "addr0000");
            assert_eq!(*amount, 200_000);
        }
        _ => panic!("expected a mint"),
    }

    // proportional provision against grown pools
    let pools = [
        Asset {
            info: native("uusd"),
            amount: 1_100_000,
        },
        Asset {
            info: cw20("asset0000"),
            amount: 4_000_000,
        },
    ];
    let resp = provide_liquidity(
        &config,
        &pools,
        1_000_000,
        &assets,
        None,
        &sender,
        Some("receiver0000".to_string()),
        &funds,
    )
    .unwrap();
    // min(100,000 * ts / 1,000,000, 400,000 * ts / 4,000,000) = 100,000
    assert_eq!(resp.share, 100_000);
    assert_eq!(resp.receiver, "receiver0000".to_string());

    // a native deposit that was not handed over is rejected
    let err = provide_liquidity(&config, &pools, 1_000_000, &assets, None, &sender, None, &vec![])
        .unwrap_err();
    assert_eq!(err, ContractError::ValidationError);

    // a zero provision mints zero shares and is rejected
    let zero_assets = [
        Asset {
            info: native("uusd"),
            amount: 0,
        },
        Asset {
            info: cw20("asset0000"),
            amount: 0,
        },
    ];
    let pools0 = [
        Asset {
            info: native("uusd"),
            amount: 1_000_000,
        },
        Asset {
            info: cw20("asset0000"),
            amount: 4_000_000,
        },
    ];
    let err = provide_liquidity(&config, &pools0, 1_000_000, &zero_assets, None, &sender, None, &vec![])
        .unwrap_err();
    assert_eq!(err, ContractError::InvalidZeroAmount);
}

#[test]
fn withdraw_liquidity_round_trip() {
    let config = pair_config();

    // withdraw the 100,000 shares minted by the proportional provision
    let pools = [
        Asset {
            info: native("uusd"),
            amount: 1_100_000,
        },
        Asset {
            info: cw20("asset0000"),
            amount: 4_400_000,
        },
    ];
    let resp = withdraw_liquidity(
        &config,
        &pools,
        1_100_000,
        100_000,
        &"liquidity0000".to_string(),
        "addr0000".to_string(),
    )
    .unwrap();
    // each refund stays within the rounding unit of the matching deposit
    assert_eq!(resp.refund_assets[0].amount, 99_999);
    assert_eq!(resp.refund_assets[1].amount, 399_999);
    assert!(resp.refund_assets[0].amount <= 100_000);
    assert!(resp.refund_assets[1].amount <= 400_000);
    assert_eq!(resp.actions.len(), 3);
    match &resp.actions[2] {
        PairAction::Burn { token, amount } => {
            assert_eq!(token, "liquidity0000");
            assert_eq!(*amount, 100_000);
        }
        _ => panic!("expected a burn"),
    }

    // only the share ledger itself may withdraw
    let err = withdraw_liquidity(
        &config,
        &pools,
        1_100_000,
        100_000,
        &"addr0000".to_string(),
        "addr0000".to_string(),
    )
    .unwrap_err();
    assert_eq!(err, ContractError::PermissionDenied);

    // the very first provision round-trips exactly
    let pools = [
        Asset {
            info: native("uusd"),
            amount: 100_000,
        },
        Asset {
            info: cw20("asset0000"),
            amount: 400_000,
        },
    ];
    let resp = withdraw_liquidity(
        &config,
        &pools,
        200_000,
        200_000,
        &"liquidity0000".to_string(),
        "addr0000".to_string(),
    )
    .unwrap();
    assert_eq!(resp.refund_assets[0].amount, 100_000);
    assert_eq!(resp.refund_assets[1].amount, 400_000);
}

#[test]
fn swap_native_offer() {
    let config = pair_config();
    let fee = FeeConfig {
        total_fee: Decimal::permille(3),
        protocol_fee: Decimal::from_ratio(1, 2),
    };
    // the offered 1,000 uusd is already credited to the uusd pool
    let pools = [
        Asset {
            info: native("uusd"),
            amount: 1_001_000,
        },
        Asset {
            info: cw20("asset0000"),
            amount: 1_000_000,
        },
    ];
    let offer = Asset {
        info: native("uusd"),
        amount: 1_000,
    };
    let funds = vec![Coin {
        denom: "uusd".to_string(),
        amount: 1_000,
    }];
    let resp = swap(
        &config,
        &pools,
        &fee,
        &"collector0000".to_string(),
        "addr0000".to_string(),
        &offer,
        None,
        None,
        None,
        &funds,
    )
    .unwrap();
    assert_eq!(resp.return_amount, 997);
    assert_eq!(resp.spread_amount, 1);
    assert_eq!(resp.commission_amount, 2);
    assert_eq!(resp.protocol_fee_amount, 1);
    assert_eq!(resp.receiver, "addr0000".to_string());
    assert_eq!(resp.actions.len(), 2);
    match &resp.actions[0] {
        PairAction::Send { asset, recipient } => {
            assert_eq!(asset.info, cw20("asset0000"));
            assert_eq!(asset.amount, 997);
            assert_eq!(recipient, "addr0000");
        }
        _ => panic!("expected the return transfer"),
    }
    match &resp.actions[1] {
        PairAction::Send { asset, recipient } => {
            assert_eq!(asset.amount, 1);
            assert_eq!(recipient, "collector0000");
        }
        _ => panic!("expected the protocol fee transfer"),
    }

    // an asset foreign to the pair is refused
    let foreign = Asset {
        info: native("ukrw"),
        amount: 1_000,
    };
    let err = swap(
        &config,
        &pools,
        &fee,
        &"collector0000".to_string(),
        "addr0000".to_string(),
        &foreign,
        None,
        None,
        None,
        &vec![Coin {
            denom: "ukrw".to_string(),
            amount: 1_000,
        }],
    )
    .unwrap_err();
    assert_eq!(err, ContractError::AssetMismatch);
}

#[test]
fn simulation_matches_swap_pricing() {
    let pools = [
        Asset {
            info: native("uusd"),
            amount: 1_000_000,
        },
        Asset {
            info: cw20("asset0000"),
            amount: 1_000_000,
        },
    ];
    let offer = Asset {
        info: native("uusd"),
        amount: 1_000,
    };
    let sim = query_simulation(&pools, &offer, &Decimal::permille(3)).unwrap();
    assert_eq!(sim.return_amount, 997);
    assert_eq!(sim.spread_amount, 1);
    assert_eq!(sim.commission_amount, 2);

    let ask = Asset {
        info: cw20("asset0000"),
        amount: 997,
    };
    let rev = query_reverse_simulation(&pools, &ask, &Decimal::permille(3)).unwrap();
    assert_eq!(rev.offer_amount, 999);
    assert_eq!(rev.spread_amount, 0);
    assert_eq!(rev.commission_amount, 2);

    let foreign = Asset {
        info: native("ukrw"),
        amount: 1_000,
    };
    let err = query_simulation(&pools, &foreign, &Decimal::permille(3)).unwrap_err();
    assert_eq!(err, ContractError::AssetMismatch);
}
