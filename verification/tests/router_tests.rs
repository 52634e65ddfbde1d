use prismswap::asset::AssetInfo;
use prismswap::router;
use prismswap::router::{
    assert_minimum_receive, assert_operations, instantiate, query_config,
    simulate_swap_operations, RouterMsg, StepAction, SwapOperation,
};
use prismswap::ContractError;

fn native_swap(offer: &str, ask: &str) -> SwapOperation {
    SwapOperation::NativeSwap {
        offer_denom: offer.to_string(),
        ask_denom: ask.to_string(),
    }
}

fn prism_swap(offer: AssetInfo, ask: AssetInfo) -> SwapOperation {
    SwapOperation::PrismSwap {
        offer_asset_info: offer,
        ask_asset_info: ask,
    }
}

fn native(denom: &str) -> AssetInfo {
    AssetInfo::Native(denom.to_string())
}

fn cw20(addr: &str) -> AssetInfo {
    AssetInfo::Cw20(addr.to_string())
}

#[test]
fn test_invalid_operations() {
    // empty error
    assert!(assert_operations(&vec![]).is_err());

    // uluna output
    assert!(assert_operations(&vec![
        native_swap("uusd", "uluna"),
        prism_swap(native("ukrw"), cw20("asset0001")),
        prism_swap(cw20("asset0001"), native("uluna")),
    ])
    .is_ok());

    // asset0002 output
    assert!(assert_operations(&vec![
        native_swap("uusd", "uluna"),
        prism_swap(native("ukrw"), cw20("asset0001")),
        prism_swap(cw20("asset0001"), native("uluna")),
        prism_swap(native("uluna"), cw20("asset0002")),
    ])
    .is_ok());

    // multiple output token types error
    assert!(assert_operations(&vec![
        native_swap("uusd", "ukrw"),
        prism_swap(native("ukrw"), cw20("asset0001")),
        prism_swap(cw20("asset0001"), native("uaud")),
        prism_swap(native("uluna"), cw20("asset0002")),
    ])
    .is_err());
}

#[test]
fn tests_proper_initialization() {
    let config = instantiate("factory".to_string());
    assert_eq!("factory", query_config(&config).factory.as_str());
}

#[test]
fn execute_swap_operations() {
    // must provide operations
    let res = router::execute_swap_operations("addr0000".to_string(), &vec![], None, None, 0);
    match res {
        Err(ContractError::ValidationError) => {}
        _ => panic!("DO NOT ENTER HERE"),
    }

    let operations = vec![
        native_swap("uusd", "ukrw"),
        prism_swap(native("ukrw"), cw20("asset0001")),
        prism_swap(cw20("asset0001"), native("uluna")),
        prism_swap(native("uluna"), cw20("asset0002")),
    ];

    let msgs = router::execute_swap_operations(
        "addr0000".to_string(),
        &operations,
        Some(1000000u128),
        None,
        1000000u128,
    )
    .unwrap();
    assert_eq!(msgs.len(), 5);
    for (i, msg) in msgs.iter().take(4).enumerate() {
        match msg {
            RouterMsg::ExecuteSwapOperation { operation, to } => {
                assert_eq!(*operation, operations[i]);
                if i == 3 {
                    assert_eq!(*to, Some("addr0000".to_string()));
                } else {
                    assert_eq!(*to, None);
                }
            }
            _ => panic!("DO NOT ENTER HERE"),
        }
    }
    match &msgs[4] {
        RouterMsg::AssertMinimumReceive {
            asset_info,
            prev_balance,
            minimum_receive,
            receiver,
        } => {
            assert_eq!(*asset_info, cw20("asset0002"));
            assert_eq!(*prev_balance, 1000000u128);
            assert_eq!(*minimum_receive, 1000000u128);
            assert_eq!(receiver, "addr0000");
        }
        _ => panic!("DO NOT ENTER HERE"),
    }

    // a route that re-introduces a consumed asset as a second output fails
    let res = router::execute_swap_operations(
        "addr0000".to_string(),
        &vec![
            native_swap("uusd", "ukrw"),
            prism_swap(native("ukrw"), cw20("asset0001")),
            prism_swap(cw20("asset0001"), native("uaud")),
            prism_swap(native("uluna"), cw20("asset0002")),
        ],
        None,
        Some("addr0002".to_string()),
        0,
    );
    match res {
        Err(ContractError::ValidationError) => {}
        _ => panic!("DO NOT ENTER HERE"),
    }
}

#[test]
fn execute_swap_operation() {
    let self_addr = "router0000".to_string();

    // only the router itself may run a step
    let res = router::execute_swap_operation(
        &self_addr,
        &"addr0000".to_string(),
        &native_swap("uusd", "uluna"),
        None,
        1000000u128,
        &"pair".to_string(),
    );
    match res {
        Err(ContractError::PermissionDenied) => {}
        _ => panic!("DO NOT ENTER HERE"),
    }

    // a native leg forwards the router's whole balance to the market
    let action = router::execute_swap_operation(
        &self_addr,
        &self_addr,
        &native_swap("uusd", "uluna"),
        None,
        1000000u128,
        &"pair".to_string(),
    )
    .unwrap();
    match action {
        StepAction::NativeSwap {
            offer,
            ask_denom,
            recipient,
        } => {
            assert_eq!(offer.denom, "uusd".to_string());
            assert_eq!(offer.amount, 1000000u128);
            assert_eq!(ask_denom, "uluna".to_string());
            assert_eq!(recipient, None);
        }
        _ => panic!("DO NOT ENTER HERE"),
    }

    // a pool leg swaps the router's whole balance against the pair
    let action = router::execute_swap_operation(
        &self_addr,
        &self_addr,
        &prism_swap(native("uusd"), cw20("asset")),
        Some("addr0000".to_string()),
        1000000u128,
        &"pair".to_string(),
    )
    .unwrap();
    match action {
        StepAction::PairSwap {
            pair,
            offer_asset,
            to,
        } => {
            assert_eq!(pair, "pair".to_string());
            assert_eq!(offer_asset.info, native("uusd"));
            assert_eq!(offer_asset.amount, 1000000u128);
            assert_eq!(to, Some("addr0000".to_string()));
        }
        _ => panic!("DO NOT ENTER HERE"),
    }
}

#[test]
fn query_buy_with_routes() {
    let operations = vec![
        native_swap("uusd", "ukrw"),
        prism_swap(native("ukrw"), cw20("asset0000")),
        prism_swap(cw20("asset0000"), native("uluna")),
    ];
    // each leg's queried return is 1,000,000; the route answers the last
    let amount = simulate_swap_operations(
        1000000u128,
        &operations,
        &vec![1000000u128, 1000000u128, 1000000u128],
    )
    .unwrap();
    assert_eq!(amount, 1000000u128);

    let operations = vec![native_swap("uusd", "ukrw"), native_swap("ukrw", "uluna")];
    let amount =
        simulate_swap_operations(1000000u128, &operations, &vec![1000000u128, 1000000u128])
            .unwrap();
    assert_eq!(amount, 1000000u128);

    // an empty route cannot be simulated
    let res = simulate_swap_operations(1000000u128, &vec![], &vec![]);
    match res {
        Err(ContractError::ValidationError) => {}
        _ => panic!("DO NOT ENTER HERE"),
    }
}

#[test]
fn assert_minimum_receive_native_token() {
    // receiving exactly the minimum passes
    assert_minimum_receive(0, 1000000u128, 1000000u128).unwrap();

    // falling one short fails with both amounts reported
    let res = assert_minimum_receive(0, 1000001u128, 1000000u128);
    match res {
        Err(ContractError::MinimumReceiveNotMet {
            minimum_receive,
            swap_amount,
        }) => {
            assert_eq!(minimum_receive, 1000001u128);
            assert_eq!(swap_amount, 1000000u128);
        }
        _ => panic!("DO NOT ENTER HERE"),
    }
}

#[test]
fn assert_minimum_receive_token() {
    assert_minimum_receive(0, 1000000u128, 1000000u128).unwrap();

    let res = assert_minimum_receive(0, 1000001u128, 1000000u128);
    match res {
        Err(ContractError::MinimumReceiveNotMet {
            minimum_receive,
            swap_amount,
        }) => {
            assert_eq!(minimum_receive, 1000001u128);
            assert_eq!(swap_amount, 1000000u128);
        }
        _ => panic!("DO NOT ENTER HERE"),
    }

    // a balance that shrank below the snapshot is a hard failure
    let res = assert_minimum_receive(2000000u128, 1u128, 1000000u128);
    match res {
        Err(ContractError::ArithmeticError) => {}
        _ => panic!("DO NOT ENTER HERE"),
    }
}
