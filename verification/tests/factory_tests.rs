use prismswap::asset::AssetInfo;
use prismswap::decimal::Decimal;
use prismswap::factory::{
    calc_range_start, execute_create_pair, execute_deregister, execute_update_config,
    execute_update_pair_config, instantiate, migrate_config, pair_key, query_config,
    query_fee_config, query_pair_config, read_pairs, reply, FeeConfig, InstantiateMsg,
    LegacyConfig, Registry,
};
use prismswap::ContractError;

fn default_fee() -> FeeConfig {
    FeeConfig {
        total_fee: Decimal::permille(3),
        protocol_fee: Decimal {
            atomics: 334_000_000_000_000_000,
        },
    }
}

fn init_registry() -> Registry {
    instantiate(InstantiateMsg {
        pair_code_id: 321u64,
        token_code_id: 123u64,
        owner: "owner0000".to_string(),
        collector: "collector0000".to_string(),
        pairs_admin: "admin0000".to_string(),
    })
}

fn cw20(addr: &str) -> AssetInfo {
    AssetInfo::Cw20(addr.to_string())
}

#[test]
fn test_config_migration() {
    let legacy = LegacyConfig {
        owner: "owner0000".to_string(),
        token_code_id: 2,
        pair_code_id: 33,
        collector: "collector0000".to_string(),
    };

    let config = migrate_config(legacy, "admin0000".to_string());

    assert_eq!(config.owner, "owner0000".to_string());
    assert_eq!(config.token_code_id, 2);
    assert_eq!(config.pair_code_id, 33);
    assert_eq!(config.collector, "collector0000".to_string());
    assert_eq!(config.pairs_admin, "admin0000".to_string());
}

#[test]
fn testing_proper_initialization() {
    let registry = init_registry();

    let config_res = query_config(&registry);
    assert_eq!(123u64, config_res.token_code_id);
    assert_eq!(321u64, config_res.pair_code_id);
    assert_eq!("owner0000".to_string(), config_res.owner);
    assert_eq!("collector0000".to_string(), config_res.collector);
}

#[test]
fn update_config() {
    let mut registry = init_registry();

    // update owner
    let res = execute_update_config(
        &mut registry,
        &"owner0000".to_string(),
        Some("addr0001".to_string()),
        None,
        None,
        None,
        None,
    );
    assert!(res.is_ok());

    let config_res = query_config(&registry);
    assert_eq!(123u64, config_res.token_code_id);
    assert_eq!(321u64, config_res.pair_code_id);
    assert_eq!("collector0000".to_string(), config_res.collector);
    assert_eq!("addr0001".to_string(), config_res.owner);

    // update left items
    let res = execute_update_config(
        &mut registry,
        &"addr0001".to_string(),
        None,
        Some(200u64),
        Some(100u64),
        Some("collector0001".to_string()),
        None,
    );
    assert!(res.is_ok());

    let config_res = query_config(&registry);
    assert_eq!(200u64, config_res.token_code_id);
    assert_eq!(100u64, config_res.pair_code_id);
    assert_eq!("addr0001".to_string(), config_res.owner);
    assert_eq!("collector0001".to_string(), config_res.collector);

    // unauthorized err
    let res = execute_update_config(
        &mut registry,
        &"addr0000".to_string(),
        None,
        None,
        None,
        None,
        None,
    );
    match res {
        Err(ContractError::PermissionDenied) => {}
        _ => panic!("Must return unauthorized error"),
    }
}

#[test]
fn create_pair() {
    let mut registry = init_registry();

    let asset_infos = [cw20("asset0000"), cw20("asset0001")];

    // unauthorized attempt
    let err = execute_create_pair(&mut registry, &"addr0000".to_string(), &asset_infos, None)
        .unwrap_err();
    assert_eq!(err, ContractError::PermissionDenied);

    execute_create_pair(&mut registry, &"owner0000".to_string(), &asset_infos, None).unwrap();

    let tmp = registry.tmp_pair_info.as_ref().unwrap();
    assert_eq!(tmp.pair_key, pair_key(&asset_infos));
    assert_eq!(tmp.fee_config, default_fee());
    // the canonical key is the sorted concatenation of the identities
    assert_eq!(tmp.pair_key, b"asset0000asset0001".to_vec());
}

#[test]
fn create_pair_with_doubled_assets() {
    let mut registry = init_registry();
    let err = execute_create_pair(
        &mut registry,
        &"owner0000".to_string(),
        &[cw20("asset0000"), cw20("asset0000")],
        None,
    )
    .unwrap_err();
    assert_eq!(err, ContractError::DoublingAssets);
    assert!(registry.tmp_pair_info.is_none());
}

#[test]
fn reply_test() {
    let mut registry = init_registry();
    let asset_infos = [cw20("asset0000"), cw20("asset0001")];

    execute_create_pair(&mut registry, &"owner0000".to_string(), &asset_infos, None).unwrap();
    reply(&mut registry, "pair0000".to_string()).unwrap();

    let pair_res = query_pair_config(&registry, &asset_infos).unwrap();
    assert_eq!(pair_res.pair_address, "pair0000".to_string());
    assert_eq!(pair_res.fee_config, default_fee());

    // a reply with no pending creation is refused
    let mut empty = init_registry();
    let err = reply(&mut empty, "pair0000".to_string()).unwrap_err();
    assert_eq!(err, ContractError::NotFoundError);
}

#[test]
fn create_pair_2() {
    let mut registry = init_registry();
    let asset_infos = [cw20("asset0000"), cw20("asset0001")];

    // unauthorized attempt
    let err = execute_create_pair(&mut registry, &"addr0000".to_string(), &asset_infos, None)
        .unwrap_err();
    assert_eq!(err, ContractError::PermissionDenied);

    // failure - invalid fee config: total fee above the maximum
    let err = execute_create_pair(
        &mut registry,
        &"owner0000".to_string(),
        &asset_infos,
        Some(FeeConfig {
            total_fee: Decimal {
                atomics: 50_000_000_000_000_000 + 1_000_000_000_000_000_000,
            },
            protocol_fee: Decimal {
                atomics: 334_000_000_000_000_000,
            },
        }),
    )
    .unwrap_err();
    assert_eq!(err, ContractError::ValidationError);

    // failure - invalid fee config: protocol fee above the maximum
    let err = execute_create_pair(
        &mut registry,
        &"owner0000".to_string(),
        &asset_infos,
        Some(FeeConfig {
            total_fee: Decimal::permille(3),
            protocol_fee: Decimal {
                atomics: 800_000_000_000_000_000 + 1_000_000_000_000_000_000,
            },
        }),
    )
    .unwrap_err();
    assert_eq!(err, ContractError::ValidationError);

    // success, confirmed
    execute_create_pair(&mut registry, &"owner0000".to_string(), &asset_infos, None).unwrap();
    assert_eq!(
        registry.tmp_pair_info.as_ref().unwrap().pair_key,
        pair_key(&asset_infos)
    );
    reply(&mut registry, "pairaddr0001".to_string()).unwrap();

    let pair_config = query_pair_config(&registry, &asset_infos).unwrap();
    assert_eq!(pair_config.fee_config, default_fee());
    assert_eq!(pair_config.pair_address, "pairaddr0001".to_string());

    // failure - pair already exists
    let err = execute_create_pair(&mut registry, &"owner0000".to_string(), &asset_infos, None)
        .unwrap_err();
    assert_eq!(err, ContractError::ConflictError);

    // create new pair, this time with a valid custom fee config
    let asset_infos2 = [cw20("asset0002"), cw20("asset0003")];
    let custom_fee_config = FeeConfig {
        total_fee: Decimal::from_ratio(4, 1000),
        protocol_fee: Decimal::from_ratio(75, 1000),
    };
    execute_create_pair(
        &mut registry,
        &"owner0000".to_string(),
        &asset_infos2,
        Some(custom_fee_config),
    )
    .unwrap();
    reply(&mut registry, "pairaddr0001".to_string()).unwrap();

    let pair_config = query_pair_config(&registry, &asset_infos2).unwrap();
    assert_eq!(pair_config.fee_config, custom_fee_config);
}

#[test]
fn test_update_pair_config() {
    let mut registry = init_registry();
    let asset_infos = [cw20("asset0000"), cw20("asset0001")];

    execute_create_pair(&mut registry, &"owner0000".to_string(), &asset_infos, None).unwrap();
    reply(&mut registry, "pairaddr0001".to_string()).unwrap();
    assert_eq!(
        query_pair_config(&registry, &asset_infos).unwrap().fee_config,
        default_fee()
    );

    // update fee config to new values
    let fee_config_updated = FeeConfig {
        total_fee: Decimal::from_ratio(4, 100),
        protocol_fee: Decimal::from_ratio(75, 100),
    };
    execute_update_pair_config(
        &mut registry,
        &"owner0000".to_string(),
        &asset_infos,
        fee_config_updated,
    )
    .unwrap();
    let pair_config = query_pair_config(&registry, &asset_infos).unwrap();
    assert_eq!(pair_config.fee_config, fee_config_updated);
    assert_eq!(pair_config.pair_address, "pairaddr0001".to_string());

    // failure - unauthorized
    let err = execute_update_pair_config(
        &mut registry,
        &"addr0000".to_string(),
        &asset_infos,
        fee_config_updated,
    )
    .unwrap_err();
    assert_eq!(err, ContractError::PermissionDenied);

    // failure - invalid fee config
    let err = execute_update_pair_config(
        &mut registry,
        &"owner0000".to_string(),
        &asset_infos,
        FeeConfig {
            total_fee: Decimal::permille(3),
            protocol_fee: Decimal {
                atomics: 800_000_000_000_000_000 + 1_000_000_000_000_000_000,
            },
        },
    )
    .unwrap_err();
    assert_eq!(err, ContractError::ValidationError);

    // failure - no pair exists
    let err = execute_update_pair_config(
        &mut registry,
        &"owner0000".to_string(),
        &[cw20("asset0002"), cw20("asset0003")],
        fee_config_updated,
    )
    .unwrap_err();
    assert_eq!(err, ContractError::NotFoundError);
}

#[test]
fn test_deregister() {
    let mut registry = init_registry();
    let asset_infos = [cw20("asset0000"), cw20("asset0001")];

    execute_create_pair(&mut registry, &"owner0000".to_string(), &asset_infos, None).unwrap();
    reply(&mut registry, "pairaddr0001".to_string()).unwrap();
    assert_eq!(
        query_pair_config(&registry, &asset_infos).unwrap().fee_config,
        default_fee()
    );

    // failure - unauthorized
    let err =
        execute_deregister(&mut registry, &"addr0000".to_string(), &asset_infos).unwrap_err();
    assert_eq!(err, ContractError::PermissionDenied);

    // failure - no pair exists
    let err = execute_deregister(
        &mut registry,
        &"owner0000".to_string(),
        &[cw20("asset0002"), cw20("asset0003")],
    )
    .unwrap_err();
    assert_eq!(err, ContractError::NotFoundError);

    // success
    execute_deregister(&mut registry, &"owner0000".to_string(), &asset_infos).unwrap();
    assert_eq!(
        query_pair_config(&registry, &asset_infos).unwrap_err(),
        ContractError::NotFoundError
    );
}

#[test]
fn test_queries() {
    let mut registry = init_registry();

    let asset_infos1 = [cw20("asset0000"), cw20("asset0001")];
    execute_create_pair(&mut registry, &"owner0000".to_string(), &asset_infos1, None).unwrap();
    reply(&mut registry, "pairaddr0001".to_string()).unwrap();

    let asset_infos2 = [cw20("asset0002"), cw20("asset0003")];
    let fee_config2 = FeeConfig {
        total_fee: Decimal::from_ratio(4, 1000),
        protocol_fee: Decimal::from_ratio(75, 1000),
    };
    execute_create_pair(
        &mut registry,
        &"owner0000".to_string(),
        &asset_infos2,
        Some(fee_config2),
    )
    .unwrap();
    reply(&mut registry, "pairaddr0002".to_string()).unwrap();

    // pairs query
    let pairs = read_pairs(&registry, None, None);
    assert_eq!(pairs.len(), 2);
    assert_eq!(pairs[0].pair_address, "pairaddr0001".to_string());
    assert_eq!(pairs[1].pair_address, "pairaddr0002".to_string());

    // pairs query limit 1
    let pairs = read_pairs(&registry, None, Some(1));
    assert_eq!(pairs.len(), 1);
    assert_eq!(pairs[0].pair_address, "pairaddr0001".to_string());

    // pairs query start after first
    let pairs = read_pairs(&registry, Some(&asset_infos1), None);
    assert_eq!(pairs.len(), 1);
    assert_eq!(pairs[0].pair_address, "pairaddr0002".to_string());

    // query fee info 1 (default fees)
    let fee_info = query_fee_config(&registry, &asset_infos1);
    assert_eq!(fee_info.fee_config, default_fee());
    assert_eq!(fee_info.collector, "collector0000".to_string());

    // query fee info 2 (custom fees)
    let fee_info = query_fee_config(&registry, &asset_infos2);
    assert_eq!(fee_info.fee_config, fee_config2);

    // unregistered pairs fall back to default fees
    let fee_info = query_fee_config(&registry, &[cw20("asset0008"), cw20("asset0009")]);
    assert_eq!(fee_info.fee_config, default_fee());
}

#[test]
fn pair_key_is_order_independent() {
    let a = AssetInfo::Native("uusd".to_string());
    let b = cw20("asset0000");
    assert_eq!(pair_key(&[a.clone(), b.clone()]), pair_key(&[b, a]));

    let a = cw20("asset0000");
    let b = cw20("asset0001");
    assert_eq!(pair_key(&[a.clone(), b.clone()]), pair_key(&[b, a]));
}

#[test]
fn decimal_from_ratio_floors() {
    assert_eq!(Decimal::from_ratio(1, 3).atomics, 333_333_333_333_333_333);
    assert_eq!(Decimal::from_ratio(2, 3).atomics, 666_666_666_666_666_666);
    assert_eq!(Decimal::from_ratio(3, 2).atomics, Decimal::percent(150).atomics);
    assert_eq!(Decimal::one().atomics, 1_000_000_000_000_000_000);
}

#[test]
fn pair_key_uses_bare_identity_bytes() {
    // the canonical encoding carries no kind tag: a native denomination
    // and a token address with the same characters share their bytes
    let native_pair = pair_key(&[
        AssetInfo::Native("abc".to_string()),
        AssetInfo::Native("xyz".to_string()),
    ]);
    let token_pair = pair_key(&[cw20("abc"), cw20("xyz")]);
    assert_eq!(native_pair, token_pair);
    assert_eq!(native_pair, b"abcxyz".to_vec());
}

#[test]
fn fee_config_bounds() {
    // a hair over 5% total is rejected
    let over = FeeConfig {
        total_fee: Decimal {
            atomics: 50_001_000_000_000_000,
        },
        protocol_fee: Decimal::zero(),
    };
    assert!(!over.is_valid());

    // exactly 5% total with an 80% protocol share is accepted
    let edge = FeeConfig {
        total_fee: Decimal::from_ratio(5, 100),
        protocol_fee: Decimal::from_ratio(80, 100),
    };
    assert!(edge.is_valid());
}

#[test]
fn pagination_pages_match_full_listing() {
    let mut registry = init_registry();
    let owner = "owner0000".to_string();
    let pairs = [
        ([cw20("asset0000"), cw20("asset0001")], "pairaddr0001"),
        ([cw20("asset0002"), cw20("asset0003")], "pairaddr0002"),
        ([cw20("asset0004"), cw20("asset0005")], "pairaddr0003"),
    ];
    for (infos, addr) in pairs.iter() {
        execute_create_pair(&mut registry, &owner, infos, None).unwrap();
        reply(&mut registry, addr.to_string()).unwrap();
    }

    // concatenating successive pages of one equals the full listing
    let full = read_pairs(&registry, None, None);
    let mut paged = Vec::new();
    let mut cursor: Option<&[AssetInfo; 2]> = None;
    for (infos, _) in pairs.iter() {
        let page = read_pairs(&registry, cursor, Some(1));
        assert_eq!(page.len(), 1);
        paged.push(page.into_iter().next().unwrap());
        cursor = Some(infos);
    }
    assert!(read_pairs(&registry, cursor, Some(1)).is_empty());
    assert_eq!(paged, full);
}

#[test]
fn calc_range_start_appends_sentinel() {
    let infos = [cw20("asset0000"), cw20("asset0001")];
    let mut expected = pair_key(&infos);
    expected.push(1);
    assert_eq!(calc_range_start(Some(&infos)), Some(expected));
    assert_eq!(calc_range_start(None), None);
}
