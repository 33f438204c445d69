use haloswap::asset::{AssetInfo, Coin, PairInfo};
use haloswap::factory::{Executed, Factory, FactoryError, Instantiated, QueryResponse};
use haloswap::msg::{ExecuteMsg, InstantiateMsg, QueryMsg};

const ADMIN: &str = "aura1uh24g2lc8hvvkaaf7awz25lrh5fptthu2dhq0n";
const USER: &str = "aura1fqj2redmssckrdeekhkcvd2kzp9f4nks4fctrt";
const NATIVE_DENOM: &str = "uaura";
const NATIVE_DENOM_2: &str = "utaura";
const TOKEN_A: &str = "contract0";
const TOKEN_B: &str = "contract1";

fn token(addr: &str) -> AssetInfo {
    AssetInfo::Token { contract_addr: addr.to_string() }
}

fn native(denom: &str) -> AssetInfo {
    AssetInfo::NativeToken { denom: denom.to_string() }
}

fn factory() -> Factory {
    Factory::instantiate(ADMIN.to_string(), InstantiateMsg { pair_code_id: 2, token_code_id: 1 })
}

fn add_decimals(f: &mut Factory, denom: &str) {
    let funds = vec![Coin { denom: denom.to_string(), amount: 1 }];
    f.add_native_token_decimals(&ADMIN.to_string(), &funds, denom.to_string(), 6).unwrap();
}

/// Requests a pair and reports both instantiations; returns the pair.
fn create(f: &mut Factory, infos: [AssetInfo; 2], decimals: [Option<u8>; 2], pool: &str, lp: &str) -> PairInfo {
    let req = f.create_pair(infos, decimals).unwrap();
    assert_eq!(f.on_instantiated(req.id, Instantiated::Pool, Some(pool.to_string())), Ok(None));
    f.on_instantiated(req.id, Instantiated::LiquidityToken, Some(lp.to_string())).unwrap().unwrap()
}

#[test]
fn asset_a_is_invalid() {
    let mut f = factory();
    let res = f.create_pair([token("invalid"), token(TOKEN_B)], [None, Some(6)]);
    assert_eq!(res.unwrap_err(), FactoryError::InvalidAsset1);
}

#[test]
fn asset_b_is_invalid() {
    let mut f = factory();
    let res = f.create_pair([token(TOKEN_A), token("invalid")], [Some(6), None]);
    assert_eq!(res.unwrap_err(), FactoryError::InvalidAsset2);
}

#[test]
fn cannot_create_new_pair_with_same_token() {
    let mut f = factory();
    let res = f.create_pair([token(TOKEN_A), token(TOKEN_A)], [Some(6), Some(6)]);
    assert_eq!(res.unwrap_err(), FactoryError::SameAsset);
}

#[test]
fn create_new_pair_successfully() {
    let mut f = factory();
    create(&mut f, [token(TOKEN_A), token(TOKEN_B)], [Some(6), Some(6)], "contract4", "contract5");
    let pair_info = f.pair(&[token(TOKEN_A), token(TOKEN_B)]).unwrap();
    assert_eq!(pair_info.asset_infos[0], token(TOKEN_A));
    assert_eq!(pair_info.asset_infos[1], token(TOKEN_B));
    assert_eq!(pair_info.contract_addr, "contract4".to_string());
    assert_eq!(pair_info.liquidity_token, "contract5".to_string());
}

#[test]
fn cannot_create_new_pair_if_pair_already_exists() {
    let mut f = factory();
    let pair_info = create(&mut f, [token(TOKEN_A), token(TOKEN_B)], [Some(6), Some(6)], "contract4", "contract5");
    assert_eq!(pair_info.asset_infos[0], token(TOKEN_A));
    assert_eq!(pair_info.asset_infos[1], token(TOKEN_B));
    assert_eq!(pair_info.liquidity_token, "contract5".to_string());
    let res = f.create_pair([token(TOKEN_A), token(TOKEN_B)], [Some(6), Some(6)]);
    assert_eq!(res.unwrap_err(), FactoryError::PairAlreadyExists);
}

#[test]
fn cannot_create_already_existed_pair_by_reversing_order_of_asset_infos() {
    let mut f = factory();
    let pair_info = create(&mut f, [token(TOKEN_A), token(TOKEN_B)], [Some(6), Some(6)], "contract4", "contract5");
    assert_eq!(pair_info.asset_infos[0], token(TOKEN_A));
    assert_eq!(pair_info.asset_infos[1], token(TOKEN_B));
    assert_eq!(pair_info.liquidity_token, "contract5".to_string());
    let res = f.create_pair([token(TOKEN_B), token(TOKEN_A)], [Some(6), Some(6)]);
    assert_eq!(res.unwrap_err(), FactoryError::PairAlreadyExists);
}

#[test]
fn reversed_pair_fails_while_creation_is_pending() {
    let mut f = factory();
    f.create_pair([token(TOKEN_A), token(TOKEN_B)], [Some(6), Some(6)]).unwrap();
    let res = f.create_pair([token(TOKEN_B), token(TOKEN_A)], [Some(6), Some(6)]);
    assert_eq!(res.unwrap_err(), FactoryError::PairAlreadyExists);
    assert_eq!(f.pair(&[token(TOKEN_A), token(TOKEN_B)]).unwrap_err(), FactoryError::PairNotFound);
}

#[test]
fn factory_test_cannot_create_new_pair_if_native_token_decimals_not_set() {
    let mut f = factory();
    let res = f.create_pair([native(NATIVE_DENOM), token(TOKEN_A)], [None, Some(6)]);
    assert_eq!(res.unwrap_err(), FactoryError::InvalidAsset1);
}

#[test]
fn cannot_create_new_pair_if_native_token_decimals_not_set() {
    let mut f = factory();
    let res = f.create_pair([native(NATIVE_DENOM), native(NATIVE_DENOM_2)], [None, None]);
    assert_eq!(res.unwrap_err(), FactoryError::InvalidAsset1);
}

#[test]
fn cannot_set_decimals_of_native_token_because_not_owner() {
    let mut f = factory();
    let res = f.add_native_token_decimals(&USER.to_string(), &vec![], NATIVE_DENOM.to_string(), 6);
    assert_eq!(res.unwrap_err(), FactoryError::Unauthorized);
}

#[test]
fn cannot_set_decimals_of_native_token_if_balance_is_zero() {
    let mut f = factory();
    let res = f.add_native_token_decimals(&ADMIN.to_string(), &vec![], NATIVE_DENOM.to_string(), 6);
    assert_eq!(res.unwrap_err(), FactoryError::ZeroBalance);
    let funds = vec![Coin { denom: NATIVE_DENOM.to_string(), amount: 0 }];
    let res = f.add_native_token_decimals(&ADMIN.to_string(), &funds, NATIVE_DENOM.to_string(), 6);
    assert_eq!(res.unwrap_err(), FactoryError::ZeroBalance);
    assert_eq!(f.native_token_decimals(&NATIVE_DENOM.to_string()).unwrap_err(), FactoryError::DecimalsNotFound);
}

#[test]
fn factory_test_create_new_pair_successfully() {
    let mut f = factory();
    add_decimals(&mut f, NATIVE_DENOM);
    let decimals = f.native_token_decimals(&NATIVE_DENOM.to_string()).unwrap();
    assert_eq!(decimals.decimals, 6u8);
    let pair_info = create(&mut f, [native(NATIVE_DENOM), token(TOKEN_A)], [None, Some(6)], "contract4", "contract5");
    assert_eq!(pair_info.asset_infos[0], native(NATIVE_DENOM));
    assert_eq!(pair_info.asset_infos[1], token(TOKEN_A));
    assert_eq!(pair_info.liquidity_token, "contract5".to_string());
}

#[test]
fn create_new_pair_native_native_successfully() {
    let mut f = factory();
    add_decimals(&mut f, NATIVE_DENOM);
    add_decimals(&mut f, NATIVE_DENOM_2);
    let pair_info = create(&mut f, [native(NATIVE_DENOM), native(NATIVE_DENOM_2)], [None, None], "contract4", "contract5");
    assert_eq!(pair_info.asset_infos[0], native(NATIVE_DENOM));
    assert_eq!(pair_info.asset_infos[1], native(NATIVE_DENOM_2));
    assert_eq!(pair_info.liquidity_token, "contract5".to_string());
}

#[test]
fn query_pairs_successfully() {
    let mut f = factory();
    add_decimals(&mut f, NATIVE_DENOM);
    add_decimals(&mut f, NATIVE_DENOM_2);
    create(&mut f, [native(NATIVE_DENOM), native(NATIVE_DENOM_2)], [None, None], "contract4", "contract5");
    create(&mut f, [token(TOKEN_A), token(TOKEN_B)], [Some(6), Some(6)], "contract6", "contract7");
    let pairs = f.pairs(&Some([token(TOKEN_A), token(TOKEN_B)]), None);
    assert_eq!(pairs.pairs.len(), 1);
}

#[test]
fn query_pairs_with_pagination_successfully() {
    let mut f = factory();
    add_decimals(&mut f, NATIVE_DENOM);
    add_decimals(&mut f, NATIVE_DENOM_2);
    create(&mut f, [native(NATIVE_DENOM), native(NATIVE_DENOM_2)], [None, None], "contract4", "contract5");
    create(&mut f, [token(TOKEN_A), token(TOKEN_B)], [Some(6), Some(6)], "contract6", "contract7");
    let pairs = f.pairs(&None, None);
    assert_eq!(pairs.pairs.len(), 2);
}

#[test]
fn pairs_are_listed_in_canonical_order_and_paged() {
    let mut f = factory();
    add_decimals(&mut f, NATIVE_DENOM);
    create(&mut f, [token("c3"), token("c1")], [Some(6), Some(6)], "p1", "l1");
    create(&mut f, [native(NATIVE_DENOM), token("c2")], [None, Some(6)], "p2", "l2");
    create(&mut f, [token("c1"), token("c2")], [Some(6), Some(6)], "p3", "l3");
    let all = f.pairs(&None, None).pairs;
    let pools: Vec<String> = all.iter().map(|p| p.contract_addr.clone()).collect();
    assert_eq!(pools, vec!["p3".to_string(), "p1".to_string(), "p2".to_string()]);
    let page = f.pairs(&Some([token("c2"), token("c1")]), Some(1)).pairs;
    assert_eq!(page.len(), 1);
    assert_eq!(page[0].contract_addr, "p1".to_string());
    assert_eq!(f.pairs(&None, Some(0)).pairs.len(), 0);
    // The stored order of a pair is the order in which it was asked for.
    assert_eq!(all[1].asset_infos[0], token("c3"));
}

#[test]
fn page_size_is_capped() {
    let mut f = factory();
    for i in 0..35u32 {
        let a = format!("t{:02}a", i);
        let b = format!("t{:02}b", i);
        create(&mut f, [token(&a), token(&b)], [Some(6), Some(6)], &format!("p{}", i), &format!("l{}", i));
    }
    assert_eq!(f.pairs(&None, None).pairs.len(), 10);
    assert_eq!(f.pairs(&None, Some(100)).pairs.len(), 30);
    let last = f.pairs(&Some([token("t29a"), token("t29b")]), Some(100)).pairs;
    assert_eq!(last.len(), 5);
    assert_eq!(last[0].contract_addr, "p30".to_string());
}

#[test]
fn failed_instantiation_drops_the_pending_pair() {
    let mut f = factory();
    let req = f.create_pair([token(TOKEN_A), token(TOKEN_B)], [Some(6), Some(6)]).unwrap();
    assert_eq!(req.pair_code_id, 2);
    assert_eq!(req.token_code_id, 1);
    assert_eq!(req.asset_decimals, [6, 6]);
    assert_eq!(f.on_instantiated(req.id, Instantiated::Pool, None), Err(FactoryError::InstantiationFailed));
    assert_eq!(f.pair(&[token(TOKEN_A), token(TOKEN_B)]).unwrap_err(), FactoryError::PairNotFound);
    // The pair can be asked for again.
    let again = f.create_pair([token(TOKEN_B), token(TOKEN_A)], [Some(6), Some(6)]).unwrap();
    assert_ne!(again.id, req.id);
}

#[test]
fn replayed_confirmation_changes_nothing() {
    let mut f = factory();
    let req = f.create_pair([token(TOKEN_A), token(TOKEN_B)], [Some(6), Some(6)]).unwrap();
    assert_eq!(f.on_instantiated(req.id, Instantiated::LiquidityToken, Some("lp".to_string())), Ok(None));
    assert_eq!(
        f.on_instantiated(req.id, Instantiated::LiquidityToken, Some("other".to_string())),
        Err(FactoryError::UnknownCreation)
    );
    let info = f.on_instantiated(req.id, Instantiated::Pool, Some("pool".to_string())).unwrap().unwrap();
    assert_eq!(info.liquidity_token, "lp".to_string());
    assert_eq!(info.contract_addr, "pool".to_string());
    assert_eq!(
        f.on_instantiated(req.id, Instantiated::Pool, Some("pool".to_string())),
        Err(FactoryError::UnknownCreation)
    );
    assert_eq!(f.pairs(&None, None).pairs.len(), 1);
}

#[test]
fn decimals_are_replaced_and_config_is_owner_only() {
    let mut f = factory();
    add_decimals(&mut f, NATIVE_DENOM);
    let funds = vec![Coin { denom: "other".to_string(), amount: 5 }, Coin { denom: NATIVE_DENOM.to_string(), amount: 2 }];
    f.add_native_token_decimals(&ADMIN.to_string(), &funds, NATIVE_DENOM.to_string(), 8).unwrap();
    assert_eq!(f.native_token_decimals(&NATIVE_DENOM.to_string()).unwrap().decimals, 8);
    assert_eq!(f.update_config(&USER.to_string(), None, Some(9), None), Err(FactoryError::Unauthorized));
    f.update_config(&ADMIN.to_string(), Some(USER.to_string()), Some(9), None).unwrap();
    let config = f.config();
    assert_eq!(config.owner, USER.to_string());
    assert_eq!(config.token_code_id, 9);
    assert_eq!(config.pair_code_id, 2);
    assert_eq!(f.migrate_pair(&ADMIN.to_string(), "p".to_string(), None).unwrap_err(), FactoryError::Unauthorized);
    let m = f.migrate_pair(&USER.to_string(), "p".to_string(), None).unwrap();
    assert_eq!(m.code_id, 2);
    assert_eq!(m.contract, "p".to_string());
}

#[test]
fn commands_and_queries_by_message() {
    let mut f = factory();
    let add = ExecuteMsg::AddNativeTokenDecimals { denom: NATIVE_DENOM.to_string(), decimals: 6 };
    let res = f.execute(&USER.to_string(), &vec![], add.clone(), [None, None]);
    assert_eq!(res.unwrap_err(), FactoryError::Unauthorized);
    let funds = vec![Coin { denom: NATIVE_DENOM.to_string(), amount: 1 }];
    assert!(matches!(f.execute(&ADMIN.to_string(), &funds, add, [None, None]), Ok(Executed::NativeTokenDecimalsAdded)));
    let create = ExecuteMsg::CreatePair { asset_infos: [native(NATIVE_DENOM), token(TOKEN_A)] };
    let id = match f.execute(&USER.to_string(), &vec![], create, [None, Some(6)]) {
        Ok(Executed::PairRequested(req)) => req.id,
        _ => panic!("the pair should be requested"),
    };
    f.on_instantiated(id, Instantiated::Pool, Some("contract4".to_string())).unwrap();
    f.on_instantiated(id, Instantiated::LiquidityToken, Some("contract5".to_string())).unwrap();
    match f.query(&QueryMsg::Pair { asset_infos: [token(TOKEN_A), native(NATIVE_DENOM)] }) {
        Ok(QueryResponse::Pair(p)) => assert_eq!(p.contract_addr, "contract4".to_string()),
        _ => panic!("the pair should be found"),
    }
    match f.query(&QueryMsg::NativeTokenDecimals { denom: NATIVE_DENOM.to_string() }) {
        Ok(QueryResponse::NativeTokenDecimals(d)) => assert_eq!(d.decimals, 6),
        _ => panic!("the decimals should be found"),
    }
    match f.query(&QueryMsg::Pairs { start_after: None, limit: None }) {
        Ok(QueryResponse::Pairs(p)) => assert_eq!(p.pairs.len(), 1),
        _ => panic!("the pairs should be listed"),
    }
    match f.query(&QueryMsg::Config {}) {
        Ok(QueryResponse::Config(c)) => assert_eq!(c.owner, ADMIN.to_string()),
        _ => panic!("the configuration should be answered"),
    }
    let update = ExecuteMsg::UpdateConfig { owner: None, token_code_id: None, pair_code_id: Some(7) };
    assert!(matches!(f.execute(&ADMIN.to_string(), &vec![], update, [None, None]), Ok(Executed::ConfigUpdated)));
    let migrate = ExecuteMsg::MigratePair { contract: "contract4".to_string(), code_id: None };
    match f.execute(&ADMIN.to_string(), &vec![], migrate, [None, None]) {
        Ok(Executed::MigrationRequested(m)) => assert_eq!(m.code_id, 7),
        _ => panic!("the migration should be requested"),
    }
    assert!(f.query(&QueryMsg::Pair { asset_infos: [token(TOKEN_A), token(TOKEN_B)] }).is_err());
}
