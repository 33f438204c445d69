use haloswap::asset::{Asset, AssetInfo, Coin, PairInfo};
use haloswap::pool::{Pair, PairError, Provided, Ratio, Swapped, Withdrawn, compute_swap};

const NATIVE_DENOM: &str = "uaura";
const TOKEN_A: &str = "contract0";
const TOKEN_B: &str = "contract1";

fn token(addr: &str) -> AssetInfo {
    AssetInfo::Token { contract_addr: addr.to_string() }
}

fn native(denom: &str) -> AssetInfo {
    AssetInfo::NativeToken { denom: denom.to_string() }
}

fn pair_of(a: AssetInfo, b: AssetInfo) -> Pair {
    Pair::new(PairInfo {
        asset_infos: [a, b],
        contract_addr: "contract4".to_string(),
        liquidity_token: "contract5".to_string(),
        asset_decimals: [6, 6],
    })
}

const SENDER: &str = "aura1uh24g2lc8hvvkaaf7awz25lrh5fptthu2dhq0n";

fn provide(pair: &mut Pair, a: &[Asset; 2], funds: &Vec<Coin>, tol: Option<Ratio>) -> Result<Provided, PairError> {
    pair.provide_liquidity(a, funds, tol, None, &SENDER.to_string()).map(|(p, _)| p)
}

fn withdraw(pair: &mut Pair, lp: u64) -> Result<Withdrawn, PairError> {
    pair.withdraw_liquidity(lp, &SENDER.to_string()).map(|(w, _)| w)
}

fn swap(pair: &mut Pair, offer: &Asset, funds: &Vec<Coin>, belief: Option<u64>, spread: Option<Ratio>) -> Result<Swapped, PairError> {
    pair.swap(offer, funds, belief, spread, None, &SENDER.to_string()).map(|(s, _)| s)
}

fn assets(a: AssetInfo, x: u64, b: AssetInfo, y: u64) -> [Asset; 2] {
    [Asset { info: a, amount: x }, Asset { info: b, amount: y }]
}

#[test]
#[should_panic]
fn cannot_provide_liquidity_if_first_asset_wrong() {
    let mut pair = pair_of(token(TOKEN_A), token(TOKEN_B));
    let pair_info = pair.pair_info().clone();
    assert_eq!(pair_info.asset_infos[0], token(TOKEN_A));
    assert_eq!(pair_info.asset_infos[1], token(TOKEN_B));
    assert_eq!(pair_info.liquidity_token, "contract5".to_string());
    let a = assets(token("wrong_contract_addr"), 10000000, token(TOKEN_B), 10000000);
    provide(&mut pair, &a, &vec![], None).unwrap();
}

#[test]
#[should_panic]
fn cannot_provide_liquidity_if_second_asset_wrong() {
    let mut pair = pair_of(token(TOKEN_A), token(TOKEN_B));
    let pair_info = pair.pair_info().clone();
    assert_eq!(pair_info.asset_infos[0], token(TOKEN_A));
    assert_eq!(pair_info.asset_infos[1], token(TOKEN_B));
    assert_eq!(pair_info.liquidity_token, "contract5".to_string());
    let a = assets(token(TOKEN_A), 10000000, token("wrong_contract_addr"), 10000000);
    provide(&mut pair, &a, &vec![], None).unwrap();
}

#[test]
fn provide_liquidity_in_the_wrong_order_is_refused() {
    let mut pair = pair_of(token(TOKEN_A), token(TOKEN_B));
    let a = assets(token(TOKEN_B), 10000000, token(TOKEN_A), 10000000);
    assert_eq!(provide(&mut pair, &a, &vec![], None), Err(PairError::WrongAssetOrder));
    assert_eq!(pair.total_share(), 0);
}

#[test]
fn provide_liquidity_with_zero_amount() {
    let mut pair = pair_of(token(TOKEN_A), token(TOKEN_B));
    let a = assets(token(TOKEN_A), 0, token(TOKEN_B), 10000000);
    assert_eq!(provide(&mut pair, &a, &vec![], None).unwrap_err(), PairError::MinimumDeposit);
}

#[test]
fn provide_liquidity_successfully() {
    let mut pair = pair_of(token(TOKEN_A), token(TOKEN_B));
    let a = assets(token(TOKEN_A), 10000000, token(TOKEN_B), 10000000);
    let p = provide(&mut pair, &a, &vec![], None).unwrap();
    assert_eq!(pair.reserve(0), 10000000);
    assert_eq!(pair.reserve(1), 10000000);
    assert_eq!(p.share, 10000000);
    assert_eq!(pair.total_share(), 10000000);
}

#[test]
fn cannot_provide_liquidity_not_enough_native_token() {
    let mut pair = pair_of(native(NATIVE_DENOM), token(TOKEN_A));
    let a = assets(native(NATIVE_DENOM), 10000000, token(TOKEN_A), 10000000);
    let funds = vec![Coin { denom: NATIVE_DENOM.to_string(), amount: 10000000 - 1 }];
    assert_eq!(provide(&mut pair, &a, &funds, None).unwrap_err(), PairError::FundsMismatch);
    let funds = vec![Coin { denom: NATIVE_DENOM.to_string(), amount: 10000000 }];
    assert!(provide(&mut pair, &a, &funds, None).is_ok());
}

#[test]
fn first_deposit_mints_the_square_root() {
    let mut pair = pair_of(token(TOKEN_A), token(TOKEN_B));
    let a = assets(token(TOKEN_A), 1_000_000, token(TOKEN_B), 1_000_000);
    let p = provide(&mut pair, &a, &vec![], None).unwrap();
    assert_eq!(p, Provided { deposit0: 1_000_000, deposit1: 1_000_000, share: 1_000_000 });
    assert_eq!(pair.reserve(0), 1_000_000);
    assert_eq!(pair.reserve(1), 1_000_000);
    let pool = pair.pool();
    assert_eq!(pool.assets[0].amount, 1_000_000);
    assert_eq!(pool.assets[1].info, token(TOKEN_B));
    assert_eq!(pool.total_share, 1_000_000);
}

#[test]
fn first_deposit_below_minimum_is_refused() {
    let mut pair = pair_of(token(TOKEN_A), token(TOKEN_B));
    // sqrt(999 * 1000) = 999 shares, under the minimum of 1000.
    let a = assets(token(TOKEN_A), 999, token(TOKEN_B), 1000);
    assert_eq!(provide(&mut pair, &a, &vec![], None), Err(PairError::MinimumDeposit));
    let a = assets(token(TOKEN_A), 1000, token(TOKEN_B), 1000);
    assert_eq!(provide(&mut pair, &a, &vec![], None).unwrap().share, 1000);
}

#[test]
fn later_deposit_keeps_the_ratio_and_returns_the_excess() {
    let mut pair = pair_of(token(TOKEN_A), token(TOKEN_B));
    provide(&mut pair, &assets(token(TOKEN_A), 1_000_000, token(TOKEN_B), 2_000_000), &vec![], None).unwrap();
    assert_eq!(pair.total_share(), 1_414_213);
    let p = provide(&mut pair, &assets(token(TOKEN_A), 100_000, token(TOKEN_B), 300_000), &vec![], None).unwrap();
    // ideal1 = 100_000 * 2_000_000 / 1_000_000 = 200_000: the other 100_000 stays with the caller.
    assert_eq!(p.deposit0, 100_000);
    assert_eq!(p.deposit1, 200_000);
    // min(100_000 * 1_414_213 / 1_000_000, 200_000 * 1_414_213 / 2_000_000)
    assert_eq!(p.share, 141_421);
    assert_eq!(pair.reserve(0), 1_100_000);
    assert_eq!(pair.reserve(1), 2_200_000);
    assert_eq!(pair.total_share(), 1_555_634);
}

#[test]
fn later_deposit_of_one_side_only_is_zero() {
    let mut pair = pair_of(token(TOKEN_A), token(TOKEN_B));
    provide(&mut pair, &assets(token(TOKEN_A), 1_000_000, token(TOKEN_B), 1_000_000), &vec![], None).unwrap();
    let res = provide(&mut pair, &assets(token(TOKEN_A), 0, token(TOKEN_B), 1_000), &vec![], None);
    assert_eq!(res, Err(PairError::ZeroAmount));
    assert_eq!(pair.reserve(1), 1_000_000);
}

#[test]
fn slippage_tolerance_is_enforced() {
    let mut pair = pair_of(token(TOKEN_A), token(TOKEN_B));
    provide(&mut pair, &assets(token(TOKEN_A), 1_000_000, token(TOKEN_B), 1_000_000), &vec![], None).unwrap();
    let one_percent = Some(Ratio { millionths: 10_000 });
    // 100_000 against 98_000 is 2% off the pool's ratio.
    let res = provide(&mut pair, &assets(token(TOKEN_A), 100_000, token(TOKEN_B), 98_000), &vec![], one_percent);
    assert_eq!(res, Err(PairError::SlippageExceeded));
    let res = provide(&mut pair, &assets(token(TOKEN_A), 100_000, token(TOKEN_B), 99_500), &vec![], one_percent);
    assert!(res.is_ok());
}

#[test]
fn withdraw_returns_reserves_in_proportion() {
    let mut pair = pair_of(token(TOKEN_A), token(TOKEN_B));
    provide(&mut pair, &assets(token(TOKEN_A), 1_000_000, token(TOKEN_B), 4_000_000), &vec![], None).unwrap();
    assert_eq!(pair.total_share(), 2_000_000);
    assert_eq!(withdraw(&mut pair, 500_000), Ok(Withdrawn { refund0: 250_000, refund1: 1_000_000 }));
    // Burning no shares pays out nothing and changes nothing.
    assert_eq!(withdraw(&mut pair, 0), Ok(Withdrawn { refund0: 0, refund1: 0 }));
    assert_eq!((pair.reserve(0), pair.reserve(1), pair.total_share()), (750_000, 3_000_000, 1_500_000));
    assert_eq!(withdraw(&mut pair, 1_500_001), Err(PairError::InsufficientBalance));
    assert_eq!(withdraw(&mut pair, 1_500_000), Ok(Withdrawn { refund0: 750_000, refund1: 3_000_000 }));
    assert_eq!(pair.reserve(0), 0);
    assert_eq!(pair.reserve(1), 0);
    assert_eq!(pair.total_share(), 0);
}

#[test]
fn round_trip_returns_no_more_than_deposited() {
    let mut pair = pair_of(token(TOKEN_A), token(TOKEN_B));
    provide(&mut pair, &assets(token(TOKEN_A), 1_000, token(TOKEN_B), 1_000), &vec![], None).unwrap();
    withdraw(&mut pair, 999).unwrap();
    // Reserves (1, 1), one share: a deposit mints at most what it pays for.
    let p = provide(&mut pair, &assets(token(TOKEN_A), 1_999, token(TOKEN_B), 1_999), &vec![], None).unwrap();
    assert_eq!(p.share, 1_999);
    let w = withdraw(&mut pair, p.share).unwrap();
    assert!(w.refund0 <= p.deposit0 && w.refund1 <= p.deposit1);
    let mut fresh = pair_of(token(TOKEN_A), token(TOKEN_B));
    let p = provide(&mut fresh, &assets(token(TOKEN_A), 123_456, token(TOKEN_B), 654_321), &vec![], None).unwrap();
    assert_eq!(withdraw(&mut fresh, p.share), Ok(Withdrawn { refund0: 123_456, refund1: 654_321 }));
}

#[test]
fn swap_pays_the_constant_product_amount() {
    let mut pair = pair_of(token(TOKEN_A), token(TOKEN_B));
    provide(&mut pair, &assets(token(TOKEN_A), 1_000_000, token(TOKEN_B), 1_000_000), &vec![], None).unwrap();
    let offer = Asset { info: token(TOKEN_A), amount: 10_000 };
    let s = swap(&mut pair, &offer, &vec![], None, None).unwrap();
    // offer after fee 9_970; 1_000_000 - 10^12 / 1_009_970 = 9_872
    assert_eq!(s, Swapped { return_amount: 9_872, commission_amount: 30 });
    assert!(s.return_amount < 10_000);
    assert_eq!(pair.reserve(0), 1_010_000);
    assert_eq!(pair.reserve(1), 990_128);
    assert!(1_010_000u128 * 990_128u128 >= 1_000_000u128 * 1_000_000u128);
}

#[test]
fn swap_the_other_way_and_errors() {
    let mut pair = pair_of(native(NATIVE_DENOM), token(TOKEN_A));
    let offer = Asset { info: token(TOKEN_A), amount: 10_000 };
    assert_eq!(swap(&mut pair, &offer, &vec![], None, None), Err(PairError::InsufficientPoolLiquidity));
    let funds = vec![Coin { denom: NATIVE_DENOM.to_string(), amount: 1_000_000 }];
    provide(&mut pair, &assets(native(NATIVE_DENOM), 1_000_000, token(TOKEN_A), 1_000_000), &funds, None).unwrap();
    assert_eq!(swap(&mut pair, &Asset { info: token(TOKEN_B), amount: 1 }, &vec![], None, None), Err(PairError::WrongAssetOrder));
    let native_offer = Asset { info: native(NATIVE_DENOM), amount: 10_000 };
    assert_eq!(swap(&mut pair, &native_offer, &vec![], None, None), Err(PairError::FundsMismatch));
    let s = swap(&mut pair, &offer, &vec![], None, None).unwrap();
    assert_eq!(s.return_amount, 9_872);
    assert_eq!(pair.reserve(0), 990_128);
    assert_eq!(pair.reserve(1), 1_010_000);
}

#[test]
fn spread_and_belief_price_are_enforced() {
    // Spread of a 10_000 offer on (1_000_000, 1_000_000): 1 - 9_872 / 10_000 = 1.28%.
    let half_percent = Some(Ratio { millionths: 5_000 });
    let two_percent = Some(Ratio { millionths: 20_000 });
    assert_eq!(compute_swap(1_000_000, 1_000_000, 10_000, None, half_percent), Err(PairError::SlippageExceeded));
    assert!(compute_swap(1_000_000, 1_000_000, 10_000, None, two_percent).is_ok());
    // The price paid is 10_000 / 9_872 = 1.01297 offer per unit asked.
    assert!(compute_swap(1_000_000, 1_000_000, 10_000, Some(1_013_000), None).is_ok());
    assert_eq!(compute_swap(1_000_000, 1_000_000, 10_000, Some(1_012_000), None), Err(PairError::SlippageExceeded));
    assert!(compute_swap(1_000_000, 1_000_000, 10_000, Some(1_000_000), two_percent).is_ok());
}

#[test]
fn swap_that_would_empty_the_pool_is_refused() {
    assert_eq!(compute_swap(1_000_000, 1, 10_000, None, None), Err(PairError::InsufficientPoolLiquidity));
    assert_eq!(compute_swap(u64::MAX - 1, 1_000, 1, None, None), Ok(Swapped { return_amount: 0, commission_amount: 1 }));
    assert_eq!(compute_swap(u64::MAX, 1_000, 1, None, None), Err(PairError::Overflow));
    assert_eq!(compute_swap(u64::MAX - 5, 1_000_000, 10, None, None), Err(PairError::Overflow));
}

#[test]
fn operations_name_their_transfers() {
    let mut pair = pair_of(token(TOKEN_A), token(TOKEN_B));
    let a = assets(token(TOKEN_A), 1_000_000, token(TOKEN_B), 1_000_000);
    let (_, mint) = pair.provide_liquidity(&a, &vec![], None, Some("lp_owner".to_string()), &SENDER.to_string()).unwrap();
    assert_eq!(mint.asset, token("contract5"));
    assert_eq!(mint.recipient, "lp_owner".to_string());
    assert_eq!(mint.amount, 1_000_000);
    let offer = Asset { info: token(TOKEN_B), amount: 10_000 };
    let (_, payout) = pair.swap(&offer, &vec![], None, None, None, &SENDER.to_string()).unwrap();
    assert_eq!(payout.asset, token(TOKEN_A));
    assert_eq!(payout.recipient, SENDER.to_string());
    assert_eq!(payout.amount, 9_872);
    let (_, payout) = pair.swap(&offer, &vec![], None, None, Some("friend".to_string()), &SENDER.to_string()).unwrap();
    assert_eq!(payout.recipient, "friend".to_string());
    let (w, refunds) = pair.withdraw_liquidity(500_000, &SENDER.to_string()).unwrap();
    assert_eq!(refunds[0].asset, token(TOKEN_A));
    assert_eq!(refunds[0].amount, w.refund0);
    assert_eq!(refunds[1].asset, token(TOKEN_B));
    assert_eq!(refunds[1].amount, w.refund1);
    assert_eq!(refunds[1].recipient, SENDER.to_string());
}

#[test]
fn native_transfer_is_built_from_the_asset() {
    let asset = Asset { info: native(NATIVE_DENOM), amount: 42 };
    let t = asset.transfer_to(&"someone".to_string());
    assert_eq!(t.asset, native(NATIVE_DENOM));
    assert_eq!(t.recipient, "someone".to_string());
    assert_eq!(t.amount, 42);
    assert!(asset.assert_sent_native_token_balance(&vec![Coin { denom: NATIVE_DENOM.to_string(), amount: 42 }]).is_ok());
    assert!(asset.assert_sent_native_token_balance(&vec![]).is_err());
    let token_asset = Asset { info: token(TOKEN_A), amount: 42 };
    assert!(token_asset.assert_sent_native_token_balance(&vec![]).is_ok());
}

#[test]
fn reserves_follow_the_transfers() {
    let mut pair = pair_of(token(TOKEN_A), token(TOKEN_B));
    let sender = SENDER.to_string();
    let (mut held0, mut held1): (i128, i128) = (0, 0);
    let (p, _) = pair.provide_liquidity(&assets(token(TOKEN_A), 500_000, token(TOKEN_B), 700_000), &vec![], None, None, &sender).unwrap();
    held0 += p.deposit0 as i128;
    held1 += p.deposit1 as i128;
    let (s, payout) = pair.swap(&Asset { info: token(TOKEN_A), amount: 12_345 }, &vec![], None, None, None, &sender).unwrap();
    held0 += 12_345;
    held1 -= payout.amount as i128;
    assert_eq!(payout.amount, s.return_amount);
    let (p, _) = pair.provide_liquidity(&assets(token(TOKEN_A), 50_000, token(TOKEN_B), 90_000), &vec![], None, None, &sender).unwrap();
    held0 += p.deposit0 as i128;
    held1 += p.deposit1 as i128;
    let (_, payout) = pair.swap(&Asset { info: token(TOKEN_B), amount: 3_000 }, &vec![], None, None, None, &sender).unwrap();
    held1 += 3_000;
    held0 -= payout.amount as i128;
    let (_, refunds) = pair.withdraw_liquidity(pair.total_share() / 3, &sender).unwrap();
    held0 -= refunds[0].amount as i128;
    held1 -= refunds[1].amount as i128;
    assert_eq!(pair.reserve(0) as i128, held0);
    assert_eq!(pair.reserve(1) as i128, held1);
    let (_, refunds) = pair.withdraw_liquidity(pair.total_share(), &sender).unwrap();
    held0 -= refunds[0].amount as i128;
    held1 -= refunds[1].amount as i128;
    assert_eq!((held0, held1), (0, 0));
    assert_eq!((pair.reserve(0), pair.reserve(1), pair.total_share()), (0, 0, 0));
}

#[test]
fn closed_form_rounds_for_the_trader_on_tiny_pools() {
    // Reserves (2, 3), offer 3: the closed form pays 2 and the product falls
    // from 6 to 5, within one unit of the asked asset.
    let s = compute_swap(2, 3, 3, None, None).unwrap();
    assert_eq!(s.return_amount, 2);
    assert_eq!((2 + 3) * (3 - s.return_amount), 5);
    assert!((2 + 3) * (3 - s.return_amount + 1) > 2 * 3);
    // On a larger pool the fee makes up for the rounding.
    let s = compute_swap(1_000, 1_000, 1_000, None, None).unwrap();
    assert!((1_000u64 + 1_000) * (1_000 - s.return_amount) >= 1_000 * 1_000);
}

#[test]
fn slippage_is_measured_against_the_floored_ideal() {
    let mut pair = pair_of(token(TOKEN_A), token(TOKEN_B));
    provide(&mut pair, &assets(token(TOKEN_A), 3_000_000, token(TOKEN_B), 2_000_000), &vec![], None).unwrap();
    let zero = Some(Ratio { millionths: 0 });
    // Ideals 200_000 * 3 / 2 = 300_000 and 300_001 * 2 / 3 = 200_000 (floored):
    // no amount is below its ideal, and the extra unit stays with the caller.
    let p = provide(&mut pair, &assets(token(TOKEN_A), 300_001, token(TOKEN_B), 200_000), &vec![], zero).unwrap();
    assert_eq!((p.deposit0, p.deposit1), (300_000, 200_000));
    // One unit short of the ideal of the second side slips with zero tolerance.
    let res = provide(&mut pair, &assets(token(TOKEN_A), 330_000, token(TOKEN_B), 219_999), &vec![], zero);
    assert_eq!(res, Err(PairError::SlippageExceeded));
}
