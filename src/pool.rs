//! The constant-product pool of one pair: its reserves, its liquidity shares
//! and the rules of deposit, withdrawal and swap.
use vstd::prelude::*;
use crate::asset::{Asset, AssetId, AssetInfo, Coin, PairInfo, Transfer, funds_match};
use crate::math::{isqrt, mul_wide, product_gt, sqrt_floor};

verus! {

/// The fee on every swap, as a fraction of the offered amount: 0.3%.
pub const COMMISSION_NUMERATOR: u64 = 3;

pub const COMMISSION_DENOMINATOR: u64 = 1000;

/// Ratios (slippage tolerance, maximal spread) and prices are counted in
/// millionths.
pub const RATIO_ONE: u64 = 1_000_000;

/// The least number of shares that the first deposit into an empty pool
/// must mint, so that one share is never worth a near-zero amount.
pub const MINIMUM_LIQUIDITY: u64 = 1_000;

pub const MAX_AMOUNT: u64 = 0xffff_ffff_ffff_ffff;

/// A ratio in millionths: `Ratio { millionths: 5_000 }` is half a percent.
#[derive(Debug, Clone, Copy, PartialEq, Eq, Structural)]
pub struct Ratio {
    pub millionths: u32,
}

#[derive(Debug, Clone, Copy, PartialEq, Eq, Structural)]
pub enum PairError {
    /// The assets given do not match the pool's assets, in its order.
    WrongAssetOrder,
    /// The native funds attached to the call differ from the stated amount.
    FundsMismatch,
    /// A first deposit mints fewer shares than the minimum, or a deposit
    /// mints none.
    MinimumDeposit,
    /// The price moved further than the caller accepts.
    SlippageExceeded,
    /// A deposited amount is zero.
    ZeroAmount,
    /// A reserve or the share supply would leave the range of amounts.
    Overflow,
    /// The pool cannot pay the swap.
    InsufficientPoolLiquidity,
    /// More shares are to be burnt than exist.
    InsufficientBalance,
}

/// What a deposit put into the pool, and the shares it minted.
#[derive(Debug, Clone, Copy, PartialEq, Eq, Structural)]
pub struct Provided {
    pub deposit0: u64,
    pub deposit1: u64,
    pub share: u64,
}

/// What a withdrawal paid out.
#[derive(Debug, Clone, Copy, PartialEq, Eq, Structural)]
pub struct Withdrawn {
    pub refund0: u64,
    pub refund1: u64,
}

/// What a swap paid out, and the fee kept on the offered amount.
#[derive(Debug, Clone, Copy, PartialEq, Eq, Structural)]
pub struct Swapped {
    pub return_amount: u64,
    pub commission_amount: u64,
}

pub open spec fn min(a: int, b: int) -> int {
    if a <= b {
        a
    } else {
        b
    }
}

/// The slippage check of a deposit into an active pool. The ideal amount of
/// each side is what the other side buys at the pool's ratio, rounded down:
/// `ideal0 = a1 * r0 / r1` and `ideal1 = a0 * r1 / r0`. The deposit slips
/// where a stated amount falls below its ideal scaled down by the tolerance,
/// `a_i < ideal_i * (1 - tol)`.
///
/// Only this lower bound is checked. A stated amount above its ideal is no
/// slippage: the deposit keeps the smaller of the stated and the ideal
/// amount, and the excess stays with the caller.
pub open spec fn slippage_violated(r0: int, r1: int, a0: int, a1: int, tol: Ratio) -> bool {
    let one = RATIO_ONE as int;
    let keep = one - tol.millionths as int;
    (a1 * r0 / r1) * keep > a0 * one || (a0 * r1 / r0) * keep > a1 * one
}

/// The outcome of a deposit of `(a0, a1)` into a pool with reserves
/// `(r0, r1)` and `t` shares: the amounts kept and the shares minted.
pub open spec fn provide_spec(
    r0: int,
    r1: int,
    t: int,
    a0: int,
    a1: int,
    tol: Option<Ratio>,
) -> Result<(int, int, int), PairError> {
    if t == 0 {
        if sqrt_floor(a0 * a1) < MINIMUM_LIQUIDITY {
            Err(PairError::MinimumDeposit)
        } else {
            Ok((a0, a1, sqrt_floor(a0 * a1)))
        }
    } else if tol is Some && slippage_violated(r0, r1, a0, a1, tol->0) {
        Err(PairError::SlippageExceeded)
    } else {
        let d0 = min(a0, a1 * r0 / r1);
        let d1 = min(a1, a0 * r1 / r0);
        if d0 == 0 || d1 == 0 {
            Err(PairError::ZeroAmount)
        } else {
            let s = min(d0 * t / r0, d1 * t / r1);
            if s == 0 {
                Err(PairError::MinimumDeposit)
            } else if r0 + d0 > MAX_AMOUNT || r1 + d1 > MAX_AMOUNT || t + s > MAX_AMOUNT {
                Err(PairError::Overflow)
            } else {
                Ok((d0, d1, s))
            }
        }
    }
}

/// The outcome of burning `lp` of `t` shares of a pool with reserves
/// `(r0, r1)`: each reserve in proportion, rounded down. Burning no shares
/// pays out nothing.
pub open spec fn withdraw_spec(r0: int, r1: int, t: int, lp: int) -> Result<(int, int), PairError> {
    if lp > t {
        Err(PairError::InsufficientBalance)
    } else if lp == 0 {
        Ok((0, 0))
    } else {
        Ok((r0 * lp / t, r1 * lp / t))
    }
}

/// The offered amount less the fee.
pub open spec fn offer_after_fee(offer: int) -> int {
    offer * (COMMISSION_DENOMINATOR - COMMISSION_NUMERATOR) / (COMMISSION_DENOMINATOR as int)
}

/// The constant-product closed form of what a swap pays out.
pub open spec fn return_of(ri: int, ro: int, offer: int) -> int {
    ro - (ri * ro) / (ri + offer_after_fee(offer))
}

/// The spread protection: the spread `1 - (ret / offer) / (ro / ri)` may not
/// exceed `max_spread`, and the price `offer / ret` may not be worse than
/// `belief_price * (1 + max_spread)`, a missing spread counting as zero.
pub open spec fn spread_exceeded(
    ri: int,
    ro: int,
    offer: int,
    ret: int,
    belief_price: Option<u64>,
    max_spread: Option<Ratio>,
) -> bool {
    let one = RATIO_ONE as int;
    let m = match max_spread {
        Some(r) => r.millionths as int,
        None => 0,
    };
    (max_spread is Some && (offer * ro) * (one - m) > (ret * ri) * one) || (belief_price is Some
        && (offer * one) * one > (ret * belief_price->0) * (one + m))
}

/// The outcome of offering `offer` against reserves `ri` (offered asset) and
/// `ro` (asked asset): what is paid out and the fee kept.
pub open spec fn swap_spec(
    ri: int,
    ro: int,
    offer: int,
    belief_price: Option<u64>,
    max_spread: Option<Ratio>,
) -> Result<(int, int), PairError> {
    if ri == 0 || ro == 0 || return_of(ri, ro, offer) >= ro {
        Err(PairError::InsufficientPoolLiquidity)
    } else if spread_exceeded(ri, ro, offer, return_of(ri, ro, offer), belief_price, max_spread) {
        Err(PairError::SlippageExceeded)
    } else if ri + offer > MAX_AMOUNT {
        Err(PairError::Overflow)
    } else {
        Ok((return_of(ri, ro, offer), offer - offer_after_fee(offer)))
    }
}

pub fn slippage_check(r0: u64, r1: u64, a0: u64, a1: u64, tol: Ratio) -> (r: bool)
    requires
        r0 > 0,
        r1 > 0,
    ensures
        r == slippage_violated(r0 as int, r1 as int, a0 as int, a1 as int, tol),
{
    let ideal0: u128 = mul_wide(a1, r0) / (r1 as u128);
    let ideal1: u128 = mul_wide(a0, r1) / (r0 as u128);
    if tol.millionths as u64 >= RATIO_ONE {
        proof {
            let keep = RATIO_ONE as int - tol.millionths as int;
            assert((ideal0 as int) * keep <= 0) by (nonlinear_arith)
                requires
                    keep <= 0,
                    ideal0 >= 0,
            ;
            assert((ideal1 as int) * keep <= 0) by (nonlinear_arith)
                requires
                    keep <= 0,
                    ideal1 >= 0,
            ;
        }
        return false;
    }
    let keep: u64 = RATIO_ONE - tol.millionths as u64;
    product_gt(ideal0, keep, a0 as u128, RATIO_ONE) || product_gt(ideal1, keep, a1 as u128, RATIO_ONE)
}

pub fn spread_check(
    ri: u64,
    ro: u64,
    offer: u64,
    ret: u64,
    belief_price: Option<u64>,
    max_spread: Option<Ratio>,
) -> (r: bool)
    ensures
        r == spread_exceeded(
            ri as int,
            ro as int,
            offer as int,
            ret as int,
            belief_price,
            max_spread,
        ),
{
    let m: u64 = match max_spread {
        Some(r) => r.millionths as u64,
        None => 0,
    };
    let mut exceeded = false;
    if max_spread.is_some() {
        let x: u128 = mul_wide(offer, ro);
        let y: u128 = mul_wide(ret, ri);
        if m < RATIO_ONE {
            exceeded = product_gt(x, RATIO_ONE - m, y, RATIO_ONE);
        } else {
            proof {
                let keep = RATIO_ONE as int - m as int;
                assert((x as int) * keep <= 0) by (nonlinear_arith)
                    requires
                        keep <= 0,
                        x >= 0,
                ;
            }
        }
    }
    match belief_price {
        Some(price) => {
            let x: u128 = mul_wide(offer, RATIO_ONE);
            let y: u128 = mul_wide(ret, price);
            exceeded || product_gt(x, RATIO_ONE, y, RATIO_ONE + m)
        },
        None => exceeded,
    }
}

/// Deposit arithmetic on plain amounts.
pub fn compute_provide(r0: u64, r1: u64, t: u64, a0: u64, a1: u64, tol: Option<Ratio>) -> (r: Result<
    Provided,
    PairError,
>)
    requires
        t > 0 ==> r0 > 0 && r1 > 0,
    ensures
        match provide_spec(r0 as int, r1 as int, t as int, a0 as int, a1 as int, tol) {
            Ok((d0, d1, s)) => r == Ok::<Provided, PairError>(
                Provided { deposit0: d0 as u64, deposit1: d1 as u64, share: s as u64 },
            ),
            Err(e) => r == Err::<Provided, PairError>(e),
        },
        r matches Ok(p) ==> provide_spec(r0 as int, r1 as int, t as int, a0 as int, a1 as int, tol)
            == Ok::<(int, int, int), PairError>((p.deposit0 as int, p.deposit1 as int, p.share as int)),
{
    if t == 0 {
        let product: u128 = mul_wide(a0, a1);
        let share = isqrt(product);
        if share < MINIMUM_LIQUIDITY {
            return Err(PairError::MinimumDeposit);
        }
        return Ok(Provided { deposit0: a0, deposit1: a1, share });
    }
    if let Some(t_ratio) = tol {
        if slippage_check(r0, r1, a0, a1, t_ratio) {
            return Err(PairError::SlippageExceeded);
        }
    }
    let ideal0: u128 = mul_wide(a1, r0) / (r1 as u128);
    let ideal1: u128 = mul_wide(a0, r1) / (r0 as u128);
    let d0: u64 = if (a0 as u128) <= ideal0 {
        a0
    } else {
        ideal0 as u64
    };
    let d1: u64 = if (a1 as u128) <= ideal1 {
        a1
    } else {
        ideal1 as u64
    };
    if d0 == 0 || d1 == 0 {
        return Err(PairError::ZeroAmount);
    }
    proof {
        assert((d0 as int) * (t as int) <= MAX_AMOUNT * MAX_AMOUNT) by (nonlinear_arith)
            requires
                0 <= d0 <= MAX_AMOUNT,
                0 <= t <= MAX_AMOUNT,
        ;
        assert((d1 as int) * (t as int) <= MAX_AMOUNT * MAX_AMOUNT) by (nonlinear_arith)
            requires
                0 <= d1 <= MAX_AMOUNT,
                0 <= t <= MAX_AMOUNT,
        ;
    }
    let s0: u128 = mul_wide(d0, t) / (r0 as u128);
    let s1: u128 = mul_wide(d1, t) / (r1 as u128);
    let s: u128 = if s0 <= s1 {
        s0
    } else {
        s1
    };
    if s == 0 {
        return Err(PairError::MinimumDeposit);
    }
    if d0 > MAX_AMOUNT - r0 || d1 > MAX_AMOUNT - r1 || s > (MAX_AMOUNT - t) as u128 {
        return Err(PairError::Overflow);
    }
    Ok(Provided { deposit0: d0, deposit1: d1, share: s as u64 })
}

/// Withdrawal arithmetic on plain amounts.
pub fn compute_withdraw(r0: u64, r1: u64, t: u64, lp: u64) -> (r: Result<Withdrawn, PairError>)
    ensures
        match withdraw_spec(r0 as int, r1 as int, t as int, lp as int) {
            Ok((w0, w1)) => r == Ok::<Withdrawn, PairError>(
                Withdrawn { refund0: w0 as u64, refund1: w1 as u64 },
            ),
            Err(e) => r == Err::<Withdrawn, PairError>(e),
        },
        r matches Ok(w) ==> w.refund0 <= r0 && w.refund1 <= r1 && withdraw_spec(
            r0 as int,
            r1 as int,
            t as int,
            lp as int,
        ) == Ok::<(int, int), PairError>((w.refund0 as int, w.refund1 as int)),
{
    if lp > t {
        return Err(PairError::InsufficientBalance);
    }
    if lp == 0 {
        return Ok(Withdrawn { refund0: 0, refund1: 0 });
    }
    let w0: u128 = mul_wide(r0, lp) / (t as u128);
    let w1: u128 = mul_wide(r1, lp) / (t as u128);
    proof {
        lemma_share_of_reserve(r0 as int, lp as int, t as int);
        lemma_share_of_reserve(r1 as int, lp as int, t as int);
    }
    Ok(Withdrawn { refund0: w0 as u64, refund1: w1 as u64 })
}

proof fn lemma_share_of_reserve(r: int, lp: int, t: int)
    requires
        0 <= r,
        0 < lp <= t,
    ensures
        0 <= r * lp / t <= r,
{
    assert(0 <= r * lp <= r * t) by (nonlinear_arith)
        requires
            0 <= r,
            0 < lp <= t,
    ;
    vstd::arithmetic::div_mod::lemma_div_is_ordered(r * lp, r * t, t);
    vstd::arithmetic::div_mod::lemma_div_by_multiple(r, t);
    vstd::arithmetic::div_mod::lemma_div_pos_is_pos(r * lp, t);
}

/// Swap arithmetic on plain amounts.
pub fn compute_swap(
    ri: u64,
    ro: u64,
    offer: u64,
    belief_price: Option<u64>,
    max_spread: Option<Ratio>,
) -> (r: Result<Swapped, PairError>)
    ensures
        match swap_spec(ri as int, ro as int, offer as int, belief_price, max_spread) {
            Ok((ret, fee)) => r == Ok::<Swapped, PairError>(
                Swapped { return_amount: ret as u64, commission_amount: fee as u64 },
            ),
            Err(e) => r == Err::<Swapped, PairError>(e),
        },
        r matches Ok(s) ==> s.return_amount < ro && s.return_amount == return_of(
            ri as int,
            ro as int,
            offer as int,
        ),
{
    if ri == 0 || ro == 0 {
        return Err(PairError::InsufficientPoolLiquidity);
    }
    let after_fee: u128 = mul_wide(offer, COMMISSION_DENOMINATOR - COMMISSION_NUMERATOR)
        / (COMMISSION_DENOMINATOR as u128);
    proof {
        let o = offer as int;
        let k = (COMMISSION_DENOMINATOR - COMMISSION_NUMERATOR) as int;
        assert(o * k <= o * (COMMISSION_DENOMINATOR as int)) by (nonlinear_arith)
            requires
                0 <= o,
                0 <= k <= COMMISSION_DENOMINATOR,
        ;
        vstd::arithmetic::div_mod::lemma_div_is_ordered(
            o * k,
            o * (COMMISSION_DENOMINATOR as int),
            COMMISSION_DENOMINATOR as int,
        );
        vstd::arithmetic::div_mod::lemma_div_by_multiple(o, COMMISSION_DENOMINATOR as int);
    }
    assert(after_fee <= offer);
    let cp: u128 = mul_wide(ri, ro);
    let denominator: u128 = ri as u128 + after_fee;
    let q: u128 = cp / denominator;
    proof {
        lemma_quotient_below(ri as int, ro as int, after_fee as int);
    }
    let ret: u64 = ro - q as u64;
    if ret >= ro {
        return Err(PairError::InsufficientPoolLiquidity);
    }
    if spread_check(ri, ro, offer, ret, belief_price, max_spread) {
        return Err(PairError::SlippageExceeded);
    }
    if offer > MAX_AMOUNT - ri {
        return Err(PairError::Overflow);
    }
    Ok(Swapped { return_amount: ret, commission_amount: offer - after_fee as u64 })
}

proof fn lemma_quotient_below(ri: int, ro: int, x: int)
    requires
        0 < ri,
        0 <= ro,
        0 <= x,
    ensures
        0 <= (ri * ro) / (ri + x) <= ro,
{
    assert(0 <= ri * ro <= ro * (ri + x)) by (nonlinear_arith)
        requires
            0 < ri,
            0 <= ro,
            0 <= x,
    ;
    vstd::arithmetic::div_mod::lemma_div_is_ordered(ri * ro, ro * (ri + x), ri + x);
    vstd::arithmetic::div_mod::lemma_div_by_multiple(ro, ri + x);
    vstd::arithmetic::div_mod::lemma_div_pos_is_pos(ri * ro, ri + x);
}

/// A pool's reserves and share supply, as numbers.
pub struct PoolView {
    pub reserve0: int,
    pub reserve1: int,
    pub total_share: int,
}

/// The answer to a query of a pool: its reserves as assets, and its shares.
#[derive(Debug, Clone)]
pub struct PoolResponse {
    pub assets: [Asset; 2],
    pub total_share: u64,
}

/// The pool of one pair.
pub struct Pair {
    info: PairInfo,
    reserve0: u64,
    reserve1: u64,
    total_share: u64,
}

/// Whether the assets of a call name the pool's assets, in its order.
pub open spec fn in_pool_order(info: PairInfo, assets: Seq<Asset>) -> bool {
    assets.len() == 2 && assets[0].info@ == info.asset_infos@[0]@ && assets[1].info@
        == info.asset_infos@[1]@
}

/// The outcome of a deposit call on a pool, checks of the call included.
pub open spec fn provide_call(
    pool: PoolView,
    info: PairInfo,
    assets: Seq<Asset>,
    funds: Seq<Coin>,
    tol: Option<Ratio>,
) -> Result<(int, int, int), PairError> {
    if !in_pool_order(info, assets) {
        Err(PairError::WrongAssetOrder)
    } else if !funds_match(assets[0], funds) || !funds_match(assets[1], funds) {
        Err(PairError::FundsMismatch)
    } else {
        provide_spec(
            pool.reserve0,
            pool.reserve1,
            pool.total_share,
            assets[0].amount as int,
            assets[1].amount as int,
            tol,
        )
    }
}

/// Who receives what a call pays out: the recipient named, else the caller.
pub open spec fn recipient_of(to: Option<String>, sender: String) -> String {
    match to {
        Some(x) => x,
        None => sender,
    }
}

/// Which side of the pool an offered asset is on: `Some(0)`, `Some(1)`, or
/// `None` where it is neither of the pool's assets.
pub open spec fn offer_side(info: PairInfo, offer: AssetId) -> Option<int> {
    if offer == info.asset_infos@[0]@ {
        Some(0)
    } else if offer == info.asset_infos@[1]@ {
        Some(1)
    } else {
        None
    }
}

/// The outcome of a swap call on a pool, checks of the call included.
pub open spec fn swap_call(
    pool: PoolView,
    info: PairInfo,
    offer: Asset,
    funds: Seq<Coin>,
    belief_price: Option<u64>,
    max_spread: Option<Ratio>,
) -> Result<(int, int), PairError> {
    match offer_side(info, offer.info@) {
        None => Err(PairError::WrongAssetOrder),
        Some(side) => if !funds_match(offer, funds) {
            Err(PairError::FundsMismatch)
        } else if side == 0 {
            swap_spec(pool.reserve0, pool.reserve1, offer.amount as int, belief_price, max_spread)
        } else {
            swap_spec(pool.reserve1, pool.reserve0, offer.amount as int, belief_price, max_spread)
        },
    }
}

impl PoolView {
    /// An empty pool is all-or-nothing: no shares, no reserves.
    pub open spec fn wf(self) -> bool {
        &&& (self.total_share == 0) == (self.reserve0 == 0)
        &&& (self.total_share == 0) == (self.reserve1 == 0)
    }
}

impl View for Pair {
    type V = PoolView;

    closed spec fn view(&self) -> PoolView {
        PoolView {
            reserve0: self.reserve0 as int,
            reserve1: self.reserve1 as int,
            total_share: self.total_share as int,
        }
    }
}

impl Clone for Pair {
    fn clone(&self) -> (r: Pair)
        ensures
            r@ == self@,
            r.spec_info() == self.spec_info(),
    {
        Pair {
            info: self.info.clone(),
            reserve0: self.reserve0,
            reserve1: self.reserve1,
            total_share: self.total_share,
        }
    }
}

impl Pair {
    pub closed spec fn spec_info(&self) -> PairInfo {
        self.info
    }

    pub open spec fn wf(&self) -> bool {
        self@.wf()
    }

    /// Reserves and shares are `u64` amounts.
    pub proof fn lemma_in_range(&self)
        ensures
            in_range(self@),
    {
    }

    /// A new, empty pool for a registered pair.
    pub fn new(info: PairInfo) -> (r: Pair)
        ensures
            r.wf(),
            r@ == (PoolView { reserve0: 0, reserve1: 0, total_share: 0 }),
            r.spec_info() == info,
    {
        Pair { info, reserve0: 0, reserve1: 0, total_share: 0 }
    }

    /// The pair this pool serves.
    pub fn pair_info(&self) -> (r: &PairInfo)
        ensures
            *r == self.spec_info(),
    {
        &self.info
    }

    pub fn total_share(&self) -> (r: u64)
        ensures
            r == self@.total_share,
    {
        self.total_share
    }

    /// The reserve of asset `i` of the pair.
    pub fn reserve(&self, i: usize) -> (r: u64)
        requires
            i < 2,
        ensures
            r == if i == 0 {
                self@.reserve0
            } else {
                self@.reserve1
            },
    {
        if i == 0 {
            self.reserve0
        } else {
            self.reserve1
        }
    }

    /// The reserves as assets, and the share supply.
    pub fn pool(&self) -> (r: PoolResponse)
        ensures
            r.assets@[0].info == self.spec_info().asset_infos@[0],
            r.assets@[1].info == self.spec_info().asset_infos@[1],
            r.assets@[0].amount == self@.reserve0,
            r.assets@[1].amount == self@.reserve1,
            r.total_share == self@.total_share,
    {
        PoolResponse {
            assets: [
                Asset { info: self.info.asset_infos[0].clone(), amount: self.reserve0 },
                Asset { info: self.info.asset_infos[1].clone(), amount: self.reserve1 },
            ],
            total_share: self.total_share,
        }
    }

    /// Deposits both assets, minting shares in proportion to what is kept.
    /// The stated amounts must name the pool's assets in its order, and native
    /// ones must come attached in exactly that amount.
    pub fn provide_liquidity(
        &mut self,
        assets: &[Asset; 2],
        funds: &Vec<Coin>,
        slippage_tolerance: Option<Ratio>,
        receiver: Option<String>,
        sender: &String,
    ) -> (r: Result<(Provided, Transfer), PairError>)
        requires
            old(self).wf(),
        ensures
            final(self).wf(),
            final(self).spec_info() == old(self).spec_info(),
            match provide_call(old(self)@, old(self).spec_info(), assets@, funds@, slippage_tolerance) {
                Ok((d0, d1, s)) => {
                    &&& r matches Ok((p, t)) && p == (Provided {
                        deposit0: d0 as u64,
                        deposit1: d1 as u64,
                        share: s as u64,
                    }) && t.asset == (AssetInfo::Token {
                        contract_addr: old(self).spec_info().liquidity_token,
                    }) && t.recipient == recipient_of(receiver, *sender) && t.amount == s
                    &&& final(self)@ == (PoolView {
                        reserve0: old(self)@.reserve0 + d0,
                        reserve1: old(self)@.reserve1 + d1,
                        total_share: old(self)@.total_share + s,
                    })
                },
                Err(e) => r == Err::<(Provided, Transfer), PairError>(e) && final(self)@ == old(self)@,
            },
    {
        if !assets[0].info.equals(&self.info.asset_infos[0]) || !assets[1].info.equals(
            &self.info.asset_infos[1],
        ) {
            return Err(PairError::WrongAssetOrder);
        }
        if assets[0].assert_sent_native_token_balance(funds).is_err()
            || assets[1].assert_sent_native_token_balance(funds).is_err() {
            return Err(PairError::FundsMismatch);
        }
        let p = match compute_provide(
            self.reserve0,
            self.reserve1,
            self.total_share,
            assets[0].amount,
            assets[1].amount,
            slippage_tolerance,
        ) {
            Ok(p) => p,
            Err(e) => return Err(e),
        };
        proof {
            if self.total_share == 0 {
                let (x, y) = (p.deposit0 as int, p.deposit1 as int);
                assert(p.share >= MINIMUM_LIQUIDITY);
                assert(x * y > 0) by {
                    if x * y == 0 {
                        crate::math::lemma_isqrt_unique(0, 0);
                    }
                }
                assert(x > 0 && y > 0) by (nonlinear_arith)
                    requires
                        x * y > 0,
                        x >= 0,
                        y >= 0,
                ;
            }
        }
        self.reserve0 = self.reserve0 + p.deposit0;
        self.reserve1 = self.reserve1 + p.deposit1;
        self.total_share = self.total_share + p.share;
        let recipient = match receiver {
            Some(x) => x,
            None => sender.clone(),
        };
        let shares = Asset {
            info: AssetInfo::Token { contract_addr: self.info.liquidity_token.clone() },
            amount: p.share,
        };
        Ok((p, shares.transfer_to(&recipient)))
    }

    /// Burns `lp_amount` shares and pays out each reserve in proportion.
    pub fn withdraw_liquidity(&mut self, lp_amount: u64, sender: &String) -> (r: Result<
        (Withdrawn, [Transfer; 2]),
        PairError,
    >)
        requires
            old(self).wf(),
        ensures
            final(self).wf(),
            final(self).spec_info() == old(self).spec_info(),
            match withdraw_spec(old(self)@.reserve0, old(self)@.reserve1, old(self)@.total_share, lp_amount as int) {
                Ok((w0, w1)) => {
                    &&& r matches Ok((w, t)) && w == (Withdrawn {
                        refund0: w0 as u64,
                        refund1: w1 as u64,
                    }) && t@[0].asset == old(self).spec_info().asset_infos@[0] && t@[1].asset
                        == old(self).spec_info().asset_infos@[1] && t@[0].amount == w0
                        && t@[1].amount == w1 && t@[0].recipient == *sender && t@[1].recipient
                        == *sender
                    &&& final(self)@ == (PoolView {
                        reserve0: old(self)@.reserve0 - w0,
                        reserve1: old(self)@.reserve1 - w1,
                        total_share: old(self)@.total_share - lp_amount,
                    })
                },
                Err(e) => r == Err::<(Withdrawn, [Transfer; 2]), PairError>(e) && final(self)@ == old(
                    self,
                )@,
            },
    {
        let w = match compute_withdraw(self.reserve0, self.reserve1, self.total_share, lp_amount) {
            Ok(w) => w,
            Err(e) => return Err(e),
        };
        proof {
            if lp_amount > 0 {
                lemma_withdraw_keeps_wf(self.reserve0 as int, self.total_share as int, lp_amount as int);
                lemma_withdraw_keeps_wf(self.reserve1 as int, self.total_share as int, lp_amount as int);
            }
        }
        self.reserve0 = self.reserve0 - w.refund0;
        self.reserve1 = self.reserve1 - w.refund1;
        self.total_share = self.total_share - lp_amount;
        let out0 = Asset { info: self.info.asset_infos[0].clone(), amount: w.refund0 };
        let out1 = Asset { info: self.info.asset_infos[1].clone(), amount: w.refund1 };
        Ok((w, [out0.transfer_to(sender), out1.transfer_to(sender)]))
    }

    /// Swaps `offer_asset` for the pool's other asset.
    pub fn swap(
        &mut self,
        offer_asset: &Asset,
        funds: &Vec<Coin>,
        belief_price: Option<u64>,
        max_spread: Option<Ratio>,
        to: Option<String>,
        sender: &String,
    ) -> (r: Result<(Swapped, Transfer), PairError>)
        requires
            old(self).wf(),
        ensures
            final(self).wf(),
            final(self).spec_info() == old(self).spec_info(),
            match swap_call(old(self)@, old(self).spec_info(), *offer_asset, funds@, belief_price, max_spread) {
                Ok((ret, fee)) => {
                    &&& r matches Ok((s, t)) && s == (Swapped {
                        return_amount: ret as u64,
                        commission_amount: fee as u64,
                    }) && t.asset == old(self).spec_info().asset_infos@[1 - offer_side(
                        old(self).spec_info(),
                        offer_asset.info@,
                    )->0] && t.recipient == recipient_of(to, *sender) && t.amount == ret
                    &&& final(self)@ == if offer_side(old(self).spec_info(), offer_asset.info@) == Some(0int) {
                        PoolView {
                            reserve0: old(self)@.reserve0 + offer_asset.amount,
                            reserve1: old(self)@.reserve1 - ret,
                            total_share: old(self)@.total_share,
                        }
                    } else {
                        PoolView {
                            reserve0: old(self)@.reserve0 - ret,
                            reserve1: old(self)@.reserve1 + offer_asset.amount,
                            total_share: old(self)@.total_share,
                        }
                    }
                },
                Err(e) => r == Err::<(Swapped, Transfer), PairError>(e) && final(self)@ == old(self)@,
            },
    {
        let first = offer_asset.info.equals(&self.info.asset_infos[0]);
        if !first && !offer_asset.info.equals(&self.info.asset_infos[1]) {
            return Err(PairError::WrongAssetOrder);
        }
        if offer_asset.assert_sent_native_token_balance(funds).is_err() {
            return Err(PairError::FundsMismatch);
        }
        let recipient = match to {
            Some(x) => x,
            None => sender.clone(),
        };
        if first {
            let s = match compute_swap(
                self.reserve0,
                self.reserve1,
                offer_asset.amount,
                belief_price,
                max_spread,
            ) {
                Ok(s) => s,
                Err(e) => return Err(e),
            };
            self.reserve0 = self.reserve0 + offer_asset.amount;
            self.reserve1 = self.reserve1 - s.return_amount;
            let payout = Asset { info: self.info.asset_infos[1].clone(), amount: s.return_amount };
            Ok((s, payout.transfer_to(&recipient)))
        } else {
            let s = match compute_swap(
                self.reserve1,
                self.reserve0,
                offer_asset.amount,
                belief_price,
                max_spread,
            ) {
                Ok(s) => s,
                Err(e) => return Err(e),
            };
            self.reserve1 = self.reserve1 + offer_asset.amount;
            self.reserve0 = self.reserve0 - s.return_amount;
            let payout = Asset { info: self.info.asset_infos[0].clone(), amount: s.return_amount };
            Ok((s, payout.transfer_to(&recipient)))
        }
    }
}

/// Burning part of the shares leaves part of each reserve; burning all of
/// them leaves nothing.
proof fn lemma_withdraw_keeps_wf(r: int, t: int, lp: int)
    requires
        0 < lp <= t,
        0 < r,
    ensures
        (r - r * lp / t == 0) == (lp == t),
{
    if lp == t {
        vstd::arithmetic::div_mod::lemma_div_by_multiple(r, t);
    } else {
        assert(r * lp < r * t) by (nonlinear_arith)
            requires
                0 < lp < t,
                0 < r,
        ;
        vstd::arithmetic::div_mod::lemma_div_is_ordered(r * lp, r * t - 1, t);
        assert((r * t - 1) / t < r) by {
            vstd::arithmetic::div_mod::lemma_div_by_multiple(r, t);
            vstd::arithmetic::div_mod::lemma_fundamental_div_mod(r * t - 1, t);
            vstd::arithmetic::div_mod::lemma_mod_bound(r * t - 1, t);
            assert(((r * t - 1) / t) * t <= r * t - 1);
            if (r * t - 1) / t >= r {
                assert(((r * t - 1) / t) * t >= r * t) by (nonlinear_arith)
                    requires
                        (r * t - 1) / t >= r,
                        t > 0,
                ;
            }
        }
    }
}

/// A successful swap pays out less than the asked reserve and keeps a fee of
/// at most the offer.
pub proof fn lemma_swap_spec_bounds(
    ri: int,
    ro: int,
    offer: int,
    belief_price: Option<u64>,
    max_spread: Option<Ratio>,
)
    requires
        0 <= ri,
        0 <= ro,
        0 <= offer,
        swap_spec(ri, ro, offer, belief_price, max_spread) is Ok,
    ensures
        ({
            let (ret, fee) = swap_spec(ri, ro, offer, belief_price, max_spread)->Ok_0;
            0 <= ret < ro && 0 <= fee <= offer
        }),
{
    lemma_offer_after_fee_bounds(offer);
    lemma_quotient_below(ri, ro, offer_after_fee(offer));
}

/// One call on a pool, as the laws below see it.
pub enum PoolOp {
    Provide { amount0: u64, amount1: u64, slippage_tolerance: Option<Ratio> },
    Withdraw { lp_amount: u64 },
    /// A swap that offers `offer` of the asset on side `side` (0 or 1).
    Swap { side: int, offer: u64, belief_price: Option<u64>, max_spread: Option<Ratio> },
}

/// What one call moves into and out of the pool's custody, per asset.
pub struct Flow {
    pub in0: int,
    pub in1: int,
    pub out0: int,
    pub out1: int,
}

pub open spec fn no_flow() -> Flow {
    Flow { in0: 0, in1: 0, out0: 0, out1: 0 }
}

/// The transfers that one call makes: deposits in, refunds out, the offer in
/// and the payout out. A failed call moves nothing.
pub open spec fn flow_of(pool: PoolView, op: PoolOp) -> Flow {
    match op {
        PoolOp::Provide { amount0, amount1, slippage_tolerance } => match provide_spec(
            pool.reserve0,
            pool.reserve1,
            pool.total_share,
            amount0 as int,
            amount1 as int,
            slippage_tolerance,
        ) {
            Ok((d0, d1, _)) => Flow { in0: d0, in1: d1, out0: 0, out1: 0 },
            Err(_) => no_flow(),
        },
        PoolOp::Withdraw { lp_amount } => match withdraw_spec(
            pool.reserve0,
            pool.reserve1,
            pool.total_share,
            lp_amount as int,
        ) {
            Ok((w0, w1)) => Flow { in0: 0, in1: 0, out0: w0, out1: w1 },
            Err(_) => no_flow(),
        },
        PoolOp::Swap { side, offer, belief_price, max_spread } => if side == 0 {
            match swap_spec(pool.reserve0, pool.reserve1, offer as int, belief_price, max_spread) {
                Ok((ret, _)) => Flow { in0: offer as int, in1: 0, out0: 0, out1: ret },
                Err(_) => no_flow(),
            }
        } else {
            match swap_spec(pool.reserve1, pool.reserve0, offer as int, belief_price, max_spread) {
                Ok((ret, _)) => Flow { in0: 0, in1: offer as int, out0: ret, out1: 0 },
                Err(_) => no_flow(),
            }
        },
    }
}

/// The pool after one call, as the methods of `Pair` leave it.
pub open spec fn step(pool: PoolView, op: PoolOp) -> PoolView {
    match op {
        PoolOp::Provide { amount0, amount1, slippage_tolerance } => match provide_spec(
            pool.reserve0,
            pool.reserve1,
            pool.total_share,
            amount0 as int,
            amount1 as int,
            slippage_tolerance,
        ) {
            Ok((d0, d1, s)) => PoolView {
                reserve0: pool.reserve0 + d0,
                reserve1: pool.reserve1 + d1,
                total_share: pool.total_share + s,
            },
            Err(_) => pool,
        },
        PoolOp::Withdraw { lp_amount } => match withdraw_spec(
            pool.reserve0,
            pool.reserve1,
            pool.total_share,
            lp_amount as int,
        ) {
            Ok((w0, w1)) => PoolView {
                reserve0: pool.reserve0 - w0,
                reserve1: pool.reserve1 - w1,
                total_share: pool.total_share - lp_amount,
            },
            Err(_) => pool,
        },
        PoolOp::Swap { side, offer, belief_price, max_spread } => if side == 0 {
            match swap_spec(pool.reserve0, pool.reserve1, offer as int, belief_price, max_spread) {
                Ok((ret, _)) => PoolView {
                    reserve0: pool.reserve0 + offer,
                    reserve1: pool.reserve1 - ret,
                    total_share: pool.total_share,
                },
                Err(_) => pool,
            }
        } else {
            match swap_spec(pool.reserve1, pool.reserve0, offer as int, belief_price, max_spread) {
                Ok((ret, _)) => PoolView {
                    reserve0: pool.reserve0 - ret,
                    reserve1: pool.reserve1 + offer,
                    total_share: pool.total_share,
                },
                Err(_) => pool,
            }
        },
    }
}

pub open spec fn empty_pool() -> PoolView {
    PoolView { reserve0: 0, reserve1: 0, total_share: 0 }
}

/// The pool after a sequence of calls on a new pool.
pub open spec fn run(ops: Seq<PoolOp>) -> PoolView
    decreases ops.len(),
{
    if ops.len() == 0 {
        empty_pool()
    } else {
        step(run(ops.drop_last()), ops.last())
    }
}

/// What a sequence of calls on a new pool has left in its custody, asset
/// 0 and asset 1: all that came in less all that went out.
pub open spec fn custody(ops: Seq<PoolOp>) -> (int, int)
    decreases ops.len(),
{
    if ops.len() == 0 {
        (0, 0)
    } else {
        let before = custody(ops.drop_last());
        let f = flow_of(run(ops.drop_last()), ops.last());
        (before.0 + f.in0 - f.out0, before.1 + f.in1 - f.out1)
    }
}

/// Every amount is a valid `u64` amount.
pub open spec fn in_range(pool: PoolView) -> bool {
    &&& 0 <= pool.reserve0 <= MAX_AMOUNT
    &&& 0 <= pool.reserve1 <= MAX_AMOUNT
    &&& 0 <= pool.total_share <= MAX_AMOUNT
}

proof fn lemma_step_keeps_wf(pool: PoolView, op: PoolOp)
    requires
        pool.wf(),
        in_range(pool),
    ensures
        step(pool, op).wf(),
        in_range(step(pool, op)),
{
    match op {
        PoolOp::Provide { amount0, amount1, slippage_tolerance } => {
            if pool.total_share == 0 {
                let n = (amount0 as int) * (amount1 as int);
                if sqrt_floor(n) >= MINIMUM_LIQUIDITY {
                    assert(0 <= n <= MAX_AMOUNT * MAX_AMOUNT) by (nonlinear_arith)
                        requires
                            n == (amount0 as int) * (amount1 as int),
                            0 <= amount0 <= MAX_AMOUNT,
                            0 <= amount1 <= MAX_AMOUNT,
                    ;
                    let r = isqrt_witness(n);
                    crate::math::lemma_isqrt_unique(n, r);
                    assert(r <= MAX_AMOUNT) by (nonlinear_arith)
                        requires
                            0 <= r,
                            r * r <= n,
                            n <= MAX_AMOUNT * MAX_AMOUNT,
                    ;
                    if n == 0 {
                        assert(crate::math::is_isqrt(0, 0));
                        crate::math::lemma_isqrt_unique(0, 0);
                    }
                    assert(amount0 > 0 && amount1 > 0) by (nonlinear_arith)
                        requires
                            n > 0,
                            n == (amount0 as int) * (amount1 as int),
                            amount0 >= 0,
                            amount1 >= 0,
                    ;
                }
            } else {
                let d0 = min(amount0 as int, (amount1 as int) * pool.reserve0 / pool.reserve1);
                let d1 = min(amount1 as int, (amount0 as int) * pool.reserve1 / pool.reserve0);
                vstd::arithmetic::div_mod::lemma_div_pos_is_pos(
                    (amount1 as int) * pool.reserve0,
                    pool.reserve1,
                );
                vstd::arithmetic::div_mod::lemma_div_pos_is_pos(
                    (amount0 as int) * pool.reserve1,
                    pool.reserve0,
                );
                assert(0 <= (amount1 as int) * pool.reserve0) by (nonlinear_arith)
                    requires
                        amount1 >= 0,
                        pool.reserve0 >= 0,
                ;
                assert(0 <= (amount0 as int) * pool.reserve1) by (nonlinear_arith)
                    requires
                        amount0 >= 0,
                        pool.reserve1 >= 0,
                ;
                if d0 > 0 && d1 > 0 {
                    assert(0 <= d0 * pool.total_share) by (nonlinear_arith)
                        requires
                            d0 >= 0,
                            pool.total_share >= 0,
                    ;
                    assert(0 <= d1 * pool.total_share) by (nonlinear_arith)
                        requires
                            d1 >= 0,
                            pool.total_share >= 0,
                    ;
                    vstd::arithmetic::div_mod::lemma_div_pos_is_pos(
                        d0 * pool.total_share,
                        pool.reserve0,
                    );
                    vstd::arithmetic::div_mod::lemma_div_pos_is_pos(
                        d1 * pool.total_share,
                        pool.reserve1,
                    );
                }
            }
        },
        PoolOp::Withdraw { lp_amount } => {
            if lp_amount > 0 && lp_amount <= pool.total_share {
                lemma_share_of_reserve(pool.reserve0, lp_amount as int, pool.total_share);
                lemma_share_of_reserve(pool.reserve1, lp_amount as int, pool.total_share);
                lemma_withdraw_keeps_wf(pool.reserve0, pool.total_share, lp_amount as int);
                lemma_withdraw_keeps_wf(pool.reserve1, pool.total_share, lp_amount as int);
            }
        },
        PoolOp::Swap { side, offer, belief_price, max_spread } => {
            if pool.reserve0 > 0 && pool.reserve1 > 0 {
                lemma_quotient_below(
                    pool.reserve0,
                    pool.reserve1,
                    offer_after_fee(offer as int),
                );
                lemma_quotient_below(
                    pool.reserve1,
                    pool.reserve0,
                    offer_after_fee(offer as int),
                );
                lemma_offer_after_fee_bounds(offer as int);
            }
        },
    }
}

/// A witness of the integer square root of `n`, found by bisection
/// between `lo` and `hi`.
proof fn isqrt_between(n: int, lo: int, hi: int) -> (r: int)
    requires
        0 <= lo < hi,
        lo * lo <= n < hi * hi,
    ensures
        crate::math::is_isqrt(n, r),
    decreases hi - lo,
{
    if hi - lo <= 1 {
        lo
    } else {
        let mid = lo + (hi - lo) / 2;
        if mid * mid <= n {
            isqrt_between(n, mid, hi)
        } else {
            isqrt_between(n, lo, mid)
        }
    }
}

/// A witness of the integer square root of a product of two amounts.
proof fn isqrt_witness(n: int) -> (r: int)
    requires
        0 <= n <= MAX_AMOUNT * MAX_AMOUNT,
    ensures
        crate::math::is_isqrt(n, r),
{
    let hi: int = MAX_AMOUNT as int + 1;
    assert(n < hi * hi) by (nonlinear_arith)
        requires
            n <= MAX_AMOUNT * MAX_AMOUNT,
            hi == MAX_AMOUNT + 1,
    ;
    isqrt_between(n, 0, hi)
}

proof fn lemma_offer_after_fee_bounds(offer: int)
    requires
        offer >= 0,
    ensures
        0 <= offer_after_fee(offer) <= offer,
{
    let k = (COMMISSION_DENOMINATOR - COMMISSION_NUMERATOR) as int;
    assert(0 <= offer * k <= offer * (COMMISSION_DENOMINATOR as int)) by (nonlinear_arith)
        requires
            0 <= offer,
            0 <= k <= COMMISSION_DENOMINATOR,
    ;
    vstd::arithmetic::div_mod::lemma_div_is_ordered(
        offer * k,
        offer * (COMMISSION_DENOMINATOR as int),
        COMMISSION_DENOMINATOR as int,
    );
    vstd::arithmetic::div_mod::lemma_div_by_multiple(offer, COMMISSION_DENOMINATOR as int);
    vstd::arithmetic::div_mod::lemma_div_pos_is_pos(offer * k, COMMISSION_DENOMINATOR as int);
}

/// Reserves never drift from custody: after any sequence of calls on a new
/// pool, each reserve equals what the calls transferred in less what they
/// transferred out, and the pool stays all-or-nothing.
pub proof fn lemma_reserves_match_custody(ops: Seq<PoolOp>)
    ensures
        run(ops).reserve0 == custody(ops).0,
        run(ops).reserve1 == custody(ops).1,
        run(ops).wf(),
        in_range(run(ops)),
    decreases ops.len(),
{
    if ops.len() > 0 {
        lemma_reserves_match_custody(ops.drop_last());
        lemma_step_keeps_wf(run(ops.drop_last()), ops.last());
    }
}

/// Depositing and at once withdrawing the shares minted never returns more
/// than was deposited, nor more than was stated; on an empty pool it
/// returns exactly what was deposited.
pub proof fn lemma_round_trip(pool: PoolView, amount0: u64, amount1: u64, tol: Option<Ratio>)
    requires
        pool.wf(),
        in_range(pool),
        provide_spec(
            pool.reserve0,
            pool.reserve1,
            pool.total_share,
            amount0 as int,
            amount1 as int,
            tol,
        ) is Ok,
    ensures
        ({
            let (d0, d1, s) = provide_spec(
                pool.reserve0,
                pool.reserve1,
                pool.total_share,
                amount0 as int,
                amount1 as int,
                tol,
            )->Ok_0;
            let after = step(
                pool,
                PoolOp::Provide { amount0, amount1, slippage_tolerance: tol },
            );
            &&& withdraw_spec(after.reserve0, after.reserve1, after.total_share, s) is Ok
            &&& {
                let (w0, w1) = withdraw_spec(
                    after.reserve0,
                    after.reserve1,
                    after.total_share,
                    s,
                )->Ok_0;
                &&& w0 <= d0 <= amount0
                &&& w1 <= d1 <= amount1
                &&& pool.total_share == 0 ==> w0 == amount0 && w1 == amount1
            }
        }),
{
    let (d0, d1, s) = provide_spec(
        pool.reserve0,
        pool.reserve1,
        pool.total_share,
        amount0 as int,
        amount1 as int,
        tol,
    )->Ok_0;
    let (r0, r1, t) = (pool.reserve0, pool.reserve1, pool.total_share);
    lemma_step_keeps_wf(pool, PoolOp::Provide { amount0, amount1, slippage_tolerance: tol });
    if t == 0 {
        assert(s > 0);
        vstd::arithmetic::div_mod::lemma_div_by_multiple(d0, s);
        vstd::arithmetic::div_mod::lemma_div_by_multiple(d1, s);
        assert(d0 * s == (r0 + d0) * s);
        assert(d1 * s == (r1 + d1) * s);
    } else {
        assert(s > 0);
        lemma_round_trip_side(r0, t, d0, s);
        lemma_round_trip_side(r1, t, d1, s);
    }
}

/// One side of a round trip on an active pool: `s <= d * t / r` shares of
/// `t + s` claim at most `d` of a reserve of `r + d`.
proof fn lemma_round_trip_side(r: int, t: int, d: int, s: int)
    requires
        r > 0,
        t > 0,
        d >= 0,
        0 < s <= d * t / r,
    ensures
        (r + d) * s / (t + s) <= d,
{
    vstd::arithmetic::div_mod::lemma_fundamental_div_mod(d * t, r);
    vstd::arithmetic::div_mod::lemma_mod_pos_bound(d * t, r);
    assert(s * r <= d * t) by (nonlinear_arith)
        requires
            s <= d * t / r,
            r > 0,
            d * t == r * (d * t / r) + (d * t) % r,
            (d * t) % r >= 0,
    ;
    assert((r + d) * s <= d * (t + s)) by (nonlinear_arith)
        requires
            s * r <= d * t,
    ;
    vstd::arithmetic::div_mod::lemma_div_is_ordered((r + d) * s, d * (t + s), t + s);
    vstd::arithmetic::div_mod::lemma_div_by_multiple(d, t + s);
}

/// A swap keeps the constant product up to the rounding of the closed form:
/// the product after it, with one more unit of the asked asset, exceeds the
/// product before it; where the division in the closed form is exact the
/// product does not decrease, and a fee taken makes it grow.
pub proof fn lemma_swap_keeps_product(
    ri: int,
    ro: int,
    offer: int,
    belief_price: Option<u64>,
    max_spread: Option<Ratio>,
)
    requires
        0 <= ri,
        0 <= ro,
        0 <= offer,
        swap_spec(ri, ro, offer, belief_price, max_spread) is Ok,
    ensures
        ({
            let ret = swap_spec(ri, ro, offer, belief_price, max_spread)->Ok_0.0;
            let x = offer_after_fee(offer);
            &&& (ri + offer) * (ro - ret + 1) > ri * ro
            &&& (ri * ro) % (ri + x) == 0 ==> (ri + offer) * (ro - ret) >= ri * ro
            &&& (ri * ro) % (ri + x) == 0 && x < offer ==> (ri + offer) * (ro - ret) > ri * ro
        }),
{
    let x = offer_after_fee(offer);
    lemma_offer_after_fee_bounds(offer);
    let p = ri * ro;
    let q = p / (ri + x);
    let ret = ro - q;
    assert(ret == swap_spec(ri, ro, offer, belief_price, max_spread)->Ok_0.0);
    vstd::arithmetic::div_mod::lemma_fundamental_div_mod(p, ri + x);
    vstd::arithmetic::div_mod::lemma_mod_pos_bound(p, ri + x);
    lemma_quotient_below(ri, ro, x);
    assert(ro - ret == q);
    assert((ri + offer) * (q + 1) > p) by (nonlinear_arith)
        requires
            p == (ri + x) * q + p % (ri + x),
            p % (ri + x) < ri + x,
            0 <= x <= offer,
            q >= 0,
    ;
    if p % (ri + x) == 0 {
        assert((ri + offer) * q >= p) by (nonlinear_arith)
            requires
                p == (ri + x) * q,
                0 <= x <= offer,
                q >= 0,
        ;
        if x < offer {
            assert(q > 0);
            assert((ri + offer) * q > p) by (nonlinear_arith)
                requires
                    p == (ri + x) * q,
                    0 <= x < offer,
                    q > 0,
            ;
        }
    }
}

} // verus!
