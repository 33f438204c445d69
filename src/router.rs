//! Multi-hop swaps: a route of pairs is resolved through the registry and
//! executed hop by hop, the payout of one hop being the offer of the next.
//! A route succeeds as a whole or leaves every pool as it was.
use vstd::prelude::*;
use crate::asset::{Asset, AssetId, AssetInfo, Coin, PairInfo, Transfer, funds_match};
use crate::factory::{Factory, FactoryView, pair_position};
use crate::pool::{Pair, PairError, PoolView, offer_side, recipient_of, swap_spec};

verus! {

/// One hop of a route: offer one asset, ask for another.
#[derive(Debug, Clone)]
pub struct SwapOperation {
    pub offer_asset_info: AssetInfo,
    pub ask_asset_info: AssetInfo,
}

#[derive(Debug, Clone, Copy, PartialEq, Eq, Structural)]
pub enum RouterError {
    /// The route has no hop.
    NoOperations,
    /// No pool is registered for the assets of a hop.
    PairNotFound,
    /// A hop's swap failed.
    Swap(PairError),
    /// The route pays out less than the minimum asked for.
    MinimumReceiveNotMet,
    /// A hop does not offer the asset that the hop before it asks for.
    InvalidOperations,
    /// The native funds attached to the call differ from the offered amount.
    FundsMismatch,
}

/// Each hop offers what the hop before it asks for.
pub open spec fn connected(ops: Seq<SwapOperation>) -> bool {
    forall|k: int|
        1 <= k < ops.len() ==> (#[trigger] ops[k]).offer_asset_info@ == ops[k - 1].ask_asset_info@
}

/// The outcome of a route, its shape checked: it must have a hop, and its
/// hops must connect.
pub open spec fn route_outcome(
    pairs: Seq<PairInfo>,
    infos: Seq<PairInfo>,
    pools: Seq<PoolView>,
    ops: Seq<SwapOperation>,
    amount: int,
) -> Result<(Seq<PoolView>, int), RouterError> {
    if ops.len() == 0 {
        Err(RouterError::NoOperations)
    } else if !connected(ops) {
        Err(RouterError::InvalidOperations)
    } else {
        route_spec(pairs, infos, pools, ops, amount)
    }
}

/// The position of the first pool at `addr`, or the number of pools.
pub open spec fn pool_position(infos: Seq<PairInfo>, addr: Seq<char>) -> int
    decreases infos.len(),
{
    if infos.len() == 0 {
        0
    } else if infos[0].contract_addr@ == addr {
        0
    } else {
        1 + pool_position(infos.drop_first(), addr)
    }
}

/// A pool after a swap that offered on side `side` and paid out `ret`.
pub open spec fn after_swap(pool: PoolView, side: int, offer: int, ret: int) -> PoolView {
    if side == 0 {
        PoolView {
            reserve0: pool.reserve0 + offer,
            reserve1: pool.reserve1 - ret,
            total_share: pool.total_share,
        }
    } else {
        PoolView {
            reserve0: pool.reserve0 - ret,
            reserve1: pool.reserve1 + offer,
            total_share: pool.total_share,
        }
    }
}

/// The outcome of a route offered `amount`: the pools after it and its
/// payout. `pairs` is the registry; the pool at position `p` serves the pair
/// `infos[p]` and holds `pools[p]`. A hop whose pool does not pay out the
/// asset asked for finds no pair.
pub open spec fn route_spec(
    pairs: Seq<PairInfo>,
    infos: Seq<PairInfo>,
    pools: Seq<PoolView>,
    ops: Seq<SwapOperation>,
    amount: int,
) -> Result<(Seq<PoolView>, int), RouterError>
    decreases ops.len(),
{
    if ops.len() == 0 {
        Ok((pools, amount))
    } else {
        let op = ops[0];
        let k = pair_position(pairs, (op.offer_asset_info@, op.ask_asset_info@));
        if k >= pairs.len() {
            Err(RouterError::PairNotFound)
        } else {
            let p = pool_position(infos, pairs[k].contract_addr@);
            if p >= infos.len() || p >= pools.len() {
                Err(RouterError::PairNotFound)
            } else {
                match offer_side(infos[p], op.offer_asset_info@) {
                    None => Err(RouterError::Swap(PairError::WrongAssetOrder)),
                    Some(side) => if infos[p].asset_infos@[1 - side]@ != op.ask_asset_info@ {
                        Err(RouterError::PairNotFound)
                    } else {
                        let (ri, ro) = if side == 0 {
                            (pools[p].reserve0, pools[p].reserve1)
                        } else {
                            (pools[p].reserve1, pools[p].reserve0)
                        };
                        match swap_spec(ri, ro, amount, None, None) {
                            Err(e) => Err(RouterError::Swap(e)),
                            Ok((ret, _)) => route_spec(
                                pairs,
                                infos,
                                pools.update(p, after_swap(pools[p], side, amount, ret)),
                                ops.drop_first(),
                                ret,
                            ),
                        }
                    },
                }
            }
        }
    }
}

pub struct ExchangeView {
    pub factory: FactoryView,
    pub infos: Seq<PairInfo>,
    pub pools: Seq<PoolView>,
}

/// The registry together with the pools it has created.
pub struct Exchange {
    factory: Factory,
    pools: Vec<Pair>,
}

pub open spec fn views(pools: Seq<Pair>) -> Seq<PoolView> {
    pools.map_values(|p: Pair| p@)
}

pub open spec fn infos(pools: Seq<Pair>) -> Seq<PairInfo> {
    pools.map_values(|p: Pair| p.spec_info())
}

pub open spec fn all_wf(pools: Seq<Pair>) -> bool {
    forall|i: int| 0 <= i < pools.len() ==> (#[trigger] pools[i]).wf()
}

impl View for Exchange {
    type V = ExchangeView;

    closed spec fn view(&self) -> ExchangeView {
        ExchangeView {
            factory: self.factory@,
            infos: infos(self.pools@),
            pools: views(self.pools@),
        }
    }
}

/// The first pool at `addr`, or the number of pools.
fn find_pool(pools: &Vec<Pair>, addr: &String) -> (r: usize)
    ensures
        r == pool_position(infos(pools@), addr@),
        r <= pools@.len(),
{
    let mut i: usize = 0;
    assert(infos(pools@).skip(0) =~= infos(pools@));
    while i < pools.len()
        invariant
            i <= pools@.len(),
            pool_position(infos(pools@), addr@) == i + pool_position(
                infos(pools@).skip(i as int),
                addr@,
            ),
        decreases pools@.len() - i,
    {
        assert(infos(pools@).skip(i as int)[0] == pools@[i as int].spec_info());
        if pools[i].pair_info().contract_addr.eq(addr) {
            return i;
        }
        assert(infos(pools@).skip(i as int).drop_first() =~= infos(pools@).skip(i + 1));
        i = i + 1;
    }
    assert(infos(pools@).skip(i as int) =~= Seq::<PairInfo>::empty());
    i
}

fn clone_pools(pools: &Vec<Pair>) -> (r: Vec<Pair>)
    requires
        all_wf(pools@),
    ensures
        views(r@) == views(pools@),
        infos(r@) == infos(pools@),
        all_wf(r@),
{
    let mut r: Vec<Pair> = Vec::new();
    let mut i: usize = 0;
    while i < pools.len()
        invariant
            i <= pools@.len(),
            r@.len() == i,
            all_wf(pools@),
            forall|k: int| 0 <= k < i ==> (#[trigger] r@[k])@ == pools@[k]@ && r@[k].spec_info() == pools@[k].spec_info(),
        decreases pools@.len() - i,
    {
        r.push(pools[i].clone());
        i = i + 1;
    }
    assert(views(r@) =~= views(pools@));
    assert(infos(r@) =~= infos(pools@));
    r
}

impl Exchange {
    pub closed spec fn wf(&self) -> bool {
        self.factory.wf() && all_wf(self.pools@)
    }

    /// The registry and the pools it created, each well formed.
    pub fn new(factory: Factory, pools: Vec<Pair>) -> (r: Exchange)
        requires
            factory.wf(),
            all_wf(pools@),
        ensures
            r.wf(),
            r@ == (ExchangeView { factory: factory@, infos: infos(pools@), pools: views(pools@) }),
    {
        Exchange { factory, pools }
    }

    pub fn factory(&self) -> (r: &Factory)
        ensures
            r@ == self@.factory,
    {
        &self.factory
    }

    pub fn num_pools(&self) -> (r: usize)
        ensures
            r == self@.pools.len(),
    {
        self.pools.len()
    }

    /// The pool at position `i`.
    pub fn pool(&self, i: usize) -> (r: &Pair)
        requires
            i < self@.pools.len(),
        ensures
            r@ == self@.pools[i as int],
            r.spec_info() == self@.infos[i as int],
    {
        &self.pools[i]
    }

    /// Swaps `offer_amount` along the route: each hop offers what the last
    /// one paid out, and the last pays `to` (by default the caller). The
    /// native funds attached to the call (`funds`) must match the first
    /// offer; later hops are fed what the hop before paid. Where a hop
    /// fails, or the payout is below `minimum_receive`, no pool changes.
    pub fn execute_swap_operations(
        &mut self,
        operations: &Vec<SwapOperation>,
        offer_amount: u64,
        funds: &Vec<Coin>,
        minimum_receive: Option<u64>,
        to: Option<String>,
        sender: &String,
    ) -> (r: Result<Transfer, RouterError>)
        requires
            old(self).wf(),
        ensures
            final(self).wf(),
            final(self)@.factory == old(self)@.factory,
            final(self)@.infos == old(self)@.infos,
            operations@.len() > 0 && connected(operations@) && !funds_match(
                Asset { info: operations@[0].offer_asset_info, amount: offer_amount },
                funds@,
            ) ==> r == Err::<Transfer, RouterError>(RouterError::FundsMismatch) && final(self)@
                == old(self)@,
            operations@.len() == 0 || !connected(operations@) || funds_match(
                Asset { info: operations@[0].offer_asset_info, amount: offer_amount },
                funds@,
            ) ==> match route_outcome(
                old(self)@.factory.pairs,
                old(self)@.infos,
                old(self)@.pools,
                operations@,
                offer_amount as int,
            ) {
                Err(e) => r == Err::<Transfer, RouterError>(e) && final(self)@ == old(self)@,
                Ok((pools, out)) => if minimum_receive is Some && out < minimum_receive->0 {
                    r == Err::<Transfer, RouterError>(RouterError::MinimumReceiveNotMet)
                        && final(self)@ == old(self)@
                } else {
                    &&& r matches Ok(t) && t.amount == out && t.recipient == recipient_of(to, *sender)
                        && t.asset@ == operations@.last().ask_asset_info@
                    &&& final(self)@.pools == pools
                },
            },
    {
        if operations.len() == 0 {
            return Err(RouterError::NoOperations);
        }
        if !hops_connect(operations) {
            return Err(RouterError::InvalidOperations);
        }
        let first = Asset { info: operations[0].offer_asset_info.clone(), amount: offer_amount };
        if first.assert_sent_native_token_balance(funds).is_err() {
            return Err(RouterError::FundsMismatch);
        }
        let recipient = match to {
            Some(x) => x,
            None => sender.clone(),
        };
        match self.run_route(operations, offer_amount, &recipient) {
            Err(e) => Err(e),
            Ok((pools, amount, payout)) => {
                if let Some(m) = minimum_receive {
                    if amount < m {
                        return Err(RouterError::MinimumReceiveNotMet);
                    }
                }
                self.pools = pools;
                Ok(payout.unwrap())
            },
        }
    }

    /// What the route would pay out for `offer_amount`, changing nothing.
    pub fn simulate_swap_operations(&self, operations: &Vec<SwapOperation>, offer_amount: u64) -> (r:
        Result<u64, RouterError>)
        requires
            self.wf(),
        ensures
            match route_outcome(
                self@.factory.pairs,
                self@.infos,
                self@.pools,
                operations@,
                offer_amount as int,
            ) {
                Err(e) => r == Err::<u64, RouterError>(e),
                Ok((_, out)) => r == Ok::<u64, RouterError>(out as u64),
            },
    {
        if operations.len() == 0 {
            return Err(RouterError::NoOperations);
        }
        if !hops_connect(operations) {
            return Err(RouterError::InvalidOperations);
        }
        match self.run_route(operations, offer_amount, &String::new()) {
            Err(e) => Err(e),
            Ok((_, amount, _)) => Ok(amount),
        }
    }

    /// Runs the route on copies of the pools; the last hop pays `recipient`.
    fn run_route(&self, operations: &Vec<SwapOperation>, offer_amount: u64, recipient: &String) -> (r:
        Result<(Vec<Pair>, u64, Option<Transfer>), RouterError>)
        requires
            self.wf(),
        ensures
            match route_spec(
                self@.factory.pairs,
                self@.infos,
                self@.pools,
                operations@,
                offer_amount as int,
            ) {
                Err(e) => r == Err::<(Vec<Pair>, u64, Option<Transfer>), RouterError>(e),
                Ok((pools, out)) => r matches Ok((v, a, t)) && a == out && views(v@) == pools
                    && infos(v@) == self@.infos && all_wf(v@) && (operations@.len() > 0 ==> (t is Some
                    && t->0.amount == out && t->0.recipient == *recipient && t->0.asset@
                    == operations@.last().ask_asset_info@)),
            },
    {
        let mut scratch = clone_pools(&self.pools);
        let mut amount = offer_amount;
        let mut i: usize = 0;
        let mut payout: Option<Transfer> = None;
        let ghost pairs = self@.factory.pairs;
        let ghost ops = operations@;
        assert(ops.skip(0) =~= ops);
        while i < operations.len()
            invariant
                self.wf(),
                pairs == self@.factory.pairs,
                ops == operations@,
                i <= ops.len(),
                infos(scratch@) == self@.infos,
                all_wf(scratch@),
                i > 0 ==> payout is Some && payout->0.amount == amount && payout->0.recipient
                    == *recipient && payout->0.asset@ == ops[i - 1].ask_asset_info@,
                route_spec(pairs, self@.infos, self@.pools, ops, offer_amount as int) == route_spec(
                    pairs,
                    self@.infos,
                    views(scratch@),
                    ops.skip(i as int),
                    amount as int,
                ),
            decreases ops.len() - i,
        {
            let op = &operations[i];
            let ghost rest = ops.skip(i as int);
            assert(rest[0] == ops[i as int]);
            assert(rest.drop_first() =~= ops.skip(i + 1));
            let k = self.factory.find_pair(&op.offer_asset_info, &op.ask_asset_info);
            if k == self.factory.num_pairs() {
                return Err(RouterError::PairNotFound);
            }
            let info = self.factory.pair_at(k);
            let p = find_pool(&scratch, &info.contract_addr);
            if p == scratch.len() {
                return Err(RouterError::PairNotFound);
            }
            let mut pool = scratch[p].clone();
            assert(pool.spec_info() == self@.infos[p as int]);
            assert(pool@ == views(scratch@)[p as int]);
            let pool_assets = &pool.pair_info().asset_infos;
            let paid = if pool_assets[0].equals(&op.offer_asset_info) {
                &pool_assets[1]
            } else if pool_assets[1].equals(&op.offer_asset_info) {
                &pool_assets[0]
            } else {
                return Err(RouterError::Swap(PairError::WrongAssetOrder));
            };
            if !paid.equals(&op.ask_asset_info) {
                return Err(RouterError::PairNotFound);
            }
            let offer = Asset { info: op.offer_asset_info.clone(), amount };
            let funds: Vec<Coin> = match &op.offer_asset_info {
                AssetInfo::NativeToken { denom } => vec![Coin { denom: denom.clone(), amount }],
                AssetInfo::Token { .. } => Vec::new(),
            };
            proof {
                if let AssetId::Native(d) = offer.info@ {
                    assert(funds@[0].denom@ == d);
                    assert(funds@.drop_first().len() == 0);
                }
                assert(funds_match(offer, funds@));
            }
            let ghost before = pool@;
            match pool.swap(&offer, &funds, None, None, None, recipient) {
                Err(e) => {
                    return Err(RouterError::Swap(e));
                },
                Ok((s, t)) => {
                    proof {
                        let side = offer_side(pool.spec_info(), offer.info@)->0;
                        scratch@[p as int].lemma_in_range();
                        if side == 0 {
                            crate::pool::lemma_swap_spec_bounds(before.reserve0, before.reserve1, amount as int, None, None);
                        } else {
                            crate::pool::lemma_swap_spec_bounds(before.reserve1, before.reserve0, amount as int, None, None);
                        }
                        assert(pool@ == after_swap(before, side, amount as int, s.return_amount as int));
                    }
                    amount = s.return_amount;
                    payout = Some(t);
                    let ghost old_scratch = scratch@;
                    scratch.set(p, pool);
                    proof {
                        assert(views(scratch@) =~= views(old_scratch).update(p as int, pool@));
                        assert(infos(scratch@) =~= infos(old_scratch));
                    }
                },
            }
            i = i + 1;
        }
        assert(ops.skip(i as int) =~= Seq::<SwapOperation>::empty());
        Ok((scratch, amount, payout))
    }
}

/// Whether each hop offers what the hop before it asks for.
fn hops_connect(operations: &Vec<SwapOperation>) -> (r: bool)
    ensures
        r == connected(operations@),
{
    let mut k: usize = 1;
    while k < operations.len()
        invariant
            1 <= k,
            k <= operations@.len() || operations@.len() == 0,
            forall|j: int|
                1 <= j < k && j < operations@.len() ==> (#[trigger] operations@[j]).offer_asset_info@
                    == operations@[j - 1].ask_asset_info@,
        decreases operations@.len() - k,
    {
        if !operations[k].offer_asset_info.equals(&operations[k - 1].ask_asset_info) {
            return false;
        }
        k = k + 1;
    }
    true
}

} // verus!
