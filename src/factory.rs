//! The registry of pairs: one pool per unordered pair of assets, created in
//! two phases, and an allow-list of native denominations with their decimals.
use vstd::prelude::*;
use crate::msg::{
    ConfigResponse, ExecuteMsg, InstantiateMsg, NativeTokenDecimalsResponse, PairsResponse, QueryMsg,
};
use crate::asset::{
    AssetId, AssetInfo, Coin, PairInfo, attached, attached_amount, id_lt, lemma_id_lt_order,
};

verus! {

/// The decimals registered for a native denomination.
#[derive(Debug, Clone)]
pub struct NativeDecimals {
    pub denom: String,
    pub decimals: u8,
}

#[derive(Debug, Clone, Copy, PartialEq, Eq, Structural)]
pub enum FactoryError {
    /// The sender is not the owner.
    Unauthorized,
    /// A denomination was registered without funds of it attached.
    ZeroBalance,
    /// Both assets of a pair are the same.
    SameAsset,
    /// The first asset is neither an allowed native denomination nor a token.
    InvalidAsset1,
    /// The second asset is neither an allowed native denomination nor a token.
    InvalidAsset2,
    /// A pair of these two assets exists, or is being created.
    PairAlreadyExists,
    /// No pair of these two assets exists.
    PairNotFound,
    /// No registered decimals for this denomination.
    DecimalsNotFound,
    /// No pending creation under this correlation id awaits this report.
    UnknownCreation,
    /// The pool of a pending pair could not be instantiated.
    InstantiationFailed,
    /// Every correlation id has been handed out.
    IdsExhausted,
}

/// The decimals of `denom` in the allow-list: those of its first entry.
pub open spec fn decimals_of(natives: Seq<NativeDecimals>, denom: Seq<char>) -> Option<u8>
    decreases natives.len(),
{
    if natives.len() == 0 {
        None
    } else if natives[0].denom@ == denom {
        Some(natives[0].decimals)
    } else {
        decimals_of(natives.drop_first(), denom)
    }
}

/// The first index of `denom` in the allow-list, or its length.
pub open spec fn position_of(natives: Seq<NativeDecimals>, denom: Seq<char>) -> int
    decreases natives.len(),
{
    if natives.len() == 0 {
        0
    } else if natives[0].denom@ == denom {
        0
    } else {
        1 + position_of(natives.drop_first(), denom)
    }
}

proof fn lemma_position(natives: Seq<NativeDecimals>, denom: Seq<char>)
    ensures
        0 <= position_of(natives, denom) <= natives.len(),
        position_of(natives, denom) < natives.len() <==> decimals_of(natives, denom) is Some,
        position_of(natives, denom) < natives.len() ==> natives[position_of(natives, denom)].denom@
            == denom && decimals_of(natives, denom) == Some(
            natives[position_of(natives, denom)].decimals,
        ),
        forall|j: int| 0 <= j < position_of(natives, denom) ==> natives[j].denom@ != denom,
    decreases natives.len(),
{
    if natives.len() > 0 && natives[0].denom@ != denom {
        lemma_position(natives.drop_first(), denom);
        assert forall|j: int| 0 <= j < position_of(natives, denom) implies natives[j].denom@
            != denom by {
            if j > 0 {
                assert(natives[j] == natives.drop_first()[j - 1]);
            }
        }
    }
}

/// Replacing the entry at the first position of `denom` changes what
/// `denom` has and nothing else.
proof fn lemma_decimals_after_update(
    natives: Seq<NativeDecimals>,
    entry: NativeDecimals,
    other: Seq<char>,
)
    requires
        position_of(natives, entry.denom@) < natives.len(),
    ensures
        decimals_of(natives.update(position_of(natives, entry.denom@), entry), other) == if other
            == entry.denom@ {
            Some(entry.decimals)
        } else {
            decimals_of(natives, other)
        },
    decreases natives.len(),
{
    let i = position_of(natives, entry.denom@);
    let updated = natives.update(i, entry);
    lemma_position(natives, entry.denom@);
    if i > 0 {
        lemma_decimals_after_update(natives.drop_first(), entry, other);
        assert(updated.drop_first() =~= natives.drop_first().update(i - 1, entry));
    } else {
        assert(updated.drop_first() =~= natives.drop_first());
    }
}

/// Appending an entry for a denomination that has none gives it one.
proof fn lemma_decimals_after_push(
    natives: Seq<NativeDecimals>,
    entry: NativeDecimals,
    other: Seq<char>,
)
    requires
        decimals_of(natives, entry.denom@) is None,
    ensures
        decimals_of(natives.push(entry), other) == if other == entry.denom@ {
            Some(entry.decimals)
        } else {
            decimals_of(natives, other)
        },
    decreases natives.len(),
{
    if natives.len() > 0 {
        assert(natives.push(entry).drop_first() =~= natives.drop_first().push(entry));
        if natives[0].denom@ != other {
            lemma_decimals_after_push(natives.drop_first(), entry, other);
        }
    } else {
        assert(natives.push(entry).drop_first() =~= natives);
    }
}

/// The first index of `denom` in the allow-list, or its length.
fn find_native(natives: &Vec<NativeDecimals>, denom: &String) -> (r: usize)
    ensures
        r == position_of(natives@, denom@),
{
    let mut i: usize = 0;
    proof {
        lemma_position(natives@, denom@);
    }
    while i < natives.len()
        invariant
            i <= natives@.len(),
            i <= position_of(natives@, denom@),
            0 <= position_of(natives@, denom@) <= natives@.len(),
            position_of(natives@, denom@) < natives@.len() ==> natives@[position_of(
                natives@,
                denom@,
            )].denom@ == denom@,
            forall|j: int| 0 <= j < position_of(natives@, denom@) ==> natives@[j].denom@ != denom@,
        decreases natives@.len() - i,
    {
        if natives[i].denom.eq(denom) {
            return i;
        }
        i = i + 1;
    }
    i
}

/// The two assets of a pair, in the order given.
pub open spec fn ids(infos: Seq<AssetInfo>) -> (AssetId, AssetId) {
    (infos[0]@, infos[1]@)
}

/// Whether two pairs of assets are the same unordered pair.
pub open spec fn same_pair(x: (AssetId, AssetId), y: (AssetId, AssetId)) -> bool {
    (x.0 == y.0 && x.1 == y.1) || (x.0 == y.1 && x.1 == y.0)
}

/// The canonical key of a pair: its two assets in canonical order.
pub open spec fn key_of(x: (AssetId, AssetId)) -> (AssetId, AssetId) {
    if id_lt(x.1, x.0) {
        (x.1, x.0)
    } else {
        x
    }
}

/// The order of canonical keys: by the first asset, then by the second.
pub open spec fn key_lt(k: (AssetId, AssetId), l: (AssetId, AssetId)) -> bool {
    id_lt(k.0, l.0) || (k.0 == l.0 && id_lt(k.1, l.1))
}

pub open spec fn pair_key(p: PairInfo) -> (AssetId, AssetId) {
    key_of(ids(p.asset_infos@))
}

/// The pairs are listed in strictly increasing order of canonical key.
pub open spec fn sorted(pairs: Seq<PairInfo>) -> bool {
    forall|i: int, j: int|
        0 <= i < j < pairs.len() ==> #[trigger] key_lt(pair_key(pairs[i]), pair_key(pairs[j]))
}

pub proof fn lemma_same_key_same_pair(x: (AssetId, AssetId), y: (AssetId, AssetId))
    ensures
        key_of(x) == key_of(y) ==> same_pair(x, y),
        same_pair(x, y) && x.0 != x.1 ==> key_of(x) == key_of(y),
{
    lemma_id_lt_order(x.0, x.1, x.0);
}

pub proof fn lemma_key_lt_order(k: (AssetId, AssetId), l: (AssetId, AssetId), m: (AssetId, AssetId))
    ensures
        !key_lt(k, k),
        k != l ==> key_lt(k, l) || key_lt(l, k),
        !(key_lt(k, l) && key_lt(l, k)),
        key_lt(k, l) && key_lt(l, m) ==> key_lt(k, m),
{
    lemma_id_lt_order(k.0, l.0, m.0);
    lemma_id_lt_order(k.1, l.1, m.1);
    lemma_id_lt_order(l.0, k.0, m.0);
    lemma_id_lt_order(k.0, m.0, l.0);
}

/// A pair whose creation awaits the instantiation of its pool and its
/// liquidity token, known by its correlation id.
#[derive(Debug, Clone)]
pub struct PendingPair {
    pub id: u64,
    pub asset_infos: [AssetInfo; 2],
    pub asset_decimals: [u8; 2],
    pub contract_addr: Option<String>,
    pub liquidity_token: Option<String>,
}

/// Which sub-instantiation of a pending pair has completed.
#[derive(Debug, Clone, Copy, PartialEq, Eq, Structural)]
pub enum Instantiated {
    Pool,
    LiquidityToken,
}

/// The two instantiations that a new pair needs, tagged with the
/// correlation id under which their completion is to be reported.
#[derive(Debug, Clone)]
pub struct CreatePairRequest {
    pub id: u64,
    pub pair_code_id: u64,
    pub token_code_id: u64,
    pub asset_infos: [AssetInfo; 2],
    pub asset_decimals: [u8; 2],
}

/// What a command of the registry produced.
#[derive(Debug, Clone)]
pub enum Executed {
    ConfigUpdated,
    PairRequested(CreatePairRequest),
    NativeTokenDecimalsAdded,
    MigrationRequested(MigrateRequest),
}

/// The answer to a query of the registry.
#[derive(Debug, Clone)]
pub enum QueryResponse {
    Config(ConfigResponse),
    Pair(PairInfo),
    Pairs(PairsResponse),
    NativeTokenDecimals(NativeTokenDecimalsResponse),
}

pub open spec fn unit_of(r: Result<Executed, FactoryError>) -> Result<(), FactoryError> {
    match r {
        Ok(_) => Ok(()),
        Err(e) => Err(e),
    }
}

pub open spec fn request_of(r: Result<Executed, FactoryError>) -> Result<CreatePairRequest, FactoryError> {
    match r {
        Ok(Executed::PairRequested(q)) => Ok(q),
        Ok(_) => arbitrary(),
        Err(e) => Err(e),
    }
}

pub open spec fn migration_of(r: Result<Executed, FactoryError>) -> Result<MigrateRequest, FactoryError> {
    match r {
        Ok(Executed::MigrationRequested(m)) => Ok(m),
        Ok(_) => arbitrary(),
        Err(e) => Err(e),
    }
}

pub open spec fn pair_of(r: Result<QueryResponse, FactoryError>) -> Result<PairInfo, FactoryError> {
    match r {
        Ok(QueryResponse::Pair(p)) => Ok(p),
        Ok(_) => arbitrary(),
        Err(e) => Err(e),
    }
}

pub open spec fn decimals_response_of(r: Result<QueryResponse, FactoryError>) -> Result<
    NativeTokenDecimalsResponse,
    FactoryError,
> {
    match r {
        Ok(QueryResponse::NativeTokenDecimals(d)) => Ok(d),
        Ok(_) => arbitrary(),
        Err(e) => Err(e),
    }
}

/// An instruction to move a pair's pool to other code.
#[derive(Debug, Clone)]
pub struct MigrateRequest {
    pub contract: String,
    pub code_id: u64,
}

pub struct FactoryView {
    pub owner: Seq<char>,
    pub pair_code_id: u64,
    pub token_code_id: u64,
    pub pairs: Seq<PairInfo>,
    pub natives: Seq<NativeDecimals>,
    pub pending: Seq<PendingPair>,
    pub next_id: u64,
}

/// The registry.
pub struct Factory {
    owner: String,
    pair_code_id: u64,
    token_code_id: u64,
    pairs: Vec<PairInfo>,
    natives: Vec<NativeDecimals>,
    pending: Vec<PendingPair>,
    next_id: u64,
}

impl View for Factory {
    type V = FactoryView;

    closed spec fn view(&self) -> FactoryView {
        FactoryView {
            owner: self.owner@,
            pair_code_id: self.pair_code_id,
            token_code_id: self.token_code_id,
            pairs: self.pairs@,
            natives: self.natives@,
            pending: self.pending@,
            next_id: self.next_id,
        }
    }
}

/// Whether a pair of these assets exists or is being created.
pub open spec fn taken(f: FactoryView, x: (AssetId, AssetId)) -> bool {
    (exists|i: int| 0 <= i < f.pairs.len() && same_pair(ids(#[trigger] f.pairs[i].asset_infos@), x))
        || (exists|i: int|
        0 <= i < f.pending.len() && same_pair(ids(#[trigger] f.pending[i].asset_infos@), x))
}

/// The decimals of asset `i` of a new pair, where it is valid: an allowed
/// native denomination, or a token whose decimals its contract reported.
pub open spec fn asset_decimals(
    f: FactoryView,
    info: AssetInfo,
    token_decimals: Option<u8>,
) -> Option<u8> {
    match info@ {
        AssetId::Native(denom) => decimals_of(f.natives, denom),
        AssetId::Token(_) => token_decimals,
    }
}

/// The outcome of a request to create a pair: the correlation id, and the
/// decimals of both assets.
pub open spec fn create_pair_spec(
    f: FactoryView,
    infos: Seq<AssetInfo>,
    token_decimals: Seq<Option<u8>>,
) -> Result<(u64, u8, u8), FactoryError> {
    let d0 = asset_decimals(f, infos[0], token_decimals[0]);
    let d1 = asset_decimals(f, infos[1], token_decimals[1]);
    if infos[0]@ == infos[1]@ {
        Err(FactoryError::SameAsset)
    } else if d0 is None {
        Err(FactoryError::InvalidAsset1)
    } else if d1 is None {
        Err(FactoryError::InvalidAsset2)
    } else if taken(f, ids(infos)) {
        Err(FactoryError::PairAlreadyExists)
    } else if f.next_id == u64::MAX {
        Err(FactoryError::IdsExhausted)
    } else {
        Ok((f.next_id, d0->0, d1->0))
    }
}

impl FactoryView {
    pub open spec fn wf(self) -> bool {
        &&& sorted(self.pairs)
        &&& forall|i: int|
            0 <= i < self.pairs.len() ==> (#[trigger] self.pairs[i]).asset_infos@[0]@
                != self.pairs[i].asset_infos@[1]@
        &&& forall|i: int|
            0 <= i < self.pending.len() ==> (#[trigger] self.pending[i]).asset_infos@[0]@
                != self.pending[i].asset_infos@[1]@
        &&& forall|i: int| 0 <= i < self.pending.len() ==> (#[trigger] self.pending[i]).id < self.next_id
        &&& forall|i: int, j: int|
            0 <= i < j < self.pending.len() ==> (#[trigger] self.pending[i]).id != (
            #[trigger] self.pending[j]).id
        &&& forall|i: int, j: int|
            0 <= i < j < self.pending.len() ==> !same_pair(
                ids((#[trigger] self.pending[i]).asset_infos@),
                ids((#[trigger] self.pending[j]).asset_infos@),
            )
        &&& forall|i: int, k: int|
            0 <= i < self.pending.len() && 0 <= k < self.pairs.len() ==> !same_pair(
                ids((#[trigger] self.pending[i]).asset_infos@),
                ids((#[trigger] self.pairs[k]).asset_infos@),
            )
    }
}

/// Whether the two arrays name the same unordered pair of assets.
fn same_assets(x: &[AssetInfo; 2], y: &[AssetInfo; 2]) -> (r: bool)
    ensures
        r == same_pair(ids(x@), ids(y@)),
{
    (x[0].equals(&y[0]) && x[1].equals(&y[1])) || (x[0].equals(&y[1]) && x[1].equals(&y[0]))
}

/// Whether the canonical key of `x` comes before that of `y`.
fn key_precedes(x: &[AssetInfo; 2], y: &[AssetInfo; 2]) -> (r: bool)
    ensures
        r == key_lt(key_of(ids(x@)), key_of(ids(y@))),
{
    let x_flip = x[1].precedes(&x[0]);
    let y_flip = y[1].precedes(&y[0]);
    let (x0, x1) = if x_flip {
        (&x[1], &x[0])
    } else {
        (&x[0], &x[1])
    };
    let (y0, y1) = if y_flip {
        (&y[1], &y[0])
    } else {
        (&y[0], &y[1])
    };
    x0.precedes(y0) || (x0.equals(y0) && x1.precedes(y1))
}

/// The position of the pending creation with correlation id `id`, or the
/// length where there is none.
pub open spec fn pending_position(pending: Seq<PendingPair>, id: u64) -> int
    decreases pending.len(),
{
    if pending.len() == 0 {
        0
    } else if pending[0].id == id {
        0
    } else {
        1 + pending_position(pending.drop_first(), id)
    }
}

proof fn lemma_pending_position(pending: Seq<PendingPair>, id: u64)
    ensures
        0 <= pending_position(pending, id) <= pending.len(),
        pending_position(pending, id) < pending.len() ==> pending[pending_position(
            pending,
            id,
        )].id == id,
        forall|j: int| 0 <= j < pending_position(pending, id) ==> pending[j].id != id,
    decreases pending.len(),
{
    if pending.len() > 0 && pending[0].id != id {
        lemma_pending_position(pending.drop_first(), id);
        assert forall|j: int| 0 <= j < pending_position(pending, id) implies pending[j].id != id by {
            if j > 0 {
                assert(pending[j] == pending.drop_first()[j - 1]);
            }
        }
    }
}

/// The pair that a pending creation commits, once both addresses are known.
pub open spec fn committed(e: PendingPair) -> PairInfo {
    PairInfo {
        asset_infos: e.asset_infos,
        contract_addr: e.contract_addr->0,
        liquidity_token: e.liquidity_token->0,
        asset_decimals: e.asset_decimals,
    }
}

/// Inserts a pair of new assets at its place in a sorted list.
fn insert_sorted(pairs: &mut Vec<PairInfo>, p: PairInfo) -> (j: usize)
    requires
        sorted(old(pairs)@),
        p.asset_infos@[0]@ != p.asset_infos@[1]@,
        forall|k: int|
            0 <= k < old(pairs)@.len() ==> !same_pair(
                ids((#[trigger] old(pairs)@[k]).asset_infos@),
                ids(p.asset_infos@),
            ),
    ensures
        sorted(final(pairs)@),
        j <= old(pairs)@.len(),
        final(pairs)@ == old(pairs)@.insert(j as int, p),
{
    let mut j: usize = 0;
    while j < pairs.len() && !key_precedes(&p.asset_infos, &pairs[j].asset_infos)
        invariant
            pairs@ == old(pairs)@,
            sorted(pairs@),
            j <= pairs@.len(),
            forall|k: int|
                0 <= k < j ==> key_lt(#[trigger] pair_key(pairs@[k]), pair_key(p)),
            forall|k: int|
                0 <= k < pairs@.len() ==> !same_pair(
                    ids((#[trigger] pairs@[k]).asset_infos@),
                    ids(p.asset_infos@),
                ),
        decreases pairs@.len() - j,
    {
        proof {
            let q = pairs@[j as int];
            lemma_same_key_same_pair(ids(q.asset_infos@), ids(p.asset_infos@));
            lemma_key_lt_order(pair_key(q), pair_key(p), pair_key(p));
        }
        j = j + 1;
    }
    proof {
        assert forall|k: int| j <= k < pairs@.len() implies key_lt(
            pair_key(p),
            #[trigger] pair_key(pairs@[k]),
        ) by {
            if k > j {
                assert(key_lt(pair_key(pairs@[j as int]), pair_key(pairs@[k])));
                lemma_key_lt_order(pair_key(p), pair_key(pairs@[j as int]), pair_key(pairs@[k]));
            }
        }
    }
    let ghost before = pairs@;
    pairs.insert(j, p);
    proof {
        let after = pairs@;
        assert forall|a: int, b: int| 0 <= a < b < after.len() implies #[trigger] key_lt(
            pair_key(after[a]),
            pair_key(after[b]),
        ) by {
            if b < j {
                assert(after[a] == before[a] && after[b] == before[b]);
            } else if b == j {
                assert(after[a] == before[a]);
            } else if a < j {
                assert(after[a] == before[a] && after[b] == before[b - 1]);
                lemma_key_lt_order(pair_key(before[a]), pair_key(p), pair_key(before[b - 1]));
            } else if a == j {
                assert(after[b] == before[b - 1]);
            } else {
                assert(after[a] == before[a - 1] && after[b] == before[b - 1]);
            }
        }
    }
    j
}

/// Where `id` stands among the pending creations, or their number.
fn find_pending(pending: &Vec<PendingPair>, id: u64) -> (r: usize)
    ensures
        r == pending_position(pending@, id),
{
    proof {
        lemma_pending_position(pending@, id);
    }
    let mut i: usize = 0;
    while i < pending.len()
        invariant
            i <= pending@.len(),
            i <= pending_position(pending@, id),
            0 <= pending_position(pending@, id) <= pending@.len(),
            pending_position(pending@, id) < pending@.len() ==> pending@[pending_position(
                pending@,
                id,
            )].id == id,
            forall|j: int| 0 <= j < pending_position(pending@, id) ==> pending@[j].id != id,
        decreases pending@.len() - i,
    {
        if pending[i].id == id {
            return i;
        }
        i = i + 1;
    }
    i
}

impl Factory {
    pub open spec fn wf(&self) -> bool {
        self@.wf()
    }

    /// A registry set up by `sender`, who becomes its owner.
    pub fn instantiate(sender: String, msg: InstantiateMsg) -> (r: Factory)
        ensures
            r.wf(),
            r@.owner == sender@,
            r@.pair_code_id == msg.pair_code_id,
            r@.token_code_id == msg.token_code_id,
            r@.pairs.len() == 0,
            r@.natives.len() == 0,
            r@.pending.len() == 0,
            r@.next_id == 0,
    {
        Factory::new(sender, msg.pair_code_id, msg.token_code_id)
    }

    /// A registry with no pairs, owned by `owner`.
    pub fn new(owner: String, pair_code_id: u64, token_code_id: u64) -> (r: Factory)
        ensures
            r.wf(),
            r@.owner == owner@,
            r@.pair_code_id == pair_code_id,
            r@.token_code_id == token_code_id,
            r@.pairs.len() == 0,
            r@.natives.len() == 0,
            r@.pending.len() == 0,
            r@.next_id == 0,
    {
        Factory {
            owner,
            pair_code_id,
            token_code_id,
            pairs: Vec::new(),
            natives: Vec::new(),
            pending: Vec::new(),
            next_id: 0,
        }
    }

    fn is_taken(&self, infos: &[AssetInfo; 2]) -> (r: bool)
        ensures
            r == taken(self@, ids(infos@)),
    {
        let mut i: usize = 0;
        while i < self.pairs.len()
            invariant
                i <= self.pairs@.len(),
                forall|k: int|
                    0 <= k < i ==> !same_pair(ids((#[trigger] self.pairs@[k]).asset_infos@), ids(infos@)),
            decreases self.pairs@.len() - i,
        {
            if same_assets(&self.pairs[i].asset_infos, infos) {
                assert(same_pair(ids(self@.pairs[i as int].asset_infos@), ids(infos@)));
                return true;
            }
            i = i + 1;
        }
        let mut i: usize = 0;
        while i < self.pending.len()
            invariant
                i <= self.pending@.len(),
                forall|k: int|
                    0 <= k < self.pairs@.len() ==> !same_pair(ids((#[trigger] self.pairs@[k]).asset_infos@), ids(infos@)),
                forall|k: int|
                    0 <= k < i ==> !same_pair(ids((#[trigger] self.pending@[k]).asset_infos@), ids(infos@)),
            decreases self.pending@.len() - i,
        {
            if same_assets(&self.pending[i].asset_infos, infos) {
                assert(same_pair(ids(self@.pending[i as int].asset_infos@), ids(infos@)));
                return true;
            }
            i = i + 1;
        }
        false
    }

    fn decimals_for(&self, info: &AssetInfo, token_decimals: Option<u8>) -> (r: Option<u8>)
        ensures
            r == asset_decimals(self@, *info, token_decimals),
    {
        match info {
            AssetInfo::NativeToken { denom } => {
                let i = find_native(&self.natives, denom);
                proof {
                    lemma_position(self.natives@, denom@);
                }
                if i < self.natives.len() {
                    Some(self.natives[i].decimals)
                } else {
                    None
                }
            },
            AssetInfo::Token { .. } => token_decimals,
        }
    }

    /// Validates a new pair and records it as pending; the two
    /// instantiations that it needs are returned, tagged with its
    /// correlation id. `token_decimals[i]` is what the token contract of
    /// asset `i` reported of its decimals, if it is a token and answered.
    pub fn create_pair(&mut self, asset_infos: [AssetInfo; 2], token_decimals: [Option<u8>; 2]) -> (r:
        Result<CreatePairRequest, FactoryError>)
        requires
            old(self).wf(),
        ensures
            final(self).wf(),
            create_pair_post(old(self)@, final(self)@, asset_infos, token_decimals, r),
    {
        if asset_infos[0].equals(&asset_infos[1]) {
            return Err(FactoryError::SameAsset);
        }
        let d0 = match self.decimals_for(&asset_infos[0], token_decimals[0]) {
            Some(d) => d,
            None => return Err(FactoryError::InvalidAsset1),
        };
        let d1 = match self.decimals_for(&asset_infos[1], token_decimals[1]) {
            Some(d) => d,
            None => return Err(FactoryError::InvalidAsset2),
        };
        if self.is_taken(&asset_infos) {
            return Err(FactoryError::PairAlreadyExists);
        }
        if self.next_id == u64::MAX {
            return Err(FactoryError::IdsExhausted);
        }
        let id = self.next_id;
        let entry = PendingPair {
            id,
            asset_infos: [asset_infos[0].clone(), asset_infos[1].clone()],
            asset_decimals: [d0, d1],
            contract_addr: None,
            liquidity_token: None,
        };
        assert(entry.asset_infos =~= asset_infos);
        let request = CreatePairRequest {
            id,
            pair_code_id: self.pair_code_id,
            token_code_id: self.token_code_id,
            asset_infos,
            asset_decimals: [d0, d1],
        };
        let ghost before = self.pending@;
        self.pending.push(entry);
        self.next_id = id + 1;
        proof {
            assert(self.pending@.drop_last() =~= before);
            assert forall|i: int, k: int|
                0 <= i < self.pending@.len() && 0 <= k < self.pairs@.len() implies !same_pair(
                ids((#[trigger] self.pending@[i]).asset_infos@),
                ids((#[trigger] self.pairs@[k]).asset_infos@),
            ) by {
                if i == before.len() {
                    assert(!same_pair(ids(self.pairs@[k].asset_infos@), ids(asset_infos@)));
                }
            }
        }
        Ok(request)
    }

    /// Registers (or replaces) the decimals of a native denomination. Only
    /// the owner may, and the call must carry a positive amount of that
    /// denomination as proof that it exists.
    pub fn add_native_token_decimals(
        &mut self,
        sender: &String,
        funds: &Vec<Coin>,
        denom: String,
        decimals: u8,
    ) -> (r: Result<(), FactoryError>)
        requires
            old(self).wf(),
        ensures
            final(self).wf(),
            add_decimals_post(old(self)@, final(self)@, sender@, funds@, denom@, decimals, r),
    {
        if !sender.eq(&self.owner) {
            return Err(FactoryError::Unauthorized);
        }
        if attached_amount(funds, &denom) == 0 {
            return Err(FactoryError::ZeroBalance);
        }
        let i = find_native(&self.natives, &denom);
        let ghost before = self.natives@;
        let entry = NativeDecimals { denom, decimals };
        proof {
            lemma_position(before, entry.denom@);
        }
        if i < self.natives.len() {
            self.natives.set(i, entry);
            proof {
                assert forall|d: Seq<char>| decimals_of(self.natives@, d) == if d == entry.denom@ {
                    Some(decimals)
                } else {
                    decimals_of(before, d)
                } by {
                    lemma_decimals_after_update(before, entry, d);
                }
            }
        } else {
            self.natives.push(entry);
            proof {
                assert forall|d: Seq<char>| decimals_of(self.natives@, d) == if d == entry.denom@ {
                    Some(decimals)
                } else {
                    decimals_of(before, d)
                } by {
                    lemma_decimals_after_push(before, entry, d);
                }
            }
        }
        Ok(())
    }

    /// Changes the owner or the code ids; only the owner may.
    pub fn update_config(
        &mut self,
        sender: &String,
        owner: Option<String>,
        token_code_id: Option<u64>,
        pair_code_id: Option<u64>,
    ) -> (r: Result<(), FactoryError>)
        requires
            old(self).wf(),
        ensures
            final(self).wf(),
            update_config_post(old(self)@, final(self)@, sender@, owner, token_code_id, pair_code_id, r),
    {
        if !sender.eq(&self.owner) {
            return Err(FactoryError::Unauthorized);
        }
        if let Some(o) = owner {
            self.owner = o;
        }
        if let Some(c) = token_code_id {
            self.token_code_id = c;
        }
        if let Some(c) = pair_code_id {
            self.pair_code_id = c;
        }
        Ok(())
    }

    /// The instruction to move a pair's pool to other code (by default the
    /// current pair code); only the owner may ask for it.
    pub fn migrate_pair(&self, sender: &String, contract: String, code_id: Option<u64>) -> (r: Result<
        MigrateRequest,
        FactoryError,
    >)
        ensures
            migrate_post(self@, sender@, contract, code_id, r),
    {
        if !sender.eq(&self.owner) {
            return Err(FactoryError::Unauthorized);
        }
        let code_id = match code_id {
            Some(c) => c,
            None => self.pair_code_id,
        };
        Ok(MigrateRequest { contract, code_id })
    }

    /// The owner and the code ids.
    pub fn config(&self) -> (r: ConfigResponse)
        ensures
            r.owner@ == self@.owner,
            r.pair_code_id == self@.pair_code_id,
            r.token_code_id == self@.token_code_id,
    {
        ConfigResponse {
            owner: self.owner.clone(),
            pair_code_id: self.pair_code_id,
            token_code_id: self.token_code_id,
        }
    }

    /// The position of the first registered pair of `offer` and `ask`, in
    /// either order, or the number of pairs.
    pub fn find_pair(&self, offer: &AssetInfo, ask: &AssetInfo) -> (r: usize)
        ensures
            r == pair_position(self@.pairs, (offer@, ask@)),
            r <= self@.pairs.len(),
    {
        let pairs = &self.pairs;
        let mut i: usize = 0;
        assert(pairs@.skip(0) =~= pairs@);
        while i < pairs.len()
            invariant
                pairs@ == self@.pairs,
                i <= pairs@.len(),
                pair_position(pairs@, (offer@, ask@)) == i + pair_position(
                    pairs@.skip(i as int),
                    (offer@, ask@),
                ),
            decreases pairs@.len() - i,
        {
            assert(pairs@.skip(i as int)[0] == pairs@[i as int]);
            let infos = &pairs[i].asset_infos;
            if (infos[0].equals(offer) && infos[1].equals(ask)) || (infos[0].equals(ask)
                && infos[1].equals(offer)) {
                return i;
            }
            assert(pairs@.skip(i as int).drop_first() =~= pairs@.skip(i + 1));
            i = i + 1;
        }
        assert(pairs@.skip(i as int) =~= Seq::<PairInfo>::empty());
        i
    }

    pub fn num_pairs(&self) -> (r: usize)
        ensures
            r == self@.pairs.len(),
    {
        self.pairs.len()
    }

    /// The registered pair at position `k`.
    pub fn pair_at(&self, k: usize) -> (r: &PairInfo)
        requires
            k < self@.pairs.len(),
        ensures
            *r == self@.pairs[k as int],
    {
        &self.pairs[k]
    }

    /// The registered pair of these two assets, in either order.
    pub fn pair(&self, asset_infos: &[AssetInfo; 2]) -> (r: Result<PairInfo, FactoryError>)
        ensures
            pair_lookup(self@, asset_infos@, r),
    {
        let k = self.find_pair(&asset_infos[0], &asset_infos[1]);
        if k < self.pairs.len() {
            Ok(self.pairs[k].clone())
        } else {
            Err(FactoryError::PairNotFound)
        }
    }

    /// The decimals registered for a native denomination.
    pub fn native_token_decimals(&self, denom: &String) -> (r: Result<
        NativeTokenDecimalsResponse,
        FactoryError,
    >)
        ensures
            decimals_lookup(self@, denom@, r),
    {
        let i = find_native(&self.natives, denom);
        proof {
            lemma_position(self.natives@, denom@);
        }
        if i < self.natives.len() {
            Ok(NativeTokenDecimalsResponse { decimals: self.natives[i].decimals })
        } else {
            Err(FactoryError::DecimalsNotFound)
        }
    }

    /// A page of the registered pairs in order of canonical key: those after
    /// `start_after` (all, where it is `None`), at most `limit` of them
    /// (ten by default, thirty at most).
    pub fn pairs(&self, start_after: &Option<[AssetInfo; 2]>, limit: Option<u32>) -> (r: PairsResponse)
        requires
            self.wf(),
        ensures
            page_of(self@, *start_after, limit, r),
    {
        let pairs = &self.pairs;
        let mut i: usize = 0;
        match start_after {
            Some(start) => {
                while i < pairs.len() && !key_precedes(start, &pairs[i].asset_infos)
                    invariant
                        i <= pairs@.len(),
                        forall|k: int|
                            0 <= k < i ==> !key_lt(
                                key_of(ids(start@)),
                                #[trigger] pair_key(pairs@[k]),
                            ),
                    decreases pairs@.len() - i,
                {
                    i = i + 1;
                }
                proof {
                    assert forall|k: int| i <= k < pairs@.len() implies key_lt(
                        key_of(ids(start@)),
                        #[trigger] pair_key(pairs@[k]),
                    ) by {
                        if k > i {
                            assert(key_lt(pair_key(pairs@[i as int]), pair_key(pairs@[k])));
                            lemma_key_lt_order(
                                key_of(ids(start@)),
                                pair_key(pairs@[i as int]),
                                pair_key(pairs@[k]),
                            );
                        }
                    }
                }
            },
            None => {},
        }
        let n: u32 = match limit {
            Some(l) => if l < MAX_LIMIT {
                l
            } else {
                MAX_LIMIT
            },
            None => DEFAULT_LIMIT,
        };
        let end: usize = if (n as usize) < pairs.len() - i {
            i + n as usize
        } else {
            pairs.len()
        };
        let mut page: Vec<PairInfo> = Vec::new();
        let mut k: usize = i;
        while k < end
            invariant
                i <= k <= end <= pairs@.len(),
                page@ == pairs@.subrange(i as int, k as int),
            decreases end - k,
        {
            page.push(pairs[k].clone());
            assert(page@ =~= pairs@.subrange(i as int, k + 1));
            k = k + 1;
        }
        assert(end == min_int(i + page_limit(limit), pairs@.len() as int));
        PairsResponse { pairs: page }
    }

    /// Carries out a command of the registry. `token_decimals` matters to
    /// `CreatePair` only: see `create_pair`.
    pub fn execute(
        &mut self,
        sender: &String,
        funds: &Vec<Coin>,
        msg: ExecuteMsg,
        token_decimals: [Option<u8>; 2],
    ) -> (r: Result<Executed, FactoryError>)
        requires
            old(self).wf(),
        ensures
            final(self).wf(),
            match msg {
                ExecuteMsg::UpdateConfig { owner, token_code_id, pair_code_id } => {
                    &&& update_config_post(
                        old(self)@,
                        final(self)@,
                        sender@,
                        owner,
                        token_code_id,
                        pair_code_id,
                        unit_of(r),
                    )
                    &&& r is Ok ==> r == Ok::<Executed, FactoryError>(Executed::ConfigUpdated)
                },
                ExecuteMsg::CreatePair { asset_infos } => {
                    &&& create_pair_post(
                        old(self)@,
                        final(self)@,
                        asset_infos,
                        token_decimals,
                        request_of(r),
                    )
                    &&& r is Ok ==> r->Ok_0 is PairRequested
                },
                ExecuteMsg::AddNativeTokenDecimals { denom, decimals } => {
                    &&& add_decimals_post(
                        old(self)@,
                        final(self)@,
                        sender@,
                        funds@,
                        denom@,
                        decimals,
                        unit_of(r),
                    )
                    &&& r is Ok ==> r == Ok::<Executed, FactoryError>(
                        Executed::NativeTokenDecimalsAdded,
                    )
                },
                ExecuteMsg::MigratePair { contract, code_id } => {
                    &&& migrate_post(old(self)@, sender@, contract, code_id, migration_of(r))
                    &&& r is Ok ==> r->Ok_0 is MigrationRequested
                    &&& final(self)@ == old(self)@
                },
            },
    {
        match msg {
            ExecuteMsg::UpdateConfig { owner, token_code_id, pair_code_id } => {
                match self.update_config(sender, owner, token_code_id, pair_code_id) {
                    Ok(()) => Ok(Executed::ConfigUpdated),
                    Err(e) => Err(e),
                }
            },
            ExecuteMsg::CreatePair { asset_infos } => {
                match self.create_pair(asset_infos, token_decimals) {
                    Ok(req) => Ok(Executed::PairRequested(req)),
                    Err(e) => Err(e),
                }
            },
            ExecuteMsg::AddNativeTokenDecimals { denom, decimals } => {
                match self.add_native_token_decimals(sender, funds, denom, decimals) {
                    Ok(()) => Ok(Executed::NativeTokenDecimalsAdded),
                    Err(e) => Err(e),
                }
            },
            ExecuteMsg::MigratePair { contract, code_id } => {
                match self.migrate_pair(sender, contract, code_id) {
                    Ok(m) => Ok(Executed::MigrationRequested(m)),
                    Err(e) => Err(e),
                }
            },
        }
    }

    /// Answers a query of the registry.
    pub fn query(&self, msg: &QueryMsg) -> (r: Result<QueryResponse, FactoryError>)
        requires
            self.wf(),
        ensures
            match *msg {
                QueryMsg::Config {} => r matches Ok(QueryResponse::Config(c)) && c.owner@
                    == self@.owner && c.pair_code_id == self@.pair_code_id && c.token_code_id
                    == self@.token_code_id,
                QueryMsg::Pair { asset_infos } => {
                    &&& pair_lookup(self@, asset_infos@, pair_of(r))
                    &&& r is Ok ==> r->Ok_0 is Pair
                },
                QueryMsg::Pairs { start_after, limit } => r matches Ok(QueryResponse::Pairs(p))
                    && page_of(self@, start_after, limit, p),
                QueryMsg::NativeTokenDecimals { denom } => {
                    &&& decimals_lookup(self@, denom@, decimals_response_of(r))
                    &&& r is Ok ==> r->Ok_0 is NativeTokenDecimals
                },
            },
    {
        match msg {
            QueryMsg::Config {} => Ok(QueryResponse::Config(self.config())),
            QueryMsg::Pair { asset_infos } => match self.pair(asset_infos) {
                Ok(p) => Ok(QueryResponse::Pair(p)),
                Err(e) => Err(e),
            },
            QueryMsg::Pairs { start_after, limit } => Ok(
                QueryResponse::Pairs(self.pairs(start_after, *limit)),
            ),
            QueryMsg::NativeTokenDecimals { denom } => match self.native_token_decimals(denom) {
                Ok(d) => Ok(QueryResponse::NativeTokenDecimals(d)),
                Err(e) => Err(e),
            },
        }
    }

    /// Records that one instantiation of a pending pair has completed, with
    /// the address it produced, or failed. Once both addresses are known the
    /// pair is registered. A report for an id that is not pending, or for a
    /// part already recorded, changes nothing.
    pub fn on_instantiated(&mut self, id: u64, part: Instantiated, address: Option<String>) -> (r:
        Result<Option<PairInfo>, FactoryError>)
        requires
            old(self).wf(),
        ensures
            final(self).wf(),
            final(self)@.natives == old(self)@.natives,
            final(self)@.owner == old(self)@.owner,
            final(self)@.pair_code_id == old(self)@.pair_code_id,
            final(self)@.token_code_id == old(self)@.token_code_id,
            final(self)@.next_id == old(self)@.next_id,
            ({
                let pending = old(self)@.pending;
                let i = pending_position(pending, id);
                if i == pending.len() || recorded(pending[i], part) {
                    r == Err::<Option<PairInfo>, FactoryError>(FactoryError::UnknownCreation)
                        && final(self)@ == old(self)@
                } else if address is None {
                    &&& r == Err::<Option<PairInfo>, FactoryError>(FactoryError::InstantiationFailed)
                    &&& final(self)@.pending == pending.remove(i)
                    &&& final(self)@.pairs == old(self)@.pairs
                } else if recorded(pending[i], other_part(part)) {
                    let info = committed(with_address(pending[i], part, address->0));
                    &&& r == Ok::<Option<PairInfo>, FactoryError>(Some(info))
                    &&& final(self)@.pending == pending.remove(i)
                    &&& exists|j: int|
                        0 <= j <= old(self)@.pairs.len() && final(self)@.pairs == old(
                            self,
                        )@.pairs.insert(j, info)
                } else {
                    &&& r == Ok::<Option<PairInfo>, FactoryError>(None)
                    &&& final(self)@.pending == pending.update(
                        i,
                        with_address(pending[i], part, address->0),
                    )
                    &&& final(self)@.pairs == old(self)@.pairs
                }
            }),
    {
        let i = find_pending(&self.pending, id);
        proof {
            lemma_pending_position(self.pending@, id);
        }
        if i == self.pending.len() {
            return Err(FactoryError::UnknownCreation);
        }
        let done = match part {
            Instantiated::Pool => self.pending[i].contract_addr.is_some(),
            Instantiated::LiquidityToken => self.pending[i].liquidity_token.is_some(),
        };
        if done {
            return Err(FactoryError::UnknownCreation);
        }
        let other_done = match part {
            Instantiated::Pool => self.pending[i].liquidity_token.is_some(),
            Instantiated::LiquidityToken => self.pending[i].contract_addr.is_some(),
        };
        let ghost old_pending = self.pending@;
        let ghost old_pairs = self.pairs@;
        match address {
            None => {
                self.pending.remove(i);
                proof {
                    lemma_remove_keeps_wf(old_pending, self.pending@, old_pairs, i as int, self.next_id);
                }
                Err(FactoryError::InstantiationFailed)
            },
            Some(a) => {
                if other_done {
                    let e = self.pending.remove(i);
                    let (pool, token) = match part {
                        Instantiated::Pool => (a, e.liquidity_token.unwrap()),
                        Instantiated::LiquidityToken => (e.contract_addr.unwrap(), a),
                    };
                    let info = PairInfo {
                        asset_infos: e.asset_infos,
                        contract_addr: pool,
                        liquidity_token: token,
                        asset_decimals: e.asset_decimals,
                    };
                    let ret = info.clone();
                    proof {
                        lemma_remove_keeps_wf(old_pending, self.pending@, old_pairs, i as int, self.next_id);
                        assert(info == committed(with_address(old_pending[i as int], part, a)));
                        assert forall|k: int| 0 <= k < old_pairs.len() implies !same_pair(
                            ids((#[trigger] old_pairs[k]).asset_infos@),
                            ids(info.asset_infos@),
                        ) by {
                            assert(!same_pair(
                                ids(old_pending[i as int].asset_infos@),
                                ids(old_pairs[k].asset_infos@),
                            ));
                        }
                    }
                    let j = insert_sorted(&mut self.pairs, info);
                    proof {
                        let pairs = self.pairs@;
                        let pend = self.pending@;
                        assert forall|q: int, k: int|
                            0 <= q < pend.len() && 0 <= k < pairs.len() implies !same_pair(
                            ids((#[trigger] pend[q]).asset_infos@),
                            ids((#[trigger] pairs[k]).asset_infos@),
                        ) by {
                            let oq = if q < i { q } else { q + 1 };
                            assert(pend[q] == old_pending[oq]);
                            if k < j {
                                assert(pairs[k] == old_pairs[k]);
                            } else if k == j {
                                if oq < i {
                                    assert(!same_pair(ids(old_pending[oq].asset_infos@), ids(old_pending[i as int].asset_infos@)));
                                } else {
                                    assert(!same_pair(ids(old_pending[i as int].asset_infos@), ids(old_pending[oq].asset_infos@)));
                                }
                            } else {
                                assert(pairs[k] == old_pairs[k - 1]);
                            }
                        }
                        assert forall|k: int| 0 <= k < pairs.len() implies (#[trigger] pairs[k]).asset_infos@[0]@
                            != pairs[k].asset_infos@[1]@ by {
                            if k < j {
                                assert(pairs[k] == old_pairs[k]);
                            } else if k > j {
                                assert(pairs[k] == old_pairs[k - 1]);
                            }
                        }
                    }
                    Ok(Some(ret))
                } else {
                    let old_entry = &self.pending[i];
                    let (contract_addr, liquidity_token) = match part {
                        Instantiated::Pool => (Some(a), None),
                        Instantiated::LiquidityToken => (None, Some(a)),
                    };
                    let entry = PendingPair {
                        id: old_entry.id,
                        asset_infos: [old_entry.asset_infos[0].clone(), old_entry.asset_infos[1].clone()],
                        asset_decimals: old_entry.asset_decimals,
                        contract_addr,
                        liquidity_token,
                    };
                    proof {
                        assert(entry.asset_infos =~= old_entry.asset_infos);
                        assert(entry == with_address(old_pending[i as int], part, a));
                    }
                    self.pending.set(i, entry);
                    proof {
                        let pend = self.pending@;
                        assert forall|q: int| 0 <= q < pend.len() implies ids((#[trigger] pend[q]).asset_infos@)
                            == ids(old_pending[q].asset_infos@) && pend[q].id == old_pending[q].id by {}
                    }
                    Ok(None)
                }
            },
        }
    }
}

/// `g` is `f` with a creation of the pair `infos` pending under `id`.
pub open spec fn requested(
    f: FactoryView,
    g: FactoryView,
    infos: Seq<AssetInfo>,
    id: u64,
    d0: u8,
    d1: u8,
) -> bool {
    &&& g.pending.len() == f.pending.len() + 1
    &&& g.pending.drop_last() == f.pending
    &&& g.pending.last().id == id
    &&& g.pending.last().asset_infos@ == infos
    &&& g.pending.last().asset_decimals@ == seq![d0, d1]
    &&& g.pending.last().contract_addr is None
    &&& g.pending.last().liquidity_token is None
    &&& g.next_id == id + 1
    &&& g.pairs == f.pairs
    &&& g.natives == f.natives
    &&& g.owner == f.owner
    &&& g.pair_code_id == f.pair_code_id
    &&& g.token_code_id == f.token_code_id
}

/// Whether a pair with canonical key `k` is registered.
pub open spec fn registered(f: FactoryView, k: (AssetId, AssetId)) -> bool {
    exists|i: int| 0 <= i < f.pairs.len() && #[trigger] pair_key(f.pairs[i]) == k
}

proof fn lemma_pair_position_symmetric(pairs: Seq<PairInfo>, a: AssetId, b: AssetId)
    ensures
        pair_position(pairs, (a, b)) == pair_position(pairs, (b, a)),
    decreases pairs.len(),
{
    if pairs.len() > 0 {
        lemma_pair_position_symmetric(pairs.drop_first(), a, b);
    }
}

/// Pair creation does not depend on the order of the assets. With no
/// creation pending, as between calls, where each creation has completed or
/// failed: a request for two valid, distinct assets fails because the pair
/// exists exactly when a pair with their canonical key is registered,
/// whichever order the request gives them in; and a query of the pair finds
/// the same entry in either order.
pub proof fn lemma_pair_exists_iff_registered(
    f: FactoryView,
    a: AssetInfo,
    b: AssetInfo,
    da: Option<u8>,
    db: Option<u8>,
)
    requires
        f.wf(),
        f.pending.len() == 0,
        a@ != b@,
        asset_decimals(f, a, da) is Some,
        asset_decimals(f, b, db) is Some,
    ensures
        (create_pair_spec(f, seq![a, b], seq![da, db]) == Err::<(u64, u8, u8), FactoryError>(
            FactoryError::PairAlreadyExists,
        )) == registered(f, key_of((a@, b@))),
        (create_pair_spec(f, seq![b, a], seq![db, da]) == Err::<(u64, u8, u8), FactoryError>(
            FactoryError::PairAlreadyExists,
        )) == registered(f, key_of((a@, b@))),
        key_of((a@, b@)) == key_of((b@, a@)),
        pair_position(f.pairs, (a@, b@)) == pair_position(f.pairs, (b@, a@)),
{
    lemma_same_key_same_pair((a@, b@), (b@, a@));
    lemma_pair_position_symmetric(f.pairs, a@, b@);
    assert(ids(seq![a, b]) == (a@, b@));
    assert(ids(seq![b, a]) == (b@, a@));
    if registered(f, key_of((a@, b@))) {
        let i = choose|i: int| 0 <= i < f.pairs.len() && #[trigger] pair_key(f.pairs[i]) == key_of(
            (a@, b@),
        );
        lemma_same_key_same_pair(ids(f.pairs[i].asset_infos@), (a@, b@));
        lemma_same_key_same_pair(ids(f.pairs[i].asset_infos@), (b@, a@));
        assert(taken(f, (a@, b@)));
        assert(taken(f, (b@, a@)));
    }
    if taken(f, (a@, b@)) {
        let i = choose|i: int|
            0 <= i < f.pairs.len() && same_pair(ids(#[trigger] f.pairs[i].asset_infos@), (a@, b@));
        lemma_same_key_same_pair(ids(f.pairs[i].asset_infos@), (a@, b@));
        assert(pair_key(f.pairs[i]) == key_of((a@, b@)));
    }
    if taken(f, (b@, a@)) {
        let i = choose|i: int|
            0 <= i < f.pairs.len() && same_pair(ids(#[trigger] f.pairs[i].asset_infos@), (b@, a@));
        lemma_same_key_same_pair(ids(f.pairs[i].asset_infos@), (b@, a@));
        assert(pair_key(f.pairs[i]) == key_of((a@, b@)));
    }
}

/// Pair creation does not depend on the order of the assets: once the pair
/// of `a` and `b` has been requested, a request for `b` and `a` fails
/// because the pair already exists.
pub proof fn lemma_create_then_reverse(
    f: FactoryView,
    g: FactoryView,
    a: AssetInfo,
    b: AssetInfo,
    da: Option<u8>,
    db: Option<u8>,
)
    requires
        create_pair_spec(f, seq![a, b], seq![da, db]) is Ok,
        ({
            let (id, d0, d1) = create_pair_spec(f, seq![a, b], seq![da, db])->Ok_0;
            requested(f, g, seq![a, b], id, d0, d1)
        }),
    ensures
        create_pair_spec(g, seq![b, a], seq![db, da]) == Err::<(u64, u8, u8), FactoryError>(
            FactoryError::PairAlreadyExists,
        ),
{
    let last = g.pending.len() - 1;
    assert(g.pending[last] == g.pending.last());
    assert(same_pair(ids(g.pending[last].asset_infos@), ids(seq![b, a])));
}

/// What a request to create a pair does: on success the request and a new
/// pending creation; on failure, nothing.
pub open spec fn create_pair_post(
    f: FactoryView,
    g: FactoryView,
    asset_infos: [AssetInfo; 2],
    token_decimals: [Option<u8>; 2],
    r: Result<CreatePairRequest, FactoryError>,
) -> bool {
    match create_pair_spec(f, asset_infos@, token_decimals@) {
        Ok((id, d0, d1)) => {
            &&& r matches Ok(req) && req.id == id && req.asset_infos == asset_infos
                && req.asset_decimals@ == seq![d0, d1] && req.pair_code_id == f.pair_code_id
                && req.token_code_id == f.token_code_id
            &&& requested(f, g, asset_infos@, id, d0, d1)
        },
        Err(e) => r == Err::<CreatePairRequest, FactoryError>(e) && g == f,
    }
}

/// What registering the decimals of a native denomination does.
pub open spec fn add_decimals_post(
    f: FactoryView,
    g: FactoryView,
    sender: Seq<char>,
    funds: Seq<Coin>,
    denom: Seq<char>,
    decimals: u8,
    r: Result<(), FactoryError>,
) -> bool {
    if sender != f.owner {
        r == Err::<(), FactoryError>(FactoryError::Unauthorized) && g == f
    } else if attached(funds, denom) == 0 {
        r == Err::<(), FactoryError>(FactoryError::ZeroBalance) && g == f
    } else {
        &&& r is Ok
        &&& forall|d: Seq<char>|
            decimals_of(g.natives, d) == if d == denom {
                Some(decimals)
            } else {
                decimals_of(f.natives, d)
            }
        &&& g.pairs == f.pairs
        &&& g.pending == f.pending
        &&& g.owner == f.owner
        &&& g.pair_code_id == f.pair_code_id
        &&& g.token_code_id == f.token_code_id
        &&& g.next_id == f.next_id
    }
}

/// What a change of configuration does.
pub open spec fn update_config_post(
    f: FactoryView,
    g: FactoryView,
    sender: Seq<char>,
    owner: Option<String>,
    token_code_id: Option<u64>,
    pair_code_id: Option<u64>,
    r: Result<(), FactoryError>,
) -> bool {
    if sender != f.owner {
        r == Err::<(), FactoryError>(FactoryError::Unauthorized) && g == f
    } else {
        &&& r is Ok
        &&& g.owner == match owner {
            Some(o) => o@,
            None => f.owner,
        }
        &&& g.token_code_id == match token_code_id {
            Some(c) => c,
            None => f.token_code_id,
        }
        &&& g.pair_code_id == match pair_code_id {
            Some(c) => c,
            None => f.pair_code_id,
        }
        &&& g.pairs == f.pairs
        &&& g.natives == f.natives
        &&& g.pending == f.pending
        &&& g.next_id == f.next_id
    }
}

/// What a request to migrate a pool answers.
pub open spec fn migrate_post(
    f: FactoryView,
    sender: Seq<char>,
    contract: String,
    code_id: Option<u64>,
    r: Result<MigrateRequest, FactoryError>,
) -> bool {
    if sender != f.owner {
        r == Err::<MigrateRequest, FactoryError>(FactoryError::Unauthorized)
    } else {
        r matches Ok(m) && m.contract == contract && m.code_id == match code_id {
            Some(c) => c,
            None => f.pair_code_id,
        }
    }
}

/// The answer to a query of the pair of two assets.
pub open spec fn pair_lookup(
    f: FactoryView,
    asset_infos: Seq<AssetInfo>,
    r: Result<PairInfo, FactoryError>,
) -> bool {
    let k = pair_position(f.pairs, ids(asset_infos));
    if k < f.pairs.len() {
        r == Ok::<PairInfo, FactoryError>(f.pairs[k])
    } else {
        r == Err::<PairInfo, FactoryError>(FactoryError::PairNotFound)
    }
}

/// The answer to a query of the decimals of a native denomination.
pub open spec fn decimals_lookup(
    f: FactoryView,
    denom: Seq<char>,
    r: Result<NativeTokenDecimalsResponse, FactoryError>,
) -> bool {
    match decimals_of(f.natives, denom) {
        Some(d) => r == Ok::<NativeTokenDecimalsResponse, FactoryError>(
            NativeTokenDecimalsResponse { decimals: d },
        ),
        None => r == Err::<NativeTokenDecimalsResponse, FactoryError>(
            FactoryError::DecimalsNotFound,
        ),
    }
}

/// A page of pairs: from the first pair whose key comes after `start_after`
/// (the first pair, where it is `None`), as many as the limit allows.
pub open spec fn page_of(
    f: FactoryView,
    start_after: Option<[AssetInfo; 2]>,
    limit: Option<u32>,
    r: PairsResponse,
) -> bool {
    exists|i: int|
        #![trigger f.pairs.subrange(i, min_int(i + page_limit(limit), f.pairs.len() as int))]
        0 <= i <= f.pairs.len() && (forall|k: int|
            0 <= k < i ==> start_after is Some && !key_lt(
                key_of(ids(start_after->0@)),
                #[trigger] pair_key(f.pairs[k]),
            )) && (forall|k: int|
            i <= k < f.pairs.len() ==> start_after is None || key_lt(
                key_of(ids(start_after->0@)),
                #[trigger] pair_key(f.pairs[k]),
            )) && r.pairs@ == f.pairs.subrange(
            i,
            min_int(i + page_limit(limit), f.pairs.len() as int),
        )
}

pub const DEFAULT_LIMIT: u32 = 10;

pub const MAX_LIMIT: u32 = 30;

pub open spec fn min_int(a: int, b: int) -> int {
    if a <= b {
        a
    } else {
        b
    }
}

/// The size of a page: the limit asked for, at most the maximum.
pub open spec fn page_limit(limit: Option<u32>) -> int {
    match limit {
        Some(l) => min_int(l as int, MAX_LIMIT as int),
        None => DEFAULT_LIMIT as int,
    }
}

/// The position of the first registered pair of these assets, or the number
/// of pairs.
pub open spec fn pair_position(pairs: Seq<PairInfo>, x: (AssetId, AssetId)) -> int
    decreases pairs.len(),
{
    if pairs.len() == 0 {
        0
    } else if same_pair(ids(pairs[0].asset_infos@), x) {
        0
    } else {
        1 + pair_position(pairs.drop_first(), x)
    }
}

/// Whether the part of a pending pair has been recorded.
pub open spec fn recorded(e: PendingPair, part: Instantiated) -> bool {
    match part {
        Instantiated::Pool => e.contract_addr is Some,
        Instantiated::LiquidityToken => e.liquidity_token is Some,
    }
}

pub open spec fn other_part(part: Instantiated) -> Instantiated {
    match part {
        Instantiated::Pool => Instantiated::LiquidityToken,
        Instantiated::LiquidityToken => Instantiated::Pool,
    }
}

/// A pending pair with the address of one part recorded.
pub open spec fn with_address(e: PendingPair, part: Instantiated, address: String) -> PendingPair {
    match part {
        Instantiated::Pool => PendingPair { contract_addr: Some(address), ..e },
        Instantiated::LiquidityToken => PendingPair { liquidity_token: Some(address), ..e },
    }
}

/// Dropping a pending creation keeps the registry well formed.
proof fn lemma_remove_keeps_wf(
    before: Seq<PendingPair>,
    after: Seq<PendingPair>,
    pairs: Seq<PairInfo>,
    i: int,
    next_id: u64,
)
    requires
        0 <= i < before.len(),
        after == before.remove(i),
        forall|q: int| 0 <= q < before.len() ==> (#[trigger] before[q]).asset_infos@[0]@ != before[q].asset_infos@[1]@,
        forall|q: int| 0 <= q < before.len() ==> (#[trigger] before[q]).id < next_id,
        forall|q: int, p: int| 0 <= q < p < before.len() ==> (#[trigger] before[q]).id != (#[trigger] before[p]).id,
        forall|q: int, p: int|
            0 <= q < p < before.len() ==> !same_pair(
                ids((#[trigger] before[q]).asset_infos@),
                ids((#[trigger] before[p]).asset_infos@),
            ),
        forall|q: int, k: int|
            0 <= q < before.len() && 0 <= k < pairs.len() ==> !same_pair(
                ids((#[trigger] before[q]).asset_infos@),
                ids((#[trigger] pairs[k]).asset_infos@),
            ),
    ensures
        forall|q: int| 0 <= q < after.len() ==> (#[trigger] after[q]).asset_infos@[0]@ != after[q].asset_infos@[1]@,
        forall|q: int| 0 <= q < after.len() ==> (#[trigger] after[q]).id < next_id,
        forall|q: int, p: int| 0 <= q < p < after.len() ==> (#[trigger] after[q]).id != (#[trigger] after[p]).id,
        forall|q: int, p: int|
            0 <= q < p < after.len() ==> !same_pair(
                ids((#[trigger] after[q]).asset_infos@),
                ids((#[trigger] after[p]).asset_infos@),
            ),
        forall|q: int, k: int|
            0 <= q < after.len() && 0 <= k < pairs.len() ==> !same_pair(
                ids((#[trigger] after[q]).asset_infos@),
                ids((#[trigger] pairs[k]).asset_infos@),
            ),
{
    assert forall|q: int| 0 <= q < after.len() implies after[q] == before[if q < i { q } else { q + 1 }] by {}
    assert forall|q: int, p: int| 0 <= q < p < after.len() implies (#[trigger] after[q]).id != (#[trigger] after[p]).id by {
        let (oq, op) = (if q < i { q } else { q + 1 }, if p < i { p } else { p + 1 });
        assert(after[q] == before[oq] && after[p] == before[op]);
    }
    assert forall|q: int, p: int|
        0 <= q < p < after.len() implies !same_pair(
        ids((#[trigger] after[q]).asset_infos@),
        ids((#[trigger] after[p]).asset_infos@),
    ) by {
        let (oq, op) = (if q < i { q } else { q + 1 }, if p < i { p } else { p + 1 });
        assert(after[q] == before[oq] && after[p] == before[op]);
    }
    assert forall|q: int, k: int|
        0 <= q < after.len() && 0 <= k < pairs.len() implies !same_pair(
        ids((#[trigger] after[q]).asset_infos@),
        ids((#[trigger] pairs[k]).asset_infos@),
    ) by {
        let oq = if q < i { q } else { q + 1 };
        assert(after[q] == before[oq]);
    }
}

} // verus!
