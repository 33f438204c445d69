//! Assets: native balances of the host ledger and tokens of a contract.
use vstd::prelude::*;

verus! {

broadcast use vstd::array::group_array_axioms;

/// What an asset is, as a mathematical value.
pub enum AssetId {
    Native(Seq<char>),
    Token(Seq<char>),
}

/// An asset: a native denomination or the address of a token contract.
#[derive(Debug)]
pub enum AssetInfo {
    Token { contract_addr: String },
    NativeToken { denom: String },
}

impl View for AssetInfo {
    type V = AssetId;

    open spec fn view(&self) -> AssetId {
        match self {
            AssetInfo::Token { contract_addr } => AssetId::Token(contract_addr@),
            AssetInfo::NativeToken { denom } => AssetId::Native(denom@),
        }
    }
}

/// Lexicographic order on strings, by code point.
pub open spec fn chars_lt(a: Seq<char>, b: Seq<char>) -> bool
    decreases a.len(),
{
    if a.len() == 0 {
        b.len() > 0
    } else if b.len() == 0 {
        false
    } else if a[0] != b[0] {
        (a[0] as u32) < (b[0] as u32)
    } else {
        chars_lt(a.drop_first(), b.drop_first())
    }
}

/// The name of an asset: its denomination or its contract address.
pub open spec fn name_of(a: AssetId) -> Seq<char> {
    match a {
        AssetId::Native(x) => x,
        AssetId::Token(x) => x,
    }
}

/// The canonical order of assets: by name, a native denomination before a
/// token of the same name.
pub open spec fn id_lt(a: AssetId, b: AssetId) -> bool {
    chars_lt(name_of(a), name_of(b)) || (name_of(a) == name_of(b) && a is Native && b is Token)
}

pub proof fn lemma_chars_lt_irreflexive(a: Seq<char>)
    ensures
        !chars_lt(a, a),
    decreases a.len(),
{
    if a.len() > 0 {
        lemma_chars_lt_irreflexive(a.drop_first());
    }
}

pub proof fn lemma_chars_lt_total(a: Seq<char>, b: Seq<char>)
    ensures
        a != b ==> chars_lt(a, b) || chars_lt(b, a),
        !(chars_lt(a, b) && chars_lt(b, a)),
    decreases a.len(),
{
    if a.len() > 0 && b.len() > 0 {
        lemma_chars_lt_total(a.drop_first(), b.drop_first());
        if a[0] == b[0] && a.drop_first() == b.drop_first() {
            assert(a =~= seq![a[0]] + a.drop_first());
            assert(b =~= seq![b[0]] + b.drop_first());
        }
        if a[0] != b[0] {
            vstd::utf8::char_u32_cast(a[0], a[0] as u32);
            vstd::utf8::char_u32_cast(b[0], b[0] as u32);
        }
    } else if a.len() == 0 && b.len() == 0 {
        assert(a =~= b);
    }
}

pub proof fn lemma_chars_lt_transitive(a: Seq<char>, b: Seq<char>, c: Seq<char>)
    requires
        chars_lt(a, b),
        chars_lt(b, c),
    ensures
        chars_lt(a, c),
    decreases a.len(),
{
    if a.len() > 0 && a[0] == b[0] && b[0] == c[0] {
        lemma_chars_lt_transitive(a.drop_first(), b.drop_first(), c.drop_first());
    }
}

pub proof fn lemma_id_lt_order(a: AssetId, b: AssetId, c: AssetId)
    ensures
        !id_lt(a, a),
        a != b ==> id_lt(a, b) || id_lt(b, a),
        !(id_lt(a, b) && id_lt(b, a)),
        id_lt(a, b) && id_lt(b, c) ==> id_lt(a, c),
{
    let (x, y, z) = (name_of(a), name_of(b), name_of(c));
    lemma_chars_lt_irreflexive(x);
    lemma_chars_lt_irreflexive(y);
    lemma_chars_lt_total(x, y);
    if chars_lt(x, y) && chars_lt(y, z) {
        lemma_chars_lt_transitive(x, y, z);
    }
}

/// Whether `a` comes before `b` in code point order.
pub fn str_precedes(a: &str, b: &str) -> (r: bool)
    ensures
        r == chars_lt(a@, b@),
{
    let la = a.unicode_len();
    let lb = b.unicode_len();
    let mut i: usize = 0;
    assert(a@.skip(0) =~= a@);
    assert(b@.skip(0) =~= b@);
    while i < la && i < lb
        invariant
            la == a@.len(),
            lb == b@.len(),
            i <= la,
            i <= lb,
            chars_lt(a@, b@) == chars_lt(a@.skip(i as int), b@.skip(i as int)),
        decreases la - i,
    {
        let ca = a.get_char(i);
        let cb = b.get_char(i);
        assert(a@.skip(i as int)[0] == ca);
        assert(b@.skip(i as int)[0] == cb);
        if ca != cb {
            return (ca as u32) < (cb as u32);
        }
        assert(a@.skip(i as int).drop_first() =~= a@.skip(i + 1));
        assert(b@.skip(i as int).drop_first() =~= b@.skip(i + 1));
        i = i + 1;
    }
    i == la && i < lb
}

impl AssetInfo {
    pub fn is_native_token(&self) -> (r: bool)
        ensures
            r == (self@ is Native),
    {
        match self {
            AssetInfo::NativeToken { .. } => true,
            AssetInfo::Token { .. } => false,
        }
    }

    /// Whether the two values name the same asset.
    pub fn equals(&self, other: &AssetInfo) -> (r: bool)
        ensures
            r == (self@ == other@),
    {
        match (self, other) {
            (AssetInfo::Token { contract_addr: a }, AssetInfo::Token { contract_addr: b }) => a.eq(b),
            (AssetInfo::NativeToken { denom: a }, AssetInfo::NativeToken { denom: b }) => a.eq(b),
            _ => false,
        }
    }

    /// The denomination or the contract address.
    pub fn name(&self) -> (r: &String)
        ensures
            r@ == name_of(self@),
    {
        match self {
            AssetInfo::Token { contract_addr } => contract_addr,
            AssetInfo::NativeToken { denom } => denom,
        }
    }

    /// Whether `self` comes before `other` in the canonical order of assets.
    pub fn precedes(&self, other: &AssetInfo) -> (r: bool)
        ensures
            r == id_lt(self@, other@),
    {
        let a = self.name();
        let b = other.name();
        str_precedes(a.as_str(), b.as_str()) || (a.eq(b) && self.is_native_token()
            && !other.is_native_token())
    }
}

/// An amount of a native denomination attached to a call.
#[derive(Debug, Clone)]
pub struct Coin {
    pub denom: String,
    pub amount: u64,
}

/// An amount of an asset.
#[derive(Debug, Clone)]
pub struct Asset {
    pub info: AssetInfo,
    pub amount: u64,
}

/// An instruction to move an amount of an asset to a recipient, carried out
/// by the host after the call returns.
#[derive(Debug, Clone)]
pub struct Transfer {
    pub asset: AssetInfo,
    pub recipient: String,
    pub amount: u64,
}

#[derive(Debug, Clone, Copy, PartialEq, Eq, Structural)]
pub enum AssetError {
    /// The native funds attached to a call differ from the stated amount.
    FundsMismatch,
}

/// The amount of `denom` attached to a call: that of the first coin of the
/// denomination, or zero where there is none.
pub open spec fn attached(funds: Seq<Coin>, denom: Seq<char>) -> nat
    decreases funds.len(),
{
    if funds.len() == 0 {
        0
    } else if funds[0].denom@ == denom {
        funds[0].amount as nat
    } else {
        attached(funds.drop_first(), denom)
    }
}

/// Whether the native funds attached to a call match what an asset states:
/// a native asset must come with exactly its amount; a token needs nothing.
pub open spec fn funds_match(asset: Asset, funds: Seq<Coin>) -> bool {
    match asset.info@ {
        AssetId::Native(denom) => attached(funds, denom) == asset.amount,
        AssetId::Token(_) => true,
    }
}

pub fn attached_amount(funds: &Vec<Coin>, denom: &String) -> (r: u64)
    ensures
        r == attached(funds@, denom@),
{
    let mut i: usize = 0;
    assert(funds@.skip(0) =~= funds@);
    while i < funds.len()
        invariant
            i <= funds@.len(),
            attached(funds@, denom@) == attached(funds@.skip(i as int), denom@),
        decreases funds@.len() - i,
    {
        assert(funds@.skip(i as int)[0] == funds@[i as int]);
        if funds[i].denom.eq(denom) {
            return funds[i].amount;
        }
        assert(funds@.skip(i as int).drop_first() =~= funds@.skip(i + 1));
        i = i + 1;
    }
    0
}

impl Asset {
    /// Checks the native funds attached to a call against the stated amount.
    pub fn assert_sent_native_token_balance(&self, funds: &Vec<Coin>) -> (r: Result<(), AssetError>)
        ensures
            r is Ok <==> funds_match(*self, funds@),
    {
        match &self.info {
            AssetInfo::NativeToken { denom } => {
                if attached_amount(funds, denom) == self.amount {
                    Ok(())
                } else {
                    Err(AssetError::FundsMismatch)
                }
            },
            AssetInfo::Token { .. } => Ok(()),
        }
    }

    /// The instruction that sends this asset to `recipient`.
    pub fn transfer_to(&self, recipient: &String) -> (r: Transfer)
        ensures
            r.asset == self.info,
            r.recipient == *recipient,
            r.amount == self.amount,
    {
        Transfer { asset: self.info.clone(), recipient: recipient.clone(), amount: self.amount }
    }
}

/// A registered pair: its two assets, the pool's address, the address of its
/// liquidity token and the decimals of each asset.
#[derive(Debug)]
pub struct PairInfo {
    pub asset_infos: [AssetInfo; 2],
    pub contract_addr: String,
    pub liquidity_token: String,
    pub asset_decimals: [u8; 2],
}

impl Clone for PairInfo {
    fn clone(&self) -> (r: PairInfo)
        ensures
            r == *self,
    {
        let r = PairInfo {
            asset_infos: [self.asset_infos[0].clone(), self.asset_infos[1].clone()],
            contract_addr: self.contract_addr.clone(),
            liquidity_token: self.liquidity_token.clone(),
            asset_decimals: self.asset_decimals,
        };
        assert(r.asset_infos@ =~= self.asset_infos@);
        assert(r.asset_infos =~= self.asset_infos);
        r
    }
}

impl PartialEq for PairInfo {
    fn eq(&self, other: &PairInfo) -> (r: bool) {
        self.asset_infos[0].equals(&other.asset_infos[0]) && self.asset_infos[1].equals(
            &other.asset_infos[1],
        ) && self.contract_addr.eq(&other.contract_addr) && self.liquidity_token.eq(
            &other.liquidity_token,
        ) && self.asset_decimals[0] == other.asset_decimals[0] && self.asset_decimals[1]
            == other.asset_decimals[1]
    }
}

impl vstd::std_specs::cmp::PartialEqSpecImpl for PairInfo {
    open spec fn obeys_eq_spec() -> bool {
        true
    }

    open spec fn eq_spec(&self, other: &PairInfo) -> bool {
        &&& self.asset_infos@[0]@ == other.asset_infos@[0]@
        &&& self.asset_infos@[1]@ == other.asset_infos@[1]@
        &&& self.contract_addr@ == other.contract_addr@
        &&& self.liquidity_token@ == other.liquidity_token@
        &&& self.asset_decimals@[0] == other.asset_decimals@[0]
        &&& self.asset_decimals@[1] == other.asset_decimals@[1]
    }
}

impl Clone for AssetInfo {
    fn clone(&self) -> (r: AssetInfo)
        ensures
            r == *self,
    {
        match self {
            AssetInfo::Token { contract_addr } => AssetInfo::Token {
                contract_addr: contract_addr.clone(),
            },
            AssetInfo::NativeToken { denom } => AssetInfo::NativeToken { denom: denom.clone() },
        }
    }
}

impl PartialEq for AssetInfo {
    fn eq(&self, other: &AssetInfo) -> (r: bool) {
        self.equals(other)
    }
}

impl vstd::std_specs::cmp::PartialEqSpecImpl for AssetInfo {
    open spec fn obeys_eq_spec() -> bool {
        true
    }

    open spec fn eq_spec(&self, other: &AssetInfo) -> bool {
        self@ == other@
    }
}

} // verus!
