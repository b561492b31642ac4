//! The registry's data model: collectibles, tokens, approvals and payouts.

use vstd::prelude::*;

verus! {

use crate::fraction::Fraction;
use crate::gate::ValidGateId;
use crate::store::{amap, has_key, keys_distinct, find_key, lemma_amap_index, lemma_amap_push,
    lemma_amap_update};
use crate::{AccountId, GateId, Timestamp, TokenId};

/// The length in bytes of the UTF-8 encoding of `s`.
pub open spec fn byte_len(s: Seq<char>) -> nat {
    vstd::utf8::encode_utf8(s).len()
}

/// Whether an optional text field exceeds `limit` bytes.
pub open spec fn opt_too_long(o: Option<String>, limit: nat) -> bool {
    match o {
        Some(s) => byte_len(s@) > limit,
        None => false,
    }
}

/// The view of an optional string: the characters it holds, if any.
pub open spec fn opt_str_view(o: Option<String>) -> Option<Seq<char>> {
    match o {
        Some(s) => Some(s@),
        None => None,
    }
}

/// The view of an optional validated gate identifier.
pub open spec fn opt_gate_view(o: Option<ValidGateId>) -> Option<Seq<char>> {
    match o {
        Some(g) => Some(g@),
        None => None,
    }
}

/// The length in bytes of a string.
pub fn str_byte_len(s: &String) -> (r: usize)
    ensures
        r == byte_len(s@),
{
    let b = s.as_str().as_bytes();
    proof {
        vstd::slice::axiom_spec_len(b);
    }
    b.len()
}

/// Whether an optional text field exceeds `limit` bytes.
pub fn opt_len_exceeds(o: &Option<String>, limit: usize) -> (r: bool)
    ensures
        r == opt_too_long(*o, limit as nat),
{
    match o {
        Some(s) => str_byte_len(s) > limit,
        None => false,
    }
}

/// Clones an optional string, preserving its view.
pub fn clone_opt_string(o: &Option<String>) -> (r: Option<String>)
    ensures
        opt_str_view(r) == opt_str_view(*o),
{
    match o {
        Some(s) => Some(s.clone()),
        None => None,
    }
}

/// Display information attached to a collectible and joined into its tokens.
pub struct Metadata {
    /// Display title, at most 140 bytes when a collectible is created.
    pub titulo: Option<String>,
    /// Free-form description, at most 1024 bytes at creation.
    pub descripcion: Option<String>,
    /// URL to associated media.
    pub media: Option<String>,
    /// Hash of the content behind `media`.
    pub media_hash: Option<String>,
    /// Number of copies in existence when the collectible was created.
    pub copias: Option<u16>,
    /// When the collectible was issued, in epoch milliseconds.
    pub emitido_en: Option<Timestamp>,
    /// When the collectible expires.
    pub expira_en: Option<Timestamp>,
    /// When the collectible starts being valid.
    pub comienzo_en: Option<Timestamp>,
    /// When the collectible was last updated.
    pub actualizado_en: Option<Timestamp>,
    /// Anything extra to store alongside the collectible.
    pub extra: Option<String>,
    /// URL to an off-chain file with more info.
    pub referencia: Option<String>,
    /// Hash of the content behind `referencia`.
    pub referencia_hash: Option<String>,
}

/// The view of a [`Metadata`]: every text field as its characters.
pub struct MetadataView {
    pub titulo: Option<Seq<char>>,
    pub descripcion: Option<Seq<char>>,
    pub media: Option<Seq<char>>,
    pub media_hash: Option<Seq<char>>,
    pub copias: Option<u16>,
    pub emitido_en: Option<Timestamp>,
    pub expira_en: Option<Timestamp>,
    pub comienzo_en: Option<Timestamp>,
    pub actualizado_en: Option<Timestamp>,
    pub extra: Option<Seq<char>>,
    pub referencia: Option<Seq<char>>,
    pub referencia_hash: Option<Seq<char>>,
}

impl View for Metadata {
    type V = MetadataView;

    open spec fn view(&self) -> MetadataView {
        MetadataView {
            titulo: opt_str_view(self.titulo),
            descripcion: opt_str_view(self.descripcion),
            media: opt_str_view(self.media),
            media_hash: opt_str_view(self.media_hash),
            copias: self.copias,
            emitido_en: self.emitido_en,
            expira_en: self.expira_en,
            comienzo_en: self.comienzo_en,
            actualizado_en: self.actualizado_en,
            extra: opt_str_view(self.extra),
            referencia: opt_str_view(self.referencia),
            referencia_hash: opt_str_view(self.referencia_hash),
        }
    }
}

impl Metadata {
    /// A metadata record with every field absent.
    pub fn empty() -> (r: Metadata)
        ensures
            r@ == MetadataView::empty(),
    {
        Metadata {
            titulo: None,
            descripcion: None,
            media: None,
            media_hash: None,
            copias: None,
            emitido_en: None,
            expira_en: None,
            comienzo_en: None,
            actualizado_en: None,
            extra: None,
            referencia: None,
            referencia_hash: None,
        }
    }

    /// Clones the record, preserving its view.
    pub fn clone_meta(&self) -> (r: Metadata)
        ensures
            r@ == self@,
    {
        Metadata {
            titulo: clone_opt_string(&self.titulo),
            descripcion: clone_opt_string(&self.descripcion),
            media: clone_opt_string(&self.media),
            media_hash: clone_opt_string(&self.media_hash),
            copias: self.copias,
            emitido_en: self.emitido_en,
            expira_en: self.expira_en,
            comienzo_en: self.comienzo_en,
            actualizado_en: self.actualizado_en,
            extra: clone_opt_string(&self.extra),
            referencia: clone_opt_string(&self.referencia),
            referencia_hash: clone_opt_string(&self.referencia_hash),
        }
    }
}

impl MetadataView {
    /// The view of a metadata record with every field absent.
    pub open spec fn empty() -> MetadataView {
        MetadataView {
            titulo: None,
            descripcion: None,
            media: None,
            media_hash: None,
            copias: None,
            emitido_en: None,
            expira_en: None,
            comienzo_en: None,
            actualizado_en: None,
            extra: None,
            referencia: None,
            referencia_hash: None,
        }
    }
}

/// A collectible (a "gate"): a class of items sharing metadata and a royalty
/// rate, with a bounded mintable supply.
pub struct Collectible {
    /// The unique identifier of this collectible.
    pub gate_id: GateId,
    /// The account that created this collectible.
    pub id_creador: AccountId,
    /// How many more tokens can still be minted out of this collectible.
    pub cantidad_actual: u16,
    /// The tokens actually minted out of this collectible.
    pub tokens_creados: Vec<TokenId>,
    /// The royalty paid to `id_creador` every time a minted token is resold.
    pub comision: Fraction,
    /// Display information.
    pub metadata: Metadata,
}

/// The view of a [`Collectible`].
pub struct CollectibleView {
    pub gate_id: Seq<char>,
    pub id_creador: Seq<char>,
    pub cantidad_actual: u16,
    pub tokens_creados: Seq<TokenId>,
    pub comision: Fraction,
    pub metadata: MetadataView,
}

impl View for Collectible {
    type V = CollectibleView;

    open spec fn view(&self) -> CollectibleView {
        CollectibleView {
            gate_id: self.gate_id@,
            id_creador: self.id_creador@,
            cantidad_actual: self.cantidad_actual,
            tokens_creados: self.tokens_creados@,
            comision: self.comision,
            metadata: self.metadata@,
        }
    }
}

impl Collectible {
    /// Clones the collectible, preserving its view.
    pub fn clone_collectible(&self) -> (r: Collectible)
        ensures
            r@ == self@,
    {
        let mut tokens_creados: Vec<TokenId> = Vec::new();
        let n = self.tokens_creados.len();
        let mut i: usize = 0;
        while i < n
            invariant
                i <= n,
                n == self.tokens_creados@.len(),
                tokens_creados@ == self.tokens_creados@.subrange(0, i as int),
            decreases n - i,
        {
            tokens_creados.push(self.tokens_creados[i]);
            i += 1;
        }
        proof {
            assert(tokens_creados@ =~= self.tokens_creados@);
        }
        Collectible {
            gate_id: self.gate_id.clone(),
            id_creador: self.id_creador.clone(),
            cantidad_actual: self.cantidad_actual,
            tokens_creados,
            comision: self.comision,
            metadata: self.metadata.clone_meta(),
        }
    }
}

/// An individual sale authorization held by a token.
#[derive(Clone, Copy, Debug, PartialEq, Eq, Structural)]
pub struct TokenApproval {
    /// Identifier used to avoid honoring a stale authorization.
    pub aprobados_id: u64,
    /// Minimum price the token may be sold for.
    pub min_precio: u128,
}

impl TokenApproval {
    /// Builds an approval from its parts.
    pub fn new(aprobados_id: u64, min_precio: u128) -> (r: Self)
        ensures
            r == (TokenApproval { aprobados_id, min_precio }),
    {
        Self { aprobados_id, min_precio }
    }
}

/// A minted instance of a collectible.
pub struct Token {
    /// The unique identifier of this token, distinct across collectibles.
    pub token_id: TokenId,
    /// The collectible this token was minted from.
    pub gate_id: GateId,
    /// The current owner.
    pub owner_id: AccountId,
    /// When this token was minted, in epoch milliseconds; never changes.
    pub created_at: Timestamp,
    /// When this token was last minted or transferred.
    pub modified_at: Timestamp,
    /// The accounts allowed to transfer this token on the owner's behalf,
    /// each with its approval.  At most one entry is ever active.
    pub approvals: Vec<(AccountId, TokenApproval)>,
    /// Counter from which the next approval identifier is drawn.
    pub approval_counter: u64,
    /// Display information, joined from the collectible when handed out.
    pub metadata: Metadata,
}

/// The view of a [`Token`]; its approvals as a map from spender accounts.
pub struct TokenView {
    pub token_id: TokenId,
    pub gate_id: Seq<char>,
    pub owner_id: Seq<char>,
    pub created_at: Timestamp,
    pub modified_at: Timestamp,
    pub approvals: Map<Seq<char>, TokenApproval>,
    pub approval_counter: u64,
    pub metadata: MetadataView,
}

impl View for Token {
    type V = TokenView;

    open spec fn view(&self) -> TokenView {
        TokenView {
            token_id: self.token_id,
            gate_id: self.gate_id@,
            owner_id: self.owner_id@,
            created_at: self.created_at,
            modified_at: self.modified_at,
            approvals: amap(self.approvals@),
            approval_counter: self.approval_counter,
            metadata: self.metadata@,
        }
    }
}

impl Token {
    /// Whether the token's approval table is well-formed: distinct spenders.
    pub open spec fn approvals_wf(self) -> bool {
        keys_distinct(self.approvals@)
    }

    /// Looks up the approval granted to `account`, if any.
    pub fn approval_of(&self, account: &AccountId) -> (r: Option<TokenApproval>)
        requires
            self.approvals_wf(),
        ensures
            match r {
                Some(a) => self@.approvals.contains_key(account@) && self@.approvals[account@]
                    == a,
                None => !self@.approvals.contains_key(account@),
            },
    {
        match find_key(&self.approvals, account) {
            Some(i) => {
                proof {
                    lemma_amap_index(self.approvals@, i as int);
                }
                Some(self.approvals[i].1)
            },
            None => None,
        }
    }

    /// How many approvals the token currently holds.
    pub fn approvals_len(&self) -> (r: usize)
        ensures
            r == self.approvals@.len(),
            (r == 0) <==> self@.approvals == Map::<Seq<char>, TokenApproval>::empty(),
    {
        proof {
            if self.approvals@.len() == 0 {
                assert(amap(self.approvals@) =~= Map::<Seq<char>, TokenApproval>::empty());
            } else {
                assert(has_key(self.approvals@, self.approvals@[0].0@));
                assert(amap(self.approvals@).contains_key(self.approvals@[0].0@));
            }
        }
        self.approvals.len()
    }

    /// Clones the token, preserving its view.
    pub fn clone_token(&self) -> (r: Token)
        ensures
            r@ == self@,
            r.approvals@ == self.approvals@,
    {
        let mut approvals: Vec<(AccountId, TokenApproval)> = Vec::new();
        let n = self.approvals.len();
        let mut i: usize = 0;
        while i < n
            invariant
                i <= n,
                n == self.approvals@.len(),
                approvals@ == self.approvals@.subrange(0, i as int),
            decreases n - i,
        {
            let (account, approval) = &self.approvals[i];
            approvals.push((account.clone(), *approval));
            proof {
                assert(approvals@ =~= self.approvals@.subrange(0, i + 1));
            }
            i += 1;
        }
        proof {
            assert(approvals@ =~= self.approvals@);
        }
        Token {
            token_id: self.token_id,
            gate_id: self.gate_id.clone(),
            owner_id: self.owner_id.clone(),
            created_at: self.created_at,
            modified_at: self.modified_at,
            approvals,
            approval_counter: self.approval_counter,
            metadata: self.metadata.clone_meta(),
        }
    }
}

/// Contract-level metadata of the registry service.
pub struct NFTContractMetadata {
    /// Specification version the registry implements.
    pub spec_version: String,
    /// Human-readable name of the registry.
    pub name: String,
    /// Abbreviated symbol.
    pub symbol: String,
    /// Data URL of an icon.
    pub icon: Option<String>,
    /// Gateway prefix for token URIs.
    pub base_uri: Option<String>,
    /// URL to a file with more info.
    pub referencia: Option<String>,
    /// Hash of the content behind `referencia`.
    pub referencia_hash: Option<String>,
}

/// The view of an [`NFTContractMetadata`].
pub struct NFTContractMetadataView {
    pub spec_version: Seq<char>,
    pub name: Seq<char>,
    pub symbol: Seq<char>,
    pub icon: Option<Seq<char>>,
    pub base_uri: Option<Seq<char>>,
    pub referencia: Option<Seq<char>>,
    pub referencia_hash: Option<Seq<char>>,
}

impl View for NFTContractMetadata {
    type V = NFTContractMetadataView;

    open spec fn view(&self) -> NFTContractMetadataView {
        NFTContractMetadataView {
            spec_version: self.spec_version@,
            name: self.name@,
            symbol: self.symbol@,
            icon: opt_str_view(self.icon),
            base_uri: opt_str_view(self.base_uri),
            referencia: opt_str_view(self.referencia),
            referencia_hash: opt_str_view(self.referencia_hash),
        }
    }
}

impl NFTContractMetadata {
    /// Clones the record, preserving its view.
    pub fn clone_contract_metadata(&self) -> (r: NFTContractMetadata)
        ensures
            r@ == self@,
    {
        NFTContractMetadata {
            spec_version: self.spec_version.clone(),
            name: self.name.clone(),
            symbol: self.symbol.clone(),
            icon: clone_opt_string(&self.icon),
            base_uri: clone_opt_string(&self.base_uri),
            referencia: clone_opt_string(&self.referencia),
            referencia_hash: clone_opt_string(&self.referencia_hash),
        }
    }
}

/// Exposes the registry's contract-level metadata.
pub trait NonFungibleTokenMetadata {
    /// The metadata the implementor holds.
    spec fn spec_metadata(&self) -> NFTContractMetadataView;

    /// Returns the contract-level metadata.
    fn nft_metadata(&self) -> (r: NFTContractMetadata)
        ensures
            r@ == self.spec_metadata(),
    ;
}

/// The argument an owner attaches when approving a token for sale.
#[derive(Clone, Copy, Debug, PartialEq, Eq, Structural)]
pub struct NftApproveMsg {
    /// The minimum price the owner asks for the token.
    pub min_precio: u128,
}

/// The payload the registry sends to the marketplace when a token is
/// approved: the asked price, augmented with the collectible and creator so
/// the marketplace can index the listing by them.
pub struct MarketApproveMsg {
    /// The minimum price an account must pay to buy the token.
    pub min_precio: u128,
    /// The collectible of the approved token, if known.
    pub gate_id: Option<ValidGateId>,
    /// The creator of that collectible, if known.
    pub id_creador: Option<AccountId>,
}

/// The view of a [`MarketApproveMsg`].
pub struct MarketApproveMsgView {
    pub min_precio: u128,
    pub gate_id: Option<Seq<char>>,
    pub id_creador: Option<Seq<char>>,
}

impl MarketApproveMsg {
    /// Clones the payload, preserving its view.
    pub fn clone_msg(&self) -> (r: MarketApproveMsg)
        ensures
            r@ == self@,
    {
        MarketApproveMsg {
            min_precio: self.min_precio,
            gate_id: match &self.gate_id {
                Some(g) => Some(g.clone_id()),
                None => None,
            },
            id_creador: clone_opt_string(&self.id_creador),
        }
    }
}

impl View for MarketApproveMsg {
    type V = MarketApproveMsgView;

    open spec fn view(&self) -> MarketApproveMsgView {
        MarketApproveMsgView {
            min_precio: self.min_precio,
            gate_id: opt_gate_view(self.gate_id),
            id_creador: opt_str_view(self.id_creador),
        }
    }
}

/// How much each account receives out of a sale: royalty to the creator, fee
/// to the platform, remainder to the seller, entries for coinciding accounts
/// merged by addition.
pub type Payout = Vec<(AccountId, u128)>;

/// The total amount a payout distributes.
pub open spec fn payout_sum(s: Seq<(String, u128)>) -> int
    decreases s.len(),
{
    if s.len() == 0 {
        0
    } else {
        payout_sum(s.drop_last()) + s.last().1
    }
}

/// Adding `amount` under key `k` to a payout map: merged by addition when the
/// account already has an entry.
pub open spec fn payout_map_add(m: Map<Seq<char>, u128>, k: Seq<char>, amount: u128) -> Map<
    Seq<char>,
    u128,
> {
    if m.contains_key(k) {
        m.insert(k, (m[k] + amount) as u128)
    } else {
        m.insert(k, amount)
    }
}

/// The payout map for the three sale recipients.
pub open spec fn payout_map_spec(
    creator: Seq<char>,
    fee_account: Seq<char>,
    owner: Seq<char>,
    royalty: u128,
    fee: u128,
    remainder: u128,
) -> Map<Seq<char>, u128> {
    payout_map_add(
        payout_map_add(payout_map_add(Map::empty(), creator, royalty), fee_account, fee),
        owner,
        remainder,
    )
}

/// Every entry of a payout is at most the payout's total.
pub proof fn lemma_payout_entry_le_sum(s: Seq<(String, u128)>, i: int)
    requires
        0 <= i < s.len(),
    ensures
        s[i].1 <= payout_sum(s),
        payout_sum(s) >= 0,
    decreases s.len(),
{
    if s.len() > 0 {
        if i == s.len() - 1 {
            lemma_payout_sum_nonneg(s.drop_last());
        } else {
            lemma_payout_entry_le_sum(s.drop_last(), i);
        }
    }
}

/// A payout's total is non-negative.
pub proof fn lemma_payout_sum_nonneg(s: Seq<(String, u128)>)
    ensures
        payout_sum(s) >= 0,
    decreases s.len(),
{
    if s.len() > 0 {
        lemma_payout_sum_nonneg(s.drop_last());
    }
}

/// Updating the amount at one index changes the total by the difference.
pub proof fn lemma_payout_sum_update(s: Seq<(String, u128)>, i: int, p: (String, u128))
    requires
        0 <= i < s.len(),
    ensures
        payout_sum(s.update(i, p)) == payout_sum(s) - s[i].1 + p.1,
    decreases s.len(),
{
    let t = s.update(i, p);
    if i == s.len() - 1 {
        assert(t.drop_last() =~= s.drop_last());
    } else {
        assert(t.drop_last() =~= s.drop_last().update(i, p));
        lemma_payout_sum_update(s.drop_last(), i, p);
    }
}

/// Adds `amount` for `account` to the payout, merging by addition when the
/// account already holds an entry.
pub fn payout_add(payout: &mut Payout, account: AccountId, amount: u128)
    requires
        keys_distinct(old(payout)@),
        payout_sum(old(payout)@) + amount <= u128::MAX,
    ensures
        keys_distinct(final(payout)@),
        amap(final(payout)@) == payout_map_add(amap(old(payout)@), account@, amount),
        payout_sum(final(payout)@) == payout_sum(old(payout)@) + amount,
        final(payout)@.len() <= old(payout)@.len() + 1,
{
    match find_key(payout, &account) {
        Some(i) => {
            proof {
                lemma_amap_index(payout@, i as int);
                lemma_payout_entry_le_sum(payout@, i as int);
            }
            let merged = payout[i].1 + amount;
            let ghost before = payout@;
            payout[i] = (account, merged);
            proof {
                lemma_amap_update(before, i as int, (account, merged));
                lemma_payout_sum_update(before, i as int, (account, merged));
            }
        },
        None => {
            proof {
                lemma_payout_sum_nonneg(payout@);
            }
            let ghost before = payout@;
            payout.push((account, amount));
            proof {
                lemma_amap_push(before, (account, amount));
                assert(payout@.drop_last() =~= before);
            }
        },
    }
}

} // verus!
