//! The registry service: collectibles, tokens, ownership and approvals.

use vstd::prelude::*;

verus! {

use crate::core_nft::{byte_len, opt_len_exceeds, opt_str_view, opt_too_long, payout_add,
    str_byte_len,
    Collectible, CollectibleView, MarketApproveMsg, MarketApproveMsgView, Metadata, MetadataView,
    NftApproveMsg, NFTContractMetadata,
    NFTContractMetadataView, NonFungibleTokenMetadata, Payout, Token, TokenApproval, TokenView,
    payout_map_spec, payout_sum};
use crate::fraction::{lemma_sum_lt_one_valid, CorePanics, Fraction, sum_lt_one};
use crate::gate::{valid_gate_chars, ValidGateId};
use crate::store::{amap, assoc_set_insert, assoc_set_remove, elem_seq, eset, elems_distinct,
    find_key, has_key, keys_distinct, lemma_amap_index, lemma_amap_len, lemma_amap_push,
    lemma_amap_remove, lemma_eset_len, lemma_vmap_insert, lemma_vmap_remove, set_map, set_map_wf,
    vmap};
use crate::{AccountId, GateId, Timestamp, TokenId};
use vstd::string::StringExecFns;

/// Everything that can go wrong in a registry call.  Each variant carries
/// what the caller needs to identify the rejected input.
#[derive(Debug)]
pub enum Panic {
    /// The royalty is below the allowed minimum.
    RoyaltyMinThanAllowed { comision: Fraction, gate_id: GateId },
    /// The royalty is above the allowed maximum.
    RoyaltyMaxThanAllowed { comision: Fraction, gate_id: GateId },
    /// The royalty and the platform fee would not leave the seller anything.
    RoyaltyTooLarge { comision: Fraction, fee_reventa: Fraction },
    /// A collectible with this gate id already exists.
    GateIdAlreadyExists { gate_id: GateId },
    /// A collectible must allow at least one token.
    ZeroSupplyNotAllowed { gate_id: GateId },
    /// A text field exceeds its allowed size.
    InvalidArgument { gate_id: GateId, reason: String },
    /// The operation is allowed only for the admin account.
    AdminRestrictedOperation,
    /// No collectible has this gate id.
    GateIdNotFound { gate_id: GateId },
    /// Every token of this collectible has already been claimed.
    GateIdExhausted { gate_id: GateId },
    /// The collectible already has minted tokens, so it cannot be deleted.
    GateIdHasTokens { gate_id: GateId },
    /// The caller may not delete this collectible.
    NotAuthorized { gate_id: GateId },
    /// No token has this id.
    TokenIdNotFound { token_id: TokenId },
    /// The token does not belong to this account.
    TokenIdNotOwnedBy { token_id: TokenId, owner_id: AccountId },
    /// At most one approval is allowed per token.
    OneApprovalAllowed,
    /// The sender is not authorized to transfer the token.
    SenderNotAuthToTransfer { sender_id: AccountId },
    /// The token owner and the receiver must differ.
    ReceiverIsOwner,
    /// The named approval id is not the one the token holds.
    EnforceApprovalFailed,
    /// The approval message must carry the minimum price.
    MsgFormatNotRecognized,
    /// The approval message could not be decoded.
    MsgFormatMinPriceMissing { reason: String },
    /// There was no approval to revoke for the account.
    RevokeApprovalFailed { account_id: AccountId },
    /// At most 10 tokens may be approved in one batch.
    ExceedTokensToBatchApprove,
    /// Aggregate of per-token failures of a batch approval.
    Errors { panics: Panics },
}

/// Per-token failures of a batch approval, keyed by token id.
#[derive(Debug)]
pub struct Panics(pub Vec<(TokenId, Panic)>);

/// The view of a [`Panic`]: the same case with text fields as characters.
/// The aggregate case keeps only how many failures it carries.
pub enum PanicView {
    RoyaltyMinThanAllowed { comision: Fraction, gate_id: Seq<char> },
    RoyaltyMaxThanAllowed { comision: Fraction, gate_id: Seq<char> },
    RoyaltyTooLarge { comision: Fraction, fee_reventa: Fraction },
    GateIdAlreadyExists { gate_id: Seq<char> },
    ZeroSupplyNotAllowed { gate_id: Seq<char> },
    InvalidArgument { gate_id: Seq<char>, reason: Seq<char> },
    AdminRestrictedOperation,
    GateIdNotFound { gate_id: Seq<char> },
    GateIdExhausted { gate_id: Seq<char> },
    GateIdHasTokens { gate_id: Seq<char> },
    NotAuthorized { gate_id: Seq<char> },
    TokenIdNotFound { token_id: TokenId },
    TokenIdNotOwnedBy { token_id: TokenId, owner_id: Seq<char> },
    OneApprovalAllowed,
    SenderNotAuthToTransfer { sender_id: Seq<char> },
    ReceiverIsOwner,
    EnforceApprovalFailed,
    MsgFormatNotRecognized,
    MsgFormatMinPriceMissing { reason: Seq<char> },
    RevokeApprovalFailed { account_id: Seq<char> },
    ExceedTokensToBatchApprove,
    Errors { count: nat },
}

impl View for Panic {
    type V = PanicView;

    open spec fn view(&self) -> PanicView {
        match self {
            Panic::RoyaltyMinThanAllowed { comision, gate_id } => PanicView::RoyaltyMinThanAllowed {
                comision: *comision,
                gate_id: gate_id@,
            },
            Panic::RoyaltyMaxThanAllowed { comision, gate_id } => PanicView::RoyaltyMaxThanAllowed {
                comision: *comision,
                gate_id: gate_id@,
            },
            Panic::RoyaltyTooLarge { comision, fee_reventa } => PanicView::RoyaltyTooLarge {
                comision: *comision,
                fee_reventa: *fee_reventa,
            },
            Panic::GateIdAlreadyExists { gate_id } => PanicView::GateIdAlreadyExists {
                gate_id: gate_id@,
            },
            Panic::ZeroSupplyNotAllowed { gate_id } => PanicView::ZeroSupplyNotAllowed {
                gate_id: gate_id@,
            },
            Panic::InvalidArgument { gate_id, reason } => PanicView::InvalidArgument {
                gate_id: gate_id@,
                reason: reason@,
            },
            Panic::AdminRestrictedOperation => PanicView::AdminRestrictedOperation,
            Panic::GateIdNotFound { gate_id } => PanicView::GateIdNotFound { gate_id: gate_id@ },
            Panic::GateIdExhausted { gate_id } => PanicView::GateIdExhausted { gate_id: gate_id@ },
            Panic::GateIdHasTokens { gate_id } => PanicView::GateIdHasTokens { gate_id: gate_id@ },
            Panic::NotAuthorized { gate_id } => PanicView::NotAuthorized { gate_id: gate_id@ },
            Panic::TokenIdNotFound { token_id } => PanicView::TokenIdNotFound {
                token_id: *token_id,
            },
            Panic::TokenIdNotOwnedBy { token_id, owner_id } => PanicView::TokenIdNotOwnedBy {
                token_id: *token_id,
                owner_id: owner_id@,
            },
            Panic::OneApprovalAllowed => PanicView::OneApprovalAllowed,
            Panic::SenderNotAuthToTransfer { sender_id } => PanicView::SenderNotAuthToTransfer {
                sender_id: sender_id@,
            },
            Panic::ReceiverIsOwner => PanicView::ReceiverIsOwner,
            Panic::EnforceApprovalFailed => PanicView::EnforceApprovalFailed,
            Panic::MsgFormatNotRecognized => PanicView::MsgFormatNotRecognized,
            Panic::MsgFormatMinPriceMissing { reason } => PanicView::MsgFormatMinPriceMissing {
                reason: reason@,
            },
            Panic::RevokeApprovalFailed { account_id } => PanicView::RevokeApprovalFailed {
                account_id: account_id@,
            },
            Panic::ExceedTokensToBatchApprove => PanicView::ExceedTokensToBatchApprove,
            Panic::Errors { panics } => PanicView::Errors { count: panics.0@.len() },
        }
    }
}

/// The notification the registry issues towards the marketplace after a
/// successful approval: the arguments of the marketplace's inbound
/// `nft_on_approve` handler.
pub struct ApproveNotification {
    /// The approved token.
    pub token_id: TokenId,
    /// The owner that granted the approval.
    pub owner_id: AccountId,
    /// The freshly assigned approval id.
    pub aprobados_id: u64,
    /// The listing payload: price, collectible and creator.
    pub msg: MarketApproveMsg,
}

/// The registry's backing state.  Kept apart from [`ContratoNft`] so a method
/// can move it out, rework it freely and move it back, with the type
/// invariant checked only at the boundary.
struct NftSt {
    tickets: Vec<(GateId, Collectible)>,
    tickets_de_creador: Vec<(AccountId, Vec<GateId>)>,
    tokens: Vec<(TokenId, Token)>,
    tokens_de_address: Vec<(AccountId, Vec<TokenId>)>,
    id_admin: AccountId,
    metadata: NFTContractMetadata,
    fee_reventa: Fraction,
    fee_reventa_id_address: AccountId,
}

impl NftSt {
    /// The collectibles, keyed by gate id.
    spec fn tickets_raw(self) -> Map<Seq<char>, Collectible> {
        amap(self.tickets@)
    }

    /// The tokens, keyed by token id.
    spec fn tokens_raw(self) -> Map<u64, Token> {
        amap(self.tokens@)
    }

    /// The creator index, keyed by creator account.
    spec fn creador_raw(self) -> Map<Seq<char>, Vec<GateId>> {
        amap(self.tickets_de_creador@)
    }

    /// The owner index, keyed by owner account.
    spec fn address_raw(self) -> Map<Seq<char>, Vec<TokenId>> {
        amap(self.tokens_de_address@)
    }

    /// The gates the creator index lists for `c`.
    spec fn creator_gates_v(self, c: Seq<char>) -> Set<Seq<char>> {
        set_map(self.tickets_de_creador@, c)
    }

    /// The tokens the owner index lists for `o`.
    spec fn owner_tokens_v(self, o: Seq<char>) -> Set<TokenId> {
        set_map(self.tokens_de_address@, o)
    }

    /// Table shape: distinct keys everywhere, keys matching the records they
    /// hold, bounded token ids, well-formed fractions.
    spec fn wf_base(self) -> bool {
        &&& keys_distinct(self.tickets@)
        &&& keys_distinct(self.tokens@)
        &&& set_map_wf(self.tickets_de_creador@)
        &&& set_map_wf(self.tokens_de_address@)
        &&& self.fee_reventa.valid()
        &&& forall|g: Seq<char>| #[trigger]
            self.tickets_raw().contains_key(g) ==> {
                let c = self.tickets_raw()[g];
                c.gate_id@ == g && valid_gate_chars(g) && c.comision.valid() && sum_lt_one(
                    c.comision,
                    self.fee_reventa,
                )
            }
        &&& forall|tid: TokenId| #[trigger]
            self.tokens_raw().contains_key(tid) ==> {
                let t = self.tokens_raw()[tid];
                t.token_id == tid && keys_distinct(t.approvals@) && t.approvals@.len() <= 1 && tid
                    < self.tokens@.len()
            }
    }

    /// Every token points at an existing collectible that lists it.
    spec fn wf_links(self) -> bool {
        forall|tid: TokenId| #[trigger]
            self.tokens_raw().contains_key(tid) ==> {
                let t = self.tokens_raw()[tid];
                self.tickets_raw().contains_key(t.gate_id@) && self.tickets_raw()[
                    t.gate_id@
                ].tokens_creados@.contains(tid)
            }
    }

    /// The owner index lists exactly the tokens each account owns, and the
    /// creator index exactly the gates each account created.
    spec fn wf_indexes(self) -> bool {
        &&& forall|o: Seq<char>, tid: TokenId| #[trigger]
            self.owner_tokens_v(o).contains(tid) <==> (self.tokens_raw().contains_key(tid)
                && self.tokens_raw()[tid].owner_id@ == o)
        &&& forall|c: Seq<char>, g: Seq<char>| #[trigger]
            self.creator_gates_v(c).contains(g) <==> (self.tickets_raw().contains_key(g)
                && self.tickets_raw()[g].id_creador@ == c)
    }

    /// Full well-formedness of the registry state.
    spec fn wf(self) -> bool {
        self.wf_base() && self.wf_links() && self.wf_indexes()
    }

    /// An empty, trivially well-formed state, used as a placeholder while a
    /// method reworks the real one.
    fn dummy() -> (r: NftSt)
        ensures
            r.wf(),
    {
        let r = NftSt {
            tickets: Vec::new(),
            tickets_de_creador: Vec::new(),
            tokens: Vec::new(),
            tokens_de_address: Vec::new(),
            id_admin: String::new(),
            metadata: NFTContractMetadata {
                spec_version: String::new(),
                name: String::new(),
                symbol: String::new(),
                icon: None,
                base_uri: None,
                referencia: None,
                referencia_hash: None,
            },
            fee_reventa: Fraction { num: 0, den: 1 },
            fee_reventa_id_address: String::new(),
        };
        proof {
            lemma_empty_state_wf(r);
        }
        r
    }

    /// Grants `account_id` the right to sell `token_id` for at least
    /// `min_precio`, drawing a fresh approval id, and builds the listing
    /// payload for the marketplace.  At most one approval may be active.
    fn aprobar(
        &mut self,
        token_id: TokenId,
        owner_id: &AccountId,
        account_id: &AccountId,
        min_precio: u128,
    ) -> (r: Result<MarketApproveMsg, Panic>)
        requires
            old(self).wf(),
            aprobar_outcome(vmap(old(self).tokens_raw()), token_id, owner_id@) is Ok ==> vmap(
                old(self).tokens_raw(),
            )[token_id].approval_counter < u64::MAX,
        ensures
            final(self).wf(),
            final(self).tickets@ == old(self).tickets@,
            final(self).tickets_de_creador@ == old(self).tickets_de_creador@,
            final(self).tokens_de_address@ == old(self).tokens_de_address@,
            final(self).id_admin == old(self).id_admin,
            final(self).metadata == old(self).metadata,
            final(self).fee_reventa == old(self).fee_reventa,
            final(self).fee_reventa_id_address == old(self).fee_reventa_id_address,
            final(self).tokens@.len() == old(self).tokens@.len(),
            ({
                let toks = vmap(old(self).tokens_raw());
                match aprobar_outcome(toks, token_id, owner_id@) {
                    Ok(u) => r matches Ok(msg) && vmap(final(self).tokens_raw()) == toks.insert(
                        token_id,
                        approved_token_view(toks[token_id], account_id@, min_precio),
                    ) && msg@ == (MarketApproveMsgView {
                        min_precio,
                        gate_id: Some(toks[token_id].gate_id),
                        id_creador: Some(
                            vmap(old(self).tickets_raw())[toks[token_id].gate_id].id_creador,
                        ),
                    }),
                    Err(pv) => r matches Err(e) && e@ == pv && *final(self) == *old(self),
                }
            }),
    {
        let ghost toks = vmap(self.tokens_raw());
        let idx = match find_key(&self.tokens, &token_id) {
            None => {
                return Err(Panic::TokenIdNotFound { token_id });
            },
            Some(i) => i,
        };
        proof {
            lemma_amap_index(self.tokens@, idx as int);
        }
        if !owner_id.eq(&self.tokens[idx].1.owner_id) {
            return Err(Panic::TokenIdNotOwnedBy { token_id, owner_id: owner_id.clone() });
        }
        if self.tokens[idx].1.approvals.len() > 0 {
            proof {
                lemma_amap_len(self.tokens@[idx as int].1.approvals@);
            }
            return Err(Panic::OneApprovalAllowed);
        }
        proof {
            lemma_amap_len(self.tokens@[idx as int].1.approvals@);
            assert(no_approvals(toks[token_id]));
            assert(aprobar_outcome(toks, token_id, owner_id@) is Ok);
        }
        // Build the marketplace payload from the token's collectible.
        let gate = self.tokens[idx].1.gate_id.clone();
        let ti = match find_key(&self.tickets, &gate) {
            Some(ti) => ti,
            None => {
                proof {
                    assert(self.tickets_raw().contains_key(gate@));
                    assert(false);
                }
                unreached()
            },
        };
        proof {
            lemma_amap_index(self.tickets@, ti as int);
        }
        let creador = self.tickets[ti].1.id_creador.clone();
        let vg = match ValidGateId::try_from(gate) {
            Some(g) => g,
            None => {
                proof {
                    assert(false);
                }
                unreached()
            },
        };
        let msg = MarketApproveMsg {
            min_precio,
            gate_id: Some(vg),
            id_creador: Some(creador),
        };
        // Grant the approval: bump the counter and store the single entry.
        let ghost st0 = *self;
        let mut entry = self.tokens.remove(idx);
        let new_id = entry.1.approval_counter + 1;
        entry.1.approval_counter = new_id;
        entry.1.approvals.push((account_id.clone(), TokenApproval {
            aprobados_id: new_id,
            min_precio,
        }));
        let ghost newtok = entry.1;
        proof {
            lemma_amap_index(st0.tokens@, idx as int);
            lemma_amap_remove(st0.tokens@, idx as int);
            assert(self.tokens@ == st0.tokens@.remove(idx as int));
            assert(st0.tokens@[idx as int].0 == token_id);
            assert(amap(self.tokens@) == amap(st0.tokens@).remove(token_id));
            assert(!amap(self.tokens@).contains_key(token_id));
            assert(!has_key(self.tokens@, token_id));
        }
        self.tokens.push(entry);
        proof {
            assert(self.tokens@ == st0.tokens@.remove(idx as int).push(
                (st0.tokens@[idx as int].0, newtok),
            ));
            lemma_amap_push(st0.tokens@.remove(idx as int), (st0.tokens@[idx as int].0, newtok));
            assert(self.tokens_raw() =~= st0.tokens_raw().insert(token_id, newtok));
            assert(newtok.approvals@.len() == 1);
            assert(keys_distinct(newtok.approvals@)) by {
                assert(crate::store::key_seq(newtok.approvals@).len() == 1);
            }
            lemma_token_update_wf(st0, *self, token_id, newtok);
            lemma_vmap_insert(st0.tokens_raw(), token_id, newtok);
            assert(newtok@.approvals =~= Map::empty().insert(
                account_id@,
                TokenApproval { aprobados_id: new_id, min_precio },
            )) by {
                assert(newtok.approvals@[0].0@ == account_id@);
                assert forall|a: Seq<char>| #[trigger]
                    has_key(newtok.approvals@, a) implies a == account_id@ by {
                    let j = choose|j: int|
                        0 <= j < newtok.approvals@.len() && newtok.approvals@[j].0@ == a;
                }
                assert(has_key(newtok.approvals@, account_id@));
            }
            assert(newtok@ == approved_token_view(toks[token_id], account_id@, min_precio));
            assert(vmap(self.tokens_raw()) == toks.insert(
                token_id,
                approved_token_view(toks[token_id], account_id@, min_precio),
            ));
        }
        Ok(msg)
    }
}

/// A state with empty tables and a valid fee is well-formed.
proof fn lemma_empty_state_wf(st: NftSt)
    requires
        st.tickets@.len() == 0,
        st.tickets_de_creador@.len() == 0,
        st.tokens@.len() == 0,
        st.tokens_de_address@.len() == 0,
        st.fee_reventa.valid(),
    ensures
        st.wf(),
{
    assert forall|g: Seq<char>| !(#[trigger] st.tickets_raw().contains_key(g)) by {
        if has_key(st.tickets@, g) {
            let i = choose|i: int| 0 <= i < st.tickets@.len() && st.tickets@[i].0@ == g;
        }
    }
    assert forall|tid: TokenId| !(#[trigger] st.tokens_raw().contains_key(tid)) by {}
    assert forall|c: Seq<char>| !(#[trigger] st.creador_raw().contains_key(c)) by {}
    assert forall|o: Seq<char>| !(#[trigger] st.address_raw().contains_key(o)) by {}
    assert forall|o: Seq<char>, tid: TokenId|
        !(#[trigger] st.owner_tokens_v(o).contains(tid)) by {}
    assert forall|c: Seq<char>, g: Seq<char>|
        !(#[trigger] st.creator_gates_v(c).contains(g)) by {}
}

/// Whether a token currently holds no approval at all.
pub open spec fn no_approvals(t: TokenView) -> bool {
    t.approvals.dom().finite() && t.approvals.dom().len() == 0
}

/// The token after an approval for `account` at price `min_precio` was
/// granted: a fresh approval id drawn from the bumped counter, and exactly
/// one approval held.
pub open spec fn approved_token_view(t: TokenView, account: Seq<char>, min_precio: u128)
    -> TokenView {
    TokenView {
        approvals: Map::empty().insert(
            account,
            TokenApproval {
                aprobados_id: (t.approval_counter + 1) as u64,
                min_precio,
            },
        ),
        approval_counter: (t.approval_counter + 1) as u64,
        ..t
    }
}

/// How a single approval request fares against the given token table:
/// the token must exist, belong to `owner`, and hold no approval yet.
pub open spec fn aprobar_outcome(tokens: Map<TokenId, TokenView>, tid: TokenId, owner: Seq<char>)
    -> Result<(), PanicView> {
    if !tokens.contains_key(tid) {
        Err(PanicView::TokenIdNotFound { token_id: tid })
    } else if tokens[tid].owner_id != owner {
        Err(PanicView::TokenIdNotOwnedBy { token_id: tid, owner_id: owner })
    } else if !no_approvals(tokens[tid]) {
        Err(PanicView::OneApprovalAllowed)
    } else {
        Ok(())
    }
}

/// A token that has never been approved — no approval entries at all — can
/// be transferred only by its current owner: any other sender fails the
/// authorization test of [`ContratoNft::nft_transfer`], whose contract then
/// returns the sender-not-authorized error and leaves the registry
/// unchanged.
pub proof fn lemma_unapproved_transfer_owner_only(t: TokenView, sender: Seq<char>)
    requires
        no_approvals(t),
        t.owner_id != sender,
    ensures
        !(t.owner_id == sender || t.approvals.contains_key(sender)),
{
    if t.approvals.contains_key(sender) {
        t.approvals.dom().lemma_len0_is_empty();
        assert(t.approvals.dom().contains(sender));
    }
}

/// After an approval succeeds, the token holds exactly one approval — the
/// one just granted — and a further approval attempt on the same token, for
/// whatever spender, fails with the one-approval-allowed error while the
/// held approval stays as it is (the approve contract leaves a failing call's
/// state unchanged).
pub proof fn lemma_approve_is_exclusive(
    tokens: Map<TokenId, TokenView>,
    tid: TokenId,
    owner: Seq<char>,
    account: Seq<char>,
    price: u128,
)
    requires
        aprobar_outcome(tokens, tid, owner) is Ok,
    ensures
        ({
            let after = tokens.insert(tid, approved_token_view(tokens[tid], account, price));
            &&& after[tid].approvals.dom().finite()
            &&& after[tid].approvals.dom().len() == 1
            &&& after[tid].approvals.contains_key(account)
            &&& after[tid].approvals[account] == (TokenApproval {
                aprobados_id: (tokens[tid].approval_counter + 1) as u64,
                min_precio: price,
            })
            &&& aprobar_outcome(after, tid, owner) == Err::<(), PanicView>(
                PanicView::OneApprovalAllowed,
            )
        }),
{
    let after = tokens.insert(tid, approved_token_view(tokens[tid], account, price));
    assert(after[tid].approvals.dom() =~= Set::empty().insert(account));
    assert(after[tid].approvals.dom().len() == 1);
}

/// Replacing one token with a version that keeps its id, owner and gate
/// preserves the registry invariant.
proof fn lemma_token_update_wf(st0: NftSt, st1: NftSt, tid: TokenId, newtok: Token)
    requires
        st0.wf(),
        st0.tokens_raw().contains_key(tid),
        newtok.token_id == tid,
        newtok.gate_id@ == st0.tokens_raw()[tid].gate_id@,
        newtok.owner_id@ == st0.tokens_raw()[tid].owner_id@,
        keys_distinct(newtok.approvals@),
        newtok.approvals@.len() <= 1,
        keys_distinct(st1.tokens@),
        st1.tokens_raw() == st0.tokens_raw().insert(tid, newtok),
        st1.tokens@.len() == st0.tokens@.len(),
        st1.tickets@ == st0.tickets@,
        st1.tickets_de_creador@ == st0.tickets_de_creador@,
        st1.tokens_de_address@ == st0.tokens_de_address@,
        st1.fee_reventa == st0.fee_reventa,
    ensures
        st1.wf(),
{
    assert forall|g: Seq<char>| #[trigger]
        st1.tickets_raw().contains_key(g) implies {
        let c = st1.tickets_raw()[g];
        c.gate_id@ == g && valid_gate_chars(g) && c.comision.valid() && sum_lt_one(
            c.comision,
            st1.fee_reventa,
        )
    } by {
        assert(st0.tickets_raw().contains_key(g));
    }
    assert forall|t: TokenId| #[trigger]
        st1.tokens_raw().contains_key(t) implies {
        let tok = st1.tokens_raw()[t];
        tok.token_id == t && keys_distinct(tok.approvals@) && tok.approvals@.len() <= 1 && t
            < st1.tokens@.len()
    } by {
        if t != tid {
            assert(st0.tokens_raw().contains_key(t));
        }
    }
    assert forall|t: TokenId| #[trigger]
        st1.tokens_raw().contains_key(t) implies {
        let tok = st1.tokens_raw()[t];
        st1.tickets_raw().contains_key(tok.gate_id@) && st1.tickets_raw()[
            tok.gate_id@
        ].tokens_creados@.contains(t)
    } by {
        if t == tid {
            assert(st0.tokens_raw()[tid].gate_id@ == newtok.gate_id@);
        } else {
            assert(st0.tokens_raw().contains_key(t));
        }
    }
    assert forall|o: Seq<char>, t: TokenId| #[trigger]
        st1.owner_tokens_v(o).contains(t) <==> (st1.tokens_raw().contains_key(t)
            && st1.tokens_raw()[t].owner_id@ == o) by {
        assert(st1.owner_tokens_v(o) == st0.owner_tokens_v(o));
        assert(st0.owner_tokens_v(o).contains(t) <==> (st0.tokens_raw().contains_key(t)
            && st0.tokens_raw()[t].owner_id@ == o));
    }
    assert forall|c: Seq<char>, g: Seq<char>| #[trigger]
        st1.creator_gates_v(c).contains(g) <==> (st1.tickets_raw().contains_key(g)
            && st1.tickets_raw()[g].id_creador@ == c) by {
        assert(st1.creator_gates_v(c) == st0.creator_gates_v(c));
        assert(st0.creator_gates_v(c).contains(g) <==> (st0.tickets_raw().contains_key(g)
            && st0.tickets_raw()[g].id_creador@ == c));
    }
}

/// Moving a token to a new owner — same id and gate, approvals cleared —
/// and re-indexing it preserves the registry invariant.
proof fn lemma_transfer_wf(
    st0: NftSt,
    st1: NftSt,
    tid: TokenId,
    newtok: Token,
    old_owner: Seq<char>,
    new_owner: Seq<char>,
)
    requires
        st0.wf(),
        st0.tokens_raw().contains_key(tid),
        old_owner == st0.tokens_raw()[tid].owner_id@,
        old_owner != new_owner,
        newtok.token_id == tid,
        newtok.gate_id@ == st0.tokens_raw()[tid].gate_id@,
        newtok.owner_id@ == new_owner,
        newtok.approvals@.len() == 0,
        keys_distinct(st1.tokens@),
        st1.tokens_raw() == st0.tokens_raw().insert(tid, newtok),
        st1.tokens@.len() == st0.tokens@.len(),
        st1.tickets@ == st0.tickets@,
        st1.tickets_de_creador@ == st0.tickets_de_creador@,
        set_map_wf(st1.tokens_de_address@),
        forall|o: Seq<char>| #[trigger]
            set_map(st1.tokens_de_address@, o) == if o == old_owner {
                set_map(st0.tokens_de_address@, o).remove(tid)
            } else if o == new_owner {
                set_map(st0.tokens_de_address@, o).insert(tid)
            } else {
                set_map(st0.tokens_de_address@, o)
            },
        st1.fee_reventa == st0.fee_reventa,
    ensures
        st1.wf(),
{
    assert forall|g: Seq<char>| #[trigger]
        st1.tickets_raw().contains_key(g) implies {
        let c = st1.tickets_raw()[g];
        c.gate_id@ == g && valid_gate_chars(g) && c.comision.valid() && sum_lt_one(
            c.comision,
            st1.fee_reventa,
        )
    } by {
        assert(st0.tickets_raw().contains_key(g));
    }
    assert forall|t: TokenId| #[trigger]
        st1.tokens_raw().contains_key(t) implies {
        let tok = st1.tokens_raw()[t];
        tok.token_id == t && keys_distinct(tok.approvals@) && tok.approvals@.len() <= 1 && t
            < st1.tokens@.len()
    } by {
        if t != tid {
            assert(st0.tokens_raw().contains_key(t));
        }
    }
    assert forall|t: TokenId| #[trigger]
        st1.tokens_raw().contains_key(t) implies {
        let tok = st1.tokens_raw()[t];
        st1.tickets_raw().contains_key(tok.gate_id@) && st1.tickets_raw()[
            tok.gate_id@
        ].tokens_creados@.contains(t)
    } by {
        if t == tid {
            assert(st0.tokens_raw()[tid].gate_id@ == newtok.gate_id@);
        } else {
            assert(st0.tokens_raw().contains_key(t));
        }
    }
    assert forall|o: Seq<char>, t: TokenId| #[trigger]
        st1.owner_tokens_v(o).contains(t) <==> (st1.tokens_raw().contains_key(t)
            && st1.tokens_raw()[t].owner_id@ == o) by {
        assert(st0.owner_tokens_v(o).contains(t) <==> (st0.tokens_raw().contains_key(t)
            && st0.tokens_raw()[t].owner_id@ == o));
        if o == old_owner {
            assert(st1.owner_tokens_v(o) == st0.owner_tokens_v(o).remove(tid));
        } else if o == new_owner {
            assert(st1.owner_tokens_v(o) == st0.owner_tokens_v(o).insert(tid));
        } else {
            assert(st1.owner_tokens_v(o) == st0.owner_tokens_v(o));
        }
    }
    assert forall|c: Seq<char>, g: Seq<char>| #[trigger]
        st1.creator_gates_v(c).contains(g) <==> (st1.tickets_raw().contains_key(g)
            && st1.tickets_raw()[g].id_creador@ == c) by {
        assert(st1.creator_gates_v(c) == st0.creator_gates_v(c));
        assert(st0.creator_gates_v(c).contains(g) <==> (st0.tickets_raw().contains_key(g)
            && st0.tickets_raw()[g].id_creador@ == c));
    }
}

/// The registry service.  Owns collectible templates and tokens; enforces
/// the approval and ownership invariants.
pub struct ContratoNft {
    st: NftSt,
}

impl ContratoNft {
    #[verifier::type_invariant]
    spec fn type_wf(self) -> bool {
        self.st.wf()
    }

    /// The collectibles the registry holds, keyed by gate id.
    pub closed spec fn tickets(self) -> Map<Seq<char>, CollectibleView> {
        vmap(self.st.tickets_raw())
    }

    /// The tokens the registry holds, keyed by token id.
    pub closed spec fn tokens(self) -> Map<TokenId, TokenView> {
        vmap(self.st.tokens_raw())
    }

    /// The tokens the owner index lists for account `o`.
    pub closed spec fn owner_tokens(self, o: Seq<char>) -> Set<TokenId> {
        self.st.owner_tokens_v(o)
    }

    /// The gates the creator index lists for account `c`.
    pub closed spec fn creator_gates(self, c: Seq<char>) -> Set<Seq<char>> {
        self.st.creator_gates_v(c)
    }

    /// The admin account.
    pub closed spec fn admin(self) -> Seq<char> {
        self.st.id_admin@
    }

    /// The contract-level metadata.
    pub closed spec fn contract_metadata(self) -> NFTContractMetadataView {
        self.st.metadata@
    }

    /// The platform fee taken out of every sale.
    pub closed spec fn fee(self) -> Fraction {
        self.st.fee_reventa
    }

    /// The account the platform fee is paid to.
    pub closed spec fn fee_account(self) -> Seq<char> {
        self.st.fee_reventa_id_address@
    }

    /// How many tokens were ever minted; also the next token id.
    pub closed spec fn mint_count(self) -> nat {
        self.st.tokens@.len()
    }

    /// The two lookup indexes list exactly what the primary tables hold:
    /// an account's tokens are those it owns, an account's gates those it
    /// created.  Holds of every reachable registry value.
    pub open spec fn indexes_ok(self) -> bool {
        &&& forall|o: Seq<char>, tid: TokenId| #[trigger]
            self.owner_tokens(o).contains(tid) <==> (self.tokens().contains_key(tid)
                && self.tokens()[tid].owner_id == o)
        &&& forall|c: Seq<char>, g: Seq<char>| #[trigger]
            self.creator_gates(c).contains(g) <==> (self.tickets().contains_key(g)
                && self.tickets()[g].id_creador == c)
    }

    /// The configuration fields no call ever changes.
    pub open spec fn same_config(self, other: Self) -> bool {
        &&& self.admin() == other.admin()
        &&& self.contract_metadata() == other.contract_metadata()
        &&& self.fee() == other.fee()
        &&& self.fee_account() == other.fee_account()
    }

    /// `indexes_ok` follows from the type invariant.
    proof fn lemma_indexes_ok(self)
        requires
            self.type_wf(),
        ensures
            self.indexes_ok(),
    {
        assert forall|o: Seq<char>, tid: TokenId| #[trigger]
            self.owner_tokens(o).contains(tid) <==> (self.tokens().contains_key(tid)
                && self.tokens()[tid].owner_id == o) by {
            assert(self.st.owner_tokens_v(o).contains(tid) <==> (self.st.tokens_raw().contains_key(
                tid,
            ) && self.st.tokens_raw()[tid].owner_id@ == o));
        }
        assert forall|c: Seq<char>, g: Seq<char>| #[trigger]
            self.creator_gates(c).contains(g) <==> (self.tickets().contains_key(g)
                && self.tickets()[g].id_creador == c) by {
            assert(self.st.creator_gates_v(c).contains(g) <==> (self.st.tickets_raw().contains_key(
                g,
            ) && self.st.tickets_raw()[g].id_creador@ == c));
        }
    }

    /// Initializes the registry.  `id_admin` is the only account allowed to
    /// create collectibles; `min_comision` and `max_comision` are bounds a
    /// royalty is meant to respect; `fee_reventa` is the share paid to
    /// `fee_reventa_id_address` on every resale.  All three fractions must be
    /// valid.
    pub fn init(
        id_admin: AccountId,
        metadata: NFTContractMetadata,
        min_comision: Fraction,
        max_comision: Fraction,
        fee_reventa: Fraction,
        fee_reventa_id_address: AccountId,
    ) -> (r: Result<ContratoNft, CorePanics>)
        ensures
            r is Ok <==> min_comision.valid() && max_comision.valid() && fee_reventa.valid(),
            match r {
                Ok(c) => {
                    &&& c.tickets() == Map::<Seq<char>, CollectibleView>::empty()
                    &&& c.tokens() == Map::<TokenId, TokenView>::empty()
                    &&& c.mint_count() == 0
                    &&& c.admin() == id_admin@
                    &&& c.contract_metadata() == metadata@
                    &&& c.fee() == fee_reventa
                    &&& c.fee_account() == fee_reventa_id_address@
                },
                Err(e) => {
                    if !min_comision.valid() {
                        e == spec_check_err(min_comision)
                    } else if !max_comision.valid() {
                        e == spec_check_err(max_comision)
                    } else {
                        e == spec_check_err(fee_reventa)
                    }
                },
            },
    {
        if let Err(e) = min_comision.check() {
            return Err(e);
        }
        if let Err(e) = max_comision.check() {
            return Err(e);
        }
        if let Err(e) = fee_reventa.check() {
            return Err(e);
        }
        let st = NftSt {
            tickets: Vec::new(),
            tickets_de_creador: Vec::new(),
            tokens: Vec::new(),
            tokens_de_address: Vec::new(),
            id_admin,
            metadata,
            fee_reventa,
            fee_reventa_id_address,
        };
        proof {
            lemma_empty_state_wf(st);
            assert(vmap(st.tickets_raw()) =~= Map::<Seq<char>, CollectibleView>::empty());
            assert(vmap(st.tokens_raw()) =~= Map::<TokenId, TokenView>::empty());
        }
        Ok(ContratoNft { st })
    }

    /// Creates a new collectible identified by `gate_id`, from which up to
    /// `cantidad` tokens can be minted.  `comision` is the royalty paid to
    /// the creator on every resale; together with the platform fee it must
    /// stay strictly below `1`.  Only the admin account may call this.
    pub fn crear_ticket(
        &mut self,
        pred_id: &AccountId,
        now_ms: Timestamp,
        id_creador: AccountId,
        gate_id: &ValidGateId,
        titulo: String,
        descripcion: String,
        cantidad: u16,
        comision: Fraction,
        media: Option<String>,
        media_hash: Option<String>,
        referencia: Option<String>,
        referencia_hash: Option<String>,
    ) -> (r: Result<(), Panic>)
        ensures
            final(self).same_config(*old(self)),
            final(self).indexes_ok(),
            r is Err ==> *final(self) == *old(self),
            ({
                let gid = gate_id@;
                let t = *old(self);
                if !sum_lt_one(comision, t.fee()) {
                    r matches Err(e) && e@ == (PanicView::RoyaltyTooLarge {
                        comision,
                        fee_reventa: t.fee(),
                    })
                } else if t.tickets().contains_key(gid) {
                    r matches Err(e) && e@ == (PanicView::GateIdAlreadyExists { gate_id: gid })
                } else if cantidad == 0 {
                    r matches Err(e) && e@ == (PanicView::ZeroSupplyNotAllowed { gate_id: gid })
                } else if byte_len(titulo@) > 140 {
                    r matches Err(e) && e@ == (PanicView::InvalidArgument {
                        gate_id: gid,
                        reason: "Titulo no puede tener mas de 140 caracteres"@,
                    })
                } else if byte_len(descripcion@) > 1024 {
                    r matches Err(e) && e@ == (PanicView::InvalidArgument {
                        gate_id: gid,
                        reason: "La descripcion no puede sobrepasar los 1024 caracteres"@,
                    })
                } else if opt_too_long(media, 1024) {
                    r matches Err(e) && e@ == (PanicView::InvalidArgument {
                        gate_id: gid,
                        reason: "`media` exceeds 1024 chars"@,
                    })
                } else if opt_too_long(media_hash, 1024) {
                    r matches Err(e) && e@ == (PanicView::InvalidArgument {
                        gate_id: gid,
                        reason: "`media_hash` exceeds 1024 chars"@,
                    })
                } else if opt_too_long(referencia, 1024) {
                    r matches Err(e) && e@ == (PanicView::InvalidArgument {
                        gate_id: gid,
                        reason: "`referencia` exceeds 1024 chars"@,
                    })
                } else if opt_too_long(referencia_hash, 1024) {
                    r matches Err(e) && e@ == (PanicView::InvalidArgument {
                        gate_id: gid,
                        reason: "`referencia_hash` exceeds 1024 chars"@,
                    })
                } else if pred_id@ != t.admin() {
                    r matches Err(e) && e@ == PanicView::AdminRestrictedOperation
                } else {
                    r is Ok
                }
            }),
            r is Ok ==> {
                &&& final(self).tickets() == old(self).tickets().insert(
                    gate_id@,
                    crear_ticket_view(
                        id_creador@,
                        gate_id@,
                        titulo@,
                        descripcion@,
                        cantidad,
                        comision,
                        now_ms,
                        opt_str_view(media),
                        opt_str_view(media_hash),
                        opt_str_view(referencia),
                        opt_str_view(referencia_hash),
                    ),
                )
                &&& final(self).tokens() == old(self).tokens()
                &&& final(self).mint_count() == old(self).mint_count()
                &&& forall|c: Seq<char>| #[trigger]
                    final(self).creator_gates(c) == if c == id_creador@ {
                        old(self).creator_gates(c).insert(gate_id@)
                    } else {
                        old(self).creator_gates(c)
                    }
                &&& forall|o: Seq<char>| #[trigger]
                    final(self).owner_tokens(o) == old(self).owner_tokens(o)
            },
    {
        proof {
            use_type_invariant(&*self);
            use_type_invariant(gate_id);
            (*self).lemma_indexes_ok();
        }
        // The royalty and the platform fee must leave the seller something:
        // checked exactly over the cross-multiplied integers.
        let cn = comision.num as u128;
        let cd = comision.den as u128;
        let fnum = self.st.fee_reventa.num as u128;
        let fden = self.st.fee_reventa.den as u128;
        assert(cn * fden < 0x1_0000_0000_0000_0000u128 && fnum * cd
            < 0x1_0000_0000_0000_0000u128 && cd * fden < 0x1_0000_0000_0000_0000u128)
            by (nonlinear_arith)
            requires
                cn < 0x1_0000_0000u128,
                cd < 0x1_0000_0000u128,
                fnum < 0x1_0000_0000u128,
                fden < 0x1_0000_0000u128,
        ;
        if cn * fden + fnum * cd >= cd * fden {
            return Err(
                Panic::RoyaltyTooLarge { comision, fee_reventa: self.st.fee_reventa },
            );
        }
        let gid = gate_id.to_string();
        if find_key(&self.st.tickets, &gid).is_some() {
            return Err(Panic::GateIdAlreadyExists { gate_id: gid });
        }
        if cantidad == 0 {
            return Err(Panic::ZeroSupplyNotAllowed { gate_id: gid });
        }
        if str_byte_len(&titulo) > 140 {
            return Err(
                Panic::InvalidArgument {
                    gate_id: gid,
                    reason: String::from_str("Titulo no puede tener mas de 140 caracteres"),
                },
            );
        }
        if str_byte_len(&descripcion) > 1024 {
            return Err(
                Panic::InvalidArgument {
                    gate_id: gid,
                    reason: String::from_str(
                        "La descripcion no puede sobrepasar los 1024 caracteres",
                    ),
                },
            );
        }
        if opt_len_exceeds(&media, 1024) {
            return Err(
                Panic::InvalidArgument {
                    gate_id: gid,
                    reason: String::from_str("`media` exceeds 1024 chars"),
                },
            );
        }
        if opt_len_exceeds(&media_hash, 1024) {
            return Err(
                Panic::InvalidArgument {
                    gate_id: gid,
                    reason: String::from_str("`media_hash` exceeds 1024 chars"),
                },
            );
        }
        if opt_len_exceeds(&referencia, 1024) {
            return Err(
                Panic::InvalidArgument {
                    gate_id: gid,
                    reason: String::from_str("`referencia` exceeds 1024 chars"),
                },
            );
        }
        if opt_len_exceeds(&referencia_hash, 1024) {
            return Err(
                Panic::InvalidArgument {
                    gate_id: gid,
                    reason: String::from_str("`referencia_hash` exceeds 1024 chars"),
                },
            );
        }
        if !pred_id.eq(&self.st.id_admin) {
            return Err(Panic::AdminRestrictedOperation);
        }
        proof {
            lemma_sum_lt_one_valid(comision, self.st.fee_reventa);
        }
        let mut st = NftSt::dummy();
        core::mem::swap(&mut st, &mut self.st);
        let ghost st0 = st;
        let ticket = Collectible {
            gate_id: gid.clone(),
            id_creador: id_creador.clone(),
            cantidad_actual: cantidad,
            tokens_creados: Vec::new(),
            comision,
            metadata: Metadata {
                titulo: Some(titulo),
                descripcion: Some(descripcion),
                media,
                media_hash,
                copias: Some(cantidad),
                emitido_en: Some(now_ms),
                expira_en: None,
                comienzo_en: Some(now_ms),
                actualizado_en: None,
                extra: None,
                referencia,
                referencia_hash,
            },
        };
        let ghost ticket_g = ticket;
        st.tickets.push((gid.clone(), ticket));
        proof {
            lemma_amap_push(st0.tickets@, (st.tickets@.last().0, ticket_g));
            assert(st.tickets@.drop_last() =~= st0.tickets@);
            assert(st.tickets_raw() =~= st0.tickets_raw().insert(gate_id@, ticket_g));
        }
        assoc_set_insert(&mut st.tickets_de_creador, &id_creador, gid);
        proof {
            lemma_crear_wf(st0, st, ticket_g, id_creador@, gate_id@);
            lemma_vmap_insert(st0.tickets_raw(), gate_id@, ticket_g);
        }
        self.st = st;
        proof {
            (*self).lemma_indexes_ok();
            assert(ticket_g@.tokens_creados =~= Seq::<TokenId>::empty());
            assert(ticket_g@ == crear_ticket_view(
                id_creador@,
                gate_id@,
                titulo@,
                descripcion@,
                cantidad,
                comision,
                now_ms,
                opt_str_view(media),
                opt_str_view(media_hash),
                opt_str_view(referencia),
                opt_str_view(referencia_hash),
            ));
            assert((*self).tickets() == old(self).tickets().insert(gate_id@, ticket_g@));
        }
        Ok(())
    }

    /// Mints a token out of the collectible `gate_id` for the caller,
    /// returning the fresh token id.  Fails when the collectible does not
    /// exist or its supply is exhausted.
    pub fn comprar_token(&mut self, pred_id: &AccountId, now_ms: Timestamp, gate_id: &ValidGateId)
        -> (r: Result<TokenId, Panic>)
        ensures
            final(self).same_config(*old(self)),
            final(self).indexes_ok(),
            r is Err ==> *final(self) == *old(self),
            ({
                let gid = gate_id@;
                let t = *old(self);
                if !t.tickets().contains_key(gid) {
                    r matches Err(e) && e@ == (PanicView::GateIdNotFound { gate_id: gid })
                } else if t.tickets()[gid].cantidad_actual == 0 {
                    r matches Err(e) && e@ == (PanicView::GateIdExhausted { gate_id: gid })
                } else {
                    r matches Ok(tid) && tid == t.mint_count()
                }
            }),
            r matches Ok(tid) ==> {
                let t = *old(self);
                let gid = gate_id@;
                let old_c = t.tickets()[gid];
                &&& final(self).mint_count() == t.mint_count() + 1
                &&& final(self).tokens() == t.tokens().insert(
                    tid,
                    minted_token_view(tid, gid, pred_id@, now_ms),
                )
                &&& final(self).tickets() == t.tickets().insert(
                    gid,
                    CollectibleView {
                        cantidad_actual: (old_c.cantidad_actual - 1) as u16,
                        tokens_creados: old_c.tokens_creados.push(tid),
                        ..old_c
                    },
                )
                &&& forall|o: Seq<char>| #[trigger]
                    final(self).owner_tokens(o) == if o == pred_id@ {
                        t.owner_tokens(o).insert(tid)
                    } else {
                        t.owner_tokens(o)
                    }
                &&& forall|c: Seq<char>| #[trigger]
                    final(self).creator_gates(c) == t.creator_gates(c)
            },
    {
        proof {
            use_type_invariant(&*self);
            (*self).lemma_indexes_ok();
        }
        let gid = gate_id.to_string();
        let idx = match find_key(&self.st.tickets, &gid) {
            None => {
                return Err(Panic::GateIdNotFound { gate_id: gid });
            },
            Some(i) => i,
        };
        proof {
            lemma_amap_index(self.st.tickets@, idx as int);
        }
        if self.st.tickets[idx].1.cantidad_actual == 0 {
            return Err(Panic::GateIdExhausted { gate_id: gid });
        }
        let mut st = NftSt::dummy();
        core::mem::swap(&mut st, &mut self.st);
        let ghost st0 = st;
        let token_id = st.tokens.len() as u64;
        proof {
            if st0.tokens_raw().contains_key(token_id) {
                assert(token_id < st0.tokens@.len());
            }
        }
        let token = Token {
            token_id,
            gate_id: gid.clone(),
            owner_id: pred_id.clone(),
            created_at: now_ms,
            modified_at: now_ms,
            approvals: Vec::new(),
            approval_counter: 0,
            metadata: Metadata::empty(),
        };
        let ghost token_g = token;
        st.tokens.push((token_id, token));
        proof {
            assert(st.tokens@ == st0.tokens@.push((token_id, token_g)));
            lemma_amap_push(st0.tokens@, (token_id, token_g));
        }
        assoc_set_insert(&mut st.tokens_de_address, pred_id, token_id);
        let ghost mid_tickets = st.tickets@;
        let mut entry = st.tickets.remove(idx);
        entry.1.cantidad_actual = entry.1.cantidad_actual - 1;
        entry.1.tokens_creados.push(token_id);
        let ghost new_ticket = entry.1;
        proof {
            assert(mid_tickets == st0.tickets@);
            lemma_amap_index(st0.tickets@, idx as int);
            lemma_amap_remove(st0.tickets@, idx as int);
            assert(st.tickets@ == st0.tickets@.remove(idx as int));
            assert(st0.tickets@[idx as int].0@ == gid@);
            assert(amap(st.tickets@) == amap(st0.tickets@).remove(gid@));
            assert(!amap(st.tickets@).contains_key(gid@));
            assert(!has_key(st.tickets@, gid@));
        }
        st.tickets.push(entry);
        proof {
            assert(st.tickets@ == st0.tickets@.remove(idx as int).push(
                (st0.tickets@[idx as int].0, new_ticket),
            ));
            lemma_amap_push(st0.tickets@.remove(idx as int), (st0.tickets@[idx as int].0,
                new_ticket));
            assert(st.tickets_raw() =~= st0.tickets_raw().insert(gate_id@, new_ticket));
            lemma_comprar_wf(st0, st, token_g, new_ticket, gate_id@, pred_id@, token_id);
            lemma_vmap_insert(st0.tokens_raw(), token_id, token_g);
            lemma_vmap_insert(st0.tickets_raw(), gate_id@, new_ticket);
        }
        self.st = st;
        proof {
            (*self).lemma_indexes_ok();
            assert(token_g@.approvals =~= Map::<Seq<char>, TokenApproval>::empty());
            assert(token_g@ == minted_token_view(token_id, gate_id@, pred_id@, now_ms));
            assert((*self).tokens() == old(self).tokens().insert(token_id, token_g@));
            assert(new_ticket@ == (CollectibleView {
                cantidad_actual: (old(self).tickets()[gate_id@].cantidad_actual - 1) as u16,
                tokens_creados: old(self).tickets()[gate_id@].tokens_creados.push(token_id),
                ..old(self).tickets()[gate_id@]
            }));
            assert((*self).tickets() == old(self).tickets().insert(gate_id@, new_ticket@));
        }
        Ok(token_id)
    }

    /// Removes the collectible `gate_id`.  Only its creator or the admin may
    /// do so, and only while no tokens have been minted out of it.
    pub fn borrar_ticket(&mut self, pred_id: &AccountId, gate_id: &ValidGateId) -> (r: Result<
        (),
        Panic,
    >)
        ensures
            final(self).same_config(*old(self)),
            final(self).indexes_ok(),
            r is Err ==> *final(self) == *old(self),
            ({
                let gid = gate_id@;
                let t = *old(self);
                if !t.tickets().contains_key(gid) {
                    r matches Err(e) && e@ == (PanicView::GateIdNotFound { gate_id: gid })
                } else if t.tickets()[gid].tokens_creados.len() != 0 {
                    r matches Err(e) && e@ == (PanicView::GateIdHasTokens { gate_id: gid })
                } else if pred_id@ != t.tickets()[gid].id_creador && pred_id@ != t.admin() {
                    r matches Err(e) && e@ == (PanicView::NotAuthorized { gate_id: gid })
                } else {
                    r is Ok
                }
            }),
            r is Ok ==> {
                let t = *old(self);
                let gid = gate_id@;
                &&& final(self).tickets() == t.tickets().remove(gid)
                &&& final(self).tokens() == t.tokens()
                &&& final(self).mint_count() == t.mint_count()
                &&& forall|c: Seq<char>| #[trigger]
                    final(self).creator_gates(c) == if c == t.tickets()[gid].id_creador {
                        t.creator_gates(c).remove(gid)
                    } else {
                        t.creator_gates(c)
                    }
                &&& forall|o: Seq<char>| #[trigger]
                    final(self).owner_tokens(o) == t.owner_tokens(o)
            },
    {
        proof {
            use_type_invariant(&*self);
            (*self).lemma_indexes_ok();
        }
        let gid = gate_id.to_string();
        let idx = match find_key(&self.st.tickets, &gid) {
            None => {
                return Err(Panic::GateIdNotFound { gate_id: gid });
            },
            Some(i) => i,
        };
        proof {
            lemma_amap_index(self.st.tickets@, idx as int);
        }
        if self.st.tickets[idx].1.tokens_creados.len() != 0 {
            return Err(Panic::GateIdHasTokens { gate_id: gid });
        }
        let authorized = pred_id.eq(&self.st.tickets[idx].1.id_creador) || pred_id.eq(
            &self.st.id_admin,
        );
        if !authorized {
            return Err(Panic::NotAuthorized { gate_id: gid });
        }
        let mut st = NftSt::dummy();
        core::mem::swap(&mut st, &mut self.st);
        let ghost st0 = st;
        let entry = st.tickets.remove(idx);
        proof {
            lemma_amap_remove(st0.tickets@, idx as int);
        }
        let creador = entry.1.id_creador;
        let removed = assoc_set_remove(&mut st.tickets_de_creador, &creador, &gid);
        proof {
            lemma_borrar_wf(st0, st, gate_id@, creador@);
            lemma_vmap_remove(st0.tickets_raw(), gate_id@);
        }
        self.st = st;
        proof {
            (*self).lemma_indexes_ok();
            assert((*self).tickets() == old(self).tickets().remove(gate_id@));
        }
        Ok(())
    }

    /// Grants `account_id` the right to sell `token_id` for at least the
    /// price carried in `msg`, and returns the notification to deliver to
    /// the marketplace.  The caller must own the token, the token must hold
    /// no approval yet, and `msg` must be present.
    pub fn nft_approve(
        &mut self,
        pred_id: &AccountId,
        token_id: TokenId,
        account_id: &AccountId,
        msg: Option<NftApproveMsg>,
    ) -> (r: Result<ApproveNotification, Panic>)
        requires
            msg is Some && aprobar_outcome(old(self).tokens(), token_id, pred_id@) is Ok ==> old(
                self,
            ).tokens()[token_id].approval_counter < u64::MAX,
        ensures
            final(self).same_config(*old(self)),
            final(self).indexes_ok(),
            r is Err ==> *final(self) == *old(self),
            ({
                let toks = old(self).tokens();
                if msg is None {
                    r matches Err(e) && e@ == PanicView::MsgFormatNotRecognized
                } else {
                    match aprobar_outcome(toks, token_id, pred_id@) {
                        Ok(u) => r matches Ok(note) && (msg matches Some(am)
                            && note.token_id == token_id && note.owner_id@ == pred_id@
                            && note.aprobados_id == (toks[token_id].approval_counter + 1) as u64
                            && note.msg@ == (MarketApproveMsgView {
                            min_precio: am.min_precio,
                            gate_id: Some(toks[token_id].gate_id),
                            id_creador: Some(
                                old(self).tickets()[toks[token_id].gate_id].id_creador,
                            ),
                        })),
                        Err(pv) => r matches Err(e) && e@ == pv,
                    }
                }
            }),
            r is Ok ==> (msg matches Some(am) && {
                &&& final(self).tokens() == old(self).tokens().insert(
                    token_id,
                    approved_token_view(old(self).tokens()[token_id], account_id@, am.min_precio),
                )
                &&& final(self).tickets() == old(self).tickets()
                &&& final(self).mint_count() == old(self).mint_count()
                &&& forall|o: Seq<char>| #[trigger]
                    final(self).owner_tokens(o) == old(self).owner_tokens(o)
                &&& forall|c: Seq<char>| #[trigger]
                    final(self).creator_gates(c) == old(self).creator_gates(c)
            }),
    {
        proof {
            use_type_invariant(&*self);
            (*self).lemma_indexes_ok();
        }
        let min_precio = match msg {
            Some(am) => am.min_precio,
            None => {
                return Err(Panic::MsgFormatNotRecognized);
            },
        };
        let mut st = NftSt::dummy();
        core::mem::swap(&mut st, &mut self.st);
        let ghost st0 = st;
        let result = st.aprobar(token_id, pred_id, account_id, min_precio);
        let ghost st1 = st;
        self.st = st;
        proof {
            (*self).lemma_indexes_ok();
        }
        match result {
            Ok(approve_msg) => {
                let new_id = match self.nft_token_counter(token_id) {
                    Some(c) => c,
                    None => {
                        proof {
                            assert(false);
                        }
                        unreached()
                    },
                };
                Ok(
                    ApproveNotification {
                        token_id,
                        owner_id: pred_id.clone(),
                        aprobados_id: new_id,
                        msg: approve_msg,
                    },
                )
            },
            Err(e) => Err(e),
        }
    }

    /// The current approval counter of a token, if the token exists.
    fn nft_token_counter(&self, token_id: TokenId) -> (r: Option<u64>)
        ensures
            r is Some <==> self.tokens().contains_key(token_id),
            match r {
                Some(c) => c == self.tokens()[token_id].approval_counter,
                None => true,
            },
    {
        proof {
            use_type_invariant(&*self);
        }
        match find_key(&self.st.tokens, &token_id) {
            Some(i) => {
                proof {
                    lemma_amap_index(self.st.tokens@, i as int);
                }
                Some(self.st.tokens[i].1.approval_counter)
            },
            None => None,
        }
    }

    /// Withdraws the approval `account_id` holds on `token_id`.  Only the
    /// owner may revoke, and only an approval that exists.  The marketplace
    /// should be told to delist the token afterwards.
    pub fn nft_revoke(&mut self, pred_id: &AccountId, token_id: TokenId, account_id: &AccountId)
        -> (r: Result<(), Panic>)
        ensures
            final(self).same_config(*old(self)),
            final(self).indexes_ok(),
            r is Err ==> *final(self) == *old(self),
            ({
                let toks = old(self).tokens();
                if !toks.contains_key(token_id) {
                    r matches Err(e) && e@ == (PanicView::TokenIdNotFound { token_id })
                } else if toks[token_id].owner_id != pred_id@ {
                    r matches Err(e) && e@ == (PanicView::TokenIdNotOwnedBy {
                        token_id,
                        owner_id: pred_id@,
                    })
                } else if !toks[token_id].approvals.contains_key(account_id@) {
                    r matches Err(e) && e@ == (PanicView::RevokeApprovalFailed {
                        account_id: account_id@,
                    })
                } else {
                    r is Ok
                }
            }),
            r is Ok ==> {
                let t = old(self).tokens()[token_id];
                &&& final(self).tokens() == old(self).tokens().insert(
                    token_id,
                    TokenView { approvals: t.approvals.remove(account_id@), ..t },
                )
                &&& final(self).tickets() == old(self).tickets()
                &&& final(self).mint_count() == old(self).mint_count()
                &&& forall|o: Seq<char>| #[trigger]
                    final(self).owner_tokens(o) == old(self).owner_tokens(o)
                &&& forall|c: Seq<char>| #[trigger]
                    final(self).creator_gates(c) == old(self).creator_gates(c)
            },
    {
        proof {
            use_type_invariant(&*self);
            (*self).lemma_indexes_ok();
        }
        let idx = match find_key(&self.st.tokens, &token_id) {
            None => {
                return Err(Panic::TokenIdNotFound { token_id });
            },
            Some(i) => i,
        };
        proof {
            lemma_amap_index(self.st.tokens@, idx as int);
        }
        if !pred_id.eq(&self.st.tokens[idx].1.owner_id) {
            return Err(Panic::TokenIdNotOwnedBy { token_id, owner_id: pred_id.clone() });
        }
        let ai = match find_key(&self.st.tokens[idx].1.approvals, account_id) {
            None => {
                return Err(Panic::RevokeApprovalFailed { account_id: account_id.clone() });
            },
            Some(ai) => ai,
        };
        let mut st = NftSt::dummy();
        core::mem::swap(&mut st, &mut self.st);
        let ghost st0 = st;
        let mut entry = st.tokens.remove(idx);
        let ghost aps0 = entry.1.approvals@;
        entry.1.approvals.remove(ai);
        let ghost newtok = entry.1;
        proof {
            lemma_amap_index(st0.tokens@, idx as int);
            lemma_amap_remove(st0.tokens@, idx as int);
            assert(st.tokens@ == st0.tokens@.remove(idx as int));
            assert(!amap(st.tokens@).contains_key(token_id));
            assert(!has_key(st.tokens@, token_id));
            lemma_amap_index(aps0, ai as int);
            lemma_amap_remove(aps0, ai as int);
            assert(newtok.approvals@ == aps0.remove(ai as int));
            assert(amap(newtok.approvals@) == amap(aps0).remove(account_id@));
        }
        st.tokens.push(entry);
        proof {
            assert(st.tokens@ == st0.tokens@.remove(idx as int).push(
                (st0.tokens@[idx as int].0, newtok),
            ));
            lemma_amap_push(st0.tokens@.remove(idx as int), (st0.tokens@[idx as int].0, newtok));
            assert(st.tokens_raw() =~= st0.tokens_raw().insert(token_id, newtok));
            lemma_token_update_wf(st0, st, token_id, newtok);
            lemma_vmap_insert(st0.tokens_raw(), token_id, newtok);
        }
        self.st = st;
        proof {
            (*self).lemma_indexes_ok();
            assert(newtok@ == (TokenView {
                approvals: old(self).tokens()[token_id].approvals.remove(account_id@),
                ..old(self).tokens()[token_id]
            }));
        }
        Ok(())
    }

    /// Withdraws every approval on `token_id`, returning the accounts whose
    /// approvals were cleared so each can be told to delist.  Only the owner
    /// may do this.
    pub fn nft_revoke_all(&mut self, pred_id: &AccountId, token_id: TokenId) -> (r: Result<
        Vec<AccountId>,
        Panic,
    >)
        ensures
            final(self).same_config(*old(self)),
            final(self).indexes_ok(),
            r is Err ==> *final(self) == *old(self),
            ({
                let toks = old(self).tokens();
                if !toks.contains_key(token_id) {
                    r matches Err(e) && e@ == (PanicView::TokenIdNotFound { token_id })
                } else if toks[token_id].owner_id != pred_id@ {
                    r matches Err(e) && e@ == (PanicView::TokenIdNotOwnedBy {
                        token_id,
                        owner_id: pred_id@,
                    })
                } else {
                    r is Ok
                }
            }),
            r matches Ok(v) ==> {
                let t = old(self).tokens()[token_id];
                &&& final(self).tokens() == old(self).tokens().insert(
                    token_id,
                    TokenView { approvals: Map::empty(), ..t },
                )
                &&& t.approvals.dom().finite() && v@.len() == t.approvals.dom().len()
                &&& forall|i: int|
                    0 <= i < v@.len() ==> t.approvals.contains_key((#[trigger] v@[i])@)
                &&& forall|a: Seq<char>| #[trigger]
                    t.approvals.contains_key(a) ==> exists|i: int|
                        0 <= i < v@.len() && (#[trigger] v@[i])@ == a
                &&& final(self).tickets() == old(self).tickets()
                &&& final(self).mint_count() == old(self).mint_count()
                &&& forall|o: Seq<char>| #[trigger]
                    final(self).owner_tokens(o) == old(self).owner_tokens(o)
                &&& forall|c: Seq<char>| #[trigger]
                    final(self).creator_gates(c) == old(self).creator_gates(c)
            },
    {
        proof {
            use_type_invariant(&*self);
            (*self).lemma_indexes_ok();
        }
        let idx = match find_key(&self.st.tokens, &token_id) {
            None => {
                return Err(Panic::TokenIdNotFound { token_id });
            },
            Some(i) => i,
        };
        proof {
            lemma_amap_index(self.st.tokens@, idx as int);
        }
        if !pred_id.eq(&self.st.tokens[idx].1.owner_id) {
            return Err(Panic::TokenIdNotOwnedBy { token_id, owner_id: pred_id.clone() });
        }
        let mut st = NftSt::dummy();
        core::mem::swap(&mut st, &mut self.st);
        let ghost st0 = st;
        let mut entry = st.tokens.remove(idx);
        let ghost aps0 = entry.1.approvals@;
        let mut cleared: Vec<AccountId> = Vec::new();
        let napprovals = entry.1.approvals.len();
        let mut k: usize = 0;
        while k < napprovals
            invariant
                k <= napprovals,
                napprovals == entry.1.approvals@.len(),
                entry.1.approvals@ == aps0,
                cleared@.len() == k,
                forall|m: int| 0 <= m < k ==> (#[trigger] cleared@[m])@ == aps0[m].0@,
            decreases napprovals - k,
        {
            let (account, approval) = &entry.1.approvals[k];
            cleared.push(account.clone());
            k += 1;
        }
        entry.1.approvals = Vec::new();
        let ghost newtok = entry.1;
        proof {
            lemma_amap_index(st0.tokens@, idx as int);
            lemma_amap_remove(st0.tokens@, idx as int);
            assert(st.tokens@ == st0.tokens@.remove(idx as int));
            assert(!amap(st.tokens@).contains_key(token_id));
            assert(!has_key(st.tokens@, token_id));
        }
        st.tokens.push(entry);
        proof {
            assert(st.tokens@ == st0.tokens@.remove(idx as int).push(
                (st0.tokens@[idx as int].0, newtok),
            ));
            lemma_amap_push(st0.tokens@.remove(idx as int), (st0.tokens@[idx as int].0, newtok));
            assert(st.tokens_raw() =~= st0.tokens_raw().insert(token_id, newtok));
            lemma_token_update_wf(st0, st, token_id, newtok);
            lemma_vmap_insert(st0.tokens_raw(), token_id, newtok);
        }
        self.st = st;
        proof {
            (*self).lemma_indexes_ok();
            assert(newtok@.approvals =~= Map::<Seq<char>, TokenApproval>::empty());
            assert(newtok@ == (TokenView {
                approvals: Map::empty(),
                ..old(self).tokens()[token_id]
            }));
            let t = old(self).tokens()[token_id];
            lemma_amap_len(aps0);
            assert(t.approvals.dom().finite() && t.approvals.dom().len() == aps0.len());
            assert forall|m: int|
                0 <= m < cleared@.len() implies t.approvals.contains_key(
                (#[trigger] cleared@[m])@,
            ) by {
                lemma_amap_index(aps0, m);
            }
            assert forall|a: Seq<char>| #[trigger]
                t.approvals.contains_key(a) implies exists|i: int|
                0 <= i < cleared@.len() && (#[trigger] cleared@[i])@ == a by {
                let j = choose|j: int| 0 <= j < aps0.len() && aps0[j].0@ == a;
                assert(cleared@[j]@ == a);
            }
        }
        Ok(cleared)
    }

    /// Transfers `token_id` to `receiver_id`.  The caller must be the owner
    /// or hold an approval on the token; the receiver must differ from the
    /// owner; and when `enforce_approval_id` is given, the caller must hold
    /// exactly that approval id.  Every approval on the token is cleared,
    /// whichever path authorized the transfer.
    pub fn nft_transfer(
        &mut self,
        pred_id: &AccountId,
        now_ms: Timestamp,
        receiver_id: &AccountId,
        token_id: TokenId,
        enforce_approval_id: Option<u64>,
        memo: Option<String>,
    ) -> (r: Result<(), Panic>)
        ensures
            final(self).same_config(*old(self)),
            final(self).indexes_ok(),
            r is Err ==> *final(self) == *old(self),
            ({
                let toks = old(self).tokens();
                if !toks.contains_key(token_id) {
                    r matches Err(e) && e@ == (PanicView::TokenIdNotFound { token_id })
                } else if toks[token_id].owner_id != pred_id@ && !toks[
                    token_id
                ].approvals.contains_key(pred_id@) {
                    r matches Err(e) && e@ == (PanicView::SenderNotAuthToTransfer {
                        sender_id: pred_id@,
                    })
                } else if toks[token_id].owner_id == receiver_id@ {
                    r matches Err(e) && e@ == PanicView::ReceiverIsOwner
                } else if (enforce_approval_id matches Some(eid) && !(toks[
                    token_id
                ].approvals.contains_key(pred_id@) && toks[token_id].approvals[
                    pred_id@
                ].aprobados_id == eid)) {
                    r matches Err(e) && e@ == PanicView::EnforceApprovalFailed
                } else {
                    r is Ok
                }
            }),
            r is Ok ==> {
                let t = old(self).tokens()[token_id];
                &&& final(self).tokens() == old(self).tokens().insert(
                    token_id,
                    TokenView {
                        owner_id: receiver_id@,
                        modified_at: now_ms,
                        approvals: Map::empty(),
                        ..t
                    },
                )
                &&& final(self).tickets() == old(self).tickets()
                &&& final(self).mint_count() == old(self).mint_count()
                &&& forall|o: Seq<char>| #[trigger]
                    final(self).owner_tokens(o) == if o == t.owner_id {
                        old(self).owner_tokens(o).remove(token_id)
                    } else if o == receiver_id@ {
                        old(self).owner_tokens(o).insert(token_id)
                    } else {
                        old(self).owner_tokens(o)
                    }
                &&& forall|c: Seq<char>| #[trigger]
                    final(self).creator_gates(c) == old(self).creator_gates(c)
            },
    {
        proof {
            use_type_invariant(&*self);
            (*self).lemma_indexes_ok();
        }
        let idx = match find_key(&self.st.tokens, &token_id) {
            None => {
                return Err(Panic::TokenIdNotFound { token_id });
            },
            Some(i) => i,
        };
        proof {
            lemma_amap_index(self.st.tokens@, idx as int);
        }
        let is_owner = pred_id.eq(&self.st.tokens[idx].1.owner_id);
        let sender_approval = find_key(&self.st.tokens[idx].1.approvals, pred_id);
        proof {
            if sender_approval is Some {
                lemma_amap_index(
                    self.st.tokens@[idx as int].1.approvals@,
                    sender_approval->Some_0 as int,
                );
            }
        }
        if !is_owner && sender_approval.is_none() {
            return Err(Panic::SenderNotAuthToTransfer { sender_id: pred_id.clone() });
        }
        if receiver_id.eq(&self.st.tokens[idx].1.owner_id) {
            return Err(Panic::ReceiverIsOwner);
        }
        if let Some(eid) = enforce_approval_id {
            let held = match sender_approval {
                Some(ai) => self.st.tokens[idx].1.approvals[ai].1.aprobados_id == eid,
                None => false,
            };
            if !held {
                return Err(Panic::EnforceApprovalFailed);
            }
        }
        let mut st = NftSt::dummy();
        core::mem::swap(&mut st, &mut self.st);
        let ghost st0 = st;
        let mut entry = st.tokens.remove(idx);
        let old_owner = entry.1.owner_id.clone();
        entry.1.owner_id = receiver_id.clone();
        entry.1.modified_at = now_ms;
        entry.1.approvals = Vec::new();
        let ghost newtok = entry.1;
        proof {
            lemma_amap_index(st0.tokens@, idx as int);
            lemma_amap_remove(st0.tokens@, idx as int);
            assert(st.tokens@ == st0.tokens@.remove(idx as int));
            assert(!amap(st.tokens@).contains_key(token_id));
            assert(!has_key(st.tokens@, token_id));
        }
        st.tokens.push(entry);
        let ghost addr0 = st.tokens_de_address@;
        proof {
            assert(addr0 == st0.tokens_de_address@);
            assert(st0.owner_tokens_v(old_owner@).contains(token_id));
            assert(set_map(addr0, old_owner@).contains(token_id));
        }
        let removed = assoc_set_remove(&mut st.tokens_de_address, &old_owner, &token_id);
        proof {
            assert(removed);
        }
        assoc_set_insert(&mut st.tokens_de_address, receiver_id, token_id);
        proof {
            assert(st.tokens@ == st0.tokens@.remove(idx as int).push(
                (st0.tokens@[idx as int].0, newtok),
            ));
            lemma_amap_push(st0.tokens@.remove(idx as int), (st0.tokens@[idx as int].0, newtok));
            assert(st.tokens_raw() =~= st0.tokens_raw().insert(token_id, newtok));
            assert forall|o: Seq<char>| #[trigger]
                set_map(st.tokens_de_address@, o) == if o == old_owner@ {
                    set_map(addr0, o).remove(token_id)
                } else if o == receiver_id@ {
                    set_map(addr0, o).insert(token_id)
                } else {
                    set_map(addr0, o)
                } by {}
            lemma_transfer_wf(st0, st, token_id, newtok, old_owner@, receiver_id@);
            lemma_vmap_insert(st0.tokens_raw(), token_id, newtok);
        }
        self.st = st;
        proof {
            (*self).lemma_indexes_ok();
            assert(newtok@.approvals =~= Map::<Seq<char>, TokenApproval>::empty());
            assert(newtok@ == (TokenView {
                owner_id: receiver_id@,
                modified_at: now_ms,
                approvals: Map::empty(),
                ..old(self).tokens()[token_id]
            }));
        }
        Ok(())
    }

    /// Splits a sale of `balance` over `token_id` into the royalty for the
    /// collectible's creator, the platform fee, and the remainder for the
    /// current owner, merging entries whose accounts coincide.  The entries
    /// always sum to exactly `balance`.
    pub fn nft_payout(&self, token_id: TokenId, balance: u128) -> (r: Result<Payout, Panic>)
        ensures
            r is Ok <==> self.tokens().contains_key(token_id),
            !self.tokens().contains_key(token_id) ==> (r matches Err(e) && e@
                == (PanicView::TokenIdNotFound { token_id })),
            r matches Ok(p) ==> ({
                let t = self.tokens()[token_id];
                let c = self.tickets()[t.gate_id];
                let royalty = c.comision.spec_mult(balance);
                let fee = self.fee().spec_mult(balance);
                &&& self.tickets().contains_key(t.gate_id)
                &&& keys_distinct(p@)
                &&& amap(p@) == payout_map_spec(
                    c.id_creador,
                    self.fee_account(),
                    t.owner_id,
                    royalty as u128,
                    fee as u128,
                    (balance - royalty - fee) as u128,
                )
                &&& payout_sum(p@) == balance
                &&& p@.len() <= 3
            }),
    {
        proof {
            use_type_invariant(&*self);
        }
        let idx = match find_key(&self.st.tokens, &token_id) {
            None => {
                return Err(Panic::TokenIdNotFound { token_id });
            },
            Some(i) => i,
        };
        proof {
            lemma_amap_index(self.st.tokens@, idx as int);
        }
        let gate = &self.st.tokens[idx].1.gate_id;
        let ti = match find_key(&self.st.tickets, gate) {
            Some(ti) => ti,
            None => {
                proof {
                    assert(self.st.tickets_raw().contains_key(gate@));
                    assert(false);
                }
                unreached()
            },
        };
        proof {
            lemma_amap_index(self.st.tickets@, ti as int);
        }
        let royalty = self.st.tickets[ti].1.comision.mult(balance);
        let fee = self.st.fee_reventa.mult(balance);
        proof {
            crate::fraction::lemma_shares_leave_remainder(
                self.st.tickets@[ti as int].1.comision,
                self.st.fee_reventa,
                balance,
            );
        }
        let owner_amount = balance - royalty - fee;
        let mut payout: Payout = Vec::new();
        proof {
            assert(amap(payout@) =~= Map::<Seq<char>, u128>::empty());
        }
        payout_add(&mut payout, self.st.tickets[ti].1.id_creador.clone(), royalty);
        payout_add(&mut payout, self.st.fee_reventa_id_address.clone(), fee);
        payout_add(&mut payout, self.st.tokens[idx].1.owner_id.clone(), owner_amount);
        Ok(payout)
    }

    /// Computes the payout for a sale of `balance` (when one is given) and
    /// then performs the transfer.  The payout reflects the owner before the
    /// transfer; it is returned only when `balance` was supplied, while the
    /// transfer happens regardless.
    pub fn nft_transfer_payout(
        &mut self,
        pred_id: &AccountId,
        now_ms: Timestamp,
        receiver_id: &AccountId,
        token_id: TokenId,
        aprobados_id: Option<u64>,
        memo: Option<String>,
        balance: Option<u128>,
    ) -> (r: Result<Option<Payout>, Panic>)
        ensures
            final(self).same_config(*old(self)),
            final(self).indexes_ok(),
            r is Err ==> *final(self) == *old(self),
            ({
                let toks = old(self).tokens();
                if balance is Some && !toks.contains_key(token_id) {
                    r matches Err(e) && e@ == (PanicView::TokenIdNotFound { token_id })
                } else if !toks.contains_key(token_id) {
                    r matches Err(e) && e@ == (PanicView::TokenIdNotFound { token_id })
                } else if toks[token_id].owner_id != pred_id@ && !toks[
                    token_id
                ].approvals.contains_key(pred_id@) {
                    r matches Err(e) && e@ == (PanicView::SenderNotAuthToTransfer {
                        sender_id: pred_id@,
                    })
                } else if toks[token_id].owner_id == receiver_id@ {
                    r matches Err(e) && e@ == PanicView::ReceiverIsOwner
                } else if (aprobados_id matches Some(eid) && !(toks[
                    token_id
                ].approvals.contains_key(pred_id@) && toks[token_id].approvals[
                    pred_id@
                ].aprobados_id == eid)) {
                    r matches Err(e) && e@ == PanicView::EnforceApprovalFailed
                } else {
                    r is Ok
                }
            }),
            r matches Ok(op) ==> {
                let t = old(self).tokens()[token_id];
                let c = old(self).tickets()[t.gate_id];
                &&& (op is Some <==> balance is Some)
                &&& (balance matches Some(b) ==> (op matches Some(p) && {
                    let royalty = c.comision.spec_mult(b);
                    let fee = old(self).fee().spec_mult(b);
                    &&& keys_distinct(p@)
                    &&& amap(p@) == payout_map_spec(
                        c.id_creador,
                        old(self).fee_account(),
                        t.owner_id,
                        royalty as u128,
                        fee as u128,
                        (b - royalty - fee) as u128,
                    )
                    &&& payout_sum(p@) == b
                }))
                &&& final(self).tokens() == old(self).tokens().insert(
                    token_id,
                    TokenView {
                        owner_id: receiver_id@,
                        modified_at: now_ms,
                        approvals: Map::empty(),
                        ..t
                    },
                )
                &&& final(self).tickets() == old(self).tickets()
                &&& final(self).mint_count() == old(self).mint_count()
                &&& forall|o: Seq<char>| #[trigger]
                    final(self).owner_tokens(o) == if o == t.owner_id {
                        old(self).owner_tokens(o).remove(token_id)
                    } else if o == receiver_id@ {
                        old(self).owner_tokens(o).insert(token_id)
                    } else {
                        old(self).owner_tokens(o)
                    }
                &&& forall|c2: Seq<char>| #[trigger]
                    final(self).creator_gates(c2) == old(self).creator_gates(c2)
            },
    {
        proof {
            use_type_invariant(&*self);
            (*self).lemma_indexes_ok();
        }
        let payout = match balance {
            Some(b) => {
                match self.nft_payout(token_id, b) {
                    Ok(p) => Some(p),
                    Err(e) => {
                        return Err(e);
                    },
                }
            },
            None => None,
        };
        match self.nft_transfer(pred_id, now_ms, receiver_id, token_id, aprobados_id, memo) {
            Ok(u) => Ok(payout),
            Err(e) => Err(e),
        }
    }

    /// Approves up to 10 `(token id, minimum price)` pairs for one spender in
    /// a single call.  Each pair is handled independently: failing pairs are
    /// reported as data while the state changes of successful pairs persist.
    /// Returns the successful pairs' listing payloads — to send to the
    /// marketplace in one batch — and the per-token failures, which the
    /// caller hands to [`ContratoNft::resolve_batch_approve`] once the batch
    /// notification has settled.
    pub fn aprobar_por_lote(
        &mut self,
        pred_id: &AccountId,
        tokens: Vec<(TokenId, u128)>,
        account_id: &AccountId,
    ) -> (r: Result<(Vec<(TokenId, MarketApproveMsg)>, Vec<(TokenId, Panic)>), Panic>)
        requires
            forall|k: int|
                0 <= k < tokens@.len() ==> (old(self).tokens().contains_key(
                    (#[trigger] tokens@[k]).0,
                ) ==> old(self).tokens()[tokens@[k].0].approval_counter < u64::MAX),
        ensures
            final(self).same_config(*old(self)),
            final(self).indexes_ok(),
            r is Err ==> *final(self) == *old(self),
            tokens@.len() <= 10 ==> r is Ok,
            tokens@.len() > 10 <==> (r matches Err(e) && e@ == PanicView::ExceedTokensToBatchApprove),
            r matches Ok(out) ==> ({
                let spec_oks = lote_oks(
                    old(self).tokens(),
                    old(self).tickets(),
                    tokens@,
                    pred_id@,
                    account_id@,
                );
                let spec_errs = lote_errs(old(self).tokens(), tokens@, pred_id@, account_id@);
                &&& final(self).tokens() == lote_fold(
                    old(self).tokens(),
                    tokens@,
                    pred_id@,
                    account_id@,
                )
                &&& out.0@.len() == spec_oks.len()
                &&& forall|i: int|
                    0 <= i < out.0@.len() ==> ((#[trigger] out.0@[i]).0 == spec_oks[i].0
                        && out.0@[i].1@ == spec_oks[i].1)
                &&& out.1@.len() == spec_errs.len()
                &&& forall|i: int|
                    0 <= i < out.1@.len() ==> ((#[trigger] out.1@[i]).0 == spec_errs[i].0
                        && out.1@[i].1@ == spec_errs[i].1)
                &&& final(self).tickets() == old(self).tickets()
                &&& final(self).mint_count() == old(self).mint_count()
                &&& forall|o: Seq<char>| #[trigger]
                    final(self).owner_tokens(o) == old(self).owner_tokens(o)
                &&& forall|c: Seq<char>| #[trigger]
                    final(self).creator_gates(c) == old(self).creator_gates(c)
            }),
    {
        proof {
            use_type_invariant(&*self);
            (*self).lemma_indexes_ok();
        }
        if tokens.len() > 10 {
            return Err(Panic::ExceedTokensToBatchApprove);
        }
        let mut st = NftSt::dummy();
        core::mem::swap(&mut st, &mut self.st);
        let ghost st0 = st;
        let ghost toks0 = vmap(st0.tokens_raw());
        let ghost tickets0 = vmap(st0.tickets_raw());
        let mut oks: Vec<(TokenId, MarketApproveMsg)> = Vec::new();
        let mut errs: Vec<(TokenId, Panic)> = Vec::new();
        let n = tokens.len();
        let mut k: usize = 0;
        while k < n
            invariant
                k <= n,
                n == tokens@.len(),
                st.wf(),
                st.tickets@ == st0.tickets@,
                st.tickets_de_creador@ == st0.tickets_de_creador@,
                st.tokens_de_address@ == st0.tokens_de_address@,
                st.id_admin == st0.id_admin,
                st.metadata == st0.metadata,
                st.fee_reventa == st0.fee_reventa,
                st.fee_reventa_id_address == st0.fee_reventa_id_address,
                st.tokens@.len() == st0.tokens@.len(),
                toks0 == vmap(st0.tokens_raw()),
                tickets0 == vmap(st0.tickets_raw()),
                vmap(st.tokens_raw()) == lote_fold(
                    toks0,
                    tokens@.take(k as int),
                    pred_id@,
                    account_id@,
                ),
                oks@.len() == lote_oks(
                    toks0,
                    tickets0,
                    tokens@.take(k as int),
                    pred_id@,
                    account_id@,
                ).len(),
                forall|i: int|
                    0 <= i < oks@.len() ==> ((#[trigger] oks@[i]).0 == lote_oks(
                        toks0,
                        tickets0,
                        tokens@.take(k as int),
                        pred_id@,
                        account_id@,
                    )[i].0 && oks@[i].1@ == lote_oks(
                        toks0,
                        tickets0,
                        tokens@.take(k as int),
                        pred_id@,
                        account_id@,
                    )[i].1),
                errs@.len() == lote_errs(
                    toks0,
                    tokens@.take(k as int),
                    pred_id@,
                    account_id@,
                ).len(),
                forall|i: int|
                    0 <= i < errs@.len() ==> ((#[trigger] errs@[i]).0 == lote_errs(
                        toks0,
                        tokens@.take(k as int),
                        pred_id@,
                        account_id@,
                    )[i].0 && errs@[i].1@ == lote_errs(
                        toks0,
                        tokens@.take(k as int),
                        pred_id@,
                        account_id@,
                    )[i].1),
                forall|m: int|
                    0 <= m < tokens@.len() ==> (toks0.contains_key((#[trigger] tokens@[m]).0)
                        ==> toks0[tokens@[m].0].approval_counter < u64::MAX),
            decreases n - k,
        {
            let (tid, price) = tokens[k];
            let ghost taken = tokens@.take(k as int);
            let ghost cur = vmap(st.tokens_raw());
            proof {
                lemma_lote_fold_untouched(toks0, taken, pred_id@, account_id@);
                if aprobar_outcome(cur, tid, pred_id@) is Ok {
                    assert(cur.contains_key(tid));
                    assert(no_approvals(cur[tid]));
                    assert(cur[tid] == toks0[tid]);
                    assert(tokens@[k as int].0 == tid);
                }
            }
            let step = st.aprobar(tid, pred_id, account_id, price);
            proof {
                assert(tokens@.take(k + 1).drop_last() =~= taken);
                assert(tokens@.take(k + 1).last() == tokens@[k as int]);
            }
            match step {
                Ok(msg) => {
                    oks.push((tid, msg));
                },
                Err(e) => {
                    errs.push((tid, e));
                },
            }
            k += 1;
        }
        proof {
            assert(tokens@.take(n as int) =~= tokens@);
        }
        self.st = st;
        proof {
            (*self).lemma_indexes_ok();
        }
        Ok((oks, errs))
    }

    /// Settles a batch approval: raises the aggregate failure, listing every
    /// per-token error, when either the batch notification failed or any
    /// pair failed locally.  State changes of successful pairs persist either
    /// way.
    pub fn resolve_batch_approve(errs: Vec<(TokenId, Panic)>, batch_notification_ok: bool) -> (r:
        Result<(), Panic>)
        ensures
            r is Ok <==> (batch_notification_ok && errs@.len() == 0),
            r matches Err(e) ==> (e matches Panic::Errors { panics } && panics.0@ == errs@),
    {
        if batch_notification_ok && errs.len() == 0 {
            Ok(())
        } else {
            Err(Panic::Errors { panics: Panics(errs) })
        }
    }

    /// The view of a stored token with its display metadata joined in from
    /// its collectible.
    pub open spec fn joined_token(self, tid: TokenId) -> TokenView {
        let tv = self.tokens()[tid];
        TokenView { metadata: self.tickets()[tv.gate_id].metadata, ..tv }
    }

    /// Returns the token at a table position, metadata joined in.
    fn join_token_at(&self, idx: usize) -> (t: Token)
        requires
            self.st.wf(),
            idx < self.st.tokens@.len(),
        ensures
            t.token_id == self.st.tokens@[idx as int].0,
            self.tokens().contains_key(t.token_id),
            t@ == self.joined_token(t.token_id),
            t.approvals_wf(),
    {
        proof {
            lemma_amap_index(self.st.tokens@, idx as int);
        }
        let mut token = self.st.tokens[idx].1.clone_token();
        let gate = &self.st.tokens[idx].1.gate_id;
        let ti = match find_key(&self.st.tickets, gate) {
            Some(ti) => ti,
            None => {
                proof {
                    assert(self.st.tickets_raw().contains_key(gate@));
                    assert(false);
                }
                unreached()
            },
        };
        proof {
            lemma_amap_index(self.st.tickets@, ti as int);
        }
        token.metadata = self.st.tickets[ti].1.metadata.clone_meta();
        token
    }

    /// Returns the token with the given id, its metadata joined in from its
    /// collectible, or nothing when no such token exists.
    fn get_token(&self, token_id: TokenId) -> (r: Option<Token>)
        requires
            self.st.wf(),
        ensures
            r is Some <==> self.tokens().contains_key(token_id),
            r matches Some(t) ==> t@ == self.joined_token(token_id) && t.token_id == token_id
                && t.approvals_wf(),
    {
        match find_key(&self.st.tokens, &token_id) {
            Some(i) => {
                proof {
                    lemma_amap_index(self.st.tokens@, i as int);
                }
                Some(self.join_token_at(i))
            },
            None => None,
        }
    }

    /// Returns the token with the given id, its metadata joined in from its
    /// collectible, or nothing when no such token exists.
    pub fn nft_token(&self, token_id: TokenId) -> (r: Option<Token>)
        ensures
            r is Some <==> self.tokens().contains_key(token_id),
            r matches Some(t) ==> t@ == self.joined_token(token_id) && t.token_id == token_id
                && t.approvals_wf(),
    {
        proof {
            use_type_invariant(&*self);
        }
        self.get_token(token_id)
    }

    /// Returns every token owned by `owner_id`, metadata joined in.
    pub fn get_tokens_de_dueno(&self, owner_id: &AccountId) -> (r: Vec<Token>)
        ensures
            r@.len() == self.owner_tokens(owner_id@).len(),
            forall|i: int| 0 <= i < r@.len() ==> {
                let t = #[trigger] r@[i];
                &&& self.tokens().contains_key(t.token_id)
                &&& t@ == self.joined_token(t.token_id)
                &&& t@.owner_id == owner_id@
                &&& self.owner_tokens(owner_id@).contains(t.token_id)
            },
            forall|tid: TokenId|
                self.owner_tokens(owner_id@).contains(tid) ==> exists|i: int|
                    0 <= i < r@.len() && (#[trigger] r@[i]).token_id == tid,
            forall|i: int, j: int| 0 <= i < j < r@.len() ==> r@[i].token_id != r@[j].token_id,
    {
        proof {
            use_type_invariant(&*self);
            (*self).lemma_indexes_ok();
        }
        let mut result: Vec<Token> = Vec::new();
        let lst = match find_key(&self.st.tokens_de_address, owner_id) {
            None => {
                proof {
                    assert(self.owner_tokens(owner_id@) =~= Set::<TokenId>::empty());
                    assert(Set::<TokenId>::empty().len() == 0);
                }
                return result;
            },
            Some(i) => {
                proof {
                    lemma_amap_index(self.st.tokens_de_address@, i as int);
                }
                &self.st.tokens_de_address[i].1
            },
        };
        proof {
            lemma_eset_len(lst@);
        }
        let n = lst.len();
        let mut j: usize = 0;
        while j < n
            invariant
                j <= n,
                n == lst@.len(),
                self.st.wf(),
                self.indexes_ok(),
                self.owner_tokens(owner_id@) == eset(lst@),
                elems_distinct(lst@),
                result@.len() == j,
                forall|m: int| 0 <= m < j ==> (#[trigger] result@[m]).token_id == lst@[m],
                forall|m: int| 0 <= m < j ==> {
                    let t = #[trigger] result@[m];
                    self.tokens().contains_key(t.token_id) && t@ == self.joined_token(t.token_id)
                        && t@.owner_id == owner_id@
                },
            decreases n - j,
        {
            let tid = lst[j];
            proof {
                assert(eset(lst@).contains(lst@[j as int])) by {
                    assert(elem_seq(lst@)[j as int] == lst@[j as int]);
                }
                assert(self.owner_tokens(owner_id@).contains(tid));
            }
            let token = match self.get_token(tid) {
                Some(t) => t,
                None => {
                    proof {
                        assert(false);
                    }
                    unreached()
                },
            };
            result.push(token);
            j += 1;
        }
        proof {
            assert forall|tid: TokenId|
                self.owner_tokens(owner_id@).contains(tid) implies exists|i: int|
                0 <= i < result@.len() && (#[trigger] result@[i]).token_id == tid by {
                let m = choose|m: int| 0 <= m < elem_seq(lst@).len() && elem_seq(lst@)[m] == tid;
                assert(result@[m].token_id == lst@[m]);
                assert(lst@[m] == elem_seq(lst@)[m]);
            }
            assert forall|i: int, j2: int|
                0 <= i < j2 < result@.len() implies result@[i].token_id
                != result@[j2].token_id by {
                assert(result@[i].token_id == elem_seq(lst@)[i]);
                assert(result@[j2].token_id == elem_seq(lst@)[j2]);
            }
        }
        result
    }

    /// How many tokens `account_id` owns.
    pub fn nft_supply_for_owner(&self, account_id: &AccountId) -> (r: u64)
        ensures
            r == self.owner_tokens(account_id@).len(),
    {
        proof {
            use_type_invariant(&*self);
        }
        match find_key(&self.st.tokens_de_address, account_id) {
            None => {
                proof {
                    assert(self.owner_tokens(account_id@) =~= Set::<TokenId>::empty());
                    assert(Set::<TokenId>::empty().len() == 0);
                }
                0
            },
            Some(i) => {
                proof {
                    lemma_amap_index(self.st.tokens_de_address@, i as int);
                    lemma_eset_len(self.st.tokens_de_address@[i as int].1@);
                }
                self.st.tokens_de_address[i].1.len() as u64
            },
        }
    }

    /// A page of the token table: up to `limit` tokens starting at position
    /// `from_index`, metadata joined in.
    pub fn nft_tokens(&self, from_index: Option<u64>, limit: Option<u32>) -> (r: Vec<Token>)
        ensures
            r@.len() == page_len(self.mint_count(), from_index, limit),
            forall|i: int| 0 <= i < r@.len() ==> {
                let t = #[trigger] r@[i];
                self.tokens().contains_key(t.token_id) && t@ == self.joined_token(t.token_id)
            },
            forall|i: int, j: int| 0 <= i < j < r@.len() ==> r@[i].token_id != r@[j].token_id,
    {
        proof {
            use_type_invariant(&*self);
        }
        let mut result: Vec<Token> = Vec::new();
        let total = self.st.tokens.len();
        let start: usize = match from_index {
            Some(x) => {
                if x >= total as u64 {
                    return result;
                }
                x as usize
            },
            None => 0,
        };
        let cap: usize = match limit {
            Some(l) => l as usize,
            None => u32::MAX as usize,
        };
        let mut i: usize = start;
        while i < total && result.len() < cap
            invariant
                start <= i <= total,
                total == self.st.tokens@.len(),
                self.st.wf(),
                result@.len() == i - start,
                result@.len() <= cap,
                forall|m: int| 0 <= m < result@.len() ==> (#[trigger] result@[m]).token_id
                    == self.st.tokens@[start + m].0,
                forall|m: int| 0 <= m < result@.len() ==> {
                    let t = #[trigger] result@[m];
                    self.tokens().contains_key(t.token_id) && t@ == self.joined_token(t.token_id)
                },
            decreases total - i,
        {
            result.push(self.join_token_at(i));
            i += 1;
        }
        proof {
            assert forall|m: int, m2: int|
                0 <= m < m2 < result@.len() implies result@[m].token_id
                != result@[m2].token_id by {
                assert(result@[m].token_id == self.st.tokens@[start + m].0);
                assert(result@[m2].token_id == self.st.tokens@[start + m2].0);
                assert(crate::store::key_seq(self.st.tokens@)[start + m] == self.st.tokens@[start
                    + m].0@);
                assert(crate::store::key_seq(self.st.tokens@)[start + m2] == self.st.tokens@[start
                    + m2].0@);
            }
        }
        result
    }

    /// A page of the tokens `account_id` owns: up to `limit` entries of the
    /// owner's list starting at `from_index`, metadata joined in.
    pub fn nft_tokens_for_owner(
        &self,
        account_id: &AccountId,
        from_index: Option<u64>,
        limit: Option<u32>,
    ) -> (r: Vec<Token>)
        ensures
            r@.len() == page_len(self.owner_tokens(account_id@).len(), from_index, limit),
            forall|i: int| 0 <= i < r@.len() ==> {
                let t = #[trigger] r@[i];
                &&& self.tokens().contains_key(t.token_id)
                &&& t@ == self.joined_token(t.token_id)
                &&& t@.owner_id == account_id@
                &&& self.owner_tokens(account_id@).contains(t.token_id)
            },
            forall|i: int, j: int| 0 <= i < j < r@.len() ==> r@[i].token_id != r@[j].token_id,
    {
        proof {
            use_type_invariant(&*self);
            (*self).lemma_indexes_ok();
        }
        let mut result: Vec<Token> = Vec::new();
        let lst = match find_key(&self.st.tokens_de_address, account_id) {
            None => {
                proof {
                    assert(self.owner_tokens(account_id@) =~= Set::<TokenId>::empty());
                    assert(Set::<TokenId>::empty().len() == 0);
                }
                return result;
            },
            Some(i) => {
                proof {
                    lemma_amap_index(self.st.tokens_de_address@, i as int);
                }
                &self.st.tokens_de_address[i].1
            },
        };
        proof {
            lemma_eset_len(lst@);
        }
        let total = lst.len();
        let start: usize = match from_index {
            Some(x) => {
                if x >= total as u64 {
                    return result;
                }
                x as usize
            },
            None => 0,
        };
        let cap: usize = match limit {
            Some(l) => l as usize,
            None => u32::MAX as usize,
        };
        let mut i: usize = start;
        while i < total && result.len() < cap
            invariant
                start <= i <= total,
                total == lst@.len(),
                self.st.wf(),
                self.indexes_ok(),
                self.owner_tokens(account_id@) == eset(lst@),
                elems_distinct(lst@),
                result@.len() == i - start,
                result@.len() <= cap,
                forall|m: int| 0 <= m < result@.len() ==> (#[trigger] result@[m]).token_id
                    == lst@[start + m],
                forall|m: int| 0 <= m < result@.len() ==> {
                    let t = #[trigger] result@[m];
                    &&& self.tokens().contains_key(t.token_id)
                    &&& t@ == self.joined_token(t.token_id)
                    &&& t@.owner_id == account_id@
                    &&& self.owner_tokens(account_id@).contains(t.token_id)
                },
            decreases total - i,
        {
            let tid = lst[i];
            proof {
                assert(eset(lst@).contains(lst@[i as int])) by {
                    assert(elem_seq(lst@)[i as int] == lst@[i as int]);
                }
                assert(self.owner_tokens(account_id@).contains(tid));
            }
            let token = match self.get_token(tid) {
                Some(t) => t,
                None => {
                    proof {
                        assert(false);
                    }
                    unreached()
                },
            };
            result.push(token);
            i += 1;
        }
        proof {
            assert forall|m: int, m2: int|
                0 <= m < m2 < result@.len() implies result@[m].token_id
                != result@[m2].token_id by {
                assert(result@[m].token_id == lst@[start + m]);
                assert(result@[m2].token_id == lst@[start + m2]);
                assert(elem_seq(lst@)[start + m] == lst@[start + m]);
                assert(elem_seq(lst@)[start + m2] == lst@[start + m2]);
            }
        }
        result
    }

    /// The URI of a token: the contract's base URI, a slash unless the base
    /// already ends with one, and the token's gate id.  Nothing when the
    /// contract has no base URI or the token does not exist.
    pub fn nft_token_uri(&self, token_id: TokenId) -> (r: Option<String>)
        ensures
            r is Some <==> (self.contract_metadata().base_uri is Some && self.tokens().contains_key(
                token_id,
            )),
            r matches Some(u) ==> (self.contract_metadata().base_uri matches Some(base) && {
                let gid = self.tokens()[token_id].gate_id;
                if base.len() > 0 && base[base.len() - 1] == '/' {
                    u@ == base + gid
                } else {
                    u@ == base + "/"@ + gid
                }
            }),
    {
        proof {
            use_type_invariant(&*self);
        }
        let uri = match &self.st.metadata.base_uri {
            None => {
                return None;
            },
            Some(uri) => uri,
        };
        let idx = match find_key(&self.st.tokens, &token_id) {
            None => {
                return None;
            },
            Some(i) => i,
        };
        proof {
            lemma_amap_index(self.st.tokens@, idx as int);
        }
        let base = uri.as_str();
        let n = base.unicode_len();
        let ends_with_slash = if n > 0 {
            base.get_char(n - 1) == '/'
        } else {
            false
        };
        let mut s = uri.clone();
        if !ends_with_slash {
            s = s.concat("/");
        }
        let out = s.concat(self.st.tokens[idx].1.gate_id.as_str());
        Some(out)
    }

    /// Returns every collectible created by `id_creador`, one entry per gate
    /// listed in the creator index.
    pub fn get_tickets_de_creador(&self, id_creador: &AccountId) -> (r: Vec<Collectible>)
        ensures
            r@.len() == self.creator_gates(id_creador@).len(),
            forall|i: int| 0 <= i < r@.len() ==> {
                let cv = (#[trigger] r@[i])@;
                &&& self.tickets().contains_key(cv.gate_id)
                &&& self.tickets()[cv.gate_id] == cv
                &&& cv.id_creador == id_creador@
                &&& self.creator_gates(id_creador@).contains(cv.gate_id)
            },
            forall|g: Seq<char>|
                self.creator_gates(id_creador@).contains(g) ==> exists|i: int|
                    0 <= i < r@.len() && (#[trigger] r@[i])@.gate_id == g,
            forall|i: int, j: int| 0 <= i < j < r@.len() ==> r@[i]@.gate_id != r@[j]@.gate_id,
    {
        proof {
            use_type_invariant(&*self);
            (*self).lemma_indexes_ok();
        }
        let mut result: Vec<Collectible> = Vec::new();
        let lst = match find_key(&self.st.tickets_de_creador, id_creador) {
            None => {
                proof {
                    assert(self.creator_gates(id_creador@) =~= Set::<Seq<char>>::empty());
                    assert(Set::<Seq<char>>::empty().len() == 0);
                }
                return result;
            },
            Some(i) => {
                proof {
                    lemma_amap_index(self.st.tickets_de_creador@, i as int);
                }
                &self.st.tickets_de_creador[i].1
            },
        };
        proof {
            lemma_eset_len(lst@);
        }
        let n = lst.len();
        let mut j: usize = 0;
        while j < n
            invariant
                j <= n,
                n == lst@.len(),
                self.st.wf(),
                self.creator_gates(id_creador@) == eset(lst@),
                elems_distinct(lst@),
                result@.len() == j,
                forall|m: int| 0 <= m < j ==> (#[trigger] result@[m])@.gate_id == lst@[m]@,
                forall|m: int| 0 <= m < j ==> {
                    let cv = (#[trigger] result@[m])@;
                    self.tickets().contains_key(cv.gate_id) && self.tickets()[cv.gate_id] == cv
                        && cv.id_creador == id_creador@
                },
            decreases n - j,
        {
            let g = &lst[j];
            proof {
                assert(eset(lst@).contains(lst@[j as int]@)) by {
                    assert(elem_seq(lst@)[j as int] == lst@[j as int]@);
                }
                assert(self.creator_gates(id_creador@).contains(g@));
            }
            let ti = match find_key(&self.st.tickets, g) {
                Some(ti) => ti,
                None => {
                    proof {
                        assert(self.st.tickets_raw().contains_key(g@));
                        assert(false);
                    }
                    unreached()
                },
            };
            proof {
                lemma_amap_index(self.st.tickets@, ti as int);
            }
            result.push(self.st.tickets[ti].1.clone_collectible());
            j += 1;
        }
        proof {
            assert forall|g: Seq<char>|
                self.creator_gates(id_creador@).contains(g) implies exists|i: int|
                0 <= i < result@.len() && (#[trigger] result@[i])@.gate_id == g by {
                let m = choose|m: int| 0 <= m < elem_seq(lst@).len() && elem_seq(lst@)[m] == g;
                assert(result@[m]@.gate_id == lst@[m]@);
                assert(lst@[m]@ == elem_seq(lst@)[m]);
            }
            assert forall|i: int, j2: int|
                0 <= i < j2 < result@.len() implies result@[i]@.gate_id != result@[j2]@.gate_id by {
                assert(result@[i]@.gate_id == elem_seq(lst@)[i]);
                assert(result@[j2]@.gate_id == elem_seq(lst@)[j2]);
            }
        }
        result
    }

    /// Returns the collectible with the given gate id, if one exists.
    pub fn get_ticket_por_id(&self, gate_id: &ValidGateId) -> (r: Option<Collectible>)
        ensures
            r is Some <==> self.tickets().contains_key(gate_id@),
            match r {
                Some(c) => c@ == self.tickets()[gate_id@],
                None => true,
            },
    {
        proof {
            use_type_invariant(&*self);
        }
        let gid = gate_id.to_string();
        match find_key(&self.st.tickets, &gid) {
            Some(i) => {
                proof {
                    lemma_amap_index(self.st.tickets@, i as int);
                }
                Some(self.st.tickets[i].1.clone_collectible())
            },
            None => None,
        }
    }

    /// The total number of tokens ever minted.
    pub fn nft_total_supply(&self) -> (r: u64)
        ensures
            r == self.mint_count(),
            r == self.tokens().dom().len(),
    {
        proof {
            use_type_invariant(&*self);
            lemma_amap_len(self.st.tokens@);
            assert(self.tokens().dom() =~= self.st.tokens_raw().dom());
        }
        self.st.tokens.len() as u64
    }
}

impl NonFungibleTokenMetadata for ContratoNft {
    open spec fn spec_metadata(&self) -> NFTContractMetadataView {
        self.contract_metadata()
    }

    fn nft_metadata(&self) -> (r: NFTContractMetadata) {
        self.st.metadata.clone_contract_metadata()
    }
}

/// The view of the collectible that a successful `crear_ticket` call stores.
pub open spec fn crear_ticket_view(
    id_creador: Seq<char>,
    gate_id: Seq<char>,
    titulo: Seq<char>,
    descripcion: Seq<char>,
    cantidad: u16,
    comision: Fraction,
    now_ms: Timestamp,
    media: Option<Seq<char>>,
    media_hash: Option<Seq<char>>,
    referencia: Option<Seq<char>>,
    referencia_hash: Option<Seq<char>>,
) -> CollectibleView {
    CollectibleView {
        gate_id,
        id_creador,
        cantidad_actual: cantidad,
        tokens_creados: Seq::empty(),
        comision,
        metadata: MetadataView {
            titulo: Some(titulo),
            descripcion: Some(descripcion),
            media,
            media_hash,
            copias: Some(cantidad),
            emitido_en: Some(now_ms),
            expira_en: None,
            comienzo_en: Some(now_ms),
            actualizado_en: None,
            extra: None,
            referencia,
            referencia_hash,
        },
    }
}

/// The view of a freshly minted token: owned by the claimer, no approvals,
/// counter at zero, timestamps at the minting time.
pub open spec fn minted_token_view(
    tid: TokenId,
    gid: Seq<char>,
    owner: Seq<char>,
    now_ms: Timestamp,
) -> TokenView {
    TokenView {
        token_id: tid,
        gate_id: gid,
        owner_id: owner,
        created_at: now_ms,
        modified_at: now_ms,
        approvals: Map::empty(),
        approval_counter: 0,
        metadata: MetadataView::empty(),
    }
}

/// Minting a fresh token, indexing it under its owner and discounting the
/// collectible's supply preserves the registry invariant.
proof fn lemma_comprar_wf(
    st0: NftSt,
    st1: NftSt,
    token: Token,
    new_ticket: Collectible,
    gid: Seq<char>,
    owner: Seq<char>,
    tid: TokenId,
)
    requires
        st0.wf(),
        st0.tickets_raw().contains_key(gid),
        tid == st0.tokens@.len(),
        token.token_id == tid,
        token.gate_id@ == gid,
        token.owner_id@ == owner,
        token.approvals@.len() == 0,
        ({
            let oldc = st0.tickets_raw()[gid];
            &&& new_ticket.gate_id == oldc.gate_id
            &&& new_ticket.id_creador == oldc.id_creador
            &&& new_ticket.comision == oldc.comision
            &&& new_ticket.tokens_creados@ == oldc.tokens_creados@.push(tid)
        }),
        keys_distinct(st1.tickets@),
        keys_distinct(st1.tokens@),
        st1.tickets_raw() == st0.tickets_raw().insert(gid, new_ticket),
        st1.tokens_raw() == st0.tokens_raw().insert(tid, token),
        st1.tokens@.len() == st0.tokens@.len() + 1,
        set_map_wf(st1.tokens_de_address@),
        forall|o: Seq<char>| #[trigger]
            set_map(st1.tokens_de_address@, o) == if o == owner {
                set_map(st0.tokens_de_address@, o).insert(tid)
            } else {
                set_map(st0.tokens_de_address@, o)
            },
        st1.tickets_de_creador@ == st0.tickets_de_creador@,
        st1.fee_reventa == st0.fee_reventa,
    ensures
        st1.wf(),
{
    assert(!st0.tokens_raw().contains_key(tid));
    assert forall|g: Seq<char>| #[trigger]
        st1.tickets_raw().contains_key(g) implies {
        let c = st1.tickets_raw()[g];
        c.gate_id@ == g && valid_gate_chars(g) && c.comision.valid() && sum_lt_one(
            c.comision,
            st1.fee_reventa,
        )
    } by {
        if g != gid {
            assert(st0.tickets_raw().contains_key(g));
        }
    }
    assert forall|t: TokenId| #[trigger]
        st1.tokens_raw().contains_key(t) implies {
        let tok = st1.tokens_raw()[t];
        tok.token_id == t && keys_distinct(tok.approvals@) && tok.approvals@.len() <= 1 && t
            < st1.tokens@.len()
    } by {
        if t != tid {
            assert(st0.tokens_raw().contains_key(t));
        }
    }
    assert forall|t: TokenId| #[trigger]
        st1.tokens_raw().contains_key(t) implies {
        let tok = st1.tokens_raw()[t];
        st1.tickets_raw().contains_key(tok.gate_id@) && st1.tickets_raw()[
            tok.gate_id@
        ].tokens_creados@.contains(t)
    } by {
        let oldc = st0.tickets_raw()[gid];
        if t == tid {
            assert(new_ticket.tokens_creados@[oldc.tokens_creados@.len() as int] == tid);
            assert(new_ticket.tokens_creados@.contains(tid));
        } else {
            assert(st0.tokens_raw().contains_key(t));
            let tok = st0.tokens_raw()[t];
            if tok.gate_id@ == gid {
                let k = choose|k: int|
                    0 <= k < oldc.tokens_creados@.len() && oldc.tokens_creados@[k] == t;
                assert(new_ticket.tokens_creados@[k] == t);
                assert(new_ticket.tokens_creados@.contains(t));
            } else {
                assert(st1.tickets_raw()[tok.gate_id@] == st0.tickets_raw()[tok.gate_id@]);
            }
        }
    }
    assert forall|o: Seq<char>, t: TokenId| #[trigger]
        st1.owner_tokens_v(o).contains(t) <==> (st1.tokens_raw().contains_key(t)
            && st1.tokens_raw()[t].owner_id@ == o) by {
        assert(st0.owner_tokens_v(o).contains(t) <==> (st0.tokens_raw().contains_key(t)
            && st0.tokens_raw()[t].owner_id@ == o));
        if o == owner {
            assert(st1.owner_tokens_v(o) == st0.owner_tokens_v(o).insert(tid));
        } else {
            assert(st1.owner_tokens_v(o) == st0.owner_tokens_v(o));
        }
    }
    assert forall|c: Seq<char>, g: Seq<char>| #[trigger]
        st1.creator_gates_v(c).contains(g) <==> (st1.tickets_raw().contains_key(g)
            && st1.tickets_raw()[g].id_creador@ == c) by {
        assert(st1.creator_gates_v(c) == st0.creator_gates_v(c));
        assert(st0.creator_gates_v(c).contains(g) <==> (st0.tickets_raw().contains_key(g)
            && st0.tickets_raw()[g].id_creador@ == c));
        if g == gid {
            assert(st1.tickets_raw()[g].id_creador == st0.tickets_raw()[g].id_creador);
        }
    }
}

/// Removing a token-less collectible and unlisting it from its creator's
/// index preserves the registry invariant.
proof fn lemma_borrar_wf(st0: NftSt, st1: NftSt, gid: Seq<char>, creador: Seq<char>)
    requires
        st0.wf(),
        st0.tickets_raw().contains_key(gid),
        st0.tickets_raw()[gid].id_creador@ == creador,
        st0.tickets_raw()[gid].tokens_creados@.len() == 0,
        keys_distinct(st1.tickets@),
        st1.tickets_raw() == st0.tickets_raw().remove(gid),
        set_map_wf(st1.tickets_de_creador@),
        forall|c: Seq<char>| #[trigger]
            set_map(st1.tickets_de_creador@, c) == if c == creador {
                set_map(st0.tickets_de_creador@, c).remove(gid)
            } else {
                set_map(st0.tickets_de_creador@, c)
            },
        st1.tokens@ == st0.tokens@,
        st1.tokens_de_address@ == st0.tokens_de_address@,
        st1.fee_reventa == st0.fee_reventa,
    ensures
        st1.wf(),
{
    assert forall|g: Seq<char>| #[trigger]
        st1.tickets_raw().contains_key(g) implies {
        let c = st1.tickets_raw()[g];
        c.gate_id@ == g && valid_gate_chars(g) && c.comision.valid() && sum_lt_one(
            c.comision,
            st1.fee_reventa,
        )
    } by {
        assert(st0.tickets_raw().contains_key(g));
    }
    assert forall|t: TokenId| #[trigger]
        st1.tokens_raw().contains_key(t) implies {
        let tok = st1.tokens_raw()[t];
        tok.token_id == t && keys_distinct(tok.approvals@) && tok.approvals@.len() <= 1 && t
            < st1.tokens@.len()
    } by {
        assert(st0.tokens_raw().contains_key(t));
    }
    assert forall|t: TokenId| #[trigger]
        st1.tokens_raw().contains_key(t) implies {
        let tok = st1.tokens_raw()[t];
        st1.tickets_raw().contains_key(tok.gate_id@) && st1.tickets_raw()[
            tok.gate_id@
        ].tokens_creados@.contains(t)
    } by {
        assert(st0.tokens_raw().contains_key(t));
        let tok = st0.tokens_raw()[t];
        if tok.gate_id@ == gid {
            assert(st0.tickets_raw()[gid].tokens_creados@.contains(t));
            let k = choose|k: int|
                0 <= k < st0.tickets_raw()[gid].tokens_creados@.len() && st0.tickets_raw()[
                    gid
                ].tokens_creados@[k] == t;
            assert(false);
        }
        assert(st1.tickets_raw()[tok.gate_id@] == st0.tickets_raw()[tok.gate_id@]);
    }
    assert forall|o: Seq<char>, t: TokenId| #[trigger]
        st1.owner_tokens_v(o).contains(t) <==> (st1.tokens_raw().contains_key(t)
            && st1.tokens_raw()[t].owner_id@ == o) by {
        assert(st1.owner_tokens_v(o) == st0.owner_tokens_v(o));
        assert(st0.owner_tokens_v(o).contains(t) <==> (st0.tokens_raw().contains_key(t)
            && st0.tokens_raw()[t].owner_id@ == o));
    }
    assert forall|c: Seq<char>, g: Seq<char>| #[trigger]
        st1.creator_gates_v(c).contains(g) <==> (st1.tickets_raw().contains_key(g)
            && st1.tickets_raw()[g].id_creador@ == c) by {
        assert(st0.creator_gates_v(c).contains(g) <==> (st0.tickets_raw().contains_key(g)
            && st0.tickets_raw()[g].id_creador@ == c));
        if c == creador {
            assert(st1.creator_gates_v(c) == st0.creator_gates_v(c).remove(gid));
        } else {
            assert(st1.creator_gates_v(c) == st0.creator_gates_v(c));
        }
    }
}

/// Storing a fresh collectible and indexing it under its creator preserves
/// the registry invariant.
proof fn lemma_crear_wf(st0: NftSt, st1: NftSt, ticket: Collectible, creador: Seq<char>, gid: Seq<
    char,
>)
    requires
        st0.wf(),
        !st0.tickets_raw().contains_key(gid),
        keys_distinct(st1.tickets@),
        st1.tickets_raw() == st0.tickets_raw().insert(gid, ticket),
        ticket.gate_id@ == gid,
        ticket.id_creador@ == creador,
        valid_gate_chars(gid),
        ticket.comision.valid(),
        sum_lt_one(ticket.comision, st0.fee_reventa),
        set_map_wf(st1.tickets_de_creador@),
        forall|c: Seq<char>| #[trigger]
            set_map(st1.tickets_de_creador@, c) == if c == creador {
                set_map(st0.tickets_de_creador@, c).insert(gid)
            } else {
                set_map(st0.tickets_de_creador@, c)
            },
        st1.tokens@ == st0.tokens@,
        st1.tokens_de_address@ == st0.tokens_de_address@,
        st1.fee_reventa == st0.fee_reventa,
    ensures
        st1.wf(),
{
    assert forall|g: Seq<char>| #[trigger]
        st1.tickets_raw().contains_key(g) implies {
        let c = st1.tickets_raw()[g];
        c.gate_id@ == g && valid_gate_chars(g) && c.comision.valid() && sum_lt_one(
            c.comision,
            st1.fee_reventa,
        )
    } by {
        if g != gid {
            assert(st0.tickets_raw().contains_key(g));
        }
    }
    assert forall|tid: TokenId| #[trigger]
        st1.tokens_raw().contains_key(tid) implies {
        let t = st1.tokens_raw()[tid];
        st1.tickets_raw().contains_key(t.gate_id@) && st1.tickets_raw()[
            t.gate_id@
        ].tokens_creados@.contains(tid)
    } by {
        let t = st1.tokens_raw()[tid];
        assert(st0.tokens_raw().contains_key(tid));
        assert(st0.tickets_raw().contains_key(t.gate_id@));
        assert(t.gate_id@ != gid);
        assert(st1.tickets_raw()[t.gate_id@] == st0.tickets_raw()[t.gate_id@]);
    }
    assert forall|o: Seq<char>, tid: TokenId| #[trigger]
        st1.owner_tokens_v(o).contains(tid) <==> (st1.tokens_raw().contains_key(tid)
            && st1.tokens_raw()[tid].owner_id@ == o) by {
        assert(st1.owner_tokens_v(o) == st0.owner_tokens_v(o));
        assert(st0.owner_tokens_v(o).contains(tid) <==> (st0.tokens_raw().contains_key(tid)
            && st0.tokens_raw()[tid].owner_id@ == o));
    }
    assert forall|c: Seq<char>, g: Seq<char>| #[trigger]
        st1.creator_gates_v(c).contains(g) <==> (st1.tickets_raw().contains_key(g)
            && st1.tickets_raw()[g].id_creador@ == c) by {
        assert(st0.creator_gates_v(c).contains(g) <==> (st0.tickets_raw().contains_key(g)
            && st0.tickets_raw()[g].id_creador@ == c));
        if c == creador {
            assert(st1.creator_gates_v(c) == st0.creator_gates_v(c).insert(gid));
        } else {
            assert(st1.creator_gates_v(c) == st0.creator_gates_v(c));
            if g == gid {
                assert(st1.tickets_raw()[g] == ticket);
            }
        }
    }
}

/// The token table after a batch of approval requests was applied one by
/// one, each against the state the previous ones left: failing pairs leave
/// the table as it was, successful ones grant their approval.
pub open spec fn lote_fold(
    tokens: Map<TokenId, TokenView>,
    pairs: Seq<(TokenId, u128)>,
    owner: Seq<char>,
    account: Seq<char>,
) -> Map<TokenId, TokenView>
    decreases pairs.len(),
{
    if pairs.len() == 0 {
        tokens
    } else {
        let prev = lote_fold(tokens, pairs.drop_last(), owner, account);
        let p = pairs.last();
        if aprobar_outcome(prev, p.0, owner) is Ok {
            prev.insert(p.0, approved_token_view(prev[p.0], account, p.1))
        } else {
            prev
        }
    }
}

/// The listing payloads a batch of approval requests produces, in order, one
/// per pair that succeeds.
pub open spec fn lote_oks(
    tokens: Map<TokenId, TokenView>,
    tickets: Map<Seq<char>, CollectibleView>,
    pairs: Seq<(TokenId, u128)>,
    owner: Seq<char>,
    account: Seq<char>,
) -> Seq<(TokenId, MarketApproveMsgView)>
    decreases pairs.len(),
{
    if pairs.len() == 0 {
        Seq::empty()
    } else {
        let prev_oks = lote_oks(tokens, tickets, pairs.drop_last(), owner, account);
        let prev = lote_fold(tokens, pairs.drop_last(), owner, account);
        let p = pairs.last();
        if aprobar_outcome(prev, p.0, owner) is Ok {
            prev_oks.push(
                (
                    p.0,
                    MarketApproveMsgView {
                        min_precio: p.1,
                        gate_id: Some(prev[p.0].gate_id),
                        id_creador: Some(tickets[prev[p.0].gate_id].id_creador),
                    },
                ),
            )
        } else {
            prev_oks
        }
    }
}

/// The per-token failures a batch of approval requests produces, in order,
/// one per pair that fails.
pub open spec fn lote_errs(
    tokens: Map<TokenId, TokenView>,
    pairs: Seq<(TokenId, u128)>,
    owner: Seq<char>,
    account: Seq<char>,
) -> Seq<(TokenId, PanicView)>
    decreases pairs.len(),
{
    if pairs.len() == 0 {
        Seq::empty()
    } else {
        let prev_errs = lote_errs(tokens, pairs.drop_last(), owner, account);
        let prev = lote_fold(tokens, pairs.drop_last(), owner, account);
        let p = pairs.last();
        match aprobar_outcome(prev, p.0, owner) {
            Ok(u) => prev_errs,
            Err(pv) => prev_errs.push((p.0, pv)),
        }
    }
}

/// A batch fold keeps the token table's keys, and any token it leaves
/// without approvals it leaves entirely unchanged.
pub proof fn lemma_lote_fold_untouched(
    tokens: Map<TokenId, TokenView>,
    pairs: Seq<(TokenId, u128)>,
    owner: Seq<char>,
    account: Seq<char>,
)
    ensures
        lote_fold(tokens, pairs, owner, account).dom() == tokens.dom(),
        forall|tid: TokenId| #[trigger]
            lote_fold(tokens, pairs, owner, account).contains_key(tid) ==> (lote_fold(
                tokens,
                pairs,
                owner,
                account,
            )[tid] == tokens[tid] || !no_approvals(lote_fold(tokens, pairs, owner, account)[tid])),
    decreases pairs.len(),
{
    if pairs.len() == 0 {
    } else {
        lemma_lote_fold_untouched(tokens, pairs.drop_last(), owner, account);
        let prev = lote_fold(tokens, pairs.drop_last(), owner, account);
        let cur = lote_fold(tokens, pairs, owner, account);
        let p = pairs.last();
        if aprobar_outcome(prev, p.0, owner) is Ok {
            assert(cur.dom() =~= tokens.dom());
            let newtok = approved_token_view(prev[p.0], account, p.1);
            assert(newtok.approvals.dom() =~= Set::empty().insert(account));
            assert(newtok.approvals.dom().len() == 1);
            assert(!no_approvals(newtok));
        }
    }
}

/// How many entries a page holds: at most `limit` (every entry when no limit
/// caps the page), starting at `from_index`, out of `total`.
pub open spec fn page_len(total: nat, from_index: Option<u64>, limit: Option<u32>) -> nat {
    let f = (match from_index {
        Some(x) => x as nat,
        None => 0,
    });
    let l = (match limit {
        Some(x) => x as nat,
        None => u32::MAX as nat,
    });
    if f >= total {
        0
    } else if total - f < l {
        (total - f) as nat
    } else {
        l
    }
}

/// The error [`Fraction::check`] reports for an invalid fraction.
pub open spec fn spec_check_err(f: Fraction) -> CorePanics {
    if f.den == 0 {
        CorePanics::ZeroDenominatorFraction
    } else {
        CorePanics::FractionGreaterThanOne
    }
}

} // verus!
