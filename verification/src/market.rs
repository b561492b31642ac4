//! The marketplace service: sale listings mirrored from approvals, four
//! secondary indexes, and purchase settlement.

use vstd::prelude::*;

verus! {

use crate::core_nft::{opt_str_view, MarketApproveMsg, MarketApproveMsgView, Payout};
use crate::store::{amap, assoc_set_insert, assoc_set_remove, find_key, has_key, keys_distinct,
    lemma_amap_index, lemma_amap_len, lemma_amap_push, lemma_amap_remove, lemma_vmap_insert,
    lemma_vmap_remove, set_map, set_map_wf, vmap, AssocKey};
use crate::{AccountId, GateId, TokenId};

/// Identifies a token across registries: the registry contract that minted
/// it, and the token id within that registry.
#[derive(Debug)]
pub struct TokenKey(pub AccountId, pub TokenId);

impl View for TokenKey {
    type V = (Seq<char>, TokenId);

    open spec fn view(&self) -> (Seq<char>, TokenId) {
        (self.0@, self.1)
    }
}

impl AssocKey for TokenKey {
    fn key_eq(&self, other: &Self) -> (r: bool) {
        self.0.eq(&other.0) && self.1 == other.1
    }

    fn key_clone(&self) -> (r: Self) {
        TokenKey(self.0.clone(), self.1)
    }
}

/// A token listed for sale.
pub struct TokenEnVenta {
    /// The registry contract holding the token.
    pub contrato_id: AccountId,
    /// The token within that registry.
    pub token_id: TokenId,
    /// The seller: the owner that granted the approval behind this listing.
    pub owner_id: AccountId,
    /// The approval id to enforce when the sale settles.
    pub aprobados_id: u64,
    /// The minimum price a buyer must attach.
    pub min_precio: u128,
    /// The collectible of the token, when the approval named it.
    pub gate_id: Option<GateId>,
    /// The creator of that collectible, when the approval named it.
    pub id_creador: Option<AccountId>,
}

/// The view of a [`TokenEnVenta`].
pub struct TokenEnVentaView {
    pub contrato_id: Seq<char>,
    pub token_id: TokenId,
    pub owner_id: Seq<char>,
    pub aprobados_id: u64,
    pub min_precio: u128,
    pub gate_id: Option<Seq<char>>,
    pub id_creador: Option<Seq<char>>,
}

impl View for TokenEnVenta {
    type V = TokenEnVentaView;

    open spec fn view(&self) -> TokenEnVentaView {
        TokenEnVentaView {
            contrato_id: self.contrato_id@,
            token_id: self.token_id,
            owner_id: self.owner_id@,
            aprobados_id: self.aprobados_id,
            min_precio: self.min_precio,
            gate_id: opt_str_view(self.gate_id),
            id_creador: opt_str_view(self.id_creador),
        }
    }
}

impl TokenEnVenta {
    /// Clones the listing, preserving its view.
    pub fn clone_venta(&self) -> (r: TokenEnVenta)
        ensures
            r@ == self@,
    {
        TokenEnVenta {
            contrato_id: self.contrato_id.clone(),
            token_id: self.token_id,
            owner_id: self.owner_id.clone(),
            aprobados_id: self.aprobados_id,
            min_precio: self.min_precio,
            gate_id: crate::core_nft::clone_opt_string(&self.gate_id),
            id_creador: crate::core_nft::clone_opt_string(&self.id_creador),
        }
    }
}

/// Everything that can go wrong in a marketplace call.
#[derive(Debug)]
pub enum Panics {
    /// An inbound approval notification could not be decoded.
    MsgFormatMinPriceMissing { reason: String },
    /// No listing exists under this key.
    TokenKeyNotFound { token_key: TokenKey },
    /// A buyer may not buy their own token.
    BuyOwnTokenNotAllowed,
    /// The attached deposit does not cover the listed minimum price.
    NotEnoughDepositToBuyToken,
}

/// The view of a [`Panics`].
pub enum PanicsView {
    MsgFormatMinPriceMissing { reason: Seq<char> },
    TokenKeyNotFound { token_key: (Seq<char>, TokenId) },
    BuyOwnTokenNotAllowed,
    NotEnoughDepositToBuyToken,
}

impl View for Panics {
    type V = PanicsView;

    open spec fn view(&self) -> PanicsView {
        match self {
            Panics::MsgFormatMinPriceMissing { reason } => PanicsView::MsgFormatMinPriceMissing {
                reason: reason@,
            },
            Panics::TokenKeyNotFound { token_key } => PanicsView::TokenKeyNotFound {
                token_key: token_key@,
            },
            Panics::BuyOwnTokenNotAllowed => PanicsView::BuyOwnTokenNotAllowed,
            Panics::NotEnoughDepositToBuyToken => PanicsView::NotEnoughDepositToBuyToken,
        }
    }
}

/// The remote settlement request a successful purchase issues: the arguments
/// of the registry's transfer-with-payout entry point, to be delivered
/// asynchronously by the runtime.
pub struct SettleRequest {
    /// The registry contract to call.
    pub contrato_id: AccountId,
    /// The buyer, who receives the token.
    pub receiver_id: AccountId,
    /// The token being settled.
    pub token_id: TokenId,
    /// The approval id the registry must hold exactly.
    pub aprobados_id: Option<u64>,
    /// An optional transfer memo; the settlement sends none.
    pub memo: Option<String>,
    /// The attached amount the payout distributes.
    pub balance: Option<u128>,
}

/// The view of the listing stored for an approval notification.
pub open spec fn listing_view(
    contrato: Seq<char>,
    tid: TokenId,
    owner: Seq<char>,
    msg: MarketApproveMsgView,
    aprobados_id: u64,
) -> TokenEnVentaView {
    TokenEnVentaView {
        contrato_id: contrato,
        token_id: tid,
        owner_id: owner,
        aprobados_id,
        min_precio: msg.min_precio,
        gate_id: msg.gate_id,
        id_creador: msg.id_creador,
    }
}

/// The listing table after a batch of approval notifications was stored in
/// order, each an upsert.
pub open spec fn batch_listings(
    listings: Map<(Seq<char>, TokenId), TokenEnVentaView>,
    pairs: Seq<(TokenId, MarketApproveMsg)>,
    owner: Seq<char>,
    contrato: Seq<char>,
) -> Map<(Seq<char>, TokenId), TokenEnVentaView>
    decreases pairs.len(),
{
    if pairs.len() == 0 {
        listings
    } else {
        let p = pairs.last();
        batch_listings(listings, pairs.drop_last(), owner, contrato).insert(
            (contrato, p.0),
            listing_view(contrato, p.0, owner, p.1@, 0),
        )
    }
}

/// The marketplace's backing state, kept apart so methods can move it out,
/// rework it and move it back with the type invariant checked only at the
/// boundary.
struct MercadoSt {
    tokens_en_venta: Vec<(TokenKey, TokenEnVenta)>,
    tokens_por_id: Vec<(AccountId, Vec<TokenId>)>,
    tokens_por_id_gate: Vec<(GateId, Vec<TokenKey>)>,
    tokens_por_id_owner: Vec<(AccountId, Vec<TokenKey>)>,
    tokens_por_id_creador: Vec<(AccountId, Vec<TokenKey>)>,
}

impl MercadoSt {
    /// The listings, keyed by registry contract and token id.
    spec fn ventas_raw(self) -> Map<(Seq<char>, TokenId), TokenEnVenta> {
        amap(self.tokens_en_venta@)
    }

    /// The token ids the per-registry index lists for contract `c`.
    spec fn por_id_v(self, c: Seq<char>) -> Set<TokenId> {
        set_map(self.tokens_por_id@, c)
    }

    /// The listing keys indexed under collectible `g`.
    spec fn gate_v(self, g: Seq<char>) -> Set<(Seq<char>, TokenId)> {
        set_map(self.tokens_por_id_gate@, g)
    }

    /// The listing keys the owner index lists for seller `o`.
    spec fn owner_v(self, o: Seq<char>) -> Set<(Seq<char>, TokenId)> {
        set_map(self.tokens_por_id_owner@, o)
    }

    /// The listing keys the creator index lists for creator `cr`.
    spec fn creador_v(self, cr: Seq<char>) -> Set<(Seq<char>, TokenId)> {
        set_map(self.tokens_por_id_creador@, cr)
    }

    /// Table shape: distinct keys everywhere, and each listing stored under
    /// the key naming its own registry contract and token id.
    spec fn wf_base(self) -> bool {
        &&& keys_distinct(self.tokens_en_venta@)
        &&& set_map_wf(self.tokens_por_id@)
        &&& set_map_wf(self.tokens_por_id_gate@)
        &&& set_map_wf(self.tokens_por_id_owner@)
        &&& set_map_wf(self.tokens_por_id_creador@)
        &&& forall|k: (Seq<char>, TokenId)| #[trigger]
            self.ventas_raw().contains_key(k) ==> {
                let v = self.ventas_raw()[k];
                v.contrato_id@ == k.0 && v.token_id == k.1
            }
    }

    /// Every secondary index lists exactly the listings the primary table
    /// holds for its key.
    spec fn wf_indexes(self) -> bool {
        &&& forall|c: Seq<char>, tid: TokenId| #[trigger]
            self.por_id_v(c).contains(tid) <==> self.ventas_raw().contains_key((c, tid))
        &&& forall|o: Seq<char>, k: (Seq<char>, TokenId)| #[trigger]
            self.owner_v(o).contains(k) <==> (self.ventas_raw().contains_key(k)
                && self.ventas_raw()[k].owner_id@ == o)
        &&& forall|g: Seq<char>, k: (Seq<char>, TokenId)| #[trigger]
            self.gate_v(g).contains(k) <==> (self.ventas_raw().contains_key(k) && opt_str_view(
                self.ventas_raw()[k].gate_id,
            ) == Some(g))
        &&& forall|cr: Seq<char>, k: (Seq<char>, TokenId)| #[trigger]
            self.creador_v(cr).contains(k) <==> (self.ventas_raw().contains_key(k) && opt_str_view(
                self.ventas_raw()[k].id_creador,
            ) == Some(cr))
    }

    /// Full well-formedness of the marketplace state.
    spec fn wf(self) -> bool {
        self.wf_base() && self.wf_indexes()
    }

    /// An empty, trivially well-formed state.
    fn dummy() -> (r: MercadoSt)
        ensures
            r.wf(),
    {
        let r = MercadoSt {
            tokens_en_venta: Vec::new(),
            tokens_por_id: Vec::new(),
            tokens_por_id_gate: Vec::new(),
            tokens_por_id_owner: Vec::new(),
            tokens_por_id_creador: Vec::new(),
        };
        proof {
            lemma_empty_market_wf(r);
        }
        r
    }

    /// Removes the listing at position `idx` from the primary table and from
    /// every secondary index that lists it.  Failing to find an expected
    /// index entry would be a consistency violation; the invariant rules it
    /// out.
    fn remove_listing(&mut self, idx: usize) -> (removed: TokenEnVenta)
        requires
            old(self).wf(),
            idx < old(self).tokens_en_venta@.len(),
        ensures
            final(self).wf(),
            removed == old(self).tokens_en_venta@[idx as int].1,
            ({
                let k = old(self).tokens_en_venta@[idx as int].0@;
                let v = old(self).tokens_en_venta@[idx as int].1;
                &&& final(self).ventas_raw() == old(self).ventas_raw().remove(k)
                &&& forall|c: Seq<char>| #[trigger]
                    final(self).por_id_v(c) == if c == k.0 {
                        old(self).por_id_v(c).remove(k.1)
                    } else {
                        old(self).por_id_v(c)
                    }
                &&& forall|o: Seq<char>| #[trigger]
                    final(self).owner_v(o) == if o == v.owner_id@ {
                        old(self).owner_v(o).remove(k)
                    } else {
                        old(self).owner_v(o)
                    }
                &&& forall|g: Seq<char>| #[trigger]
                    final(self).gate_v(g) == if opt_str_view(v.gate_id) == Some(g) {
                        old(self).gate_v(g).remove(k)
                    } else {
                        old(self).gate_v(g)
                    }
                &&& forall|cr: Seq<char>| #[trigger]
                    final(self).creador_v(cr) == if opt_str_view(v.id_creador) == Some(cr) {
                        old(self).creador_v(cr).remove(k)
                    } else {
                        old(self).creador_v(cr)
                    }
            }),
    {
        let ghost st0 = *self;
        proof {
            lemma_amap_index(st0.tokens_en_venta@, idx as int);
        }
        let (token_key, venta) = self.tokens_en_venta.remove(idx);
        proof {
            lemma_amap_remove(st0.tokens_en_venta@, idx as int);
        }
        let ghost k = token_key@;
        proof {
            assert(st0.por_id_v(k.0).contains(k.1));
            assert(st0.owner_v(venta.owner_id@).contains(k));
        }
        let removed_id = assoc_set_remove(&mut self.tokens_por_id, &token_key.0, &token_key.1);
        proof {
            assert(removed_id);
        }
        let removed_owner = assoc_set_remove(&mut self.tokens_por_id_owner, &venta.owner_id,
            &token_key);
        proof {
            assert(removed_owner);
        }
        match &venta.gate_id {
            Some(g) => {
                proof {
                    assert(st0.gate_v(g@).contains(k));
                }
                let removed_gate = assoc_set_remove(&mut self.tokens_por_id_gate, g, &token_key);
                proof {
                    assert(removed_gate);
                }
            },
            None => {
                proof {
                    assert forall|g: Seq<char>| #[trigger]
                        self.gate_v(g) == if opt_str_view(venta.gate_id) == Some(g) {
                            st0.gate_v(g).remove(k)
                        } else {
                            st0.gate_v(g)
                        } by {}
                }
            },
        }
        match &venta.id_creador {
            Some(cr) => {
                proof {
                    assert(st0.creador_v(cr@).contains(k));
                }
                let removed_cr = assoc_set_remove(&mut self.tokens_por_id_creador, cr, &token_key);
                proof {
                    assert(removed_cr);
                }
            },
            None => {
                proof {
                    assert forall|cr: Seq<char>| #[trigger]
                        self.creador_v(cr) == if opt_str_view(venta.id_creador) == Some(cr) {
                            st0.creador_v(cr).remove(k)
                        } else {
                            st0.creador_v(cr)
                        } by {}
                }
            },
        }
        proof {
            lemma_market_remove_wf(st0, *self, k, venta);
        }
        venta
    }

    /// Stores a listing, upserting: any previous listing under the same key
    /// is fully delisted first so no index keeps a stale entry.
    fn add_token(
        &mut self,
        owner_id: &AccountId,
        contrato_id: &AccountId,
        token_id: TokenId,
        approve_msg: MarketApproveMsg,
        aprobados_id: u64,
    )
        requires
            old(self).wf(),
        ensures
            final(self).wf(),
            vmap(final(self).ventas_raw()) == vmap(old(self).ventas_raw()).insert(
                (contrato_id@, token_id),
                listing_view(contrato_id@, token_id, owner_id@, approve_msg@, aprobados_id),
            ),
    {
        let probe = TokenKey(contrato_id.clone(), token_id);
        match find_key(&self.tokens_en_venta, &probe) {
            Some(i) => {
                self.remove_listing(i);
            },
            None => {},
        }
        let ghost st1 = *self;
        proof {
            assert(!st1.ventas_raw().contains_key((contrato_id@, token_id)));
            assert(!has_key(st1.tokens_en_venta@, (contrato_id@, token_id)));
        }
        let gate_string = match &approve_msg.gate_id {
            Some(g) => Some(g.to_string()),
            None => None,
        };
        let venta = TokenEnVenta {
            contrato_id: contrato_id.clone(),
            token_id,
            owner_id: owner_id.clone(),
            aprobados_id,
            min_precio: approve_msg.min_precio,
            gate_id: gate_string,
            id_creador: crate::core_nft::clone_opt_string(&approve_msg.id_creador),
        };
        let ghost venta_g = venta;
        let ghost k: (Seq<char>, TokenId) = (contrato_id@, token_id);
        self.tokens_en_venta.push((probe, venta));
        proof {
            assert(self.tokens_en_venta@ == st1.tokens_en_venta@.push(
                (self.tokens_en_venta@.last().0, venta_g),
            ));
            lemma_amap_push(st1.tokens_en_venta@, (self.tokens_en_venta@.last().0, venta_g));
            assert(self.ventas_raw() =~= st1.ventas_raw().insert(k, venta_g));
        }
        assoc_set_insert(&mut self.tokens_por_id, contrato_id, token_id);
        let owner_key = TokenKey(contrato_id.clone(), token_id);
        assoc_set_insert(&mut self.tokens_por_id_owner, owner_id, owner_key);
        match &approve_msg.gate_id {
            Some(g) => {
                let gs = g.to_string();
                let gate_key = TokenKey(contrato_id.clone(), token_id);
                assoc_set_insert(&mut self.tokens_por_id_gate, &gs, gate_key);
            },
            None => {},
        }
        match &approve_msg.id_creador {
            Some(cr) => {
                let cr_key = TokenKey(contrato_id.clone(), token_id);
                assoc_set_insert(&mut self.tokens_por_id_creador, cr, cr_key);
            },
            None => {},
        }
        proof {
            lemma_market_add_wf(st1, *self, k, venta_g);
            assert(venta_g@ == listing_view(
                contrato_id@,
                token_id,
                owner_id@,
                approve_msg@,
                aprobados_id,
            ));
            lemma_vmap_insert(st1.ventas_raw(), k, venta_g);
            lemma_vmap_remove(old(self).ventas_raw(), k);
            assert(vmap(st1.ventas_raw()).insert(k, venta_g@) =~= vmap(
                old(self).ventas_raw(),
            ).insert(k, venta_g@));
        }
    }
}

/// The marketplace service.  Holds the sale listings, keeps the four
/// secondary indexes consistent with them on every change, and drives
/// purchase settlement.
pub struct ContratoMercado {
    st: MercadoSt,
}

impl ContratoMercado {
    #[verifier::type_invariant]
    spec fn type_wf(self) -> bool {
        self.st.wf()
    }

    /// The sale listings, keyed by registry contract and token id.
    pub closed spec fn listings(self) -> Map<(Seq<char>, TokenId), TokenEnVentaView> {
        vmap(self.st.ventas_raw())
    }

    /// The token ids the per-registry index lists for contract `c`.
    pub closed spec fn contrato_index(self, c: Seq<char>) -> Set<TokenId> {
        self.st.por_id_v(c)
    }

    /// The listing keys indexed under collectible `g`.
    pub closed spec fn gate_index(self, g: Seq<char>) -> Set<(Seq<char>, TokenId)> {
        self.st.gate_v(g)
    }

    /// The listing keys the owner index lists for seller `o`.
    pub closed spec fn owner_index(self, o: Seq<char>) -> Set<(Seq<char>, TokenId)> {
        self.st.owner_v(o)
    }

    /// The listing keys the creator index lists for creator `cr`.
    pub closed spec fn creator_index(self, cr: Seq<char>) -> Set<(Seq<char>, TokenId)> {
        self.st.creador_v(cr)
    }

    /// Every secondary index lists exactly the listings the primary table
    /// holds for its key.  Holds of every reachable marketplace value.
    pub open spec fn indexes_ok(self) -> bool {
        &&& forall|c: Seq<char>, tid: TokenId| #[trigger]
            self.contrato_index(c).contains(tid) <==> self.listings().contains_key((c, tid))
        &&& forall|o: Seq<char>, k: (Seq<char>, TokenId)| #[trigger]
            self.owner_index(o).contains(k) <==> (self.listings().contains_key(k)
                && self.listings()[k].owner_id == o)
        &&& forall|g: Seq<char>, k: (Seq<char>, TokenId)| #[trigger]
            self.gate_index(g).contains(k) <==> (self.listings().contains_key(k)
                && self.listings()[k].gate_id == Some(g))
        &&& forall|cr: Seq<char>, k: (Seq<char>, TokenId)| #[trigger]
            self.creator_index(cr).contains(k) <==> (self.listings().contains_key(k)
                && self.listings()[k].id_creador == Some(cr))
    }

    /// `indexes_ok` follows from the type invariant.
    proof fn lemma_indexes_ok(self)
        requires
            self.type_wf(),
        ensures
            self.indexes_ok(),
    {
        assert forall|c: Seq<char>, tid: TokenId| #[trigger]
            self.contrato_index(c).contains(tid) <==> self.listings().contains_key((c, tid)) by {
            assert(self.st.por_id_v(c).contains(tid) <==> self.st.ventas_raw().contains_key(
                (c, tid),
            ));
        }
        assert forall|o: Seq<char>, k: (Seq<char>, TokenId)| #[trigger]
            self.owner_index(o).contains(k) <==> (self.listings().contains_key(k)
                && self.listings()[k].owner_id == o) by {
            assert(self.st.owner_v(o).contains(k) <==> (self.st.ventas_raw().contains_key(k)
                && self.st.ventas_raw()[k].owner_id@ == o));
        }
        assert forall|g: Seq<char>, k: (Seq<char>, TokenId)| #[trigger]
            self.gate_index(g).contains(k) <==> (self.listings().contains_key(k)
                && self.listings()[k].gate_id == Some(g)) by {
            assert(self.st.gate_v(g).contains(k) <==> (self.st.ventas_raw().contains_key(k)
                && opt_str_view(self.st.ventas_raw()[k].gate_id) == Some(g)));
        }
        assert forall|cr: Seq<char>, k: (Seq<char>, TokenId)| #[trigger]
            self.creator_index(cr).contains(k) <==> (self.listings().contains_key(k)
                && self.listings()[k].id_creador == Some(cr)) by {
            assert(self.st.creador_v(cr).contains(k) <==> (self.st.ventas_raw().contains_key(k)
                && opt_str_view(self.st.ventas_raw()[k].id_creador) == Some(cr)));
        }
    }

    /// Initializes an empty marketplace.
    pub fn init() -> (r: ContratoMercado)
        ensures
            r.listings() == Map::<(Seq<char>, TokenId), TokenEnVentaView>::empty(),
            forall|o: Seq<char>| #[trigger] r.owner_index(o) == Set::<(Seq<char>, TokenId)>::empty(),
            forall|cr: Seq<char>| #[trigger]
                r.creator_index(cr) == Set::<(Seq<char>, TokenId)>::empty(),
            forall|g: Seq<char>| #[trigger] r.gate_index(g) == Set::<(Seq<char>, TokenId)>::empty(),
            forall|c: Seq<char>| #[trigger] r.contrato_index(c) == Set::<TokenId>::empty(),
    {
        let st = MercadoSt {
            tokens_en_venta: Vec::new(),
            tokens_por_id: Vec::new(),
            tokens_por_id_gate: Vec::new(),
            tokens_por_id_owner: Vec::new(),
            tokens_por_id_creador: Vec::new(),
        };
        proof {
            lemma_empty_market_wf(st);
        }
        let r = ContratoMercado { st };
        proof {
            assert(r.listings() =~= Map::<(Seq<char>, TokenId), TokenEnVentaView>::empty());
            assert forall|o: Seq<char>| #[trigger]
                r.owner_index(o) == Set::<(Seq<char>, TokenId)>::empty() by {
                assert(r.owner_index(o) =~= Set::<(Seq<char>, TokenId)>::empty());
            }
            assert forall|cr: Seq<char>| #[trigger]
                r.creator_index(cr) == Set::<(Seq<char>, TokenId)>::empty() by {
                assert(r.creator_index(cr) =~= Set::<(Seq<char>, TokenId)>::empty());
            }
            assert forall|g: Seq<char>| #[trigger]
                r.gate_index(g) == Set::<(Seq<char>, TokenId)>::empty() by {
                assert(r.gate_index(g) =~= Set::<(Seq<char>, TokenId)>::empty());
            }
            assert forall|c: Seq<char>| #[trigger]
                r.contrato_index(c) == Set::<TokenId>::empty() by {
                assert(r.contrato_index(c) =~= Set::<TokenId>::empty());
            }
        }
        r
    }

    /// Returns every listing currently for sale.
    pub fn get_tokens_en_venta(&self) -> (r: Vec<TokenEnVenta>)
        ensures
            r@.len() == self.listings().dom().len(),
            forall|i: int| 0 <= i < r@.len() ==> {
                let v = (#[trigger] r@[i])@;
                &&& self.listings().contains_key((v.contrato_id, v.token_id))
                &&& self.listings()[(v.contrato_id, v.token_id)] == v
            },
            forall|k: (Seq<char>, TokenId)| #[trigger]
                self.listings().contains_key(k) ==> exists|i: int|
                    0 <= i < r@.len() && ((#[trigger] r@[i])@.contrato_id, r@[i]@.token_id) == k,
            forall|i: int, j: int|
                0 <= i < j < r@.len() ==> (r@[i]@.contrato_id, r@[i]@.token_id) != (
                r@[j]@.contrato_id,
                r@[j]@.token_id,
                ),
    {
        proof {
            use_type_invariant(&*self);
            lemma_amap_len(self.st.tokens_en_venta@);
            assert(self.listings().dom() =~= self.st.ventas_raw().dom());
        }
        let n = self.st.tokens_en_venta.len();
        let mut result: Vec<TokenEnVenta> = Vec::new();
        let mut i: usize = 0;
        while i < n
            invariant
                i <= n,
                n == self.st.tokens_en_venta@.len(),
                self.st.wf(),
                result@.len() == i,
                forall|m: int| 0 <= m < i ==> (#[trigger] result@[m])@
                    == self.st.tokens_en_venta@[m].1@,
                forall|m: int| 0 <= m < i ==> {
                    let v = (#[trigger] result@[m])@;
                    self.listings().contains_key((v.contrato_id, v.token_id)) && self.listings()[
                        (v.contrato_id, v.token_id)
                    ] == v && (v.contrato_id, v.token_id) == self.st.tokens_en_venta@[m].0@
                },
            decreases n - i,
        {
            proof {
                lemma_amap_index(self.st.tokens_en_venta@, i as int);
            }
            result.push(self.st.tokens_en_venta[i].1.clone_venta());
            i += 1;
        }
        proof {
            assert forall|k: (Seq<char>, TokenId)| #[trigger]
                self.listings().contains_key(k) implies exists|m: int|
                0 <= m < result@.len() && ((#[trigger] result@[m])@.contrato_id,
                result@[m]@.token_id) == k by {
                let m = choose|m: int|
                    0 <= m < self.st.tokens_en_venta@.len() && self.st.tokens_en_venta@[m].0@ == k;
                assert((result@[m]@.contrato_id, result@[m]@.token_id) == k);
            }
            assert forall|i2: int, j: int|
                0 <= i2 < j < result@.len() implies (result@[i2]@.contrato_id,
            result@[i2]@.token_id) != (result@[j]@.contrato_id, result@[j]@.token_id) by {
                if (result@[i2]@.contrato_id, result@[i2]@.token_id) == (result@[j]@.contrato_id,
                result@[j]@.token_id) {
                    crate::store::lemma_key_at_index_unique(self.st.tokens_en_venta@, i2, j);
                }
            }
        }
        result
    }

    /// Returns every listing whose seller is `owner_id`.
    pub fn get_tokens_by_owner_id(&self, owner_id: &AccountId) -> (r: Vec<TokenEnVenta>)
        ensures
            r@.len() == self.owner_index(owner_id@).len(),
            forall|i: int| 0 <= i < r@.len() ==> {
                let v = (#[trigger] r@[i])@;
                &&& self.listings().contains_key((v.contrato_id, v.token_id))
                &&& self.listings()[(v.contrato_id, v.token_id)] == v
                &&& v.owner_id == owner_id@
            },
            forall|k: (Seq<char>, TokenId)| #[trigger]
                self.owner_index(owner_id@).contains(k) ==> exists|i: int|
                    0 <= i < r@.len() && ((#[trigger] r@[i])@.contrato_id, r@[i]@.token_id) == k,
    {
        proof {
            use_type_invariant(&*self);
            (*self).lemma_indexes_ok();
            assert forall|k: (Seq<char>, TokenId)| #[trigger]
                set_map(self.st.tokens_por_id_owner@, owner_id@).contains(k) implies
                self.st.ventas_raw().contains_key(k) by {
                assert(self.st.owner_v(owner_id@).contains(k));
            }
        }
        let r = self.collect_by_index(&self.st.tokens_por_id_owner, owner_id);
        proof {
            assert forall|i: int| 0 <= i < r@.len() implies {
                let v = (#[trigger] r@[i])@;
                self.listings().contains_key((v.contrato_id, v.token_id)) && self.listings()[
                    (v.contrato_id, v.token_id)
                ] == v && v.owner_id == owner_id@
            } by {
                let v = r@[i]@;
                assert(self.owner_index(owner_id@).contains((v.contrato_id, v.token_id)));
            }
        }
        r
    }

    /// Returns every listing whose collectible creator is `id_creador`.
    pub fn get_tokens_by_creator_id(&self, id_creador: &AccountId) -> (r: Vec<TokenEnVenta>)
        ensures
            r@.len() == self.creator_index(id_creador@).len(),
            forall|i: int| 0 <= i < r@.len() ==> {
                let v = (#[trigger] r@[i])@;
                &&& self.listings().contains_key((v.contrato_id, v.token_id))
                &&& self.listings()[(v.contrato_id, v.token_id)] == v
                &&& v.id_creador == Some(id_creador@)
            },
            forall|k: (Seq<char>, TokenId)| #[trigger]
                self.creator_index(id_creador@).contains(k) ==> exists|i: int|
                    0 <= i < r@.len() && ((#[trigger] r@[i])@.contrato_id, r@[i]@.token_id) == k,
    {
        proof {
            use_type_invariant(&*self);
            (*self).lemma_indexes_ok();
            assert forall|k: (Seq<char>, TokenId)| #[trigger]
                set_map(self.st.tokens_por_id_creador@, id_creador@).contains(k) implies
                self.st.ventas_raw().contains_key(k) by {
                assert(self.st.creador_v(id_creador@).contains(k));
            }
        }
        let r = self.collect_by_index(&self.st.tokens_por_id_creador, id_creador);
        proof {
            assert forall|i: int| 0 <= i < r@.len() implies {
                let v = (#[trigger] r@[i])@;
                self.listings().contains_key((v.contrato_id, v.token_id)) && self.listings()[
                    (v.contrato_id, v.token_id)
                ] == v && v.id_creador == Some(id_creador@)
            } by {
                let v = r@[i]@;
                assert(self.creator_index(id_creador@).contains((v.contrato_id, v.token_id)));
            }
        }
        r
    }

    /// Collects the listings an index lists under `key`, in index order.
    fn collect_by_index(&self, index: &Vec<(AccountId, Vec<TokenKey>)>, key: &AccountId) -> (r:
        Vec<TokenEnVenta>)
        requires
            self.st.wf(),
            set_map_wf(index@),
            forall|k: (Seq<char>, TokenId)| #[trigger]
                set_map(index@, key@).contains(k) ==> self.st.ventas_raw().contains_key(k),
        ensures
            r@.len() == set_map(index@, key@).len(),
            forall|i: int| 0 <= i < r@.len() ==> {
                let v = (#[trigger] r@[i])@;
                &&& self.listings().contains_key((v.contrato_id, v.token_id))
                &&& self.listings()[(v.contrato_id, v.token_id)] == v
                &&& set_map(index@, key@).contains((v.contrato_id, v.token_id))
            },
            forall|k: (Seq<char>, TokenId)| #[trigger]
                set_map(index@, key@).contains(k) ==> exists|i: int|
                    0 <= i < r@.len() && ((#[trigger] r@[i])@.contrato_id, r@[i]@.token_id) == k,
    {
        let mut result: Vec<TokenEnVenta> = Vec::new();
        let lst = match find_key(index, key) {
            None => {
                proof {
                    assert(set_map(index@, key@) =~= Set::<(Seq<char>, TokenId)>::empty());
                    assert(Set::<(Seq<char>, TokenId)>::empty().len() == 0);
                }
                return result;
            },
            Some(i) => {
                proof {
                    lemma_amap_index(index@, i as int);
                }
                &index[i].1
            },
        };
        proof {
            crate::store::lemma_eset_len(lst@);
        }
        let n = lst.len();
        let mut j: usize = 0;
        while j < n
            invariant
                j <= n,
                n == lst@.len(),
                self.st.wf(),
                forall|k: (Seq<char>, TokenId)| #[trigger]
                    set_map(index@, key@).contains(k) ==> self.st.ventas_raw().contains_key(k),
                set_map(index@, key@) == crate::store::eset(lst@),
                crate::store::elems_distinct(lst@),
                result@.len() == j,
                forall|m: int| 0 <= m < j ==> ((#[trigger] result@[m])@.contrato_id,
                    result@[m]@.token_id) == lst@[m]@,
                forall|m: int| 0 <= m < j ==> {
                    let v = (#[trigger] result@[m])@;
                    self.listings().contains_key((v.contrato_id, v.token_id)) && self.listings()[
                        (v.contrato_id, v.token_id)
                    ] == v && set_map(index@, key@).contains((v.contrato_id, v.token_id))
                },
            decreases n - j,
        {
            let tk = &lst[j];
            proof {
                assert(crate::store::eset(lst@).contains(lst@[j as int]@)) by {
                    assert(crate::store::elem_seq(lst@)[j as int] == lst@[j as int]@);
                }
                assert(set_map(index@, key@).contains(tk@));
                assert(self.st.ventas_raw().contains_key(tk@));
            }
            let li = match find_key(&self.st.tokens_en_venta, tk) {
                Some(li) => li,
                None => {
                    proof {
                        assert(false);
                    }
                    unreached()
                },
            };
            proof {
                lemma_amap_index(self.st.tokens_en_venta@, li as int);
            }
            result.push(self.st.tokens_en_venta[li].1.clone_venta());
            j += 1;
        }
        proof {
            assert forall|k: (Seq<char>, TokenId)| #[trigger]
                set_map(index@, key@).contains(k) implies exists|i: int|
                0 <= i < result@.len() && ((#[trigger] result@[i])@.contrato_id,
                result@[i]@.token_id) == k by {
                let m = choose|m: int|
                    0 <= m < crate::store::elem_seq(lst@).len() && crate::store::elem_seq(lst@)[m]
                        == k;
                assert((result@[m]@.contrato_id, result@[m]@.token_id) == lst@[m]@);
                assert(lst@[m]@ == crate::store::elem_seq(lst@)[m]);
            }
        }
        result
    }

    /// Handles a purchase of the listing under `(contrato_id, token_id)`.
    /// The buyer must differ from the seller and the attached `deposit` must
    /// cover the listed minimum price.  On success the listing and all of its
    /// index entries are removed at once — before any remote confirmation —
    /// and the settlement request to send to the registry is returned.  A
    /// failure leaves the marketplace exactly as it was.
    pub fn buy_token(
        &mut self,
        buyer_id: &AccountId,
        deposit: u128,
        contrato_id: &AccountId,
        token_id: TokenId,
    ) -> (r: Result<SettleRequest, Panics>)
        ensures
            final(self).indexes_ok(),
            r is Err ==> *final(self) == *old(self),
            ({
                let k = (contrato_id@, token_id);
                let l = old(self).listings();
                if !l.contains_key(k) {
                    r matches Err(e) && e@ == (PanicsView::TokenKeyNotFound { token_key: k })
                } else if l[k].owner_id == buyer_id@ {
                    r matches Err(e) && e@ == PanicsView::BuyOwnTokenNotAllowed
                } else if deposit < l[k].min_precio {
                    r matches Err(e) && e@ == PanicsView::NotEnoughDepositToBuyToken
                } else {
                    r is Ok
                }
            }),
            r matches Ok(req) ==> ({
                let k = (contrato_id@, token_id);
                let v = old(self).listings()[k];
                &&& req.contrato_id@ == contrato_id@
                &&& req.receiver_id@ == buyer_id@
                &&& req.token_id == token_id
                &&& req.aprobados_id == Some(v.aprobados_id)
                &&& req.memo is None
                &&& req.balance == Some(deposit)
                &&& final(self).listings() == old(self).listings().remove(k)
                &&& forall|c: Seq<char>| #[trigger]
                    final(self).contrato_index(c) == if c == k.0 {
                        old(self).contrato_index(c).remove(token_id)
                    } else {
                        old(self).contrato_index(c)
                    }
                &&& forall|o: Seq<char>| #[trigger]
                    final(self).owner_index(o) == if o == v.owner_id {
                        old(self).owner_index(o).remove(k)
                    } else {
                        old(self).owner_index(o)
                    }
                &&& forall|g: Seq<char>| #[trigger]
                    final(self).gate_index(g) == if v.gate_id == Some(g) {
                        old(self).gate_index(g).remove(k)
                    } else {
                        old(self).gate_index(g)
                    }
                &&& forall|cr: Seq<char>| #[trigger]
                    final(self).creator_index(cr) == if v.id_creador == Some(cr) {
                        old(self).creator_index(cr).remove(k)
                    } else {
                        old(self).creator_index(cr)
                    }
            }),
    {
        proof {
            use_type_invariant(&*self);
            (*self).lemma_indexes_ok();
        }
        let probe = TokenKey(contrato_id.clone(), token_id);
        let idx = match find_key(&self.st.tokens_en_venta, &probe) {
            None => {
                return Err(Panics::TokenKeyNotFound { token_key: probe });
            },
            Some(i) => i,
        };
        proof {
            lemma_amap_index(self.st.tokens_en_venta@, idx as int);
        }
        if buyer_id.eq(&self.st.tokens_en_venta[idx].1.owner_id) {
            return Err(Panics::BuyOwnTokenNotAllowed);
        }
        if deposit < self.st.tokens_en_venta[idx].1.min_precio {
            return Err(Panics::NotEnoughDepositToBuyToken);
        }
        let mut st = MercadoSt::dummy();
        core::mem::swap(&mut st, &mut self.st);
        let ghost st0 = st;
        let removed = st.remove_listing(idx);
        self.st = st;
        proof {
            (*self).lemma_indexes_ok();
            lemma_vmap_remove(st0.ventas_raw(), (contrato_id@, token_id));
        }
        Ok(
            SettleRequest {
                contrato_id: contrato_id.clone(),
                receiver_id: buyer_id.clone(),
                token_id,
                aprobados_id: Some(removed.aprobados_id),
                memo: None,
                balance: Some(deposit),
            },
        )
    }

    /// Handles the registry's approval notification: stores (or refreshes)
    /// the listing for the approved token, indexed by registry contract,
    /// seller, collectible and creator.
    pub fn nft_on_approve(
        &mut self,
        contrato_id: &AccountId,
        token_id: TokenId,
        owner_id: &AccountId,
        aprobados_id: u64,
        msg: MarketApproveMsg,
    )
        ensures
            final(self).indexes_ok(),
            final(self).listings() == old(self).listings().insert(
                (contrato_id@, token_id),
                listing_view(contrato_id@, token_id, owner_id@, msg@, aprobados_id),
            ),
    {
        proof {
            use_type_invariant(&*self);
        }
        let mut st = MercadoSt::dummy();
        core::mem::swap(&mut st, &mut self.st);
        st.add_token(owner_id, contrato_id, token_id, msg, aprobados_id);
        self.st = st;
        proof {
            (*self).lemma_indexes_ok();
        }
    }

    /// Handles the registry's batch approval notification: stores one
    /// listing per pair, in order, each with approval id `0`.
    pub fn batch_on_approve(
        &mut self,
        contrato_id: &AccountId,
        tokens: Vec<(TokenId, MarketApproveMsg)>,
        owner_id: &AccountId,
    )
        ensures
            final(self).indexes_ok(),
            final(self).listings() == batch_listings(
                old(self).listings(),
                tokens@,
                owner_id@,
                contrato_id@,
            ),
    {
        proof {
            use_type_invariant(&*self);
        }
        let mut st = MercadoSt::dummy();
        core::mem::swap(&mut st, &mut self.st);
        let ghost l0 = vmap(st.ventas_raw());
        let n = tokens.len();
        let mut k: usize = 0;
        while k < n
            invariant
                k <= n,
                n == tokens@.len(),
                st.wf(),
                vmap(st.ventas_raw()) == batch_listings(
                    l0,
                    tokens@.take(k as int),
                    owner_id@,
                    contrato_id@,
                ),
            decreases n - k,
        {
            let (tid, msg) = &tokens[k];
            st.add_token(owner_id, contrato_id, *tid, msg.clone_msg(), 0);
            proof {
                assert(tokens@.take(k + 1).drop_last() =~= tokens@.take(k as int));
                assert(tokens@.take(k + 1).last() == tokens@[k as int]);
            }
            k += 1;
        }
        proof {
            assert(tokens@.take(n as int) =~= tokens@);
        }
        self.st = st;
        proof {
            (*self).lemma_indexes_ok();
        }
    }

    /// Handles the registry's revoke notification: removes the listing and
    /// every index entry it appears in.  Fails when no listing exists.
    pub fn nft_on_revoke(&mut self, contrato_id: &AccountId, token_id: TokenId) -> (r: Result<
        (),
        Panics,
    >)
        ensures
            final(self).indexes_ok(),
            r is Err ==> *final(self) == *old(self),
            ({
                let k = (contrato_id@, token_id);
                if !old(self).listings().contains_key(k) {
                    r matches Err(e) && e@ == (PanicsView::TokenKeyNotFound { token_key: k })
                } else {
                    r is Ok
                }
            }),
            r is Ok ==> ({
                let k = (contrato_id@, token_id);
                let v = old(self).listings()[k];
                &&& final(self).listings() == old(self).listings().remove(k)
                &&& forall|c: Seq<char>| #[trigger]
                    final(self).contrato_index(c) == if c == k.0 {
                        old(self).contrato_index(c).remove(token_id)
                    } else {
                        old(self).contrato_index(c)
                    }
                &&& forall|o: Seq<char>| #[trigger]
                    final(self).owner_index(o) == if o == v.owner_id {
                        old(self).owner_index(o).remove(k)
                    } else {
                        old(self).owner_index(o)
                    }
                &&& forall|g: Seq<char>| #[trigger]
                    final(self).gate_index(g) == if v.gate_id == Some(g) {
                        old(self).gate_index(g).remove(k)
                    } else {
                        old(self).gate_index(g)
                    }
                &&& forall|cr: Seq<char>| #[trigger]
                    final(self).creator_index(cr) == if v.id_creador == Some(cr) {
                        old(self).creator_index(cr).remove(k)
                    } else {
                        old(self).creator_index(cr)
                    }
            }),
    {
        proof {
            use_type_invariant(&*self);
            (*self).lemma_indexes_ok();
        }
        let probe = TokenKey(contrato_id.clone(), token_id);
        let idx = match find_key(&self.st.tokens_en_venta, &probe) {
            None => {
                return Err(Panics::TokenKeyNotFound { token_key: probe });
            },
            Some(i) => i,
        };
        proof {
            lemma_amap_index(self.st.tokens_en_venta@, idx as int);
        }
        let mut st = MercadoSt::dummy();
        core::mem::swap(&mut st, &mut self.st);
        let ghost st0 = st;
        st.remove_listing(idx);
        self.st = st;
        proof {
            (*self).lemma_indexes_ok();
            lemma_vmap_remove(st0.ventas_raw(), (contrato_id@, token_id));
        }
        Ok(())
    }

    /// Decides the settlement callback: a successful remote settlement hands
    /// back the payout, and every entry becomes one outbound payment.  Any
    /// other outcome is fatal for the purchase — nothing is paid and the
    /// already-performed delisting is not reversed.
    pub fn pago(payout_result: Option<Payout>) -> (r: Option<Vec<(AccountId, u128)>>)
        ensures
            r == payout_result,
    {
        payout_result
    }
}

/// A state with empty tables is well-formed.
proof fn lemma_empty_market_wf(st: MercadoSt)
    requires
        st.tokens_en_venta@.len() == 0,
        st.tokens_por_id@.len() == 0,
        st.tokens_por_id_gate@.len() == 0,
        st.tokens_por_id_owner@.len() == 0,
        st.tokens_por_id_creador@.len() == 0,
    ensures
        st.wf(),
{
    assert forall|k: (Seq<char>, TokenId)| !(#[trigger] st.ventas_raw().contains_key(k)) by {}
    assert forall|c: Seq<char>, tid: TokenId| !(#[trigger] st.por_id_v(c).contains(tid)) by {}
    assert forall|o: Seq<char>, k: (Seq<char>, TokenId)|
        !(#[trigger] st.owner_v(o).contains(k)) by {}
    assert forall|g: Seq<char>, k: (Seq<char>, TokenId)|
        !(#[trigger] st.gate_v(g).contains(k)) by {}
    assert forall|cr: Seq<char>, k: (Seq<char>, TokenId)|
        !(#[trigger] st.creador_v(cr).contains(k)) by {}
}

/// Removing one listing and its index entries preserves the marketplace
/// invariant.
proof fn lemma_market_remove_wf(st0: MercadoSt, st1: MercadoSt, k: (Seq<char>, TokenId), v:
    TokenEnVenta)
    requires
        st0.wf(),
        st0.ventas_raw().contains_key(k),
        v == st0.ventas_raw()[k],
        keys_distinct(st1.tokens_en_venta@),
        st1.ventas_raw() == st0.ventas_raw().remove(k),
        set_map_wf(st1.tokens_por_id@),
        set_map_wf(st1.tokens_por_id_gate@),
        set_map_wf(st1.tokens_por_id_owner@),
        set_map_wf(st1.tokens_por_id_creador@),
        forall|c: Seq<char>| #[trigger]
            st1.por_id_v(c) == if c == k.0 {
                st0.por_id_v(c).remove(k.1)
            } else {
                st0.por_id_v(c)
            },
        forall|o: Seq<char>| #[trigger]
            st1.owner_v(o) == if o == v.owner_id@ {
                st0.owner_v(o).remove(k)
            } else {
                st0.owner_v(o)
            },
        forall|g: Seq<char>| #[trigger]
            st1.gate_v(g) == if opt_str_view(v.gate_id) == Some(g) {
                st0.gate_v(g).remove(k)
            } else {
                st0.gate_v(g)
            },
        forall|cr: Seq<char>| #[trigger]
            st1.creador_v(cr) == if opt_str_view(v.id_creador) == Some(cr) {
                st0.creador_v(cr).remove(k)
            } else {
                st0.creador_v(cr)
            },
    ensures
        st1.wf(),
{
    assert forall|k2: (Seq<char>, TokenId)| #[trigger]
        st1.ventas_raw().contains_key(k2) implies {
        let v2 = st1.ventas_raw()[k2];
        v2.contrato_id@ == k2.0 && v2.token_id == k2.1
    } by {
        assert(st0.ventas_raw().contains_key(k2));
    }
    assert forall|c: Seq<char>, tid: TokenId| #[trigger]
        st1.por_id_v(c).contains(tid) <==> st1.ventas_raw().contains_key((c, tid)) by {
        assert(st0.por_id_v(c).contains(tid) <==> st0.ventas_raw().contains_key((c, tid)));
        if c == k.0 {
            assert(st1.por_id_v(c) == st0.por_id_v(c).remove(k.1));
        } else {
            assert(st1.por_id_v(c) == st0.por_id_v(c));
            if (c, tid) == k {
                assert(false);
            }
        }
    }
    assert forall|o: Seq<char>, k2: (Seq<char>, TokenId)| #[trigger]
        st1.owner_v(o).contains(k2) <==> (st1.ventas_raw().contains_key(k2) && st1.ventas_raw()[
        k2
    ].owner_id@ == o) by {
        assert(st0.owner_v(o).contains(k2) <==> (st0.ventas_raw().contains_key(k2)
            && st0.ventas_raw()[k2].owner_id@ == o));
        if o == v.owner_id@ {
            assert(st1.owner_v(o) == st0.owner_v(o).remove(k));
        } else {
            assert(st1.owner_v(o) == st0.owner_v(o));
            if k2 == k && st1.ventas_raw().contains_key(k2) {
                assert(false);
            }
        }
    }
    assert forall|g: Seq<char>, k2: (Seq<char>, TokenId)| #[trigger]
        st1.gate_v(g).contains(k2) <==> (st1.ventas_raw().contains_key(k2) && opt_str_view(
        st1.ventas_raw()[k2].gate_id,
    ) == Some(g)) by {
        assert(st0.gate_v(g).contains(k2) <==> (st0.ventas_raw().contains_key(k2) && opt_str_view(
            st0.ventas_raw()[k2].gate_id,
        ) == Some(g)));
        if opt_str_view(v.gate_id) == Some(g) {
            assert(st1.gate_v(g) == st0.gate_v(g).remove(k));
        } else {
            assert(st1.gate_v(g) == st0.gate_v(g));
            if k2 == k && st1.ventas_raw().contains_key(k2) {
                assert(false);
            }
        }
    }
    assert forall|cr: Seq<char>, k2: (Seq<char>, TokenId)| #[trigger]
        st1.creador_v(cr).contains(k2) <==> (st1.ventas_raw().contains_key(k2) && opt_str_view(
        st1.ventas_raw()[k2].id_creador,
    ) == Some(cr)) by {
        assert(st0.creador_v(cr).contains(k2) <==> (st0.ventas_raw().contains_key(k2)
            && opt_str_view(st0.ventas_raw()[k2].id_creador) == Some(cr)));
        if opt_str_view(v.id_creador) == Some(cr) {
            assert(st1.creador_v(cr) == st0.creador_v(cr).remove(k));
        } else {
            assert(st1.creador_v(cr) == st0.creador_v(cr));
            if k2 == k && st1.ventas_raw().contains_key(k2) {
                assert(false);
            }
        }
    }
}

/// Storing a fresh listing and its index entries preserves the marketplace
/// invariant.
proof fn lemma_market_add_wf(st1: MercadoSt, st2: MercadoSt, k: (Seq<char>, TokenId), v:
    TokenEnVenta)
    requires
        st1.wf(),
        !st1.ventas_raw().contains_key(k),
        v.contrato_id@ == k.0,
        v.token_id == k.1,
        keys_distinct(st2.tokens_en_venta@),
        st2.ventas_raw() == st1.ventas_raw().insert(k, v),
        set_map_wf(st2.tokens_por_id@),
        set_map_wf(st2.tokens_por_id_gate@),
        set_map_wf(st2.tokens_por_id_owner@),
        set_map_wf(st2.tokens_por_id_creador@),
        forall|c: Seq<char>| #[trigger]
            st2.por_id_v(c) == if c == k.0 {
                st1.por_id_v(c).insert(k.1)
            } else {
                st1.por_id_v(c)
            },
        forall|o: Seq<char>| #[trigger]
            st2.owner_v(o) == if o == v.owner_id@ {
                st1.owner_v(o).insert(k)
            } else {
                st1.owner_v(o)
            },
        forall|g: Seq<char>| #[trigger]
            st2.gate_v(g) == if opt_str_view(v.gate_id) == Some(g) {
                st1.gate_v(g).insert(k)
            } else {
                st1.gate_v(g)
            },
        forall|cr: Seq<char>| #[trigger]
            st2.creador_v(cr) == if opt_str_view(v.id_creador) == Some(cr) {
                st1.creador_v(cr).insert(k)
            } else {
                st1.creador_v(cr)
            },
    ensures
        st2.wf(),
{
    assert forall|k2: (Seq<char>, TokenId)| #[trigger]
        st2.ventas_raw().contains_key(k2) implies {
        let v2 = st2.ventas_raw()[k2];
        v2.contrato_id@ == k2.0 && v2.token_id == k2.1
    } by {
        if k2 != k {
            assert(st1.ventas_raw().contains_key(k2));
        }
    }
    assert forall|c: Seq<char>, tid: TokenId| #[trigger]
        st2.por_id_v(c).contains(tid) <==> st2.ventas_raw().contains_key((c, tid)) by {
        assert(st1.por_id_v(c).contains(tid) <==> st1.ventas_raw().contains_key((c, tid)));
        if c == k.0 {
            assert(st2.por_id_v(c) == st1.por_id_v(c).insert(k.1));
        } else {
            assert(st2.por_id_v(c) == st1.por_id_v(c));
            if (c, tid) == k {
                assert(false);
            }
        }
    }
    assert forall|o: Seq<char>, k2: (Seq<char>, TokenId)| #[trigger]
        st2.owner_v(o).contains(k2) <==> (st2.ventas_raw().contains_key(k2) && st2.ventas_raw()[
        k2
    ].owner_id@ == o) by {
        assert(st1.owner_v(o).contains(k2) <==> (st1.ventas_raw().contains_key(k2)
            && st1.ventas_raw()[k2].owner_id@ == o));
        if o == v.owner_id@ {
            assert(st2.owner_v(o) == st1.owner_v(o).insert(k));
        } else {
            assert(st2.owner_v(o) == st1.owner_v(o));
        }
    }
    assert forall|g: Seq<char>, k2: (Seq<char>, TokenId)| #[trigger]
        st2.gate_v(g).contains(k2) <==> (st2.ventas_raw().contains_key(k2) && opt_str_view(
        st2.ventas_raw()[k2].gate_id,
    ) == Some(g)) by {
        assert(st1.gate_v(g).contains(k2) <==> (st1.ventas_raw().contains_key(k2) && opt_str_view(
            st1.ventas_raw()[k2].gate_id,
        ) == Some(g)));
        if opt_str_view(v.gate_id) == Some(g) {
            assert(st2.gate_v(g) == st1.gate_v(g).insert(k));
        } else {
            assert(st2.gate_v(g) == st1.gate_v(g));
        }
    }
    assert forall|cr: Seq<char>, k2: (Seq<char>, TokenId)| #[trigger]
        st2.creador_v(cr).contains(k2) <==> (st2.ventas_raw().contains_key(k2) && opt_str_view(
        st2.ventas_raw()[k2].id_creador,
    ) == Some(cr)) by {
        assert(st1.creador_v(cr).contains(k2) <==> (st1.ventas_raw().contains_key(k2)
            && opt_str_view(st1.ventas_raw()[k2].id_creador) == Some(cr)));
        if opt_str_view(v.id_creador) == Some(cr) {
            assert(st2.creador_v(cr) == st1.creador_v(cr).insert(k));
        } else {
            assert(st2.creador_v(cr) == st1.creador_v(cr));
        }
    }
}

} // verus!
