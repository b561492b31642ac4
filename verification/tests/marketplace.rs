//! Tests for the marketplace service and the cross-service settlement flow.

use ticket_market::core_nft::{MarketApproveMsg, NftApproveMsg};
use ticket_market::fraction::Fraction;
use ticket_market::gate::ValidGateId;
use ticket_market::market::{ContratoMercado, Panics};
use ticket_market::nft::ContratoNft;

fn s(x: &str) -> String {
    x.to_string()
}

fn gate(x: &str) -> ValidGateId {
    ValidGateId::try_from(s(x)).unwrap()
}

fn msg(min_precio: u128, gate_id: Option<&str>, creador: Option<&str>) -> MarketApproveMsg {
    MarketApproveMsg {
        min_precio,
        gate_id: gate_id.map(gate),
        id_creador: creador.map(|c| s(c)),
    }
}

fn listed_market() -> ContratoMercado {
    let mut market = ContratoMercado::init();
    market.nft_on_approve(&s("registry"), 7, &s("seller"), 1, msg(100, Some("g1"), Some("creator")));
    market
}

#[test]
fn on_approve_lists_and_indexes() {
    let market = listed_market();
    let all = market.get_tokens_en_venta();
    assert_eq!(all.len(), 1);
    assert_eq!(all[0].contrato_id, s("registry"));
    assert_eq!(all[0].token_id, 7);
    assert_eq!(all[0].owner_id, s("seller"));
    assert_eq!(all[0].aprobados_id, 1);
    assert_eq!(all[0].min_precio, 100);
    assert_eq!(all[0].gate_id, Some(s("g1")));
    assert_eq!(all[0].id_creador, Some(s("creator")));
    assert_eq!(market.get_tokens_by_owner_id(&s("seller")).len(), 1);
    assert_eq!(market.get_tokens_by_creator_id(&s("creator")).len(), 1);
    assert_eq!(market.get_tokens_by_owner_id(&s("other")).len(), 0);
}

#[test]
fn on_approve_upsert_refreshes_every_index() {
    let mut market = listed_market();
    // The same token is listed again after changing hands: the new listing
    // replaces the old one everywhere, leaving no stale index entry.
    market.nft_on_approve(&s("registry"), 7, &s("buyer"), 2, msg(250, Some("g1"), Some("creator")));
    let all = market.get_tokens_en_venta();
    assert_eq!(all.len(), 1);
    assert_eq!(all[0].owner_id, s("buyer"));
    assert_eq!(all[0].min_precio, 250);
    assert_eq!(all[0].aprobados_id, 2);
    assert_eq!(market.get_tokens_by_owner_id(&s("seller")).len(), 0);
    assert_eq!(market.get_tokens_by_owner_id(&s("buyer")).len(), 1);
}

#[test]
fn on_revoke_delists() {
    let mut market = listed_market();
    let missing = market.nft_on_revoke(&s("registry"), 99);
    assert!(matches!(missing, Err(Panics::TokenKeyNotFound { .. })));
    market.nft_on_revoke(&s("registry"), 7).unwrap();
    assert!(market.get_tokens_en_venta().is_empty());
    assert!(market.get_tokens_by_owner_id(&s("seller")).is_empty());
    assert!(market.get_tokens_by_creator_id(&s("creator")).is_empty());
}

#[test]
fn buy_below_minimum_fails_and_listing_stays() {
    let mut market = listed_market();
    let r = market.buy_token(&s("buyer"), 99, &s("registry"), 7);
    assert!(matches!(r, Err(Panics::NotEnoughDepositToBuyToken)));
    // The listing is still present in the primary table and in every index.
    assert_eq!(market.get_tokens_en_venta().len(), 1);
    assert_eq!(market.get_tokens_by_owner_id(&s("seller")).len(), 1);
    assert_eq!(market.get_tokens_by_creator_id(&s("creator")).len(), 1);
}

#[test]
fn buy_own_token_and_missing_listing_fail() {
    let mut market = listed_market();
    let own = market.buy_token(&s("seller"), 1000, &s("registry"), 7);
    assert!(matches!(own, Err(Panics::BuyOwnTokenNotAllowed)));
    let missing = market.buy_token(&s("buyer"), 1000, &s("registry"), 8);
    assert!(matches!(missing, Err(Panics::TokenKeyNotFound { .. })));
    assert_eq!(market.get_tokens_en_venta().len(), 1);
}

#[test]
fn buy_success_delists_everywhere_and_requests_settlement() {
    let mut market = listed_market();
    let req = market.buy_token(&s("buyer"), 150, &s("registry"), 7).unwrap();
    assert_eq!(req.contrato_id, s("registry"));
    assert_eq!(req.receiver_id, s("buyer"));
    assert_eq!(req.token_id, 7);
    assert_eq!(req.aprobados_id, Some(1));
    assert_eq!(req.memo, None);
    assert_eq!(req.balance, Some(150));
    assert!(market.get_tokens_en_venta().is_empty());
    assert!(market.get_tokens_by_owner_id(&s("seller")).is_empty());
    assert!(market.get_tokens_by_creator_id(&s("creator")).is_empty());
    // The removal closed the double-sale window: a second buy fails.
    let again = market.buy_token(&s("other"), 150, &s("registry"), 7);
    assert!(matches!(again, Err(Panics::TokenKeyNotFound { .. })));
}

#[test]
fn batch_on_approve_lists_every_pair_with_id_zero() {
    let mut market = ContratoMercado::init();
    market.batch_on_approve(
        &s("registry"),
        vec![
            (1, msg(10, Some("g1"), Some("creator"))),
            (2, msg(20, None, None)),
        ],
        &s("seller"),
    );
    let mut all = market.get_tokens_en_venta();
    all.sort_by_key(|v| v.token_id);
    assert_eq!(all.len(), 2);
    assert_eq!(all[0].token_id, 1);
    assert_eq!(all[0].aprobados_id, 0);
    assert_eq!(all[0].min_precio, 10);
    assert_eq!(all[1].token_id, 2);
    assert_eq!(all[1].gate_id, None);
    assert_eq!(market.get_tokens_by_owner_id(&s("seller")).len(), 2);
    assert_eq!(market.get_tokens_by_creator_id(&s("creator")).len(), 1);
}

#[test]
fn pago_forwards_payout_or_reports_fatal() {
    let payments =
        ContratoMercado::pago(Some(vec![(s("creator"), 100), (s("seller"), 900)])).unwrap();
    assert_eq!(payments, vec![(s("creator"), 100), (s("seller"), 900)]);
    assert!(ContratoMercado::pago(None).is_none());
}

/// A failed remote settlement is terminal: the optimistic delist is never
/// reversed and no payment is issued.
#[test]
fn failed_settlement_keeps_token_delisted() {
    let mut reg = ContratoNft::init(
        s("admin"),
        ticket_market::core_nft::NFTContractMetadata {
            spec_version: s("nft-1.0.0"),
            name: s("Tickets App"),
            symbol: s("MTK"),
            icon: None,
            base_uri: None,
            referencia: None,
            referencia_hash: None,
        },
        Fraction { num: 5, den: 100 },
        Fraction { num: 30, den: 100 },
        Fraction { num: 25, den: 1000 },
        s("fee_account"),
    )
    .unwrap();
    reg.crear_ticket(
        &s("admin"), 0, s("creator"), &gate("g1"), s("t"), s("d"), 1,
        Fraction { num: 10, den: 100 }, None, None, None, None,
    )
    .unwrap();
    let t1 = reg.comprar_token(&s("b1"), 0, &gate("g1")).unwrap();
    // A batch-made listing carries approval id 0, which the registry never
    // assigns, so enforcing it at settlement time must fail.
    let mut market = ContratoMercado::init();
    market.batch_on_approve(&s("registry"), vec![(t1, msg(100, None, None))], &s("b1"));
    reg.nft_approve(&s("b1"), t1, &s("market"), Some(NftApproveMsg { min_precio: 100 }))
        .unwrap();
    let req = market.buy_token(&s("b2"), 1000, &s("registry"), t1).unwrap();
    assert_eq!(req.aprobados_id, Some(0));
    let settle = reg.nft_transfer_payout(
        &s("market"), 9, &req.receiver_id, req.token_id, req.aprobados_id, req.memo, req.balance,
    );
    assert!(settle.is_err());
    // The purchase is over: nothing is paid, the owner is unchanged, and the
    // listing stays removed — there is no compensating relist.
    assert!(ContratoMercado::pago(None).is_none());
    assert_eq!(reg.nft_token(t1).unwrap().owner_id, s("b1"));
    assert!(market.get_tokens_en_venta().is_empty());
}

/// The full protocol: approve propagates to a listing, a purchase delists
/// optimistically, the registry settles with a payout, and the callback
/// yields one payment per recipient.
#[test]
fn settlement_round_trip() {
    let mut reg = ContratoNft::init(
        s("admin"),
        ticket_market::core_nft::NFTContractMetadata {
            spec_version: s("nft-1.0.0"),
            name: s("Tickets App"),
            symbol: s("MTK"),
            icon: None,
            base_uri: None,
            referencia: None,
            referencia_hash: None,
        },
        Fraction { num: 5, den: 100 },
        Fraction { num: 30, den: 100 },
        Fraction { num: 25, den: 1000 },
        s("fee_account"),
    )
    .unwrap();
    reg.crear_ticket(
        &s("admin"), 0, s("creator"), &gate("g1"), s("t"), s("d"), 3,
        Fraction { num: 10, den: 100 }, None, None, None, None,
    )
    .unwrap();
    let t1 = reg.comprar_token(&s("b1"), 0, &gate("g1")).unwrap();

    // The owner approves the marketplace; the notification becomes a listing.
    let note = reg
        .nft_approve(&s("b1"), t1, &s("market"), Some(NftApproveMsg { min_precio: 100 }))
        .unwrap();
    let mut market = ContratoMercado::init();
    market.nft_on_approve(&s("registry"), note.token_id, &note.owner_id, note.aprobados_id,
        note.msg);

    // A buyer attaches 1000 and buys; the listing is removed at once.
    let req = market.buy_token(&s("b2"), 1000, &s("registry"), t1).unwrap();
    assert!(market.get_tokens_en_venta().is_empty());

    // The settlement call reaches the registry under the marketplace's own
    // account, which holds the approval the request names.
    let payout = reg
        .nft_transfer_payout(
            &s("market"),
            99,
            &req.receiver_id,
            req.token_id,
            req.aprobados_id,
            req.memo,
            req.balance,
        )
        .unwrap();

    // The callback turns the payout into one payment per recipient.
    let payments = ContratoMercado::pago(payout).unwrap();
    assert_eq!(
        payments,
        vec![(s("creator"), 100), (s("fee_account"), 25), (s("b1"), 875)]
    );
    let total: u128 = payments.iter().map(|(_, amount)| *amount).sum();
    assert_eq!(total, 1000);
    assert_eq!(reg.nft_token(t1).unwrap().owner_id, s("b2"));
    assert!(reg.nft_token(t1).unwrap().approvals.is_empty());
}
