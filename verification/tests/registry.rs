//! Tests for the registry service: collectibles, minting, approvals,
//! transfers and payouts.

use ticket_market::core_nft::{NFTContractMetadata, NftApproveMsg, NonFungibleTokenMetadata};
use ticket_market::fraction::Fraction;
use ticket_market::gate::ValidGateId;
use ticket_market::nft::{ContratoNft, Panic};

fn s(x: &str) -> String {
    x.to_string()
}

fn gate(x: &str) -> ValidGateId {
    ValidGateId::try_from(s(x)).unwrap()
}

fn meta(base_uri: Option<&str>) -> NFTContractMetadata {
    NFTContractMetadata {
        spec_version: s("nft-1.0.0"),
        name: s("Tickets App"),
        symbol: s("MTK"),
        icon: None,
        base_uri: base_uri.map(|u| s(u)),
        referencia: None,
        referencia_hash: None,
    }
}

/// Platform fee 25/1000 (2.5%), admin account `admin`.
fn registry(base_uri: Option<&str>) -> ContratoNft {
    ContratoNft::init(
        s("admin"),
        meta(base_uri),
        Fraction { num: 5, den: 100 },
        Fraction { num: 30, den: 100 },
        Fraction { num: 25, den: 1000 },
        s("fee_account"),
    )
    .unwrap()
}

/// Creates collectible `g1` with supply 3 and royalty 10/100 by `creator`.
fn with_g1(reg: &mut ContratoNft) {
    reg.crear_ticket(
        &s("admin"),
        1000,
        s("creator"),
        &gate("g1"),
        s("My tickets"),
        s("descripcion"),
        3,
        Fraction { num: 10, den: 100 },
        Some(s("media")),
        Some(s("111")),
        Some(s("ref")),
        Some(s("222")),
    )
    .unwrap();
}

#[test]
fn init_rejects_invalid_fractions() {
    let r = ContratoNft::init(
        s("admin"),
        meta(None),
        Fraction { num: 1, den: 0 },
        Fraction { num: 1, den: 1 },
        Fraction { num: 1, den: 40 },
        s("fee_account"),
    );
    assert!(r.is_err());
}

#[test]
fn crear_ticket_stores_collectible() {
    let mut reg = registry(None);
    with_g1(&mut reg);
    let c = reg.get_ticket_por_id(&gate("g1")).unwrap();
    assert_eq!(c.gate_id, s("g1"));
    assert_eq!(c.id_creador, s("creator"));
    assert_eq!(c.cantidad_actual, 3);
    assert!(c.tokens_creados.is_empty());
    assert_eq!(c.comision, Fraction { num: 10, den: 100 });
    assert_eq!(c.metadata.titulo, Some(s("My tickets")));
    assert_eq!(c.metadata.media, Some(s("media")));
    assert_eq!(c.metadata.media_hash, Some(s("111")));
    assert_eq!(c.metadata.referencia, Some(s("ref")));
    assert_eq!(c.metadata.referencia_hash, Some(s("222")));
    assert_eq!(c.metadata.copias, Some(3));
    let by_creator = reg.get_tickets_de_creador(&s("creator"));
    assert_eq!(by_creator.len(), 1);
    assert_eq!(by_creator[0].gate_id, s("g1"));
}

#[test]
fn royalty_plus_fee_at_least_one_is_rejected_and_not_persisted() {
    let mut reg = registry(None);
    // 99/100 + 25/1000 > 1.
    let r = reg.crear_ticket(
        &s("admin"),
        1000,
        s("creator"),
        &gate("big"),
        s("t"),
        s("d"),
        1,
        Fraction { num: 99, den: 100 },
        None,
        None,
        None,
        None,
    );
    assert!(matches!(r, Err(Panic::RoyaltyTooLarge { .. })));
    assert!(reg.get_ticket_por_id(&gate("big")).is_none());
    // 975/1000 + 25/1000 == 1 exactly: still rejected.
    let r = reg.crear_ticket(
        &s("admin"),
        1000,
        s("creator"),
        &gate("exact"),
        s("t"),
        s("d"),
        1,
        Fraction { num: 975, den: 1000 },
        None,
        None,
        None,
        None,
    );
    assert!(matches!(r, Err(Panic::RoyaltyTooLarge { .. })));
    assert!(reg.get_ticket_por_id(&gate("exact")).is_none());
}

#[test]
fn crear_ticket_validation_errors() {
    let mut reg = registry(None);
    with_g1(&mut reg);
    let ok_royalty = Fraction { num: 10, den: 100 };
    let dup = reg.crear_ticket(
        &s("admin"), 0, s("creator"), &gate("g1"), s("t"), s("d"), 1, ok_royalty,
        None, None, None, None,
    );
    assert!(matches!(dup, Err(Panic::GateIdAlreadyExists { .. })));
    let zero = reg.crear_ticket(
        &s("admin"), 0, s("creator"), &gate("g2"), s("t"), s("d"), 0, ok_royalty,
        None, None, None, None,
    );
    assert!(matches!(zero, Err(Panic::ZeroSupplyNotAllowed { .. })));
    let long_title = reg.crear_ticket(
        &s("admin"), 0, s("creator"), &gate("g2"), "x".repeat(141), s("d"), 1, ok_royalty,
        None, None, None, None,
    );
    assert!(matches!(long_title, Err(Panic::InvalidArgument { .. })));
    let long_desc = reg.crear_ticket(
        &s("admin"), 0, s("creator"), &gate("g2"), s("t"), "x".repeat(1025), 1, ok_royalty,
        None, None, None, None,
    );
    assert!(matches!(long_desc, Err(Panic::InvalidArgument { .. })));
    let long_media = reg.crear_ticket(
        &s("admin"), 0, s("creator"), &gate("g2"), s("t"), s("d"), 1, ok_royalty,
        Some("x".repeat(1025)), None, None, None,
    );
    assert!(matches!(long_media, Err(Panic::InvalidArgument { .. })));
    let not_admin = reg.crear_ticket(
        &s("mallory"), 0, s("creator"), &gate("g2"), s("t"), s("d"), 1, ok_royalty,
        None, None, None, None,
    );
    assert!(matches!(not_admin, Err(Panic::AdminRestrictedOperation)));
    assert!(reg.get_ticket_por_id(&gate("g2")).is_none());
}

#[test]
fn three_purchases_then_exhausted() {
    let mut reg = registry(None);
    with_g1(&mut reg);
    let t1 = reg.comprar_token(&s("b1"), 2000, &gate("g1")).unwrap();
    let t2 = reg.comprar_token(&s("b2"), 2001, &gate("g1")).unwrap();
    let t3 = reg.comprar_token(&s("b3"), 2002, &gate("g1")).unwrap();
    assert_eq!((t1, t2, t3), (0, 1, 2));
    let fourth = reg.comprar_token(&s("b4"), 2003, &gate("g1"));
    assert!(matches!(fourth, Err(Panic::GateIdExhausted { .. })));
    assert_eq!(reg.nft_total_supply(), 3);
    assert_eq!(reg.nft_supply_for_owner(&s("b1")), 1);
    assert_eq!(reg.nft_supply_for_owner(&s("b4")), 0);
    let c = reg.get_ticket_por_id(&gate("g1")).unwrap();
    assert_eq!(c.cantidad_actual, 0);
    assert_eq!(c.tokens_creados, vec![0, 1, 2]);
    let token = reg.nft_token(t1).unwrap();
    assert_eq!(token.owner_id, s("b1"));
    assert_eq!(token.gate_id, s("g1"));
    assert_eq!(token.created_at, 2000);
    assert_eq!(token.approval_counter, 0);
    assert!(token.approvals.is_empty());
    // Metadata is joined in from the collectible.
    assert_eq!(token.metadata.titulo, Some(s("My tickets")));
    let missing = reg.comprar_token(&s("b1"), 0, &gate("nope"));
    assert!(matches!(missing, Err(Panic::GateIdNotFound { .. })));
}

#[test]
fn borrar_ticket_rules() {
    let mut reg = registry(None);
    with_g1(&mut reg);
    let not_found = reg.borrar_ticket(&s("creator"), &gate("nope"));
    assert!(matches!(not_found, Err(Panic::GateIdNotFound { .. })));
    let stranger = reg.borrar_ticket(&s("mallory"), &gate("g1"));
    assert!(matches!(stranger, Err(Panic::NotAuthorized { .. })));
    reg.comprar_token(&s("b1"), 0, &gate("g1")).unwrap();
    let minted = reg.borrar_ticket(&s("creator"), &gate("g1"));
    assert!(matches!(minted, Err(Panic::GateIdHasTokens { .. })));
    // A fresh collectible can be deleted by its creator.
    reg.crear_ticket(
        &s("admin"), 0, s("creator"), &gate("g2"), s("t"), s("d"), 1,
        Fraction { num: 10, den: 100 }, None, None, None, None,
    )
    .unwrap();
    reg.borrar_ticket(&s("creator"), &gate("g2")).unwrap();
    assert!(reg.get_ticket_por_id(&gate("g2")).is_none());
    assert_eq!(reg.get_tickets_de_creador(&s("creator")).len(), 1);
}

#[test]
fn approve_then_second_approve_fails() {
    let mut reg = registry(None);
    with_g1(&mut reg);
    let t1 = reg.comprar_token(&s("b1"), 0, &gate("g1")).unwrap();
    let note = reg
        .nft_approve(&s("b1"), t1, &s("market"), Some(NftApproveMsg { min_precio: 100 }))
        .unwrap();
    assert_eq!(note.token_id, t1);
    assert_eq!(note.owner_id, s("b1"));
    assert_eq!(note.aprobados_id, 1);
    assert_eq!(note.msg.min_precio, 100);
    assert_eq!(note.msg.gate_id.as_ref().unwrap().to_string(), s("g1"));
    assert_eq!(note.msg.id_creador, Some(s("creator")));
    // Exactly one approval exists.
    let token = reg.nft_token(t1).unwrap();
    assert_eq!(token.approvals.len(), 1);
    assert_eq!(token.approvals[0].0, s("market"));
    assert_eq!(token.approvals[0].1.aprobados_id, 1);
    assert_eq!(token.approvals[0].1.min_precio, 100);
    // A second approve, for a different spender, fails and changes nothing.
    let second = reg.nft_approve(
        &s("b1"),
        t1,
        &s("other_market"),
        Some(NftApproveMsg { min_precio: 7 }),
    );
    assert!(matches!(second, Err(Panic::OneApprovalAllowed)));
    let token = reg.nft_token(t1).unwrap();
    assert_eq!(token.approvals.len(), 1);
    assert_eq!(token.approvals[0].0, s("market"));
    assert_eq!(token.approvals[0].1.min_precio, 100);
}

#[test]
fn approve_errors() {
    let mut reg = registry(None);
    with_g1(&mut reg);
    let t1 = reg.comprar_token(&s("b1"), 0, &gate("g1")).unwrap();
    let no_msg = reg.nft_approve(&s("b1"), t1, &s("market"), None);
    assert!(matches!(no_msg, Err(Panic::MsgFormatNotRecognized)));
    let missing = reg.nft_approve(&s("b1"), 99, &s("market"), Some(NftApproveMsg { min_precio: 1 }));
    assert!(matches!(missing, Err(Panic::TokenIdNotFound { .. })));
    let not_owner =
        reg.nft_approve(&s("b2"), t1, &s("market"), Some(NftApproveMsg { min_precio: 1 }));
    assert!(matches!(not_owner, Err(Panic::TokenIdNotOwnedBy { .. })));
}

#[test]
fn revoke_and_revoke_all() {
    let mut reg = registry(None);
    with_g1(&mut reg);
    let t1 = reg.comprar_token(&s("b1"), 0, &gate("g1")).unwrap();
    reg.nft_approve(&s("b1"), t1, &s("market"), Some(NftApproveMsg { min_precio: 100 }))
        .unwrap();
    let wrong_spender = reg.nft_revoke(&s("b1"), t1, &s("other"));
    assert!(matches!(wrong_spender, Err(Panic::RevokeApprovalFailed { .. })));
    let not_owner = reg.nft_revoke(&s("b2"), t1, &s("market"));
    assert!(matches!(not_owner, Err(Panic::TokenIdNotOwnedBy { .. })));
    reg.nft_revoke(&s("b1"), t1, &s("market")).unwrap();
    assert!(reg.nft_token(t1).unwrap().approvals.is_empty());
    // Counter keeps rising: a fresh approval gets id 2.
    let note = reg
        .nft_approve(&s("b1"), t1, &s("market"), Some(NftApproveMsg { min_precio: 5 }))
        .unwrap();
    assert_eq!(note.aprobados_id, 2);
    let cleared = reg.nft_revoke_all(&s("b1"), t1).unwrap();
    assert_eq!(cleared, vec![s("market")]);
    assert!(reg.nft_token(t1).unwrap().approvals.is_empty());
}

#[test]
fn transfer_without_approvals_only_by_owner() {
    let mut reg = registry(None);
    with_g1(&mut reg);
    let t1 = reg.comprar_token(&s("b1"), 0, &gate("g1")).unwrap();
    let stranger = reg.nft_transfer(&s("mallory"), 10, &s("b2"), t1, None, None);
    assert!(matches!(stranger, Err(Panic::SenderNotAuthToTransfer { .. })));
    assert_eq!(reg.nft_token(t1).unwrap().owner_id, s("b1"));
    reg.nft_transfer(&s("b1"), 10, &s("b2"), t1, None, None).unwrap();
    assert_eq!(reg.nft_token(t1).unwrap().owner_id, s("b2"));
    assert_eq!(reg.nft_supply_for_owner(&s("b1")), 0);
    assert_eq!(reg.nft_supply_for_owner(&s("b2")), 1);
}

#[test]
fn transfer_clears_every_approval() {
    let mut reg = registry(None);
    with_g1(&mut reg);
    let t1 = reg.comprar_token(&s("b1"), 0, &gate("g1")).unwrap();
    reg.nft_approve(&s("b1"), t1, &s("market"), Some(NftApproveMsg { min_precio: 100 }))
        .unwrap();
    // The owner transfers directly; the unrelated approval is still cleared.
    reg.nft_transfer(&s("b1"), 10, &s("b2"), t1, None, None).unwrap();
    let token = reg.nft_token(t1).unwrap();
    assert!(token.approvals.is_empty());
    assert_eq!(token.owner_id, s("b2"));
    assert_eq!(token.modified_at, 10);
}

#[test]
fn transfer_enforce_approval_id() {
    let mut reg = registry(None);
    with_g1(&mut reg);
    let t1 = reg.comprar_token(&s("b1"), 0, &gate("g1")).unwrap();
    reg.nft_approve(&s("b1"), t1, &s("market"), Some(NftApproveMsg { min_precio: 100 }))
        .unwrap();
    let own = reg.nft_transfer(&s("market"), 10, &s("b1"), t1, None, None);
    assert!(matches!(own, Err(Panic::ReceiverIsOwner)));
    let stale = reg.nft_transfer(&s("market"), 10, &s("b2"), t1, Some(42), None);
    assert!(matches!(stale, Err(Panic::EnforceApprovalFailed)));
    assert_eq!(reg.nft_token(t1).unwrap().approvals.len(), 1);
    reg.nft_transfer(&s("market"), 10, &s("b2"), t1, Some(1), None).unwrap();
    let token = reg.nft_token(t1).unwrap();
    assert_eq!(token.owner_id, s("b2"));
    assert!(token.approvals.is_empty());
}

#[test]
fn payout_splits_sale_amount_exactly() {
    let mut reg = registry(None);
    with_g1(&mut reg);
    let t1 = reg.comprar_token(&s("b1"), 0, &gate("g1")).unwrap();
    // Platform fee 25/1000 (2.5%), royalty 10/100 (10%), amount 1000.
    let payout = reg.nft_payout(t1, 1000).unwrap();
    assert_eq!(
        payout,
        vec![(s("creator"), 100), (s("fee_account"), 25), (s("b1"), 875)]
    );
    let total: u128 = payout.iter().map(|(_, amount)| *amount).sum();
    assert_eq!(total, 1000);
    let missing = reg.nft_payout(99, 1000);
    assert!(matches!(missing, Err(Panic::TokenIdNotFound { .. })));
}

#[test]
fn payout_merges_colliding_accounts() {
    let mut reg = registry(None);
    with_g1(&mut reg);
    // The creator claims a token of their own collectible, so the royalty
    // and the seller remainder land on the same account and must merge.
    let t1 = reg.comprar_token(&s("creator"), 0, &gate("g1")).unwrap();
    let payout = reg.nft_payout(t1, 1000).unwrap();
    assert_eq!(payout, vec![(s("creator"), 975), (s("fee_account"), 25)]);
    let total: u128 = payout.iter().map(|(_, amount)| *amount).sum();
    assert_eq!(total, 1000);
    // Rounding loss goes to the seller: amount 999 gives royalty 99, fee 24.
    let payout = reg.nft_payout(t1, 999).unwrap();
    assert_eq!(payout, vec![(s("creator"), 99 + 876), (s("fee_account"), 24)]);
}

#[test]
fn transfer_payout_computes_before_transfer() {
    let mut reg = registry(None);
    with_g1(&mut reg);
    let t1 = reg.comprar_token(&s("b1"), 0, &gate("g1")).unwrap();
    reg.nft_approve(&s("b1"), t1, &s("market"), Some(NftApproveMsg { min_precio: 100 }))
        .unwrap();
    let payout = reg
        .nft_transfer_payout(&s("market"), 10, &s("b2"), t1, Some(1), None, Some(1000))
        .unwrap()
        .unwrap();
    // The remainder goes to the owner before the transfer, not the receiver.
    assert_eq!(
        payout,
        vec![(s("creator"), 100), (s("fee_account"), 25), (s("b1"), 875)]
    );
    assert_eq!(reg.nft_token(t1).unwrap().owner_id, s("b2"));
    // Without a sale amount nothing is returned, but the transfer happens.
    reg.nft_approve(&s("b2"), t1, &s("market"), Some(NftApproveMsg { min_precio: 1 }))
        .unwrap();
    let none = reg
        .nft_transfer_payout(&s("b2"), 11, &s("b3"), t1, None, None, None)
        .unwrap();
    assert!(none.is_none());
    assert_eq!(reg.nft_token(t1).unwrap().owner_id, s("b3"));
}

#[test]
fn batch_approve_reports_partial_failure_and_keeps_successes() {
    let mut reg = registry(None);
    with_g1(&mut reg);
    let t1 = reg.comprar_token(&s("b1"), 0, &gate("g1")).unwrap();
    let t2 = reg.comprar_token(&s("b1"), 0, &gate("g1")).unwrap();
    // T2 already holds an approval.
    reg.nft_approve(&s("b1"), t2, &s("market"), Some(NftApproveMsg { min_precio: 1 }))
        .unwrap();
    let (oks, errs) = reg
        .aprobar_por_lote(&s("b1"), vec![(t1, 100), (t2, 999999)], &s("market"))
        .unwrap();
    assert_eq!(oks.len(), 1);
    assert_eq!(oks[0].0, t1);
    assert_eq!(oks[0].1.min_precio, 100);
    assert_eq!(errs.len(), 1);
    assert_eq!(errs[0].0, t2);
    assert!(matches!(errs[0].1, Panic::OneApprovalAllowed));
    // T1's approval is present even though the overall call reports failure.
    let resolved = ContratoNft::resolve_batch_approve(errs, true);
    match resolved {
        Err(Panic::Errors { panics }) => {
            assert_eq!(panics.0.len(), 1);
            assert_eq!(panics.0[0].0, t2);
        },
        _ => panic!("expected an aggregate failure"),
    }
    let token = reg.nft_token(t1).unwrap();
    assert_eq!(token.approvals.len(), 1);
    assert_eq!(token.approvals[0].1.min_precio, 100);
}

#[test]
fn batch_approve_limits_and_notification_failure() {
    let mut reg = registry(None);
    with_g1(&mut reg);
    let too_many: Vec<(u64, u128)> = (0..11).map(|i| (i as u64, 1u128)).collect();
    let r = reg.aprobar_por_lote(&s("b1"), too_many, &s("market"));
    assert!(matches!(r, Err(Panic::ExceedTokensToBatchApprove)));
    // A failed batch notification is an aggregate failure even with no
    // per-token errors.
    let resolved = ContratoNft::resolve_batch_approve(Vec::new(), false);
    assert!(matches!(resolved, Err(Panic::Errors { .. })));
    assert!(ContratoNft::resolve_batch_approve(Vec::new(), true).is_ok());
}

#[test]
fn enumeration_and_paging() {
    let mut reg = registry(None);
    with_g1(&mut reg);
    reg.comprar_token(&s("b1"), 0, &gate("g1")).unwrap();
    reg.comprar_token(&s("b2"), 0, &gate("g1")).unwrap();
    reg.comprar_token(&s("b1"), 0, &gate("g1")).unwrap();
    assert_eq!(reg.nft_tokens(None, None).len(), 3);
    assert_eq!(reg.nft_tokens(None, Some(2)).len(), 2);
    assert_eq!(reg.nft_tokens(Some(2), None).len(), 1);
    assert_eq!(reg.nft_tokens(Some(5), None).len(), 0);
    let b1_tokens = reg.get_tokens_de_dueno(&s("b1"));
    assert_eq!(b1_tokens.len(), 2);
    assert!(b1_tokens.iter().all(|t| t.owner_id == s("b1")));
    assert_eq!(reg.nft_tokens_for_owner(&s("b1"), None, Some(1)).len(), 1);
    assert_eq!(reg.nft_tokens_for_owner(&s("nobody"), None, None).len(), 0);
}

#[test]
fn token_uri_joins_base_and_gate() {
    let mut reg = registry(Some("https://gw.example"));
    with_g1(&mut reg);
    let t1 = reg.comprar_token(&s("b1"), 0, &gate("g1")).unwrap();
    assert_eq!(reg.nft_token_uri(t1), Some(s("https://gw.example/g1")));
    assert_eq!(reg.nft_token_uri(99), None);

    let mut reg2 = registry(Some("https://gw.example/"));
    with_g1(&mut reg2);
    let t = reg2.comprar_token(&s("b1"), 0, &gate("g1")).unwrap();
    assert_eq!(reg2.nft_token_uri(t), Some(s("https://gw.example/g1")));

    let mut reg3 = registry(None);
    with_g1(&mut reg3);
    let t = reg3.comprar_token(&s("b1"), 0, &gate("g1")).unwrap();
    assert_eq!(reg3.nft_token_uri(t), None);
}

#[test]
fn nft_metadata_round_trip() {
    let reg = registry(Some("base"));
    let m = reg.nft_metadata();
    assert_eq!(m.spec_version, s("nft-1.0.0"));
    assert_eq!(m.name, s("Tickets App"));
    assert_eq!(m.symbol, s("MTK"));
    assert_eq!(m.base_uri, Some(s("base")));
}
