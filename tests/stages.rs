use daemon::cycle::{next_step, CycleStep, StepOutcome};
use daemon::ids::OfferId;
use daemon::promotion::{promotion_outcome, PromotionOutcome};
use daemon::reconcile::{contains, deal_evidence, StatementRecord};
use daemon::statement::handle_readout;
use daemon::store::{Deal, OfferDirection, OfferStore, StoreError};

fn record(account: &str, description: &str) -> StatementRecord {
    StatementRecord {
        date: "2024-05-01".to_string(),
        description: description.to_string(),
        amount: "500.00".to_string(),
        account: account.to_string(),
        transaction_id: "T1".to_string(),
    }
}

/// A store with one sell-side offer (promoted) and one buy-side offer of the
/// same amount, paired into one deal.
fn matched_store() -> (OfferStore, OfferId, OfferId) {
    let mut store = OfferStore::new();
    let d1 = store
        .submit_deposit(50000, "BANK-SELLER".to_string(), "SellerKey".to_string())
        .unwrap();
    let out = store.promote_deposits(&vec![Some(50000)]);
    assert_eq!(out, vec![PromotionOutcome::Promoted]);
    let o2 = store
        .submit_fiat_offer(50000, "BANK-BUYER".to_string(), "BuyerKey".to_string())
        .unwrap();
    assert_eq!(store.make_matches(), Ok(1));
    (store, d1, o2)
}

#[test]
fn zero_balance_leaves_deposit() {
    let mut store = OfferStore::new();
    let d1 = store
        .submit_deposit(50000, "BANK-1".to_string(), "Key1".to_string())
        .unwrap();
    let out = store.promote_deposits(&vec![Some(0)]);
    assert_eq!(out, vec![PromotionOutcome::NotReady]);
    assert_eq!(store.deposits.len(), 1);
    assert_eq!(store.deposits[0].id, d1);
    assert_eq!(store.offers.len(), 0);
}

#[test]
fn exact_balance_promotes_deposit() {
    let mut store = OfferStore::new();
    let d1 = store
        .submit_deposit(50000, "BANK-1".to_string(), "Key1".to_string())
        .unwrap();
    let out = store.promote_deposits(&vec![Some(50000)]);
    assert_eq!(out, vec![PromotionOutcome::Promoted]);
    assert_eq!(store.deposits.len(), 0);
    assert_eq!(store.offers.len(), 1);
    let o = &store.offers[0];
    assert_eq!(o.id, d1);
    assert_eq!(o.amount, 50000);
    assert_eq!(o.direction, OfferDirection::DDToFiat);
    assert_eq!(o.bank_account, "BANK-1");
    assert_eq!(o.public_key, "Key1");
}

#[test]
fn mismatched_balance_is_stale_and_isolated() {
    let mut store = OfferStore::new();
    store.submit_deposit(50000, "B1".to_string(), "K1".to_string()).unwrap();
    let d2 = store.submit_deposit(700, "B2".to_string(), "K2".to_string()).unwrap();
    store.submit_deposit(900, "B3".to_string(), "K3".to_string()).unwrap();
    let out = store.promote_deposits(&vec![Some(49999), Some(700), None]);
    assert_eq!(
        out,
        vec![
            PromotionOutcome::Stale { expected: 50000, observed: 49999 },
            PromotionOutcome::Promoted,
            PromotionOutcome::LookupFailed,
        ]
    );
    assert_eq!(store.deposits.len(), 2);
    assert_eq!(store.offers.len(), 1);
    assert_eq!(store.offers[0].id, d2);
}

#[test]
fn promotion_outcome_values() {
    assert_eq!(promotion_outcome(500, Some(0)), PromotionOutcome::NotReady);
    assert_eq!(promotion_outcome(500, Some(500)), PromotionOutcome::Promoted);
    assert_eq!(
        promotion_outcome(500, Some(501)),
        PromotionOutcome::Stale { expected: 500, observed: 501 }
    );
    assert_eq!(promotion_outcome(500, None), PromotionOutcome::LookupFailed);
    assert_eq!(promotion_outcome(0, Some(0)), PromotionOutcome::NotReady);
}

#[test]
fn matching_creates_deal_with_flags_down() {
    let (store, o1, o2) = matched_store();
    assert_eq!(store.deals.len(), 1);
    let m = store.deals[0];
    assert_eq!(m.onramp_offer_id, o2);
    assert_eq!(m.offramp_offer_id, o1);
    assert!(!m.buyer_sent_fiat);
    assert!(!m.seller_received_fiat);
}

#[test]
fn matching_requires_exact_amount() {
    let mut store = OfferStore::new();
    store.submit_deposit(100, "S".to_string(), "KS".to_string()).unwrap();
    store.promote_deposits(&vec![Some(100)]);
    store.submit_fiat_offer(101, "B".to_string(), "KB".to_string()).unwrap();
    assert_eq!(store.make_matches(), Ok(0));
    assert!(store.deals.is_empty());
}

#[test]
fn matching_consumes_buy_offer_once_per_pass() {
    let mut store = OfferStore::new();
    let s1 = store.submit_deposit(100, "S1".to_string(), "K1".to_string()).unwrap();
    store.submit_deposit(100, "S2".to_string(), "K2".to_string()).unwrap();
    store.promote_deposits(&vec![Some(100), Some(100)]);
    let b1 = store.submit_fiat_offer(100, "B1".to_string(), "KB1".to_string()).unwrap();
    assert_eq!(store.make_matches(), Ok(1));
    assert_eq!(store.deals.len(), 1);
    assert_eq!(store.deals[0].offramp_offer_id, s1);
    assert_eq!(store.deals[0].onramp_offer_id, b1);
    // A second pass does not pair the taken buy offer again.
    assert_eq!(store.make_matches(), Ok(0));
    // A new buy offer goes to the waiting seller.
    let b2 = store.submit_fiat_offer(100, "B2".to_string(), "KB2".to_string()).unwrap();
    assert_eq!(store.make_matches(), Ok(1));
    assert_eq!(store.deals[1].onramp_offer_id, b2);
}

#[test]
fn matching_takes_earliest_buy_offer() {
    let mut store = OfferStore::new();
    let b1 = store.submit_fiat_offer(300, "B1".to_string(), "KB1".to_string()).unwrap();
    let b2 = store.submit_fiat_offer(300, "B2".to_string(), "KB2".to_string()).unwrap();
    let s1 = store.submit_deposit(300, "S1".to_string(), "K1".to_string()).unwrap();
    let s2 = store.submit_deposit(300, "S2".to_string(), "K2".to_string()).unwrap();
    store.promote_deposits(&vec![Some(300), Some(300)]);
    assert_eq!(store.make_matches(), Ok(2));
    assert_eq!((store.deals[0].onramp_offer_id, store.deals[0].offramp_offer_id), (b1, s1));
    assert_eq!((store.deals[1].onramp_offer_id, store.deals[1].offramp_offer_id), (b2, s2));
    assert_ne!(store.deals[0].id, store.deals[1].id);
}

#[test]
fn matching_without_keys_changes_nothing() {
    let (mut store, _, _) = matched_store();
    store.submit_deposit(5, "S".to_string(), "K".to_string()).unwrap();
    store.promote_deposits(&vec![Some(5)]);
    store.submit_fiat_offer(5, "B".to_string(), "KB".to_string()).unwrap();
    store.next_id = u64::MAX;
    let before: Vec<Deal> = store.deals.clone();
    assert_eq!(store.make_matches(), Err(StoreError::KeysExhausted));
    assert_eq!(store.deals, before);
    assert_eq!(store.submit_deposit(1, "X".to_string(), "Y".to_string()), None);
}

#[test]
fn statement_records_raise_flags() {
    let (mut store, _, _) = matched_store();
    store.apply_statement(&vec![record("BANK-SELLER", "c2c transfer from BANK-BUYER ref 1")]);
    assert!(store.deals[0].seller_received_fiat);
    assert!(!store.deals[0].buyer_sent_fiat);
    store.apply_statement(&vec![record("BANK-BUYER", "paid to BANK-SELLER")]);
    assert!(store.deals[0].seller_received_fiat);
    assert!(store.deals[0].buyer_sent_fiat);
}

#[test]
fn unrelated_records_change_nothing() {
    let (mut store, _, _) = matched_store();
    store.apply_statement(&vec![
        record("BANK-OTHER", "BANK-BUYER BANK-SELLER"),
        record("BANK-SELLER", "no memo here"),
    ]);
    assert!(!store.deals[0].seller_received_fiat);
    assert!(!store.deals[0].buyer_sent_fiat);
}

#[test]
fn flags_stay_raised() {
    let (mut store, _, _) = matched_store();
    store.apply_statement(&vec![record("BANK-SELLER", "from BANK-BUYER")]);
    store.apply_statement(&vec![record("BANK-SELLER", "nothing")]);
    store.apply_statement(&vec![]);
    assert!(store.deals[0].seller_received_fiat);
}

#[test]
fn reconciliation_is_idempotent() {
    let (mut once, _, _) = matched_store();
    let (mut twice, _, _) = matched_store();
    let batch = vec![
        record("BANK-SELLER", "from BANK-BUYER"),
        record("BANK-OTHER", "x"),
    ];
    once.apply_statement(&batch);
    twice.apply_statement(&batch);
    twice.apply_statement(&batch);
    assert_eq!(once.deals, twice.deals);
}

#[test]
fn readout_text_raises_flags() {
    let (mut store, _, _) = matched_store();
    let body = "# Date,Description,Amount,Account,Transaction ID\n\
                2024-05-01, transfer BANK-BUYER, 500.00, BANK-SELLER, T1\n\
                garbage line\n\
                2024-05-01, to BANK-SELLER, abc, BANK-BUYER, T2\n";
    handle_readout(&mut store, body);
    assert!(store.deals[0].seller_received_fiat);
    // The second record's amount is not a number: it is dropped.
    assert!(!store.deals[0].buyer_sent_fiat);
}

#[test]
fn settled_deal_is_released_and_retired() {
    let (mut store, o1, o2) = matched_store();
    store.apply_statement(&vec![
        record("BANK-SELLER", "from BANK-BUYER"),
        record("BANK-BUYER", "to BANK-SELLER"),
    ]);
    let orders = store.ready_deals();
    assert_eq!(orders.len(), 1);
    assert_eq!(orders[0].deal_id, store.deals[0].id);
    assert_eq!(orders[0].seller_public_key, "SellerKey");
    assert_eq!(orders[0].buyer_public_key, "BuyerKey");
    assert!(store.finish_release(orders[0].deal_id, true));
    assert!(store.deals.is_empty());
    assert!(store.offers.iter().all(|o| o.id != o1 && o.id != o2));
    assert!(store.offers.is_empty());
}

#[test]
fn one_flag_is_not_enough() {
    let (mut store, _, _) = matched_store();
    store.apply_statement(&vec![record("BANK-SELLER", "from BANK-BUYER")]);
    assert!(store.ready_deals().is_empty());
    let id = store.deals[0].id;
    assert!(!store.finish_release(id, true));
    assert_eq!(store.deals.len(), 1);
    assert_eq!(store.offers.len(), 2);
}

#[test]
fn failed_release_is_retried_and_others_go_on() {
    let mut store = OfferStore::new();
    store.submit_deposit(10, "S1".to_string(), "KS1".to_string()).unwrap();
    store.submit_deposit(20, "S2".to_string(), "KS2".to_string()).unwrap();
    store.promote_deposits(&vec![Some(10), Some(20)]);
    store.submit_fiat_offer(10, "B1".to_string(), "KB1".to_string()).unwrap();
    store.submit_fiat_offer(20, "B2".to_string(), "KB2".to_string()).unwrap();
    assert_eq!(store.make_matches(), Ok(2));
    store.apply_statement(&vec![
        record("S1", "B1"),
        record("B1", "S1"),
        record("S2", "B2"),
        record("B2", "S2"),
    ]);
    let orders = store.ready_deals();
    assert_eq!(orders.len(), 2);
    // The first payout fails: nothing changes for that deal.
    assert!(!store.finish_release(orders[0].deal_id, false));
    assert_eq!(store.deals.len(), 2);
    assert_eq!(store.offers.len(), 4);
    // The second succeeds.
    assert!(store.finish_release(orders[1].deal_id, true));
    assert_eq!(store.deals.len(), 1);
    assert_eq!(store.offers.len(), 2);
    // The next cycle retries the first one alone.
    let retry = store.ready_deals();
    assert_eq!(retry.len(), 1);
    assert_eq!(retry[0].deal_id, orders[0].deal_id);
    assert!(store.finish_release(retry[0].deal_id, true));
    assert!(store.deals.is_empty() && store.offers.is_empty());
}

#[test]
fn release_of_unknown_deal_is_refused() {
    let (mut store, _, _) = matched_store();
    assert!(!store.finish_release(OfferId(12345), true));
    assert_eq!(store.deals.len(), 1);
}

#[test]
fn evidence_rules() {
    assert_eq!(deal_evidence("B", "paid S now", "B", "S"), (true, false));
    assert_eq!(deal_evidence("S", "from B", "B", "S"), (false, true));
    // One account on both sides: one record can raise both flags.
    assert_eq!(deal_evidence("X", "X", "X", "X"), (true, true));
    assert_eq!(deal_evidence("B", "nothing", "B", "S"), (false, false));
}

#[test]
fn substring_search() {
    assert!(contains("abcdef", "cde"));
    assert!(contains("abc", ""));
    assert!(contains("abc", "abc"));
    assert!(!contains("abc", "abcd"));
    assert!(!contains("abcabd", "abe"));
    assert!(contains("ñandú", "dú"));
}

#[test]
fn cycle_order_ignores_failures() {
    let mut step = CycleStep::Promote;
    let mut seen = vec![];
    for _ in 0..4 {
        step = next_step(step, StepOutcome::Failed);
        seen.push(step);
    }
    assert_eq!(
        seen,
        vec![CycleStep::Match, CycleStep::Release, CycleStep::Wait, CycleStep::Promote]
    );
    assert_eq!(next_step(CycleStep::Promote, StepOutcome::Done { n: 3 }), CycleStep::Match);
}
