//! Promotion of provisional deposits into sell-side offers once the ledger
//! shows exactly the expected escrow balance.
use vstd::prelude::*;
use crate::store::{Deal, Deposit, Offer, OfferDirection, OfferStore, lemma_pair_valid_push, pair_valid, tables_wf};

verus! {

/// What promotion decides for one deposit.
#[derive(Debug, Clone, Copy, PartialEq, Eq, Structural)]
pub enum PromotionOutcome {
    /// The escrow holds nothing yet: wait for a later cycle.
    NotReady,
    /// The escrow holds exactly the expected amount: the deposit becomes an offer.
    Promoted,
    /// The escrow holds a nonzero amount other than the expected one.
    Stale { expected: u128, observed: u128 },
    /// The ledger could not be read for this deposit.
    LookupFailed,
}

/// The decision for a deposit expecting `expected`, given the balance read
/// at its escrow (`None` when the read failed).
pub open spec fn outcome_of(expected: u128, balance: Option<u128>) -> PromotionOutcome {
    match balance {
        None => PromotionOutcome::LookupFailed,
        Some(b) => if b == 0 {
            PromotionOutcome::NotReady
        } else if b == expected {
            PromotionOutcome::Promoted
        } else {
            PromotionOutcome::Stale { expected, observed: b }
        },
    }
}

/// Decides the fate of one deposit from its escrow balance.
pub fn promotion_outcome(expected: u128, balance: Option<u128>) -> (r: PromotionOutcome)
    ensures
        r == outcome_of(expected, balance),
{
    match balance {
        None => PromotionOutcome::LookupFailed,
        Some(b) => if b == 0 {
            PromotionOutcome::NotReady
        } else if b == expected {
            PromotionOutcome::Promoted
        } else {
            PromotionOutcome::Stale { expected, observed: b }
        },
    }
}

/// A deposit is promoted exactly when the observed balance equals its
/// nonzero expected amount; a zero balance never promotes, and a nonzero
/// balance other than the expected one is reported as stale.
pub proof fn lemma_promotion_safety(expected: u128, balance: Option<u128>)
    requires
        expected != 0,
    ensures
        outcome_of(expected, balance) == PromotionOutcome::Promoted <==> balance == Some(expected),
        balance == Some(0u128) ==> outcome_of(expected, balance) == PromotionOutcome::NotReady,
        forall|b: u128|
            b != 0 && b != expected && balance == Some(b) ==> outcome_of(expected, balance)
                == (PromotionOutcome::Stale { expected, observed: b }),
{
}

/// The sell-side offer that a promoted deposit becomes.
pub open spec fn offer_of_deposit(d: Deposit) -> Offer {
    Offer {
        id: d.id,
        bank_account: d.bank_account,
        public_key: d.public_key,
        amount: d.amount,
        direction: OfferDirection::DDToFiat,
    }
}

pub open spec fn is_promoted(d: Deposit, balance: Option<u128>) -> bool {
    outcome_of(d.amount, balance) == PromotionOutcome::Promoted
}

/// The deposits that stay, in order.
pub open spec fn kept_deposits(deps: Seq<Deposit>, balances: Seq<Option<u128>>) -> Seq<Deposit>
    decreases deps.len(),
{
    if deps.len() == 0 || balances.len() != deps.len() {
        deps
    } else {
        let rest = kept_deposits(deps.drop_last(), balances.drop_last());
        if is_promoted(deps.last(), balances.last()) {
            rest
        } else {
            rest.push(deps.last())
        }
    }
}

/// The offers made from promoted deposits, in order.
pub open spec fn promoted_offers(deps: Seq<Deposit>, balances: Seq<Option<u128>>) -> Seq<Offer>
    decreases deps.len(),
{
    if deps.len() == 0 || balances.len() != deps.len() {
        Seq::empty()
    } else {
        let rest = promoted_offers(deps.drop_last(), balances.drop_last());
        if is_promoted(deps.last(), balances.last()) {
            rest.push(offer_of_deposit(deps.last()))
        } else {
            rest
        }
    }
}

proof fn lemma_split_len(deps: Seq<Deposit>, balances: Seq<Option<u128>>)
    requires
        deps.len() == balances.len(),
    ensures
        kept_deposits(deps, balances).len() + promoted_offers(deps, balances).len() == deps.len(),
    decreases deps.len(),
{
    if deps.len() > 0 {
        lemma_split_len(deps.drop_last(), balances.drop_last());
    }
}

impl OfferStore {
    /// The promotion stage. `balances[i]` is the escrow balance read for
    /// the `i`-th deposit (`None` when that read failed). Each deposit whose
    /// balance equals its nonzero expected amount is removed and appended to
    /// the offers as a sell-side offer with the same key, amount, bank account
    /// and owner; every other deposit stays. Returns the decision for each
    /// deposit.
    pub fn promote_deposits(&mut self, balances: &Vec<Option<u128>>) -> (r: Vec<PromotionOutcome>)
        requires
            old(self).wf(),
            balances@.len() == old(self).deposits@.len(),
        ensures
            final(self).wf(),
            r@.len() == balances@.len(),
            forall|i: int| 0 <= i < r@.len() ==> #[trigger] r@[i] == outcome_of(
                old(self).deposits@[i].amount,
                balances@[i],
            ),
            final(self).deposits@ == kept_deposits(old(self).deposits@, balances@),
            final(self).offers@ == old(self).offers@ + promoted_offers(old(self).deposits@, balances@),
            final(self).deals@ == old(self).deals@,
            final(self).next_id == old(self).next_id,
    {
        let ghost deps0 = self.deposits@;
        let ghost offers0 = self.offers@;
        let n = balances.len();
        let mut outcomes: Vec<PromotionOutcome> = Vec::new();
        let mut i: usize = 0;
        let mut pos: usize = 0;
        while i < n
            invariant
                n == balances@.len(),
                n == deps0.len(),
                0 <= i <= n,
                old(self).wf(),
                self.wf(),
                deps0 == old(self).deposits@,
                offers0 == old(self).offers@,
                self.next_id == old(self).next_id,
                self.deals@ == old(self).deals@,
                pos == kept_deposits(deps0.take(i as int), balances@.take(i as int)).len(),
                self.deposits@ == kept_deposits(deps0.take(i as int), balances@.take(i as int)) + deps0.skip(
                    i as int,
                ),
                self.offers@ == offers0 + promoted_offers(deps0.take(i as int), balances@.take(i as int)),
                outcomes@.len() == i,
                forall|a: int| 0 <= a < i ==> #[trigger] outcomes@[a] == outcome_of(deps0[a].amount, balances@[a]),
            decreases n - i,
        {
            let ghost ti = deps0.take(i as int);
            let ghost bi = balances@.take(i as int);
            let ghost ti1 = deps0.take(i + 1);
            let ghost bi1 = balances@.take(i + 1);
            proof {
                assert(ti1.drop_last() =~= ti);
                assert(bi1.drop_last() =~= bi);
                assert(ti1.last() == deps0[i as int]);
                assert(bi1.last() == balances@[i as int]);
                lemma_split_len(ti, bi);
                assert(self.deposits@[pos as int] == deps0[i as int]);
            }
            let outcome = promotion_outcome(self.deposits[pos].amount, balances[i]);
            outcomes.push(outcome);
            match outcome {
                PromotionOutcome::Promoted => {
                    proof {
                        lemma_promote_step(self.deposits@, self.offers@, self.deals@, self.next_id, pos as int);
                    }
                    let d = self.deposits.remove(pos);
                    self.offers.push(
                        Offer {
                            id: d.id,
                            bank_account: d.bank_account,
                            public_key: d.public_key,
                            amount: d.amount,
                            direction: OfferDirection::DDToFiat,
                        },
                    );
                    proof {
                        assert(self.deposits@ =~= kept_deposits(ti1, bi1) + deps0.skip(i + 1));
                        assert(self.offers@ =~= offers0 + promoted_offers(ti1, bi1));
                    }
                },
                _ => {
                    pos = pos + 1;
                    proof {
                        assert(self.deposits@ =~= kept_deposits(ti1, bi1) + deps0.skip(i + 1));
                    }
                },
            }
            i = i + 1;
        }
        proof {
            assert(deps0.take(n as int) =~= deps0);
            assert(balances@.take(n as int) =~= balances@);
            assert(self.deposits@ =~= kept_deposits(deps0, balances@));
        }
        outcomes
    }
}

/// Moving the deposit at `pos` to the offers, under its own key, keeps the
/// tables well formed.
proof fn lemma_promote_step(deps: Seq<Deposit>, offers: Seq<Offer>, deals: Seq<Deal>, next_id: u64, pos: int)
    requires
        tables_wf(deps, offers, deals, next_id),
        0 <= pos < deps.len(),
    ensures
        tables_wf(deps.remove(pos), offers.push(offer_of_deposit(deps[pos])), deals, next_id),
{
    let d2 = deps.remove(pos);
    let o = offer_of_deposit(deps[pos]);
    let o2 = offers.push(o);
    assert forall|a: int| 0 <= a < d2.len() implies #[trigger] d2[a] == deps[if a < pos { a } else { a + 1 }] by {}
    assert forall|a: int, b: int| 0 <= a < d2.len() && 0 <= b < o2.len() implies (#[trigger] d2[a]).id
        != (#[trigger] o2[b]).id by {
        let a1 = if a < pos { a } else { a + 1 };
        assert(d2[a] == deps[a1]);
        if b == offers.len() {
            assert(o2[b] == o);
        } else {
            assert(o2[b] == offers[b]);
        }
    }
    assert forall|a: int, b: int| 0 <= a < b < d2.len() implies (#[trigger] d2[a]).id != (#[trigger] d2[b]).id by {
        let a1 = if a < pos { a } else { a + 1 };
        let b1 = if b < pos { b } else { b + 1 };
        assert(d2[a] == deps[a1] && d2[b] == deps[b1]);
    }
    assert forall|a: int, b: int| 0 <= a < b < o2.len() implies (#[trigger] o2[a]).id != (#[trigger] o2[b]).id by {
        assert(o2[a] == offers[a]);
        if b == offers.len() {
            assert(o2[b] == o);
        } else {
            assert(o2[b] == offers[b]);
        }
    }
    assert forall|k: int| 0 <= k < deals.len() implies pair_valid(
        o2,
        (#[trigger] deals[k]).onramp_offer_id,
        deals[k].offramp_offer_id,
    ) by {
        lemma_pair_valid_push(offers, o, deals[k].onramp_offer_id, deals[k].offramp_offer_id);
    }
    assert forall|i: int| 0 <= i < o2.len() implies (#[trigger] o2[i]).id.0 < next_id by {
        if i < offers.len() {
            assert(o2[i] == offers[i]);
        }
    }
}

} // verus!
