//! Pairing of unmatched sell-side offers with unmatched buy-side offers of
//! exactly the same amount.
use vstd::prelude::*;
use crate::ids::OfferId;
use crate::release::lemma_directions_differ;
use crate::store::{
    Deal, Offer, OfferDirection, OfferStore, StoreError, deal_pairs, offramp_taken, onramp_taken,
    pair_of, pair_valid, pairs_disjoint,
};

verus! {

/// The first offer from `j` on that is buy-side, free and of `amount`.
pub open spec fn first_buy(offers: Seq<Offer>, busy: Seq<(OfferId, OfferId)>, amount: u128, j: int) -> Option<
    int,
>
    decreases offers.len() - j,
{
    if j < 0 || j >= offers.len() {
        None
    } else if offers[j].direction == OfferDirection::FiatToDD && offers[j].amount == amount
        && !onramp_taken(busy, offers[j].id) {
        Some(j)
    } else {
        first_buy(offers, busy, amount, j + 1)
    }
}

/// The pairs that one pass makes from offer `k` on: each free sell-side offer,
/// in store order, takes the earliest free buy-side offer of its amount, and
/// a buy-side offer taken in the pass is not taken again.
pub open spec fn new_pairs(offers: Seq<Offer>, busy: Seq<(OfferId, OfferId)>, k: int) -> Seq<
    (OfferId, OfferId),
>
    decreases offers.len() - k,
{
    if k < 0 || k >= offers.len() {
        Seq::empty()
    } else if offers[k].direction == OfferDirection::DDToFiat && !offramp_taken(busy, offers[k].id) {
        match first_buy(offers, busy, offers[k].amount, 0) {
            Some(j) => {
                let p = (offers[j].id, offers[k].id);
                seq![p] + new_pairs(offers, busy.push(p), k + 1)
            },
            None => new_pairs(offers, busy, k + 1),
        }
    } else {
        new_pairs(offers, busy, k + 1)
    }
}

/// The (buy-side, sell-side) pairs that a matching pass makes on these tables.
pub open spec fn matches_for(offers: Seq<Offer>, deals: Seq<Deal>) -> Seq<(OfferId, OfferId)> {
    new_pairs(offers, deal_pairs(deals), 0)
}

/// The deals recorded for `pairs`, keyed from `start` on, with both flags down.
pub open spec fn deals_for(pairs: Seq<(OfferId, OfferId)>, start: u64) -> Seq<Deal> {
    Seq::new(
        pairs.len(),
        |i: int|
            Deal {
                id: OfferId((start + i) as u64),
                onramp_offer_id: pairs[i].0,
                offramp_offer_id: pairs[i].1,
                buyer_sent_fiat: false,
                seller_received_fiat: false,
            },
    )
}

proof fn lemma_first_buy(offers: Seq<Offer>, busy: Seq<(OfferId, OfferId)>, amount: u128, j: int)
    ensures
        first_buy(offers, busy, amount, j) matches Some(i) ==> 0 <= j <= i < offers.len()
            && offers[i].direction == OfferDirection::FiatToDD && offers[i].amount == amount
            && !onramp_taken(busy, offers[i].id),
    decreases offers.len() - j,
{
    if 0 <= j < offers.len() {
        lemma_first_buy(offers, busy, amount, j + 1);
    }
}

/// Every pair of a pass is valid, and the pass never reuses an offer that is
/// already taken or that it has taken itself.
proof fn lemma_new_pairs(offers: Seq<Offer>, busy: Seq<(OfferId, OfferId)>, k: int)
    requires
        pairs_disjoint(busy),
    ensures
        pairs_disjoint(busy + new_pairs(offers, busy, k)),
        forall|i: int|
            0 <= i < new_pairs(offers, busy, k).len() ==> pair_valid(
                offers,
                (#[trigger] new_pairs(offers, busy, k)[i]).0,
                new_pairs(offers, busy, k)[i].1,
            ),
    decreases offers.len() - k,
{
    if k < 0 || k >= offers.len() {
        assert(busy + new_pairs(offers, busy, k) =~= busy);
    } else if offers[k].direction == OfferDirection::DDToFiat && !offramp_taken(busy, offers[k].id) {
        lemma_first_buy(offers, busy, offers[k].amount, 0);
        match first_buy(offers, busy, offers[k].amount, 0) {
            Some(j) => {
                let p = (offers[j].id, offers[k].id);
                let b2 = busy.push(p);
                assert forall|a: int, b: int| 0 <= a < b < b2.len() implies (#[trigger] b2[a]).0
                    != (#[trigger] b2[b]).0 && b2[a].1 != b2[b].1 by {
                    if b == busy.len() {
                        assert(b2[a] == busy[a]);
                    }
                }
                lemma_new_pairs(offers, b2, k + 1);
                let rest = new_pairs(offers, b2, k + 1);
                assert(busy + new_pairs(offers, busy, k) =~= b2 + rest);
                assert(pair_valid(offers, p.0, p.1)) by {
                    assert(offers[j].id == p.0 && offers[k].id == p.1);
                }
                assert forall|i: int| 0 <= i < new_pairs(offers, busy, k).len() implies pair_valid(
                    offers,
                    (#[trigger] new_pairs(offers, busy, k)[i]).0,
                    new_pairs(offers, busy, k)[i].1,
                ) by {
                    if i > 0 {
                        assert(new_pairs(offers, busy, k)[i] == rest[i - 1]);
                    }
                }
            },
            None => {
                lemma_new_pairs(offers, busy, k + 1);
            },
        }
    } else {
        lemma_new_pairs(offers, busy, k + 1);
    }
}

fn is_onramp_taken(busy: &Vec<(OfferId, OfferId)>, id: OfferId) -> (r: bool)
    ensures
        r == onramp_taken(busy@, id),
{
    let mut i: usize = 0;
    while i < busy.len()
        invariant
            0 <= i <= busy@.len(),
            forall|a: int| 0 <= a < i ==> (#[trigger] busy@[a]).0 != id,
        decreases busy@.len() - i,
    {
        if busy[i].0 == id {
            return true;
        }
        i = i + 1;
    }
    false
}

fn is_offramp_taken(busy: &Vec<(OfferId, OfferId)>, id: OfferId) -> (r: bool)
    ensures
        r == offramp_taken(busy@, id),
{
    let mut i: usize = 0;
    while i < busy.len()
        invariant
            0 <= i <= busy@.len(),
            forall|a: int| 0 <= a < i ==> (#[trigger] busy@[a]).1 != id,
        decreases busy@.len() - i,
    {
        if busy[i].1 == id {
            return true;
        }
        i = i + 1;
    }
    false
}

fn find_buy(offers: &Vec<Offer>, busy: &Vec<(OfferId, OfferId)>, amount: u128) -> (r: Option<usize>)
    ensures
        match first_buy(offers@, busy@, amount, 0) {
            Some(j) => r == Some(j as usize),
            None => r is None,
        },
{
    let mut j: usize = 0;
    while j < offers.len()
        invariant
            0 <= j <= offers@.len(),
            first_buy(offers@, busy@, amount, 0) == first_buy(offers@, busy@, amount, j as int),
        decreases offers@.len() - j,
    {
        let o = &offers[j];
        if o.direction == OfferDirection::FiatToDD && o.amount == amount && !is_onramp_taken(busy, o.id) {
            return Some(j);
        }
        j = j + 1;
    }
    None
}

/// One matching pass over the offers in store order: each sell-side offer
/// that no deal holds takes the earliest buy-side offer of exactly its amount
/// that neither a deal nor this pass holds. Returns the (buy-side,
/// sell-side) pairs in the order they were made.
pub fn pair_offers(offers: &Vec<Offer>, deals: &Vec<Deal>) -> (r: Vec<(OfferId, OfferId)>)
    ensures
        r@ == matches_for(offers@, deals@),
{
    let mut busy: Vec<(OfferId, OfferId)> = Vec::new();
    let mut i: usize = 0;
    while i < deals.len()
        invariant
            0 <= i <= deals@.len(),
            busy@ =~= deal_pairs(deals@.take(i as int)),
        decreases deals@.len() - i,
    {
        let d = deals[i];
        busy.push((d.onramp_offer_id, d.offramp_offer_id));
        assert(deals@.take(i + 1) =~= deals@.take(i as int).push(d));
        i = i + 1;
    }
    assert(deals@.take(deals@.len() as int) =~= deals@);
    let ghost start = busy@;
    let mut pairs: Vec<(OfferId, OfferId)> = Vec::new();
    let mut k: usize = 0;
    while k < offers.len()
        invariant
            0 <= k <= offers@.len(),
            start == deal_pairs(deals@),
            busy@ == start + pairs@,
            pairs@ + new_pairs(offers@, busy@, k as int) == new_pairs(offers@, start, 0),
        decreases offers@.len() - k,
    {
        let o = &offers[k];
        if o.direction == OfferDirection::DDToFiat && !is_offramp_taken(&busy, o.id) {
            proof {
                lemma_first_buy(offers@, busy@, o.amount, 0);
            }
            match find_buy(offers, &busy, o.amount) {
                Some(j) => {
                    let p = (offers[j].id, o.id);
                    let ghost old_pairs = pairs@;
                    let ghost old_busy = busy@;
                    pairs.push(p);
                    busy.push(p);
                    assert(busy@ =~= start + pairs@);
                    assert(busy@ =~= old_busy.push(p));
                    assert(new_pairs(offers@, old_busy, k as int) == seq![p] + new_pairs(
                        offers@,
                        busy@,
                        k + 1,
                    ));
                    assert(pairs@ + new_pairs(offers@, busy@, k + 1) =~= old_pairs + new_pairs(
                        offers@,
                        old_busy,
                        k as int,
                    ));
                },
                None => {},
            }
        }
        k = k + 1;
    }
    assert(pairs@ =~= pairs@ + new_pairs(offers@, busy@, k as int));
    pairs
}

impl OfferStore {
    /// The matching stage: records a deal, with both flags down and a fresh
    /// key, for each pair of `pair_offers`, or, when there are not enough
    /// fresh keys for all of them, changes nothing. Returns how many deals
    /// were made.
    pub fn make_matches(&mut self) -> (r: Result<usize, StoreError>)
        requires
            old(self).wf(),
        ensures
            final(self).wf(),
            final(self).deposits@ == old(self).deposits@,
            final(self).offers@ == old(self).offers@,
            r is Err <==> matches_for(old(self).offers@, old(self).deals@).len() > u64::MAX - old(
                self,
            ).next_id,
            r is Err ==> r == Err::<usize, StoreError>(StoreError::KeysExhausted) && final(self).deals@
                == old(self).deals@ && final(self).next_id == old(self).next_id,
            r matches Ok(n) ==> {
                let pairs = matches_for(old(self).offers@, old(self).deals@);
                &&& n == pairs.len()
                &&& final(self).deals@ == old(self).deals@ + deals_for(pairs, old(self).next_id)
                &&& final(self).next_id == old(self).next_id + n
            },
    {
        let pairs = pair_offers(&self.offers, &self.deals);
        if pairs.len() as u128 > (u64::MAX - self.next_id) as u128 {
            return Err(StoreError::KeysExhausted);
        }
        let ghost old_deals = self.deals@;
        let ghost start = self.next_id;
        proof {
            lemma_new_pairs(self.offers@, deal_pairs(self.deals@), 0);
        }
        let mut i: usize = 0;
        while i < pairs.len()
            invariant
                0 <= i <= pairs@.len(),
                pairs@.len() <= u64::MAX - start,
                self.next_id == start + i,
                self.deals@ == old_deals + deals_for(pairs@, start).take(i as int),
                self.offers@ == old(self).offers@,
                self.deposits@ == old(self).deposits@,
            decreases pairs@.len() - i,
        {
            let p = pairs[i];
            let d = Deal {
                id: OfferId(self.next_id),
                onramp_offer_id: p.0,
                offramp_offer_id: p.1,
                buyer_sent_fiat: false,
                seller_received_fiat: false,
            };
            self.deals.push(d);
            self.next_id = self.next_id + 1;
            assert(deals_for(pairs@, start).take(i + 1) =~= deals_for(pairs@, start).take(i as int).push(d));
            i = i + 1;
        }
        proof {
            let nd = deals_for(pairs@, start);
            assert(nd.take(pairs@.len() as int) =~= nd);
            let all = self.deals@;
            assert(deal_pairs(all) =~= deal_pairs(old_deals) + pairs@);
            assert forall|k: int| 0 <= k < all.len() implies pair_valid(
                self.offers@,
                (#[trigger] all[k]).onramp_offer_id,
                all[k].offramp_offer_id,
            ) by {
                if k >= old_deals.len() {
                    assert(all[k] == nd[k - old_deals.len()]);
                    assert(pair_of(all[k]) == pairs@[k - old_deals.len()]);
                } else {
                    assert(all[k] == old_deals[k]);
                }
            }
            assert forall|a: int, b: int| 0 <= a < b < all.len() implies (#[trigger] all[a]).id
                != (#[trigger] all[b]).id by {
                if a >= old_deals.len() {
                    assert(all[a] == nd[a - old_deals.len()]);
                    assert(all[b] == nd[b - old_deals.len()]);
                } else if b >= old_deals.len() {
                    assert(all[a] == old_deals[a]);
                    assert(all[b] == nd[b - old_deals.len()]);
                }
            }
            assert forall|k: int| 0 <= k < all.len() implies (#[trigger] all[k]).id.0 < self.next_id by {
                if k >= old_deals.len() {
                    assert(all[k] == nd[k - old_deals.len()]);
                } else {
                    assert(all[k] == old_deals[k]);
                }
            }
        }
        Ok(i)
    }
}

/// Every live deal pairs a buy-side offer with a sell-side offer of exactly
/// the same amount.
pub proof fn lemma_exact_amount(store: &OfferStore)
    requires
        store.wf(),
    ensures
        forall|k: int|
            0 <= k < store.deals@.len() ==> pair_valid(
                store.offers@,
                (#[trigger] store.deals@[k]).onramp_offer_id,
                store.deals@[k].offramp_offer_id,
            ),
{
    assert forall|k: int| 0 <= k < store.deals@.len() implies pair_valid(
        store.offers@,
        (#[trigger] store.deals@[k]).onramp_offer_id,
        store.deals@[k].offramp_offer_id,
    ) by {}
}

/// No offer key appears in two live deals, on either side.
pub proof fn lemma_no_double_pairing(store: &OfferStore)
    requires
        store.wf(),
    ensures
        forall|a: int, b: int|
            0 <= a < store.deals@.len() && 0 <= b < store.deals@.len() && a != b ==> {
                let x = #[trigger] store.deals@[a];
                let y = #[trigger] store.deals@[b];
                &&& x.onramp_offer_id != y.onramp_offer_id
                &&& x.offramp_offer_id != y.offramp_offer_id
                &&& x.onramp_offer_id != y.offramp_offer_id
            },
{
    let deals = store.deals@;
    let dp = deal_pairs(deals);
    assert forall|a: int, b: int| 0 <= a < deals.len() && 0 <= b < deals.len() && a != b implies {
        let x = #[trigger] deals[a];
        let y = #[trigger] deals[b];
        &&& x.onramp_offer_id != y.onramp_offer_id
        &&& x.offramp_offer_id != y.offramp_offer_id
        &&& x.onramp_offer_id != y.offramp_offer_id
    } by {
        assert(dp[a] == pair_of(deals[a]) && dp[b] == pair_of(deals[b]));
        if a < b {
            assert(dp[a].0 != dp[b].0 && dp[a].1 != dp[b].1);
        } else {
            assert(dp[b].0 != dp[a].0 && dp[b].1 != dp[a].1);
        }
        lemma_directions_differ(store.offers@, deals[a], deals[b]);
    }
}

} // verus!
