//! Release of fully settled deals: the deals whose two flags are raised are
//! handed out for payout, and a deal whose payout succeeded is retired with
//! its two offers.
use vstd::prelude::*;
use crate::ids::OfferId;
use crate::reconcile::{find_offer, find_offer_index};
use crate::store::{
    Deal, Offer, OfferDirection, OfferStore, deal_pairs, offer_ids_unique, pair_valid, pairs_disjoint,
    tables_wf,
};

verus! {

/// What the release operation needs for one settled deal.
#[derive(Debug)]
pub struct ReleaseOrder {
    pub deal_id: OfferId,
    /// Ledger identity of the seller, whose escrow is paid out.
    pub seller_public_key: String,
    /// Ledger identity of the buyer, whose token account receives the funds.
    pub buyer_public_key: String,
}

pub open spec fn settled(d: Deal) -> bool {
    d.buyer_sent_fiat && d.seller_received_fiat
}

/// The settled deals, in store order.
pub open spec fn settled_deals(deals: Seq<Deal>) -> Seq<Deal>
    decreases deals.len(),
{
    if deals.len() == 0 {
        deals
    } else if settled(deals.last()) {
        settled_deals(deals.drop_last()).push(deals.last())
    } else {
        settled_deals(deals.drop_last())
    }
}

/// Exactly the deals with both flags raised are handed out for release: a
/// deal with one flag down is never among them, and every settled deal is.
pub proof fn lemma_release_safety(deals: Seq<Deal>)
    ensures
        forall|i: int| 0 <= i < settled_deals(deals).len() ==> settled(#[trigger] settled_deals(deals)[i]),
        forall|k: int| 0 <= k < deals.len() && settled(deals[k]) ==> settled_deals(deals).contains(#[trigger] deals[k]),
        forall|d: Deal| #[trigger] settled_deals(deals).contains(d) ==> deals.contains(d),
    decreases deals.len(),
{
    if deals.len() > 0 {
        let init = deals.drop_last();
        lemma_release_safety(init);
        let s = settled_deals(deals);
        let si = settled_deals(init);
        assert forall|i: int| 0 <= i < s.len() implies settled(#[trigger] s[i]) by {
            if i < si.len() {
                assert(s[i] == si[i]);
            }
        }
        assert forall|k: int| 0 <= k < deals.len() && settled(deals[k]) implies s.contains(#[trigger] deals[k]) by {
            if k < init.len() {
                assert(init[k] == deals[k]);
                let j = choose|j: int| 0 <= j < si.len() && si[j] == init[k];
                assert(s[j] == si[j]);
            } else {
                assert(s[s.len() - 1] == deals[k]);
            }
        }
        assert forall|d: Deal| s.contains(d) implies deals.contains(d) by {
            let j = choose|j: int| 0 <= j < s.len() && s[j] == d;
            if j < si.len() {
                assert(s[j] == si[j]);
                assert(si.contains(d));
                let k = choose|k: int| 0 <= k < init.len() && init[k] == d;
                assert(deals[k] == d);
            } else {
                assert(deals[deals.len() - 1] == d);
            }
        }
    }
}

/// The owner of the offer with key `id`, when there is one.
pub open spec fn owner_of(offers: Seq<Offer>, id: OfferId) -> Option<Seq<char>> {
    match find_offer(offers, id, 0) {
        Some(i) => Some(offers[i].public_key@),
        None => None,
    }
}

/// The order handed out for deal `d`.
pub open spec fn order_matches(offers: Seq<Offer>, o: ReleaseOrder, d: Deal) -> bool {
    &&& o.deal_id == d.id
    &&& owner_of(offers, d.offramp_offer_id) == Some(o.seller_public_key@)
    &&& owner_of(offers, d.onramp_offer_id) == Some(o.buyer_public_key@)
}

/// The first deal from `j` on with key `id`.
pub open spec fn find_deal(deals: Seq<Deal>, id: OfferId, j: int) -> Option<int>
    decreases deals.len() - j,
{
    if j < 0 || j >= deals.len() {
        None
    } else if deals[j].id == id {
        Some(j)
    } else {
        find_deal(deals, id, j + 1)
    }
}

/// `offers` without the first offer keyed `id`.
pub open spec fn drop_offer(offers: Seq<Offer>, id: OfferId) -> Seq<Offer> {
    match find_offer(offers, id, 0) {
        Some(i) => offers.remove(i),
        None => offers,
    }
}

proof fn lemma_find_offer(offers: Seq<Offer>, id: OfferId, j: int)
    requires
        0 <= j,
    ensures
        find_offer(offers, id, j) matches Some(i) ==> j <= i < offers.len() && offers[i].id == id,
        find_offer(offers, id, j) is None ==> forall|i: int| j <= i < offers.len() ==> (#[trigger] offers[i]).id != id,
    decreases offers.len() - j,
{
    if j < offers.len() {
        lemma_find_offer(offers, id, j + 1);
    }
}

proof fn lemma_find_deal(deals: Seq<Deal>, id: OfferId, j: int)
    requires
        0 <= j,
    ensures
        find_deal(deals, id, j) matches Some(i) ==> j <= i < deals.len() && deals[i].id == id,
        find_deal(deals, id, j) is None ==> forall|i: int| j <= i < deals.len() ==> (#[trigger] deals[i]).id != id,
    decreases deals.len() - j,
{
    if j < deals.len() {
        lemma_find_deal(deals, id, j + 1);
    }
}

/// An offer with some key exists in a well-formed table exactly at the
/// index the search finds.
proof fn lemma_find_offer_unique(offers: Seq<Offer>, id: OfferId, p: int)
    requires
        offer_ids_unique(offers),
        0 <= p < offers.len(),
        offers[p].id == id,
    ensures
        find_offer(offers, id, 0) == Some(p),
{
    lemma_find_offer(offers, id, 0);
    if let Some(i) = find_offer(offers, id, 0) {
        if i != p {
            if i < p {
                assert(offers[i].id != offers[p].id);
            } else {
                assert(offers[p].id != offers[i].id);
            }
        }
    }
}

proof fn lemma_pair_valid_remove(offers: Seq<Offer>, p: int, on: OfferId, off: OfferId)
    requires
        pair_valid(offers, on, off),
        0 <= p < offers.len(),
        offers[p].id != on,
        offers[p].id != off,
    ensures
        pair_valid(offers.remove(p), on, off),
{
    let (i, j) = choose|i: int, j: int|
        #![trigger offers[i], offers[j]]
        0 <= i < offers.len() && 0 <= j < offers.len() && offers[i].id == on && offers[i].direction
            == OfferDirection::FiatToDD && offers[j].id == off && offers[j].direction
            == OfferDirection::DDToFiat && offers[i].amount == offers[j].amount;
    let o2 = offers.remove(p);
    let i2 = if i < p { i } else { i - 1 };
    let j2 = if j < p { j } else { j - 1 };
    assert(o2[i2] == offers[i] && o2[j2] == offers[j]);
}

proof fn lemma_remove_offer_wf(
    deposits: Seq<crate::store::Deposit>,
    offers: Seq<Offer>,
    deals: Seq<Deal>,
    next_id: u64,
    p: int,
)
    requires
        tables_wf(deposits, offers, deals, next_id),
        0 <= p < offers.len(),
        forall|k: int|
            0 <= k < deals.len() ==> (#[trigger] deals[k]).onramp_offer_id != offers[p].id
                && deals[k].offramp_offer_id != offers[p].id,
    ensures
        tables_wf(deposits, offers.remove(p), deals, next_id),
{
    let o2 = offers.remove(p);
    assert forall|a: int| 0 <= a < o2.len() implies #[trigger] o2[a] == offers[if a < p { a } else { a + 1 }] by {}
    assert forall|a: int, b: int| 0 <= a < b < o2.len() implies (#[trigger] o2[a]).id != (#[trigger] o2[b]).id by {
        let a1 = if a < p { a } else { a + 1 };
        let b1 = if b < p { b } else { b + 1 };
        assert(o2[a] == offers[a1] && o2[b] == offers[b1]);
    }
    assert forall|a: int, b: int| 0 <= a < deposits.len() && 0 <= b < o2.len() implies (#[trigger] deposits[a]).id
        != (#[trigger] o2[b]).id by {
        let b1 = if b < p { b } else { b + 1 };
        assert(o2[b] == offers[b1]);
    }
    assert forall|k: int| 0 <= k < deals.len() implies pair_valid(
        o2,
        (#[trigger] deals[k]).onramp_offer_id,
        deals[k].offramp_offer_id,
    ) by {
        lemma_pair_valid_remove(offers, p, deals[k].onramp_offer_id, deals[k].offramp_offer_id);
    }
}

/// In a well-formed store, the offers of deal `k` belong to no other deal.
proof fn lemma_offers_of_one_deal(offers: Seq<Offer>, deals: Seq<Deal>, k: int)
    requires
        offer_ids_unique(offers),
        forall|e: int|
            0 <= e < deals.len() ==> pair_valid(offers, (#[trigger] deals[e]).onramp_offer_id, deals[e].offramp_offer_id),
        pairs_disjoint(deal_pairs(deals)),
        0 <= k < deals.len(),
    ensures
        forall|e: int|
            0 <= e < deals.len() && e != k ==> {
                &&& (#[trigger] deals[e]).onramp_offer_id != deals[k].onramp_offer_id
                &&& deals[e].onramp_offer_id != deals[k].offramp_offer_id
                &&& deals[e].offramp_offer_id != deals[k].onramp_offer_id
                &&& deals[e].offramp_offer_id != deals[k].offramp_offer_id
            },
{
    let dp = deal_pairs(deals);
    assert forall|e: int| 0 <= e < deals.len() && e != k implies {
        &&& (#[trigger] deals[e]).onramp_offer_id != deals[k].onramp_offer_id
        &&& deals[e].onramp_offer_id != deals[k].offramp_offer_id
        &&& deals[e].offramp_offer_id != deals[k].onramp_offer_id
        &&& deals[e].offramp_offer_id != deals[k].offramp_offer_id
    } by {
        assert(dp[e] == (deals[e].onramp_offer_id, deals[e].offramp_offer_id));
        assert(dp[k] == (deals[k].onramp_offer_id, deals[k].offramp_offer_id));
        if e < k {
            assert(dp[e].0 != dp[k].0 && dp[e].1 != dp[k].1);
        } else {
            assert(dp[k].0 != dp[e].0 && dp[k].1 != dp[e].1);
        }
        lemma_directions_differ(offers, deals[e], deals[k]);
        lemma_directions_differ(offers, deals[k], deals[e]);
    }
}

/// A buy-side key of one deal is never the sell-side key of another.
pub(crate) proof fn lemma_directions_differ(offers: Seq<Offer>, d: Deal, e: Deal)
    requires
        offer_ids_unique(offers),
        pair_valid(offers, d.onramp_offer_id, d.offramp_offer_id),
        pair_valid(offers, e.onramp_offer_id, e.offramp_offer_id),
    ensures
        d.onramp_offer_id != e.offramp_offer_id,
{
    let (i, j) = choose|i: int, j: int|
        #![trigger offers[i], offers[j]]
        0 <= i < offers.len() && 0 <= j < offers.len() && offers[i].id == d.onramp_offer_id
            && offers[i].direction == OfferDirection::FiatToDD && offers[j].id == d.offramp_offer_id
            && offers[j].direction == OfferDirection::DDToFiat && offers[i].amount == offers[j].amount;
    let (i2, j2) = choose|i: int, j: int|
        #![trigger offers[i], offers[j]]
        0 <= i < offers.len() && 0 <= j < offers.len() && offers[i].id == e.onramp_offer_id
            && offers[i].direction == OfferDirection::FiatToDD && offers[j].id == e.offramp_offer_id
            && offers[j].direction == OfferDirection::DDToFiat && offers[i].amount == offers[j].amount;
    if d.onramp_offer_id == e.offramp_offer_id {
        assert(i != j2);
        if i < j2 {
            assert(offers[i].id != offers[j2].id);
        } else {
            assert(offers[j2].id != offers[i].id);
        }
    }
}

/// Both offers of a valid pair are found by the search.
proof fn lemma_pair_found(offers: Seq<Offer>, on: OfferId, off: OfferId)
    requires
        pair_valid(offers, on, off),
    ensures
        find_offer(offers, on, 0) is Some,
        find_offer(offers, off, 0) is Some,
        find_offer(offers, on, 0) matches Some(i) ==> 0 <= i < offers.len() && offers[i].id == on,
        find_offer(offers, off, 0) matches Some(i) ==> 0 <= i < offers.len() && offers[i].id == off,
{
    let (i, j) = choose|i: int, j: int|
        #![trigger offers[i], offers[j]]
        0 <= i < offers.len() && 0 <= j < offers.len() && offers[i].id == on && offers[i].direction
            == OfferDirection::FiatToDD && offers[j].id == off && offers[j].direction
            == OfferDirection::DDToFiat && offers[i].amount == offers[j].amount;
    lemma_find_offer(offers, on, 0);
    lemma_find_offer(offers, off, 0);
}

proof fn lemma_remove_deal_wf(
    deposits: Seq<crate::store::Deposit>,
    offers: Seq<Offer>,
    deals: Seq<Deal>,
    next_id: u64,
    k: int,
)
    requires
        tables_wf(deposits, offers, deals, next_id),
        0 <= k < deals.len(),
    ensures
        tables_wf(deposits, offers, deals.remove(k), next_id),
        forall|e: int|
            0 <= e < deals.remove(k).len() ==> {
                &&& (#[trigger] deals.remove(k)[e]).onramp_offer_id != deals[k].onramp_offer_id
                &&& deals.remove(k)[e].onramp_offer_id != deals[k].offramp_offer_id
                &&& deals.remove(k)[e].offramp_offer_id != deals[k].onramp_offer_id
                &&& deals.remove(k)[e].offramp_offer_id != deals[k].offramp_offer_id
            },
{
    lemma_offers_of_one_deal(offers, deals, k);
    let d2 = deals.remove(k);
    assert forall|a: int| 0 <= a < d2.len() implies #[trigger] d2[a] == deals[if a < k { a } else { a + 1 }] by {}
    assert forall|a: int, b: int| 0 <= a < b < d2.len() implies (#[trigger] d2[a]).id != (#[trigger] d2[b]).id by {
        let a1 = if a < k { a } else { a + 1 };
        let b1 = if b < k { b } else { b + 1 };
        assert(d2[a] == deals[a1] && d2[b] == deals[b1]);
    }
    let dp = deal_pairs(deals);
    let dp2 = deal_pairs(d2);
    assert forall|a: int, b: int| 0 <= a < b < dp2.len() implies (#[trigger] dp2[a]).0 != (#[trigger] dp2[b]).0
        && dp2[a].1 != dp2[b].1 by {
        let a1 = if a < k { a } else { a + 1 };
        let b1 = if b < k { b } else { b + 1 };
        assert(d2[a] == deals[a1] && d2[b] == deals[b1]);
        assert(dp2[a] == dp[a1] && dp2[b] == dp[b1]);
    }
    assert forall|k2: int| 0 <= k2 < d2.len() implies pair_valid(
        offers,
        (#[trigger] d2[k2]).onramp_offer_id,
        d2[k2].offramp_offer_id,
    ) by {
        let a1 = if k2 < k { k2 } else { k2 + 1 };
        assert(d2[k2] == deals[a1]);
    }
}

fn find_deal_index(deals: &Vec<Deal>, id: OfferId) -> (r: Option<usize>)
    ensures
        r matches Some(j) ==> find_deal(deals@, id, 0) == Some(j as int) && j < deals@.len(),
        r is None ==> find_deal(deals@, id, 0) is None,
{
    let mut j: usize = 0;
    while j < deals.len()
        invariant
            0 <= j <= deals@.len(),
            find_deal(deals@, id, 0) == find_deal(deals@, id, j as int),
        decreases deals@.len() - j,
    {
        if deals[j].id == id {
            return Some(j);
        }
        j = j + 1;
    }
    None
}

impl OfferStore {
    /// The deals whose two flags are raised, in store order, each with the
    /// seller's and the buyer's ledger identity.
    pub fn ready_deals(&self) -> (r: Vec<ReleaseOrder>)
        requires
            self.wf(),
        ensures
            r@.len() == settled_deals(self.deals@).len(),
            forall|i: int| 0 <= i < r@.len() ==> order_matches(self.offers@, #[trigger] r@[i], settled_deals(self.deals@)[i]),
    {
        let mut r: Vec<ReleaseOrder> = Vec::new();
        let mut k: usize = 0;
        while k < self.deals.len()
            invariant
                self.wf(),
                0 <= k <= self.deals@.len(),
                r@.len() == settled_deals(self.deals@.take(k as int)).len(),
                forall|i: int| 0 <= i < r@.len() ==> order_matches(self.offers@, #[trigger] r@[i], settled_deals(self.deals@.take(k as int))[i]),
            decreases self.deals@.len() - k,
        {
            let d = self.deals[k];
            let ghost t1 = self.deals@.take(k + 1);
            proof {
                assert(t1.drop_last() =~= self.deals@.take(k as int));
                assert(t1.last() == d);
            }
            if d.buyer_sent_fiat && d.seller_received_fiat {
                proof {
                    lemma_pair_found(self.offers@, d.onramp_offer_id, d.offramp_offer_id);
                }
                let a = find_offer_index(&self.offers, d.onramp_offer_id).unwrap();
                let b = find_offer_index(&self.offers, d.offramp_offer_id).unwrap();
                let o = ReleaseOrder {
                    deal_id: d.id,
                    seller_public_key: self.offers[b].public_key.clone(),
                    buyer_public_key: self.offers[a].public_key.clone(),
                };
                let ghost before = r@;
                r.push(o);
                assert forall|i: int| 0 <= i < r@.len() implies order_matches(self.offers@, #[trigger] r@[i], settled_deals(t1)[i]) by {
                    if i < before.len() {
                        assert(r@[i] == before[i]);
                    }
                }
            }
            k = k + 1;
        }
        assert(self.deals@.take(self.deals@.len() as int) =~= self.deals@);
        r
    }

    /// Records the outcome of the release operation for deal `deal_id`.
    /// When it succeeded and the deal is settled on both legs, the deal and
    /// its two offers are deleted and `true` is returned; otherwise nothing
    /// changes and `false` is returned, so that the next cycle retries.
    pub fn finish_release(&mut self, deal_id: OfferId, released: bool) -> (r: bool)
        requires
            old(self).wf(),
        ensures
            final(self).wf(),
            r == (released && find_deal(old(self).deals@, deal_id, 0) is Some && settled(
                old(self).deals@[find_deal(old(self).deals@, deal_id, 0)->Some_0],
            )),
            r ==> ({
                let k = find_deal(old(self).deals@, deal_id, 0)->Some_0;
                let d = old(self).deals@[k];
                &&& final(self).deals@ == old(self).deals@.remove(k)
                &&& final(self).offers@ == drop_offer(
                    drop_offer(old(self).offers@, d.onramp_offer_id),
                    d.offramp_offer_id,
                )
            }),
            !r ==> final(self).deals@ == old(self).deals@ && final(self).offers@ == old(self).offers@,
            final(self).deposits@ == old(self).deposits@,
            final(self).next_id == old(self).next_id,
    {
        if !released {
            return false;
        }
        let k = match find_deal_index(&self.deals, deal_id) {
            Some(k) => k,
            None => {
                return false;
            },
        };
        let d = self.deals[k];
        if !(d.buyer_sent_fiat && d.seller_received_fiat) {
            return false;
        }
        proof {
            lemma_pair_found(self.offers@, d.onramp_offer_id, d.offramp_offer_id);
            lemma_remove_deal_wf(self.deposits@, self.offers@, self.deals@, self.next_id, k as int);
        }
        self.deals.remove(k);
        let a = find_offer_index(&self.offers, d.onramp_offer_id).unwrap();
        proof {
            lemma_remove_offer_wf(self.deposits@, self.offers@, self.deals@, self.next_id, a as int);
            let o1 = self.offers@.remove(a as int);
            assert(self.offers@[a as int].id != d.offramp_offer_id);
            let (i, j) = choose|i: int, j: int|
                #![trigger self.offers@[i], self.offers@[j]]
                0 <= i < self.offers@.len() && 0 <= j < self.offers@.len() && self.offers@[i].id
                    == d.onramp_offer_id && self.offers@[i].direction == OfferDirection::FiatToDD
                    && self.offers@[j].id == d.offramp_offer_id && self.offers@[j].direction
                    == OfferDirection::DDToFiat && self.offers@[i].amount == self.offers@[j].amount;
            let j2 = if j < a { j } else { j - 1 };
            assert(o1[j2] == self.offers@[j]);
            lemma_find_offer(o1, d.offramp_offer_id, 0);
        }
        self.offers.remove(a);
        let b = find_offer_index(&self.offers, d.offramp_offer_id).unwrap();
        proof {
            lemma_remove_offer_wf(self.deposits@, self.offers@, self.deals@, self.next_id, b as int);
        }
        self.offers.remove(b);
        true
    }
}

} // verus!
