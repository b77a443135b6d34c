//! The offer store: provisional deposits, tradeable offers and the deals that
//! pair them, with the invariant that every stage keeps.
use vstd::prelude::*;
use crate::ids::OfferId;

verus! {

/// Which way an offer exchanges.
#[derive(Debug, Clone, Copy, PartialEq, Eq, Structural)]
pub enum OfferDirection {
    /// The owner has escrowed DD and wants fiat (sell side).
    DDToFiat,
    /// The owner pays fiat and wants DD (buy side).
    FiatToDD,
}

/// A declared intent to sell DD, waiting for its escrow to show on the ledger.
#[derive(Debug)]
pub struct Deposit {
    pub id: OfferId,
    /// Expected escrow balance, in the token's smallest unit.
    pub amount: u128,
    pub bank_account: String,
    pub public_key: String,
}

/// A tradeable offer.
#[derive(Debug)]
pub struct Offer {
    pub id: OfferId,
    pub bank_account: String,
    pub public_key: String,
    /// Amount in the smallest unit.
    pub amount: u128,
    pub direction: OfferDirection,
}

/// A buy-side offer paired with a sell-side offer of the same amount.
#[derive(Debug, Clone, Copy, PartialEq, Eq, Structural)]
pub struct Deal {
    pub id: OfferId,
    /// The `FiatToDD` offer.
    pub onramp_offer_id: OfferId,
    /// The `DDToFiat` offer.
    pub offramp_offer_id: OfferId,
    pub buyer_sent_fiat: bool,
    pub seller_received_fiat: bool,
}

/// The three tables, kept in insertion order, and the next free key.
#[derive(Debug)]
pub struct OfferStore {
    pub deposits: Vec<Deposit>,
    pub offers: Vec<Offer>,
    pub deals: Vec<Deal>,
    pub next_id: u64,
}

/// A stage could not run to its end; the store is left as it was.
#[derive(Debug, Clone, Copy, PartialEq, Eq, Structural)]
pub enum StoreError {
    /// No fresh key is left for a new record.
    KeysExhausted,
}

/// The (buy-side, sell-side) offer keys of a deal.
pub open spec fn pair_of(d: Deal) -> (OfferId, OfferId) {
    (d.onramp_offer_id, d.offramp_offer_id)
}

pub open spec fn deal_pairs(deals: Seq<Deal>) -> Seq<(OfferId, OfferId)> {
    deals.map_values(|d: Deal| pair_of(d))
}

/// Some pair takes `id` as its buy side.
pub open spec fn onramp_taken(busy: Seq<(OfferId, OfferId)>, id: OfferId) -> bool {
    exists|i: int| 0 <= i < busy.len() && (#[trigger] busy[i]).0 == id
}

/// Some pair takes `id` as its sell side.
pub open spec fn offramp_taken(busy: Seq<(OfferId, OfferId)>, id: OfferId) -> bool {
    exists|i: int| 0 <= i < busy.len() && (#[trigger] busy[i]).1 == id
}

/// No offer stands in two pairs.
pub open spec fn pairs_disjoint(busy: Seq<(OfferId, OfferId)>) -> bool {
    forall|a: int, b: int|
        0 <= a < b < busy.len() ==> (#[trigger] busy[a]).0 != (#[trigger] busy[b]).0 && busy[a].1
            != busy[b].1
}

/// `on` is a buy-side offer and `off` a sell-side offer of the same amount.
pub open spec fn pair_valid(offers: Seq<Offer>, on: OfferId, off: OfferId) -> bool {
    exists|i: int, j: int|
        #![trigger offers[i], offers[j]]
        0 <= i < offers.len() && 0 <= j < offers.len() && offers[i].id == on && offers[i].direction
            == OfferDirection::FiatToDD && offers[j].id == off && offers[j].direction
            == OfferDirection::DDToFiat && offers[i].amount == offers[j].amount
}

pub open spec fn deposit_ids_unique(deposits: Seq<Deposit>) -> bool {
    forall|a: int, b: int|
        0 <= a < b < deposits.len() ==> (#[trigger] deposits[a]).id != (#[trigger] deposits[b]).id
}

pub open spec fn offer_ids_unique(offers: Seq<Offer>) -> bool {
    forall|a: int, b: int|
        0 <= a < b < offers.len() ==> (#[trigger] offers[a]).id != (#[trigger] offers[b]).id
}

pub open spec fn deal_ids_unique(deals: Seq<Deal>) -> bool {
    forall|a: int, b: int|
        0 <= a < b < deals.len() ==> (#[trigger] deals[a]).id != (#[trigger] deals[b]).id
}

/// Keys are below `next_id` and unique (a promoted deposit keeps its key as
/// an offer, so deposits and offers share one key space), every deal pairs a
/// buy-side and a sell-side offer of equal amount, and no offer stands in two
/// deals.
pub open spec fn tables_wf(deposits: Seq<Deposit>, offers: Seq<Offer>, deals: Seq<Deal>, next_id: u64) -> bool {
    &&& forall|i: int| 0 <= i < deposits.len() ==> (#[trigger] deposits[i]).id.0 < next_id
    &&& forall|i: int| 0 <= i < offers.len() ==> (#[trigger] offers[i]).id.0 < next_id
    &&& forall|i: int| 0 <= i < deals.len() ==> (#[trigger] deals[i]).id.0 < next_id
    &&& deposit_ids_unique(deposits)
    &&& offer_ids_unique(offers)
    &&& deal_ids_unique(deals)
    &&& forall|a: int, b: int|
        0 <= a < deposits.len() && 0 <= b < offers.len() ==> (#[trigger] deposits[a]).id
            != (#[trigger] offers[b]).id
    &&& forall|k: int|
        0 <= k < deals.len() ==> pair_valid(
            offers,
            (#[trigger] deals[k]).onramp_offer_id,
            deals[k].offramp_offer_id,
        )
    &&& pairs_disjoint(deal_pairs(deals))
}

/// Appending an offer keeps every deal's offers where they were.
pub proof fn lemma_pair_valid_push(offers: Seq<Offer>, o: Offer, on: OfferId, off: OfferId)
    requires
        pair_valid(offers, on, off),
    ensures
        pair_valid(offers.push(o), on, off),
{
    let (i, j) = choose|i: int, j: int|
        #![trigger offers[i], offers[j]]
        0 <= i < offers.len() && 0 <= j < offers.len() && offers[i].id == on && offers[i].direction
            == OfferDirection::FiatToDD && offers[j].id == off && offers[j].direction
            == OfferDirection::DDToFiat && offers[i].amount == offers[j].amount;
    assert(offers.push(o)[i] == offers[i] && offers.push(o)[j] == offers[j]);
}

impl OfferStore {
    /// The store's invariant: see `tables_wf`.
    pub open spec fn wf(&self) -> bool {
        tables_wf(self.deposits@, self.offers@, self.deals@, self.next_id)
    }

    /// An empty store.
    pub fn new() -> (r: OfferStore)
        ensures
            r.wf(),
            r.deposits@.len() == 0,
            r.offers@.len() == 0,
            r.deals@.len() == 0,
            r.next_id == 0,
    {
        OfferStore { deposits: Vec::new(), offers: Vec::new(), deals: Vec::new(), next_id: 0 }
    }

    /// Records a provisional deposit under a fresh key; `None`, and no
    /// change, when the keys are exhausted.
    pub fn submit_deposit(&mut self, amount: u128, bank_account: String, public_key: String) -> (r:
        Option<OfferId>)
        requires
            old(self).wf(),
        ensures
            final(self).wf(),
            final(self).offers@ == old(self).offers@,
            final(self).deals@ == old(self).deals@,
            r is None <==> old(self).next_id == u64::MAX,
            r is None ==> final(self).deposits@ == old(self).deposits@ && final(self).next_id == old(self).next_id,
            r matches Some(id) ==> id == OfferId(old(self).next_id) && final(self).deposits@ == old(
                self,
            ).deposits@.push(
                Deposit { id, amount, bank_account, public_key },
            ),
    {
        if self.next_id == u64::MAX {
            return None;
        }
        let id = OfferId(self.next_id);
        self.deposits.push(Deposit { id, amount, bank_account, public_key });
        self.next_id = self.next_id + 1;
        proof {
            assert forall|k: int| 0 <= k < self.deals@.len() implies pair_valid(
                self.offers@,
                (#[trigger] self.deals@[k]).onramp_offer_id,
                self.deals@[k].offramp_offer_id,
            ) by {
                assert(old(self).deals@[k] == self.deals@[k]);
            }
        }
        Some(id)
    }

    /// Records a buy-side offer under a fresh key; `None`, and no change,
    /// when the keys are exhausted.
    pub fn submit_fiat_offer(&mut self, amount: u128, bank_account: String, public_key: String) -> (r:
        Option<OfferId>)
        requires
            old(self).wf(),
        ensures
            final(self).wf(),
            final(self).deposits@ == old(self).deposits@,
            final(self).deals@ == old(self).deals@,
            r is None <==> old(self).next_id == u64::MAX,
            r is None ==> final(self).offers@ == old(self).offers@ && final(self).next_id == old(self).next_id,
            r matches Some(id) ==> id == OfferId(old(self).next_id) && final(self).offers@ == old(
                self,
            ).offers@.push(
                Offer { id, bank_account, public_key, amount, direction: OfferDirection::FiatToDD },
            ),
    {
        if self.next_id == u64::MAX {
            return None;
        }
        let id = OfferId(self.next_id);
        let ghost old_offers = self.offers@;
        let ghost o = Offer { id, bank_account, public_key, amount, direction: OfferDirection::FiatToDD };
        self.offers.push(
            Offer { id, bank_account, public_key, amount, direction: OfferDirection::FiatToDD },
        );
        self.next_id = self.next_id + 1;
        proof {
            assert forall|k: int| 0 <= k < self.deals@.len() implies pair_valid(
                self.offers@,
                (#[trigger] self.deals@[k]).onramp_offer_id,
                self.deals@[k].offramp_offer_id,
            ) by {
                let d = self.deals@[k];
                assert(pair_valid(old_offers, d.onramp_offer_id, d.offramp_offer_id));
                lemma_pair_valid_push(old_offers, o, d.onramp_offer_id, d.offramp_offer_id);
                assert(self.offers@ == old_offers.push(o));
            }
        }
        Some(id)
    }
}

} // verus!
