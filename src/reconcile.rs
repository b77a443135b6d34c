//! Reconciliation of bank-statement records against open deals: a record on
//! one side's account whose description names the other side's account is
//! evidence that this leg of the deal has settled in fiat.
use vstd::prelude::*;
use crate::ids::OfferId;
use crate::store::{Deal, Offer, OfferStore, deal_pairs};

verus! {

/// One line of a bank statement.
#[derive(Debug)]
pub struct StatementRecord {
    pub date: String,
    pub description: String,
    /// The signed amount, as decimal text.
    pub amount: String,
    /// The bank account the line belongs to.
    pub account: String,
    pub transaction_id: String,
}

/// `needle` occurs in `hay` as a contiguous run of characters.
pub open spec fn contains_text(hay: Seq<char>, needle: Seq<char>) -> bool {
    exists|i: int| 0 <= i && i + needle.len() <= hay.len() && #[trigger] hay.subrange(i, i + needle.len()) == needle
}

/// The evidence that a record on `account` with `description` gives for a
/// deal between these two bank accounts: (the buyer sent fiat, the seller
/// received fiat). A record on an account that both sides share can give
/// both at once.
pub open spec fn evidence(account: Seq<char>, description: Seq<char>, onramp_bank: Seq<char>, offramp_bank: Seq<char>) -> (bool, bool) {
    (
        onramp_bank == account && contains_text(description, offramp_bank),
        offramp_bank == account && contains_text(description, onramp_bank),
    )
}

/// The first offer from index `j` on with key `id`.
pub open spec fn find_offer(offers: Seq<Offer>, id: OfferId, j: int) -> Option<int>
    decreases offers.len() - j,
{
    if j < 0 || j >= offers.len() {
        None
    } else if offers[j].id == id {
        Some(j)
    } else {
        find_offer(offers, id, j + 1)
    }
}

/// The evidence that record `r` gives for deal `d`.
pub open spec fn record_evidence(offers: Seq<Offer>, d: Deal, r: StatementRecord) -> (bool, bool) {
    match (find_offer(offers, d.onramp_offer_id, 0), find_offer(offers, d.offramp_offer_id, 0)) {
        (Some(a), Some(b)) => evidence(r.account@, r.description@, offers[a].bank_account@, offers[b].bank_account@),
        _ => (false, false),
    }
}

/// Deal `d` after a batch of records: a flag is raised when it was raised
/// before or when some record of the batch gives evidence for it.
pub open spec fn reconciled_deal(offers: Seq<Offer>, d: Deal, records: Seq<StatementRecord>) -> Deal {
    Deal {
        buyer_sent_fiat: d.buyer_sent_fiat || exists|i: int|
            0 <= i < records.len() && (#[trigger] record_evidence(offers, d, records[i])).0,
        seller_received_fiat: d.seller_received_fiat || exists|i: int|
            0 <= i < records.len() && (#[trigger] record_evidence(offers, d, records[i])).1,
        ..d
    }
}

pub open spec fn reconciled_deals(offers: Seq<Offer>, deals: Seq<Deal>, records: Seq<StatementRecord>) -> Seq<Deal> {
    deals.map_values(|d: Deal| reconciled_deal(offers, d, records))
}

/// Once raised, a settlement flag stays raised, whatever the batch.
pub proof fn lemma_flags_monotone(offers: Seq<Offer>, deals: Seq<Deal>, records: Seq<StatementRecord>)
    ensures
        reconciled_deals(offers, deals, records).len() == deals.len(),
        forall|k: int|
            0 <= k < deals.len() ==> {
                &&& (#[trigger] deals[k]).buyer_sent_fiat ==> reconciled_deals(offers, deals, records)[k].buyer_sent_fiat
                &&& deals[k].seller_received_fiat ==> reconciled_deals(offers, deals, records)[k].seller_received_fiat
            },
{
}

/// Ingesting the same batch twice leaves the flags as ingesting it once.
pub proof fn lemma_reconcile_idempotent(offers: Seq<Offer>, deals: Seq<Deal>, records: Seq<StatementRecord>)
    ensures
        reconciled_deals(offers, reconciled_deals(offers, deals, records), records) == reconciled_deals(
            offers,
            deals,
            records,
        ),
{
    let once = reconciled_deals(offers, deals, records);
    let twice = reconciled_deals(offers, once, records);
    assert forall|k: int| 0 <= k < deals.len() implies #[trigger] twice[k] == once[k] by {
        let d = deals[k];
        let d1 = once[k];
        assert(d1 == reconciled_deal(offers, d, records));
        assert forall|i: int| 0 <= i < records.len() implies #[trigger] record_evidence(offers, d1, records[i])
            == record_evidence(offers, d, records[i]) by {}
        assert(twice[k] == reconciled_deal(offers, d1, records));
    }
    assert(twice =~= once);
}

fn text_eq(a: &str, b: &str) -> (r: bool)
    ensures
        r == (a@ == b@),
{
    let n = a.unicode_len();
    if n != b.unicode_len() {
        return false;
    }
    let mut i: usize = 0;
    while i < n
        invariant
            n == a@.len(),
            n == b@.len(),
            0 <= i <= n,
            forall|k: int| 0 <= k < i ==> a@[k] == b@[k],
        decreases n - i,
    {
        if a.get_char(i) != b.get_char(i) {
            return false;
        }
        i = i + 1;
    }
    assert(a@ =~= b@);
    true
}

/// Whether `needle` occurs in `hay`.
pub fn contains(hay: &str, needle: &str) -> (r: bool)
    ensures
        r == contains_text(hay@, needle@),
{
    let n = hay.unicode_len();
    let m = needle.unicode_len();
    if m > n {
        assert forall|i: int| 0 <= i && i + needle@.len() <= hay@.len() implies #[trigger] hay@.subrange(
            i,
            i + needle@.len(),
        ) != needle@ by {}
        return false;
    }
    let mut i: usize = 0;
    while i <= n - m
        invariant
            n == hay@.len(),
            m == needle@.len(),
            m <= n,
            0 <= i <= n - m + 1,
            forall|s: int| 0 <= s < i ==> #[trigger] hay@.subrange(s, s + m) != needle@,
        decreases n - m + 1 - i,
    {
        let mut j: usize = 0;
        let mut same = true;
        while j < m
            invariant
                n == hay@.len(),
                m == needle@.len(),
                i + m <= n,
                0 <= j <= m,
                same == forall|t: int| 0 <= t < j ==> hay@[i + t] == needle@[t],
            decreases m - j,
        {
            if hay.get_char(i + j) != needle.get_char(j) {
                same = false;
            }
            j = j + 1;
        }
        if same {
            assert(hay@.subrange(i as int, i + m) =~= needle@);
            return true;
        }
        assert(hay@.subrange(i as int, i + m) != needle@) by {
            let t = choose|t: int| 0 <= t < m && hay@[i + t] != needle@[t];
            assert(hay@.subrange(i as int, i + m)[t] == hay@[i + t]);
        }
        i = i + 1;
    }
    assert forall|s: int| 0 <= s && s + needle@.len() <= hay@.len() implies #[trigger] hay@.subrange(
        s,
        s + needle@.len(),
    ) != needle@ by {
        assert(s < i);
    }
    false
}

/// The evidence that a record on `account` with `description` gives for a
/// deal between `onramp_bank` (buy side) and `offramp_bank` (sell side).
pub fn deal_evidence(account: &str, description: &str, onramp_bank: &str, offramp_bank: &str) -> (r: (bool, bool))
    ensures
        r == evidence(account@, description@, onramp_bank@, offramp_bank@),
{
    let buyer = text_eq(onramp_bank, account) && contains(description, offramp_bank);
    let seller = text_eq(offramp_bank, account) && contains(description, onramp_bank);
    (buyer, seller)
}

pub(crate) fn find_offer_index(offers: &Vec<Offer>, id: OfferId) -> (r: Option<usize>)
    ensures
        r matches Some(j) ==> find_offer(offers@, id, 0) == Some(j as int) && j < offers@.len(),
        r is None ==> find_offer(offers@, id, 0) is None,
{
    let mut j: usize = 0;
    while j < offers.len()
        invariant
            0 <= j <= offers@.len(),
            find_offer(offers@, id, 0) == find_offer(offers@, id, j as int),
        decreases offers@.len() - j,
    {
        if offers[j].id == id {
            return Some(j);
        }
        j = j + 1;
    }
    None
}

impl OfferStore {
    /// The reconciliation stage: raises the flags of every deal for which
    /// some record of the batch gives evidence. Flags are never lowered, and
    /// nothing else changes.
    pub fn apply_statement(&mut self, records: &Vec<StatementRecord>)
        requires
            old(self).wf(),
        ensures
            final(self).wf(),
            final(self).deals@ == reconciled_deals(old(self).offers@, old(self).deals@, records@),
            final(self).offers@ == old(self).offers@,
            final(self).deposits@ == old(self).deposits@,
            final(self).next_id == old(self).next_id,
    {
        let ghost deals0 = self.deals@;
        let mut k: usize = 0;
        while k < self.deals.len()
            invariant
                0 <= k <= self.deals@.len(),
                self.deals@.len() == deals0.len(),
                self.offers@ == old(self).offers@,
                self.deposits@ == old(self).deposits@,
                self.next_id == old(self).next_id,
                deals0 == old(self).deals@,
                forall|a: int| 0 <= a < k ==> #[trigger] self.deals@[a] == reconciled_deal(self.offers@, deals0[a], records@),
                forall|a: int| k <= a < deals0.len() ==> #[trigger] self.deals@[a] == deals0[a],
            decreases deals0.len() - k,
        {
            let d = self.deals[k];
            let on = find_offer_index(&self.offers, d.onramp_offer_id);
            let off = find_offer_index(&self.offers, d.offramp_offer_id);
            let mut buyer = d.buyer_sent_fiat;
            let mut seller = d.seller_received_fiat;
            if let (Some(a), Some(b)) = (on, off) {
                let mut i: usize = 0;
                while i < records.len()
                    invariant
                        0 <= i <= records@.len(),
                        d == deals0[k as int],
                        self.deals@.len() == deals0.len(),
                        k < deals0.len(),
                        find_offer(self.offers@, d.onramp_offer_id, 0) == Some(a as int),
                        find_offer(self.offers@, d.offramp_offer_id, 0) == Some(b as int),
                        a < self.offers@.len(),
                        b < self.offers@.len(),
                        buyer == (d.buyer_sent_fiat || exists|t: int|
                            0 <= t < i && (#[trigger] record_evidence(self.offers@, d, records@[t])).0),
                        seller == (d.seller_received_fiat || exists|t: int|
                            0 <= t < i && (#[trigger] record_evidence(self.offers@, d, records@[t])).1),
                    decreases records@.len() - i,
                {
                    let r = &records[i];
                    let e = deal_evidence(
                        r.account.as_str(),
                        r.description.as_str(),
                        self.offers[a].bank_account.as_str(),
                        self.offers[b].bank_account.as_str(),
                    );
                    assert(e == record_evidence(self.offers@, d, records@[i as int]));
                    buyer = buyer || e.0;
                    seller = seller || e.1;
                    i = i + 1;
                }
            } else {
                assert forall|t: int| 0 <= t < records@.len() implies !(#[trigger] record_evidence(
                    self.offers@,
                    d,
                    records@[t],
                )).0 && !record_evidence(self.offers@, d, records@[t]).1 by {}
            }
            let nd = Deal { buyer_sent_fiat: buyer, seller_received_fiat: seller, ..d };
            assert(nd == reconciled_deal(self.offers@, d, records@));
            self.deals.set(k, nd);
            k = k + 1;
        }
        proof {
            assert(self.deals@ =~= reconciled_deals(old(self).offers@, deals0, records@));
            assert(deal_pairs(self.deals@) =~= deal_pairs(deals0));
            assert forall|i: int| 0 <= i < self.deals@.len() implies (#[trigger] self.deals@[i]).id == deals0[i].id
                && self.deals@[i].onramp_offer_id == deals0[i].onramp_offer_id
                && self.deals@[i].offramp_offer_id == deals0[i].offramp_offer_id by {}
        }
    }
}

} // verus!
