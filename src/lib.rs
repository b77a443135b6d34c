//! Off-chain engine of a DD-for-fiat marketplace: promotes ledger-confirmed
//! deposits into offers, pairs offers into deals, reconciles bank statements
//! against open deals and decides which deals are ready for release.
//!
//! The store model (`store::OfferStore`) holds the three tables and the
//! invariant that every stage keeps; the pure decisions (`promotion_outcome`,
//! `pair_offers`, `deal_evidence`, `parse_csv`, `next_step`) are what a
//! driver around a real database and ledger calls.
pub mod ids;
pub mod store;
pub mod matching;
pub mod promotion;
pub mod reconcile;
pub mod release;
pub mod cycle;
pub mod statement;
pub mod request;
pub mod conf;
