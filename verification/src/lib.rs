//! Equitable splitting of a shared expense list among a group of recipients.
//!
//! The library computes, from a list of purchased line items and a list of
//! recipient addresses, the integer amount each recipient owes.  Any
//! indivisible remainder is handed out one unit at a time to the first
//! recipients in list order.  `split` holds the data model and the
//! calculation; `laws` states and proves the general properties of the
//! distribution.

pub mod laws;
pub mod scenarios;
pub mod split;
