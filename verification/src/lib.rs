//! Episode tracking for followed series: stable series keys, feed
//! normalisation, reconciliation of a feed snapshot against what is followed
//! and what was already announced, the watch gap, the transitions that
//! advance or retire a series, the texts that answer the user, and the stored
//! shape of the collections.

pub mod text;
pub mod table;
pub mod anime;
pub mod order;
pub mod identity;
pub mod feed;
pub mod reconcile;
pub mod lifecycle;
pub mod watch;
pub mod messages;
pub mod access;
pub mod storage;
