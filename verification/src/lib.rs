//! A verified core for maintaining a filtered local copy of a remote
//! IP-geolocation feed: conditional refresh, digest verification, per-country
//! filtering, ASN aggregation and output merging.

pub mod asn;
pub mod feed;
pub mod filter;
pub mod integrity;
pub mod merge;
pub mod text;
