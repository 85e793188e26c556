pub mod archive_laws;
pub mod bubble_merge;
pub mod buckets;
pub mod cache_laws;
pub mod cache_store;
pub mod coordinator_laws;
pub mod coverage;
pub mod dataset;
pub mod failure;
pub mod frame;
pub mod gex;
pub mod gex_deribit;
pub mod gex_derive;
pub mod gex_history;
pub mod gex_keys;
pub mod gex_laws;
pub mod gex_proxy;
pub mod gex_retry_laws;
pub mod gex_series;
pub mod intervals;
pub mod keys;
pub mod kline_integrity;
pub mod persistent_cache;
pub mod records;
pub mod reply_laws;
pub mod source_laws;
pub mod trade_laws;
