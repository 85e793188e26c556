pub mod gex;
pub mod gex_view_laws;
pub mod indicator;
pub mod kline;
