pub mod kline;
