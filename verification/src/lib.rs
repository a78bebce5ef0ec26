//! Verified core of a TradeOgre trading bot: price-movement signals,
//! candle windows, similarity ranking, trade decisions, and the request
//! logic of the exchange client.

pub mod backtest;
pub mod candles;
pub mod decimal;
pub mod encoding;
pub mod exchange;
pub mod order_key;
pub mod report;
pub mod setup;
pub mod signals;
pub mod similarity;
pub mod trading;
pub mod windows;
