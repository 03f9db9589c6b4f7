//! Cross-market arbitrage pipeline: batching of item ids, request planning,
//! all-or-nothing aggregation of fetched quotes, and the join of a catalog
//! with the quotes of two markets.
pub mod batcher;
pub mod display;
pub mod fetcher;
pub mod goonmetrics;
pub mod merger;
pub mod pipeline;
pub mod quotes;
pub mod text;
