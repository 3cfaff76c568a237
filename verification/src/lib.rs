//! Market order monitor: the decisions that watch a trader's market orders
//! against rival orders and tell the trader what changed.
pub mod analyzed_order;
pub mod character;
pub mod decimal;
pub mod json_doc;
pub mod order;
pub mod requests;
pub mod text;
