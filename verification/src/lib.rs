pub mod error;
pub mod merge;
pub mod paths;
pub mod receipts;
pub mod requests;
pub mod resolve;
pub mod rng;
pub mod server;
pub mod store;
pub mod summary;
pub mod strutil;
pub mod sys;
pub mod textfmt;
pub mod timestamp;
pub mod validate;
