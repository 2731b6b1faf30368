//! A bulk-request engine: word lists expand into combinations, combinations
//! resolve into targets, and targets run as units of work under a bounded
//! admission gate, while a control protocol inspects and steers the tasks.
pub mod text;
pub mod task;
pub mod combos;
pub mod resolve;
pub mod store;
pub mod control;
pub mod engine;
pub mod modes;
pub mod sound;
