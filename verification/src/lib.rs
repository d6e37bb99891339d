pub mod cache;
pub mod codec;
pub mod engine;
pub mod fib;
pub mod kv;
pub mod ops;
