pub mod codec;
pub mod directory;
pub mod kv;
pub mod laws;
pub mod price;
pub mod primes;
pub mod session;
