pub mod credentials;
pub mod ssh;
