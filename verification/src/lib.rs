pub mod bytes;
pub mod config;
pub mod error;
pub mod files;
pub mod middles;
pub mod my_future;
pub mod request_ext;
pub mod stream;
