pub mod glacier_stream;
pub mod pipeline;
pub mod request;
pub mod response;
pub mod try_from;
