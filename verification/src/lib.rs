//! A reverse proxy that decodes compressed request bodies before forwarding
//! them: the verified decisions it makes about headers, encodings, URLs and
//! errors.
pub mod config;
pub mod proxy;
pub mod text;
