//! Upload, evaluate and render photos too big to be carried: the bytes go straight
//! to the store, and what is decided here is who may send what, what is signed, and
//! what a job's result says.

pub mod decode;
pub mod develop;
pub mod errors;
pub mod keys;
pub mod routes;
pub mod settings;
pub mod store;
pub mod worker;
