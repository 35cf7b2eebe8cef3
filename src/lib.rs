//! A small collaborative wiki core: signed bearer tokens, password
//! credentials, the collaboration graph and the transactional page store.
pub mod bytes;
pub mod config;
pub mod error;
pub mod graph;
pub mod names;
pub mod order;
pub mod pages;
pub mod rows;
pub mod store;
pub mod token;
pub mod users;
