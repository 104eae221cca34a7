pub mod client;
pub mod req;
pub mod web;
