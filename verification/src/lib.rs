//! Core of the FRC card collecting site: the rows the site keeps, the rules
//! that decide who may do what, and the answers each page and API endpoint
//! gives, all as verified functions over an in-memory image of the database.

pub mod entity;
pub mod decimal;
pub mod secrets;
pub mod tables;
pub mod state;
pub mod structs;
pub mod auth;
pub mod context;
pub mod api;
pub mod designs;
pub mod frontend;
pub mod card_gen;
pub mod laws;
