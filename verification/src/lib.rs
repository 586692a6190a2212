use vstd::prelude::*;

pub mod text;
pub mod json;
pub mod json_parse;
pub mod json_round;
pub mod error;
pub mod clock;
pub mod model;
pub mod filter_sql;
pub mod surrogate;
pub mod metadata;
pub mod spi;
pub mod id_gen;
pub mod event;
pub mod parser;
pub mod engine;
pub mod handler;
pub mod interceptor;
pub mod memory;
pub mod eval;
pub mod context;
pub mod executor;
pub mod facade;
pub mod actions;
pub mod vo;
pub mod service;
pub mod seed;

verus! {

} // verus!
