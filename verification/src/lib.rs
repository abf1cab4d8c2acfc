//! Deterministic rule matching for tender documents.

pub mod api;
pub mod article;
pub mod calendar;
pub mod cases;
pub mod chat;
pub mod context;
pub mod document;
pub mod engine;
pub mod escape;
pub mod generate_rule;
pub mod lists;
pub mod lookup;
pub mod metrics;
pub mod number;
pub mod operand;
pub mod outside;
pub mod redaction;
pub mod registry;
pub mod review;
pub mod runs;
pub mod schema;
pub mod sections;
pub mod stream;
pub mod text;
pub mod upload;
pub mod validator;
