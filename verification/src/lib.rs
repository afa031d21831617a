use vstd::prelude::*;

pub mod auth;
pub mod cache;
pub mod clock;
pub mod config;
pub mod digest;
pub mod media;
pub mod refusal;
pub mod schema;
pub mod text;

verus! {
}
