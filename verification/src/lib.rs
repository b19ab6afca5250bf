use vstd::prelude::*;

pub mod auth;
pub mod codec;
pub mod creds;
pub mod error;
pub mod render;
pub mod timeline;

verus! {

} // verus!
