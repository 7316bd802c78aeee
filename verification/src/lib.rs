use vstd::prelude::*;

pub mod errors;
pub mod http;
pub mod response;
pub mod server;
pub mod text;

verus! {

} // verus!
