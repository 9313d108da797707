use vstd::prelude::*;

pub mod api_router;
pub mod body;
pub mod bits;
pub mod body_stream;
pub mod context;
pub mod dependency;
pub mod digest;
pub mod duration;
pub mod matching;
pub mod method;
pub mod multipart;
pub mod output;
pub mod query;
pub mod response;
pub mod scan;
pub mod schema;
pub mod text;
pub mod websocket;

verus! {

} // verus!
