use vstd::prelude::*;

pub mod error;
pub mod http_interface;
pub mod parse_request_header;
pub mod parse_request_line;
pub mod parse_utility;
pub mod reactor;
pub mod request;

verus! {

} // verus!
