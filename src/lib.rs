//! Telemetry pipeline of a party/battle overlay: decoding of the raw battle
//! buffer, parsing of its positional records into a seat roster, the shared
//! snapshot store, and the decisions of the acquisition loop and of the
//! consumer's attach/detach lifecycle.
use vstd::prelude::*;

pub mod control;
pub mod decode;
pub mod record;
pub mod roster;
pub mod store;
pub mod text;

verus! {

} // verus!
