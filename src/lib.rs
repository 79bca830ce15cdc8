//! Knowledge capture from learning conversations: a title and filename
//! codec, a catalog synchronizer for the index document, the conversation
//! session record, and the decisions of the streaming protocol spoken with
//! the external text-generation process.
use vstd::prelude::*;

pub mod text;
pub mod claude;
pub mod command;
pub mod config;
pub mod modes;
pub mod notes;
pub mod session;
pub mod til;

verus! {

} // verus!
