//! Shell completion for command-line programs described by a specification tree:
//! which word the cursor is on, the candidates for it, and a declarative completion
//! document of the whole tree.
use vstd::prelude::*;

pub mod arg;
pub mod candidates;
pub mod complete;
pub mod fig;
pub mod model;
pub mod path;
pub mod text;

verus! {

} // verus!
