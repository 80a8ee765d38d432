//! Metadata for launchable components: artifact coordinates in the
//! `group:artifact:version[:classifier][@extension]` notation, and the
//! component schema that refers to them.

use vstd::prelude::*;

pub mod text;
pub mod component;
pub mod util;

verus! {

} // verus!
