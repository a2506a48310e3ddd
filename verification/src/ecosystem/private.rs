//! The seal on the ecosystem trait.

use vstd::prelude::*;

verus! {

/// Marks the types that may implement an ecosystem: those of this workspace.
pub trait Sealed {

}

} // verus!
