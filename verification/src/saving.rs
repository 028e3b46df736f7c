//! Scheduling markers for the persistence pass.
//!
//! Serialization itself is an outside collaborator's job: it reads the
//! structure through the public query surface.  This module only provides
//! the marker type that flags an entity for saving and the ordering anchor
//! that save-producing work is scheduled around.

use vstd::prelude::*;

verus! {

/// Marks an entity whose state should be written out on the next
/// persistence pass.
pub struct NeedsSaved;

/// Ordering anchor for the persistence pass: work that serializes state is
/// scheduled after this point and before the pass that writes the results
/// out.  The call itself does nothing.
pub fn begin_saving() {
}

} // verus!
