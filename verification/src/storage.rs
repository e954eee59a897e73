//! Row form of a disk image as the fleet database stores it.

use vstd::prelude::*;

verus! {

/// An image row: its key, the node it lives on, its name and its backing
/// file.
pub struct Image {
    pub id: i32,
    pub node: i32,
    pub name: String,
    pub file: String,
}

} // verus!
