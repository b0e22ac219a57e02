//! Small types that several resources share.
use vstd::prelude::*;

use crate::handles::Entity;

verus! {

/// A fresh entity of the component store, with the GPU row that its component got.
#[derive(Clone, Copy, Debug, PartialEq, Eq, Structural)]
pub struct NewRow {
    pub entity: Entity,
    pub gpu_row: u32,
}

/// Whether a resource may move at run time, and whether it may be baked.
#[derive(Clone, Copy, Debug, PartialEq, Eq, Structural)]
pub enum Movability {
    Static,
    Stationary,
    Movable,
}

impl Movability {
    /// Only movable resources may move.
    pub fn can_move(self) -> (movable: bool)
        ensures
            movable == (self == Movability::Movable),
    {
        match self {
            Movability::Movable => true,
            _ => false,
        }
    }
}

} // verus!
