pub mod map;
pub mod save;
pub mod save2;

use vstd::prelude::*;

verus! {

/// The two kinds of data that can be loaded.
#[derive(Copy, Clone, Debug, PartialEq, Eq, Structural)]
pub enum DataTypes {
    GameMap,
    Save,
}

} // verus!
