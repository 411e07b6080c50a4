use vstd::prelude::*;

verus! {

/// An opaque, comparable name for a loaded asset (a texture, a sound, an
/// entity template). The library never loads anything itself; it only holds
/// and compares handles.
#[derive(Clone, Copy, Debug, PartialEq, Eq, Structural)]
pub struct AssetHandle {
    pub id: u32,
}

impl AssetHandle {
    pub fn new(id: u32) -> (h: AssetHandle)
        ensures
            h.id == id,
    {
        AssetHandle { id }
    }
}

/// What is drawn on one face of a wall or flat.
#[derive(Clone, Copy, Debug, PartialEq, Eq, Structural)]
pub enum TextureType {
    Normal(AssetHandle),
    Sky,
    Absent,
}

} // verus!
