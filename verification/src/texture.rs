use vstd::prelude::*;

verus! {

/// Texture tags that the mesher attaches to face instances.
#[derive(Debug, Clone, Copy, PartialEq, Eq, Structural)]
pub enum Texture {
    CrackedStone,
    Stone,
    Dirt,
    Debug,
}

impl Texture {
    /// The numeric id of the texture, as packed into an instance's kind.
    pub open spec fn id_spec(self) -> u32 {
        match self {
            Texture::CrackedStone => 0,
            Texture::Stone => 1,
            Texture::Dirt => 2,
            Texture::Debug => 3,
        }
    }

    /// The numeric id of the texture: its position in the declaration order.
    pub fn id(self) -> (r: u32)
        ensures
            r == self.id_spec(),
            r < 4,
    {
        match self {
            Texture::CrackedStone => 0,
            Texture::Stone => 1,
            Texture::Dirt => 2,
            Texture::Debug => 3,
        }
    }
}

} // verus!
