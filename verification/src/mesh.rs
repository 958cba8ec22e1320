use vstd::prelude::*;
use crate::chunk_id::{IVec3, LodLevel};
use crate::texture::Texture;

verus! {

/// What a face instance's `kind` holds for a texture drawn at a level of
/// detail: the texture id in bits 0 to 15, the level in bits 16 to 23, and
/// zero above.
pub open spec fn kind_spec(texture: Texture, lod: LodLevel) -> u32 {
    (lod as u32 * 65536 + texture.id_spec()) as u32
}

/// Packs a texture and a level of detail into an instance kind.
pub fn pack_kind(texture: Texture, lod: LodLevel) -> (kind: u32)
    ensures
        kind == kind_spec(texture, lod),
        kind & 0xFFFF == texture.id_spec(),
        (kind >> 16) & 0xFF == lod as u32,
        kind >> 24 == 0,
{
    let id: u32 = texture.id();
    let level: u32 = lod as u32;
    let kind: u32 = (level << 16) | id;
    assert(kind == level * 65536 + id && kind & 0xFFFF == id && (kind >> 16) & 0xFF == level
        && kind >> 24 == 0) by (bit_vector)
        requires
            kind == (level << 16) | id,
            id < 4,
            level < 256,
    ;
    kind
}

/// The texture id held in a kind.
pub fn kind_texture_id(kind: u32) -> (id: u32)
    ensures
        id == kind & 0xFFFF,
{
    kind & 0xFFFF
}

/// The level of detail held in a kind.
pub fn kind_lod(kind: u32) -> (lod: LodLevel)
    ensures
        lod as u32 == (kind >> 16) & 0xFF,
{
    let v: u32 = (kind >> 16) & 0xFF;
    assert(v < 256) by (bit_vector)
        requires
            v == (kind >> 16) & 0xFF,
    ;
    v as u8
}

/// One quadrilateral to draw: the world position of the voxel it belongs to,
/// and its kind.
#[derive(Debug, Clone, Copy, PartialEq, Eq, Structural)]
pub struct Instance {
    pub pos: IVec3,
    pub kind: u32,
}

impl Instance {
    pub open spec fn of(pos: IVec3, texture: Texture, lod: LodLevel) -> Instance {
        Instance { pos, kind: kind_spec(texture, lod) }
    }

    pub fn new(pos: IVec3, texture: Texture, lod: LodLevel) -> (r: Self)
        ensures
            r == Instance::of(pos, texture, lod),
    {
        Instance { pos, kind: pack_kind(texture, lod) }
    }
}

/// The four bytes of a 32-bit number, least significant first.
pub open spec fn le_bytes(v: u32) -> Seq<u8> {
    seq![
        (v & 0xFF) as u8,
        ((v >> 8) & 0xFF) as u8,
        ((v >> 16) & 0xFF) as u8,
        ((v >> 24) & 0xFF) as u8,
    ]
}

/// A signed 32-bit number as the unsigned number with the same bits.
pub open spec fn as_unsigned(v: i32) -> u32 {
    if v >= 0 {
        v as u32
    } else {
        (v + 0x1_0000_0000) as u32
    }
}

/// Writes a 32-bit number into four bytes of a buffer, least significant
/// byte first.
fn put_le(buffer: &mut [u8; 16], at: usize, v: u32)
    requires
        at + 4 <= 16,
    ensures
        final(buffer)@.subrange(at as int, at + 4) == le_bytes(v),
        forall|i: int|
            0 <= i < 16 && !(at <= i < at + 4) ==> #[trigger] final(buffer)@[i] == old(buffer)@[i],
{
    let b0: u32 = v & 0xFF;
    let b1: u32 = (v >> 8) & 0xFF;
    let b2: u32 = (v >> 16) & 0xFF;
    let b3: u32 = (v >> 24) & 0xFF;
    assert(b0 < 256 && b1 < 256 && b2 < 256 && b3 < 256) by (bit_vector)
        requires
            b0 == v & 0xFF,
            b1 == (v >> 8) & 0xFF,
            b2 == (v >> 16) & 0xFF,
            b3 == (v >> 24) & 0xFF,
    ;
    buffer[at] = b0 as u8;
    buffer[at + 1] = b1 as u8;
    buffer[at + 2] = b2 as u8;
    buffer[at + 3] = b3 as u8;
    assert(buffer@.subrange(at as int, at + 4) =~= le_bytes(v));
}

impl Instance {
    /// The sixteen bytes of an instance as they are handed to the renderer:
    /// the three coordinates and the kind, four bytes each, least
    /// significant byte first.
    pub open spec fn bytes_spec(self) -> Seq<u8> {
        le_bytes(as_unsigned(self.pos.x)) + le_bytes(as_unsigned(self.pos.y)) + le_bytes(
            as_unsigned(self.pos.z),
        ) + le_bytes(self.kind)
    }

    /// The sixteen bytes of an instance as they are handed to the renderer.
    pub fn to_le_bytes(&self) -> (bytes: [u8; 16])
        ensures
            bytes@ == self.bytes_spec(),
    {
        let mut bytes = [0u8; 16];
        put_le(&mut bytes, 0, unsigned_bits(self.pos.x));
        put_le(&mut bytes, 4, unsigned_bits(self.pos.y));
        put_le(&mut bytes, 8, unsigned_bits(self.pos.z));
        put_le(&mut bytes, 12, self.kind);
        assert(bytes@ =~= bytes@.subrange(0, 4) + bytes@.subrange(4, 8) + bytes@.subrange(8, 12)
            + bytes@.subrange(12, 16));
        bytes
    }
}

/// A signed 32-bit number as the unsigned number with the same bits.
fn unsigned_bits(v: i32) -> (r: u32)
    ensures
        r == as_unsigned(v),
{
    if v >= 0 {
        v as u32
    } else {
        (v as i64 + 0x1_0000_0000) as u32
    }
}

/// The sum of two lengths, or the greatest length there is where the sum
/// exceeds it.
fn add_len(a: usize, b: usize) -> (r: usize)
    ensures
        r == if a + b <= usize::MAX {
            a + b
        } else {
            usize::MAX as int
        },
{
    if a > usize::MAX - b {
        usize::MAX
    } else {
        a + b
    }
}

/// A corner of the unit quad that every face instance is drawn with: its
/// number from 0 to 3.
#[derive(Debug, Clone, Copy, PartialEq, Eq, Structural)]
pub struct Vertex(pub u32);

impl Vertex {
    /// The four corners of the unit quad.
    pub fn vertices() -> (r: [Vertex; 4])
        ensures
            forall|i: int| 0 <= i < 4 ==> (#[trigger] r[i]).0 == i,
    {
        [Vertex(0), Vertex(1), Vertex(2), Vertex(3)]
    }

    /// The corners of the two triangles that make up the unit quad.
    pub fn indices() -> (r: [u16; 6])
        ensures
            r@ == seq![0u16, 1u16, 2u16, 0u16, 2u16, 3u16],
    {
        let r: [u16; 6] = [0, 1, 2, 0, 2, 3];
        assert(r@ =~= seq![0u16, 1u16, 2u16, 0u16, 2u16, 3u16]);
        r
    }
}

/// Face instances by direction: towards negative and positive x, y and z.
#[derive(Debug, Clone)]
pub struct Mesh {
    pub nx: Vec<Instance>,
    pub px: Vec<Instance>,
    pub ny: Vec<Instance>,
    pub py: Vec<Instance>,
    pub nz: Vec<Instance>,
    pub pz: Vec<Instance>,
}

impl Mesh {
    /// The list of the direction with the given index: 0 is negative x, 1
    /// positive x, 2 negative y, 3 positive y, 4 negative z, 5 positive z.
    pub open spec fn list(self, dir: int) -> Seq<Instance> {
        if dir == 0 {
            self.nx@
        } else if dir == 1 {
            self.px@
        } else if dir == 2 {
            self.ny@
        } else if dir == 3 {
            self.py@
        } else if dir == 4 {
            self.nz@
        } else {
            self.pz@
        }
    }

    /// The six lists, in the order of their directions.
    pub open spec fn lists(self) -> Seq<Seq<Instance>> {
        seq![self.nx@, self.px@, self.ny@, self.py@, self.nz@, self.pz@]
    }

    /// All six lists are empty.
    pub open spec fn is_empty_spec(self) -> bool {
        forall|dir: int| 0 <= dir < 6 ==> #[trigger] self.list(dir).len() == 0
    }

    pub fn new() -> (r: Self)
        ensures
            r.is_empty_spec(),
    {
        let r = Mesh {
            nx: Vec::new(),
            px: Vec::new(),
            ny: Vec::new(),
            py: Vec::new(),
            nz: Vec::new(),
            pz: Vec::new(),
        };
        assert forall|dir: int| 0 <= dir < 6 implies #[trigger] r.list(dir).len() == 0 by {}
        r
    }

    pub fn with_capacity(capacity: usize) -> (r: Self)
        ensures
            r.is_empty_spec(),
    {
        let r = Mesh {
            nx: Vec::with_capacity(capacity),
            px: Vec::with_capacity(capacity),
            ny: Vec::with_capacity(capacity),
            py: Vec::with_capacity(capacity),
            nz: Vec::with_capacity(capacity),
            pz: Vec::with_capacity(capacity),
        };
        assert forall|dir: int| 0 <= dir < 6 implies #[trigger] r.list(dir).len() == 0 by {}
        r
    }

    pub fn add_nx(&mut self, pos: IVec3, texture: Texture, lod: LodLevel)
        ensures
            final(self).nx@ == old(self).nx@.push(Instance::of(pos, texture, lod)),
            forall|dir: int| 1 <= dir < 6 ==> final(self).list(dir) == old(self).list(dir),
    {
        self.nx.push(Instance::new(pos, texture, lod));
    }

    pub fn add_px(&mut self, pos: IVec3, texture: Texture, lod: LodLevel)
        ensures
            final(self).px@ == old(self).px@.push(Instance::of(pos, texture, lod)),
            forall|dir: int| 0 <= dir < 6 && dir != 1 ==> final(self).list(dir) == old(self).list(dir),
    {
        self.px.push(Instance::new(pos, texture, lod));
    }

    pub fn add_ny(&mut self, pos: IVec3, texture: Texture, lod: LodLevel)
        ensures
            final(self).ny@ == old(self).ny@.push(Instance::of(pos, texture, lod)),
            forall|dir: int| 0 <= dir < 6 && dir != 2 ==> final(self).list(dir) == old(self).list(dir),
    {
        self.ny.push(Instance::new(pos, texture, lod));
    }

    pub fn add_py(&mut self, pos: IVec3, texture: Texture, lod: LodLevel)
        ensures
            final(self).py@ == old(self).py@.push(Instance::of(pos, texture, lod)),
            forall|dir: int| 0 <= dir < 6 && dir != 3 ==> final(self).list(dir) == old(self).list(dir),
    {
        self.py.push(Instance::new(pos, texture, lod));
    }

    pub fn add_nz(&mut self, pos: IVec3, texture: Texture, lod: LodLevel)
        ensures
            final(self).nz@ == old(self).nz@.push(Instance::of(pos, texture, lod)),
            forall|dir: int| 0 <= dir < 6 && dir != 4 ==> final(self).list(dir) == old(self).list(dir),
    {
        self.nz.push(Instance::new(pos, texture, lod));
    }

    pub fn add_pz(&mut self, pos: IVec3, texture: Texture, lod: LodLevel)
        ensures
            final(self).pz@ == old(self).pz@.push(Instance::of(pos, texture, lod)),
            forall|dir: int| 0 <= dir < 5 ==> final(self).list(dir) == old(self).list(dir),
    {
        self.pz.push(Instance::new(pos, texture, lod));
    }

    /// How many instances the six lists hold together.
    pub open spec fn total(self) -> int {
        (self.nx@.len() + self.px@.len() + self.ny@.len() + self.py@.len() + self.nz@.len()
            + self.pz@.len()) as int
    }

    /// How many instances the mesh holds: the lengths of the six lists
    /// together, or the greatest length there is if they exceed it.
    pub fn len(&self) -> (n: usize)
        ensures
            n == if self.total() <= usize::MAX {
                self.total()
            } else {
                usize::MAX as int
            },
    {
        add_len(
            add_len(
                add_len(
                    add_len(add_len(self.nx.len(), self.px.len()), self.ny.len()),
                    self.py.len(),
                ),
                self.nz.len(),
            ),
            self.pz.len(),
        )
    }

    /// Appends the lists of another mesh to the lists of this one, direction
    /// by direction.
    pub fn add_assign(&mut self, other: Mesh)
        ensures
            forall|dir: int|
                0 <= dir < 6 ==> #[trigger] final(self).list(dir) == old(self).list(dir) + other.list(
                    dir,
                ),
    {
        let mut other = other;
        self.nx.append(&mut other.nx);
        self.px.append(&mut other.px);
        self.ny.append(&mut other.ny);
        self.py.append(&mut other.py);
        self.nz.append(&mut other.nz);
        self.pz.append(&mut other.pz);
    }

    /// The mesh that holds the lists of this mesh followed by those of
    /// another, direction by direction.
    pub fn add(self, other: Mesh) -> (sum: Mesh)
        ensures
            forall|dir: int|
                0 <= dir < 6 ==> #[trigger] sum.list(dir) == self.list(dir) + other.list(dir),
    {
        let mut sum = self;
        sum.add_assign(other);
        sum
    }

    /// Adds one face of the debug texture in each of the six directions.
    pub fn debug_cube(&mut self, pos: IVec3, size: LodLevel)
        ensures
            forall|dir: int|
                0 <= dir < 6 ==> #[trigger] final(self).list(dir) == old(self).list(dir).push(
                    Instance::of(pos, Texture::Debug, size),
                ),
    {
        self.add_nx(pos, Texture::Debug, size);
        self.add_px(pos, Texture::Debug, size);
        self.add_ny(pos, Texture::Debug, size);
        self.add_py(pos, Texture::Debug, size);
        self.add_nz(pos, Texture::Debug, size);
        self.add_pz(pos, Texture::Debug, size);
    }
}

} // verus!
