//! Block kinds and their textures.

use vstd::prelude::*;

verus! {

/// What the mesher needs to know of one kind of block.
#[derive(Debug)]
pub struct Block {
    /// Texture ids in the order top, right, bottom, left, front, back.
    pub texture_ids: [u32; 6],
    pub name: String,
    /// Does the block contribute to ambient occlusion.
    pub ao: bool,
    /// Is the block transparent.
    pub transparent: bool,
}

impl Block {
    /// The block id for air.
    pub const AIR: u32 = 0;

    pub const TOP: usize = 0;

    pub const RIGHT: usize = 1;

    pub const BOTTOM: usize = 2;

    pub const LEFT: usize = 3;

    pub const FRONT: usize = 4;

    pub const BACK: usize = 5;
}

impl Clone for Block {
    fn clone(&self) -> (block: Block)
        ensures
            block.texture_ids == self.texture_ids,
            block.name@ == self.name@,
            block.ao == self.ao,
            block.transparent == self.transparent,
    {
        Block {
            texture_ids: self.texture_ids,
            name: self.name.clone(),
            ao: self.ao,
            transparent: self.transparent,
        }
    }
}

impl Default for Block {
    fn default() -> (block: Block)
        ensures
            block.texture_ids@ == seq![0u32, 0u32, 0u32, 0u32, 0u32, 0u32],
            block.name@ == Seq::<char>::empty(),
            !block.ao,
            !block.transparent,
    {
        let block = Block {
            texture_ids: [0, 0, 0, 0, 0, 0],
            name: String::new(),
            ao: false,
            transparent: false,
        };
        assert(block.texture_ids@ =~= seq![0u32, 0u32, 0u32, 0u32, 0u32, 0u32]);
        block
    }
}

/// How one texture is drawn.
#[derive(Clone, Copy, Debug, PartialEq, Eq, Structural)]
pub struct BlockTexture {
    /// Whether the texture is turned by a pseudo-random quarter turn.
    pub rand_rot: bool,
}

impl Default for BlockTexture {
    fn default() -> (texture: BlockTexture)
        ensures
            !texture.rand_rot,
    {
        BlockTexture { rand_rot: false }
    }
}

/// What a block library holds.
pub struct BlockLibraryView {
    pub blocks: Seq<Block>,
    pub textures: Seq<BlockTexture>,
    pub texture_path: Option<Seq<char>>,
    /// The size of one texture on the texture atlas.
    pub texture_size: u32,
    /// The number of textures on the texture atlas.
    pub texture_count: u32,
}

/// The kinds of block of a world, by block id, and their textures, by
/// texture id.
pub struct BlockLibrary {
    blocks: Vec<Block>,
    textures: Vec<BlockTexture>,
    texture_path: Option<String>,
    texture_size: u32,
    texture_count: u32,
}

impl View for BlockLibrary {
    type V = BlockLibraryView;

    closed spec fn view(&self) -> BlockLibraryView {
        BlockLibraryView {
            blocks: self.blocks@,
            textures: self.textures@,
            texture_path: match self.texture_path {
                Some(path) => Some(path@),
                None => None,
            },
            texture_size: self.texture_size,
            texture_count: self.texture_count,
        }
    }
}

impl Default for BlockLibrary {
    /// A library with one texture and 1024 default blocks, for generators
    /// that use block ids before any block is described.
    fn default() -> (library: BlockLibrary)
        ensures
            library@.blocks.len() == 1024,
            forall|i: int|
                0 <= i < 1024 ==> {
                    let block = #[trigger] library@.blocks[i];
                    &&& block.texture_ids@ == seq![0u32, 0u32, 0u32, 0u32, 0u32, 0u32]
                    &&& block.name@ == Seq::<char>::empty()
                    &&& !block.ao
                    &&& !block.transparent
                },
            library@.textures == seq![BlockTexture { rand_rot: false }],
            library@.texture_path is None,
            library@.texture_size == 32,
            library@.texture_count == 1024,
    {
        let mut blocks: Vec<Block> = Vec::new();
        let mut i: usize = 0;
        while i < 1024
            invariant
                i <= 1024,
                blocks@.len() == i,
                forall|k: int|
                    0 <= k < i ==> {
                        let block = #[trigger] blocks@[k];
                        &&& block.texture_ids@ == seq![0u32, 0u32, 0u32, 0u32, 0u32, 0u32]
                        &&& block.name@ == Seq::<char>::empty()
                        &&& !block.ao
                        &&& !block.transparent
                    },
            decreases 1024 - i,
        {
            blocks.push(Block::default());
            i += 1;
        }
        let mut textures: Vec<BlockTexture> = Vec::new();
        textures.push(BlockTexture::default());
        assert(textures@ =~= seq![BlockTexture { rand_rot: false }]);
        BlockLibrary { blocks, textures, texture_path: None, texture_size: 32, texture_count: 1024 }
    }
}

/// Two blocks hold the same.
pub open spec fn same_block(a: Block, b: Block) -> bool {
    &&& a.texture_ids == b.texture_ids
    &&& a.name@ == b.name@
    &&& a.ao == b.ao
    &&& a.transparent == b.transparent
}

impl Clone for BlockLibrary {
    fn clone(&self) -> (library: BlockLibrary)
        ensures
            library@.blocks.len() == self@.blocks.len(),
            forall|i: int|
                0 <= i < self@.blocks.len() ==> same_block(
                    #[trigger] library@.blocks[i],
                    self@.blocks[i],
                ),
            library@.textures == self@.textures,
            library@.texture_path == self@.texture_path,
            library@.texture_size == self@.texture_size,
            library@.texture_count == self@.texture_count,
    {
        let mut blocks: Vec<Block> = Vec::new();
        let mut i: usize = 0;
        while i < self.blocks.len()
            invariant
                i <= self.blocks@.len(),
                blocks@.len() == i,
                forall|k: int| 0 <= k < i ==> same_block(#[trigger] blocks@[k], self.blocks@[k]),
            decreases self.blocks.len() - i,
        {
            blocks.push(self.blocks[i].clone());
            i += 1;
        }
        let textures = self.textures.clone();
        assert(textures@ =~= self.textures@);
        BlockLibrary {
            blocks,
            textures,
            texture_path: match &self.texture_path {
                Some(path) => Some(path.clone()),
                None => None,
            },
            texture_size: self.texture_size,
            texture_count: self.texture_count,
        }
    }
}

impl BlockLibrary {
    /// A library without blocks or textures.
    pub fn new() -> (library: BlockLibrary)
        ensures
            library@ == (BlockLibraryView {
                blocks: Seq::empty(),
                textures: Seq::empty(),
                texture_path: None,
                texture_size: 32,
                texture_count: 1024,
            }),
    {
        BlockLibrary {
            blocks: Vec::new(),
            textures: Vec::new(),
            texture_path: None,
            texture_size: 32,
            texture_count: 1024,
        }
    }

    /// The number of blocks.
    pub fn block_count(&self) -> (n: usize)
        ensures
            n == self@.blocks.len(),
    {
        self.blocks.len()
    }

    /// The number of textures.
    pub fn block_texture_count(&self) -> (n: usize)
        ensures
            n == self@.textures.len(),
    {
        self.textures.len()
    }

    pub fn get_block(&self, block_id: usize) -> (block: &Block)
        requires
            block_id < self@.blocks.len(),
        ensures
            *block == self@.blocks[block_id as int],
    {
        &self.blocks[block_id]
    }

    /// Appends a block; its id is the number of blocks before.
    pub fn add_block(&mut self, block: Block) -> (library: &mut Self)
        ensures
            library@ == (BlockLibraryView { blocks: old(self)@.blocks.push(block), ..old(self)@ }),
            *final(self) == *final(library),
    {
        self.blocks.push(block);
        self
    }

    /// Appends a texture; its id is the number of textures before.
    pub fn add_block_texture(&mut self, block_texture: BlockTexture) -> (library: &mut Self)
        ensures
            library@ == (BlockLibraryView {
                textures: old(self)@.textures.push(block_texture),
                ..old(self)@
            }),
            *final(self) == *final(library),
    {
        self.textures.push(block_texture);
        self
    }

    pub fn get_block_texture(&self, texture_id: u32) -> (texture: BlockTexture)
        requires
            texture_id < self@.textures.len(),
        ensures
            texture == self@.textures[texture_id as int],
    {
        self.textures[texture_id as usize]
    }

    pub fn set_texture_path(&mut self, path: &str) -> (library: &mut Self)
        ensures
            library@ == (BlockLibraryView { texture_path: Some(path@), ..old(self)@ }),
            *final(self) == *final(library),
    {
        self.texture_path = Some(path.to_owned());
        self
    }

    pub fn get_texture_path(&self) -> (path: Option<String>)
        ensures
            match path {
                Some(p) => self@.texture_path == Some(p@),
                None => self@.texture_path is None,
            },
    {
        match &self.texture_path {
            Some(path) => Some(path.clone()),
            None => None,
        }
    }

    pub fn set_texture_size(&mut self, size: u32) -> (library: &mut Self)
        ensures
            library@ == (BlockLibraryView { texture_size: size, ..old(self)@ }),
            *final(self) == *final(library),
    {
        self.texture_size = size;
        self
    }

    pub fn get_texture_size(self) -> (size: u32)
        ensures
            size == self@.texture_size,
    {
        self.texture_size
    }

    /// The size of one texture, without giving the library up.
    pub fn texture_size(&self) -> (size: u32)
        ensures
            size == self@.texture_size,
    {
        self.texture_size
    }

    pub fn set_texture_count(&mut self, count: u32) -> (library: &mut Self)
        ensures
            library@ == (BlockLibraryView { texture_count: count, ..old(self)@ }),
            *final(self) == *final(library),
    {
        self.texture_count = count;
        self
    }

    pub fn get_texture_count(&self) -> (count: u32)
        ensures
            count == self@.texture_count,
    {
        self.texture_count
    }
}

} // verus!
