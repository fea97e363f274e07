//! Block registry: the ordered table that maps a stable numeric block id to a
//! name and a model descriptor, and the "visually solid" predicate the mesher
//! culls faces with. Id 0 is reserved for air, which is never meshable.

use vstd::prelude::*;

verus! {

/// Model descriptor of a block type, carrying its texture file name.
///
/// Only full opaque cubes contribute culled faces today; stairs, slabs and
/// custom models are accepted by the schema but not yet meshed.
#[derive(Debug, Clone)]
pub enum ModelType {
    Cube(String),
    Stair(String),
    Slab(String),
    Custom(String),
    Empty,
}

impl ModelType {
    /// Whether the model is an opaque full cube, eligible for face culling.
    pub open spec fn spec_is_meshable(&self) -> bool {
        self is Cube
    }

    pub fn is_meshable(&self) -> (r: bool)
        ensures
            r == self.spec_is_meshable(),
    {
        match self {
            ModelType::Cube(_) => true,
            _ => false,
        }
    }
}

/// One row of the block table: a stable id, a unique name, and a model.
#[derive(Debug, Clone)]
pub struct Block {
    pub id: u16,
    pub name: String,
    pub model: ModelType,
}

/// The loaded block table, addressed by id; ids are assigned sequentially at
/// load time, so the id of a block equals its position in the table.
#[derive(Debug)]
pub struct BlocksHandler {
    blocks: Vec<Block>,
}

impl View for BlocksHandler {
    type V = Seq<Block>;

    closed spec fn view(&self) -> Seq<Block> {
        self.blocks@
    }
}

/// First position in `reg` at or after `i` whose block carries `name`, or -1.
pub open spec fn name_index_from(reg: Seq<Block>, name: Seq<char>, i: int) -> int
    decreases reg.len() - i,
{
    if i < 0 || i >= reg.len() {
        -1
    } else if reg[i].name@ == name {
        i
    } else {
        name_index_from(reg, name, i + 1)
    }
}

/// First position in `reg` whose block carries `name`, or -1.
pub open spec fn name_index(reg: Seq<Block>, name: Seq<char>) -> int {
    name_index_from(reg, name, 0)
}

/// Whether `id` names a registered block whose model is an opaque cube.
pub open spec fn spec_meshable(reg: Seq<Block>, id: u16) -> bool {
    id < reg.len() && reg[id as int].model.spec_is_meshable()
}

impl BlocksHandler {
    /// Every block sits at the position its id names.
    pub open spec fn wf(&self) -> bool {
        &&& self@.len() <= 0x10000
        &&& forall|i: int| 0 <= i < self@.len() ==> #[trigger] self@[i].id == i
    }

    /// Load the registry from an ordered list of `(name, model)` pairs,
    /// assigning sequential ids starting at 0.
    pub fn new(types: Vec<(String, ModelType)>) -> (h: Self)
        requires
            types@.len() <= 0x10000,
        ensures
            h.wf(),
            h@.len() == types@.len(),
            forall|i: int| 0 <= i < types@.len() ==> {
                &&& (#[trigger] h@[i]).id == i
                &&& h@[i].name == types@[i].0
                &&& h@[i].model == types@[i].1
            },
    {
        let ghost orig = types@;
        let mut types = types;
        let mut blocks: Vec<Block> = Vec::new();
        while types.len() > 0
            invariant
                blocks@.len() + types@.len() == orig.len(),
                orig.len() <= 0x10000,
                types@ == orig.skip(blocks@.len() as int),
                forall|i: int| 0 <= i < blocks@.len() ==> {
                    &&& (#[trigger] blocks@[i]).id == i
                    &&& blocks@[i].name == orig[i].0
                    &&& blocks@[i].model == orig[i].1
                },
            decreases types@.len(),
        {
            let id = blocks.len() as u16;
            let (name, model) = types.remove(0);
            blocks.push(Block { id, name, model });
            proof {
                assert(types@ =~= orig.skip(blocks@.len() as int));
            }
        }
        BlocksHandler { blocks }
    }

    /// Look an id up; answers exactly when the id is within the table.
    pub fn get(&self, id: u16) -> (r: Option<&Block>)
        ensures
            r is Some <==> (id as int) < self@.len(),
            r matches Some(b) ==> *b == self@[id as int],
    {
        if (id as usize) < self.blocks.len() {
            Some(&self.blocks[id as usize])
        } else {
            None
        }
    }

    /// Number of registered block types.
    pub fn len(&self) -> (n: usize)
        ensures
            n == self@.len(),
    {
        self.blocks.len()
    }

    /// Id of the first block registered under `name`; the soft fallback for a
    /// missing entry is id 0 (air).
    pub fn find_block(&self, name: &String) -> (id: u16)
        ensures
            name_index(self@, name@) >= 0 ==> id == self@[name_index(self@, name@)].id,
            name_index(self@, name@) < 0 ==> id == 0,
    {
        let mut i: usize = 0;
        while i < self.blocks.len()
            invariant
                0 <= i <= self@.len(),
                name_index(self@, name@) == name_index_from(self@, name@, i as int),
            decreases self@.len() - i,
        {
            if self.blocks[i].name == *name {
                return self.blocks[i].id;
            }
            i = i + 1;
        }
        0
    }
}

/// Whether the block registered under `id` is visually solid: registered and
/// modelled as an opaque cube. An unregistered id is never meshable.
pub fn is_meshable(handler: &BlocksHandler, id: u16) -> (r: bool)
    ensures
        r == spec_meshable(handler@, id),
{
    match handler.get(id) {
        Some(block) => block.model.is_meshable(),
        None => false,
    }
}

} // verus!
