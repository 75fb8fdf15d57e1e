//! The seven piece kinds, their canonical 4x4 masks, and the bag randomizer.

pub mod block_kind;

use rand::seq::SliceRandom;
use rand::Rng;
use vstd::prelude::*;

verus! {

/// A cell value: one of the tags of `block_kind`.
pub type BlockColor = usize;

/// One piece in one orientation: a 4x4 mask whose set cells hold the piece's colour.
pub type BlockShape = [[usize; 4]; 4];

/// The number of piece kinds, and the size of one bag.
pub const KIND_COUNT: usize = 7;

#[derive(Debug, Clone, Copy, PartialEq, Eq, Structural)]
pub enum BlockKind {
    I,
    O,
    S,
    Z,
    J,
    L,
    T,
}

/// The kind at `i` in catalog order I, O, S, Z, J, L, T.
pub open spec fn kind_at(i: int) -> BlockKind {
    if i == 0 {
        BlockKind::I
    } else if i == 1 {
        BlockKind::O
    } else if i == 2 {
        BlockKind::S
    } else if i == 3 {
        BlockKind::Z
    } else if i == 4 {
        BlockKind::J
    } else if i == 5 {
        BlockKind::L
    } else {
        BlockKind::T
    }
}

/// The colour tag of a kind.
pub open spec fn kind_color(k: BlockKind) -> usize {
    match k {
        BlockKind::I => block_kind::I,
        BlockKind::O => block_kind::O,
        BlockKind::S => block_kind::S,
        BlockKind::Z => block_kind::Z,
        BlockKind::J => block_kind::J,
        BlockKind::L => block_kind::L,
        BlockKind::T => block_kind::T,
    }
}

/// The mask rows of a shape, as sequences.
pub open spec fn shape_grid(b: BlockShape) -> Seq<Seq<usize>> {
    Seq::new(4, |y: int| b[y]@)
}

/// The canonical (spawn) orientation of each kind, as rows of colour tags.
pub open spec fn canonical_grid(k: BlockKind) -> Seq<Seq<usize>> {
    let c = kind_color(k);
    match k {
        BlockKind::I => seq![seq![0, 0, 0, 0], seq![0, 0, 0, 0], seq![c, c, c, c], seq![0, 0, 0, 0]],
        BlockKind::O => seq![seq![0, 0, 0, 0], seq![0, c, c, 0], seq![0, c, c, 0], seq![0, 0, 0, 0]],
        BlockKind::S => seq![seq![0, 0, 0, 0], seq![0, c, c, 0], seq![c, c, 0, 0], seq![0, 0, 0, 0]],
        BlockKind::Z => seq![seq![0, 0, 0, 0], seq![c, c, 0, 0], seq![0, c, c, 0], seq![0, 0, 0, 0]],
        BlockKind::J => seq![seq![0, 0, 0, 0], seq![c, 0, 0, 0], seq![c, c, c, 0], seq![0, 0, 0, 0]],
        BlockKind::L => seq![seq![0, 0, 0, 0], seq![0, 0, c, 0], seq![c, c, c, 0], seq![0, 0, 0, 0]],
        BlockKind::T => seq![seq![0, 0, 0, 0], seq![0, c, 0, 0], seq![c, c, c, 0], seq![0, 0, 0, 0]],
    }
}

/// The canonical mask of a kind: the one shape whose rows are `canonical_grid(k)`.
pub open spec fn canonical_shape(k: BlockKind) -> BlockShape {
    choose|b: BlockShape| shape_grid(b) == canonical_grid(k)
}

/// The seven canonical shapes in catalog order.
pub open spec fn catalog() -> Seq<BlockShape> {
    Seq::new(7, |i: int| canonical_shape(kind_at(i)))
}

/// A full bag: each canonical shape exactly once, in some order.
pub open spec fn is_bag(bag: Seq<BlockShape>) -> bool {
    bag.to_multiset() == catalog().to_multiset()
}

/// A shape is determined by its rows.
pub proof fn lemma_shape_grid_injective(a: BlockShape, b: BlockShape)
    requires
        shape_grid(a) == shape_grid(b),
    ensures
        a == b,
{
    assert forall|y: int| 0 <= y < 4 implies a[y] == b[y] by {
        assert(shape_grid(a)[y] == shape_grid(b)[y]);
        assert(a[y] =~= b[y]);
    }
    assert(a =~= b);
}

impl BlockKind {
    /// The kind at `i` in catalog order.
    pub fn from_index(i: usize) -> (k: BlockKind)
        requires
            i < KIND_COUNT,
        ensures
            k == kind_at(i as int),
    {
        match i {
            0 => BlockKind::I,
            1 => BlockKind::O,
            2 => BlockKind::S,
            3 => BlockKind::Z,
            4 => BlockKind::J,
            5 => BlockKind::L,
            _ => BlockKind::T,
        }
    }

    /// A kind drawn uniformly at random.
    pub fn random() -> (k: BlockKind)
        ensures
            exists|i: int| 0 <= i < 7 && k == kind_at(i),
    {
        let i = random_below(KIND_COUNT);
        BlockKind::from_index(i)
    }
}

/// The canonical (spawn) orientation of a kind.
pub fn block_shape(kind: BlockKind) -> (b: BlockShape)
    ensures
        shape_grid(b) == canonical_grid(kind),
        b == canonical_shape(kind),
{
    let c = color_of(kind);
    let b: BlockShape = match kind {
        BlockKind::I => [[0, 0, 0, 0], [0, 0, 0, 0], [c, c, c, c], [0, 0, 0, 0]],
        BlockKind::O => [[0, 0, 0, 0], [0, c, c, 0], [0, c, c, 0], [0, 0, 0, 0]],
        BlockKind::S => [[0, 0, 0, 0], [0, c, c, 0], [c, c, 0, 0], [0, 0, 0, 0]],
        BlockKind::Z => [[0, 0, 0, 0], [c, c, 0, 0], [0, c, c, 0], [0, 0, 0, 0]],
        BlockKind::J => [[0, 0, 0, 0], [c, 0, 0, 0], [c, c, c, 0], [0, 0, 0, 0]],
        BlockKind::L => [[0, 0, 0, 0], [0, 0, c, 0], [c, c, c, 0], [0, 0, 0, 0]],
        BlockKind::T => [[0, 0, 0, 0], [0, c, 0, 0], [c, c, c, 0], [0, 0, 0, 0]],
    };
    assert(shape_grid(b) =~~= canonical_grid(kind));
    proof {
        let c = canonical_shape(kind);
        lemma_shape_grid_injective(b, c);
    }
    b
}

/// The colour tag of a kind.
fn color_of(kind: BlockKind) -> (c: usize)
    ensures
        c == kind_color(kind),
{
    match kind {
        BlockKind::I => block_kind::I,
        BlockKind::O => block_kind::O,
        BlockKind::S => block_kind::S,
        BlockKind::Z => block_kind::Z,
        BlockKind::J => block_kind::J,
        BlockKind::L => block_kind::L,
        BlockKind::T => block_kind::T,
    }
}

/// Relies on rand's `Rng::gen_range` on the thread-local generator: a value in `0..n`;
/// it panics on an empty range, which `requires` leaves out.
#[verifier::external_body]
pub(crate) fn random_below(n: usize) -> (r: usize)
    requires
        n > 0,
    ensures
        r < n,
{
    rand::thread_rng().gen_range(0..n)
}

/// Relies on rand's `SliceRandom::shuffle` on the thread-local generator: it only swaps
/// elements, so the result holds the same elements in some order.
#[verifier::external_body]
fn shuffle_shapes(v: &mut Vec<BlockShape>)
    ensures
        final(v)@.to_multiset() == old(v)@.to_multiset(),
{
    v.shuffle(&mut rand::thread_rng())
}

/// A fresh bag: the seven canonical shapes in a uniformly random order.
pub fn gen_block_7() -> (bag: Vec<BlockShape>)
    ensures
        bag@.len() == KIND_COUNT,
        is_bag(bag@),
{
    let mut bag: Vec<BlockShape> = Vec::new();
    let mut i: usize = 0;
    while i < KIND_COUNT
        invariant
            i <= KIND_COUNT,
            bag@.len() == i,
            forall|j: int| 0 <= j < i ==> #[trigger] bag@[j] == catalog()[j],
        decreases KIND_COUNT - i,
    {
        let b = block_shape(BlockKind::from_index(i));
        bag.push(b);
        i = i + 1;
    }
    assert(bag@ =~= catalog());
    let ghost before = bag@;
    shuffle_shapes(&mut bag);
    proof {
        before.to_multiset_ensures();
        bag@.to_multiset_ensures();
    }
    bag
}

} // verus!
