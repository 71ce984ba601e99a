//! The window of chunks that one observer needs.

use vstd::prelude::*;
use indexmap::IndexSet;
use crate::chunk::CHUNK_SIZE;
use crate::index_set::{
    index_set_get_index,
    index_set_insert,
    index_set_items,
    index_set_len,
    index_set_new,
    Triple,
};
use crate::math::{trunc_div, Pos};
use crate::sequences::lemma_pushed;

verus! {

/// Says that some viewer has moved to another chunk.
#[derive(Clone, Copy, Debug, Default)]
pub struct ChunkViewerMoveEvent;

/// `p` is in the window around `center`: on every axis at most
/// `render_distance` below the center and less than `render_distance` above.
pub open spec fn in_window(center: Pos, render_distance: int, p: Triple) -> bool {
    &&& center.x - render_distance <= p.0 < center.x + render_distance
    &&& center.y - render_distance <= p.1 < center.y + render_distance
    &&& center.z - render_distance <= p.2 < center.z + render_distance
}

/// The bounds of the window around `center` fit in 32 bits.
pub open spec fn window_fits(center: Pos, render_distance: int) -> bool {
    &&& i32::MIN <= center.x - render_distance <= i32::MAX
    &&& i32::MIN <= center.x + render_distance <= i32::MAX
    &&& i32::MIN <= center.y - render_distance <= i32::MAX
    &&& i32::MIN <= center.y + render_distance <= i32::MAX
    &&& i32::MIN <= center.z - render_distance <= i32::MAX
    &&& i32::MIN <= center.z + render_distance <= i32::MAX
}

/// The number of chunks in a window: a cube whose edge is twice the render
/// distance.
pub open spec fn window_len(render_distance: int) -> int {
    if render_distance <= 0 {
        0
    } else {
        (2 * render_distance) * (2 * render_distance) * (2 * render_distance)
    }
}

/// The chunk coordinate that a viewer at the world position `translation`
/// takes: each coordinate divided by the chunk size, rounded toward zero.
pub open spec fn viewer_chunk(translation: Pos) -> Pos {
    Pos {
        x: trunc_div(translation.x as int, CHUNK_SIZE as int) as i32,
        y: trunc_div(translation.y as int, CHUNK_SIZE as int) as i32,
        z: trunc_div(translation.z as int, CHUNK_SIZE as int) as i32,
    }
}

/// While a window is being listed, `p` has been listed once the listing
/// stands at `(x, y, z)`: x and z run upward, y runs downward.
spec fn window_reached(center: Pos, render_distance: int, p: Triple, x: int, y: int, z: int) -> bool {
    in_window(center, render_distance, p) && (p.0 < x || (p.0 == x && (p.2 < z || (p.2 == z && p.1
        >= y))))
}

/// What a viewer holds.
pub struct ChunkViewerView {
    /// The chunk that the viewer is in.
    pub pos: Pos,
    pub render_distance: i32,
    /// The chunks of the window, in the order in which they were listed.
    pub visible: Seq<Triple>,
    /// The viewer has changed chunk since the flag was last cleared.
    pub moved: bool,
}

impl ChunkViewerView {
    /// The visible chunks are those of the window around the viewer's chunk,
    /// each listed once.
    pub open spec fn wf(self) -> bool {
        &&& window_fits(self.pos, self.render_distance as int)
        &&& self.visible.no_duplicates()
        &&& self.visible.len() == window_len(self.render_distance as int)
        &&& forall|p: Triple| #[trigger]
            self.visible.contains(p) <==> in_window(self.pos, self.render_distance as int, p)
    }
}

/// Tells whether the bounds of the window around `center` fit in 32 bits.
pub fn can_view(render_distance: i32, center: Pos) -> (fits: bool)
    ensures
        fits == window_fits(center, render_distance as int),
{
    let r = render_distance as i64;
    let lo = i32::MIN as i64;
    let hi = i32::MAX as i64;
    let x = center.x as i64;
    let y = center.y as i64;
    let z = center.z as i64;
    lo <= x - r && x - r <= hi && lo <= x + r && x + r <= hi && lo <= y - r && y - r <= hi && lo
        <= y + r && y + r <= hi && lo <= z - r && z - r <= hi && lo <= z + r && z + r <= hi
}

/// Computes the chunk coordinate that a viewer at the world position
/// `translation` takes.
pub fn chunk_of_viewer(translation: Pos) -> (chunk: Pos)
    ensures
        chunk == viewer_chunk(translation),
{
    proof {
        crate::math::lemma_truncated_division(translation.x as int, CHUNK_SIZE as int);
        crate::math::lemma_truncated_division(translation.y as int, CHUNK_SIZE as int);
        crate::math::lemma_truncated_division(translation.z as int, CHUNK_SIZE as int);
    }
    Pos {
        x: translation.x / CHUNK_SIZE,
        y: translation.y / CHUNK_SIZE,
        z: translation.z / CHUNK_SIZE,
    }
}

/// An observer around which chunks are generated, loaded and drawn.
pub struct ChunkViewer {
    pos: Pos,
    render_distance: i32,
    visible_chunks: IndexSet<Triple>,
    moved: bool,
}

impl View for ChunkViewer {
    type V = ChunkViewerView;

    closed spec fn view(&self) -> ChunkViewerView {
        ChunkViewerView {
            pos: self.pos,
            render_distance: self.render_distance,
            visible: index_set_items(self.visible_chunks),
            moved: self.moved,
        }
    }
}

/// Lists the window around `center`.
fn visible_window(center: Pos, render_distance: i32) -> (set: IndexSet<Triple>)
    requires
        window_fits(center, render_distance as int),
    ensures
        index_set_items(set).no_duplicates(),
        index_set_items(set).len() == window_len(render_distance as int),
        forall|p: Triple| #[trigger]
            index_set_items(set).contains(p) <==> in_window(center, render_distance as int, p),
{
    let mut set = index_set_new();
    let start_x: i32 = center.x - render_distance;
    let start_z: i32 = center.z - render_distance;
    let start_y: i32 = center.y - render_distance;
    let end_x: i32 = center.x + render_distance;
    let end_z: i32 = center.z + render_distance;
    let end_y: i32 = center.y + render_distance;
    // The edge of the window, and the chunks of one of its layers.
    let ghost edge: int = 2 * render_distance;
    let ghost layer: int = edge * edge;
    let mut x: i32 = start_x;
    while x < end_x
        invariant
            window_fits(center, render_distance as int),
            start_x == center.x - render_distance,
            start_y == center.y - render_distance,
            start_z == center.z - render_distance,
            end_x == center.x + render_distance,
            end_y == center.y + render_distance,
            end_z == center.z + render_distance,
            edge == 2 * render_distance,
            layer == edge * edge,
            start_x <= x,
            render_distance > 0 ==> x <= end_x,
            render_distance <= 0 ==> x == start_x,
            index_set_items(set).no_duplicates(),
            index_set_items(set).len() == (x - start_x) * layer,
            forall|p: Triple| #[trigger]
                index_set_items(set).contains(p) <==> window_reached(
                    center,
                    render_distance as int,
                    p,
                    x as int,
                    end_y as int,
                    start_z as int,
                ),
        decreases end_x - x,
    {
        let mut z: i32 = start_z;
        while z < end_z
            invariant
                window_fits(center, render_distance as int),
                start_x == center.x - render_distance,
                start_y == center.y - render_distance,
                start_z == center.z - render_distance,
                end_x == center.x + render_distance,
                end_y == center.y + render_distance,
                end_z == center.z + render_distance,
                edge == 2 * render_distance,
                layer == edge * edge,
                start_x <= x < end_x,
                start_z <= z <= end_z,
                index_set_items(set).no_duplicates(),
                index_set_items(set).len() == (x - start_x) * layer + (z - start_z) * edge,
                forall|p: Triple| #[trigger]
                    index_set_items(set).contains(p) <==> window_reached(
                        center,
                        render_distance as int,
                        p,
                        x as int,
                        end_y as int,
                        z as int,
                    ),
            decreases end_z - z,
        {
            let mut y: i32 = end_y;
            while y > start_y
                invariant
                    window_fits(center, render_distance as int),
                    start_x == center.x - render_distance,
                    start_y == center.y - render_distance,
                    start_z == center.z - render_distance,
                    end_x == center.x + render_distance,
                    end_y == center.y + render_distance,
                    end_z == center.z + render_distance,
                    start_x <= x < end_x,
                    start_z <= z < end_z,
                    start_y <= y <= end_y,
                    index_set_items(set).no_duplicates(),
                    index_set_items(set).len() == (x - start_x) * layer + (z - start_z) * edge + (
                    end_y - y),
                    forall|p: Triple| #[trigger]
                        index_set_items(set).contains(p) <==> window_reached(
                            center,
                            render_distance as int,
                            p,
                            x as int,
                            y as int,
                            z as int,
                        ),
                decreases y - start_y,
            {
                y -= 1;
                let ghost before = index_set_items(set);
                index_set_insert(&mut set, (x, y, z));
                proof {
                    let after = index_set_items(set);
                    assert(!before.contains((x, y, z)));
                    assert(after == before.push((x, y, z)));
                    lemma_pushed(before, (x, y, z));
                }
            }
            proof {
                assert((z - start_z) * edge + (end_y - start_y) == (z + 1 - start_z) * edge)
                    by (nonlinear_arith)
                    requires
                        end_y - start_y == edge,
                ;
            }
            z += 1;
        }
        proof {
            assert((x - start_x) * layer + (end_z - start_z) * edge == (x + 1 - start_x) * layer)
                by (nonlinear_arith)
                requires
                    end_z - start_z == edge,
                    layer == edge * edge,
            ;
        }
        x += 1;
    }
    proof {
        if render_distance > 0 {
            assert((end_x - start_x) * layer == window_len(render_distance as int))
                by (nonlinear_arith)
                requires
                    end_x - start_x == edge,
                    layer == edge * edge,
                    edge == 2 * render_distance,
                    render_distance > 0,
            ;
        } else {
            assert((x - start_x) * layer == 0) by (nonlinear_arith)
                requires
                    x == start_x,
            ;
        }
    }
    set
}

impl ChunkViewer {
    #[verifier::type_invariant]
    spec fn inv(&self) -> bool {
        self@.wf()
    }

    /// A viewer in the chunk `pos`, with its window, marked as moved.
    pub fn new(render_distance: i32, pos: Pos) -> (viewer: ChunkViewer)
        requires
            window_fits(pos, render_distance as int),
        ensures
            viewer@.wf(),
            viewer@.pos == pos,
            viewer@.render_distance == render_distance,
            viewer@.moved,
    {
        ChunkViewer {
            pos,
            render_distance,
            visible_chunks: visible_window(pos, render_distance),
            moved: true,
        }
    }

    /// Moves the viewer to the world position `translation`. The window is
    /// listed anew, and the viewer marked as moved, only if that is in
    /// another chunk.
    pub fn set_translation(&mut self, translation: Pos)
        requires
            window_fits(viewer_chunk(translation), old(self)@.render_distance as int),
        ensures
            final(self)@.wf(),
            final(self)@.pos == viewer_chunk(translation),
            final(self)@.render_distance == old(self)@.render_distance,
            final(self)@.moved == (old(self)@.moved || viewer_chunk(translation) != old(self)@.pos),
            viewer_chunk(translation) == old(self)@.pos ==> final(self)@ == old(self)@,
    {
        proof {
            use_type_invariant(&*self);
        }
        let chunk_pos = chunk_of_viewer(translation);
        if chunk_pos != self.pos {
            *self = ChunkViewer {
                pos: chunk_pos,
                render_distance: self.render_distance,
                visible_chunks: visible_window(chunk_pos, self.render_distance),
                moved: true,
            };
        }
    }

    /// The chunk that the viewer is in.
    pub fn get_pos(&self) -> (pos: Pos)
        ensures
            pos == self@.pos,
    {
        self.pos
    }

    pub fn render_distance(&self) -> (render_distance: i32)
        ensures
            render_distance == self@.render_distance,
    {
        self.render_distance
    }

    /// Whether the viewer has changed chunk since the flag was last cleared.
    pub fn moved(&self) -> (moved: bool)
        ensures
            moved == self@.moved,
    {
        self.moved
    }

    /// Clears the moved flag and tells what it was.
    pub fn take_moved(&mut self) -> (moved: bool)
        ensures
            moved == old(self)@.moved,
            final(self)@ == (ChunkViewerView { moved: false, ..old(self)@ }),
    {
        proof {
            use_type_invariant(&*self);
        }
        let moved = self.moved;
        self.moved = false;
        moved
    }

    /// The number of chunks in the window.
    pub fn visible_len(&self) -> (n: usize)
        ensures
            self@.wf(),
            n == self@.visible.len(),
    {
        proof {
            use_type_invariant(self);
        }
        index_set_len(&self.visible_chunks)
    }

    /// The chunk at place `index` of the window, if there is one.
    pub fn visible_at(&self, index: usize) -> (p: Option<Pos>)
        ensures
            self@.wf(),
            p == (if index < self@.visible.len() {
                Some(Pos::from_tuple(self@.visible[index as int]))
            } else {
                None
            }),
    {
        proof {
            use_type_invariant(self);
        }
        match index_set_get_index(&self.visible_chunks, index) {
            Some(t) => Some(Pos { x: t.0, y: t.1, z: t.2 }),
            None => None,
        }
    }

    /// The chunks of the window, in the order in which they were listed.
    pub fn get_visible_chunks(&self) -> (chunks: Vec<Pos>)
        ensures
            self@.wf(),
            chunks@.len() == self@.visible.len(),
            forall|i: int|
                0 <= i < chunks@.len() ==> #[trigger] chunks@[i] == Pos::from_tuple(
                    self@.visible[i],
                ),
    {
        proof {
            use_type_invariant(self);
        }
        let n = index_set_len(&self.visible_chunks);
        let mut chunks: Vec<Pos> = Vec::new();
        let mut i: usize = 0;
        while i < n
            invariant
                n == index_set_items(self.visible_chunks).len(),
                i <= n,
                chunks@.len() == i,
                forall|k: int|
                    0 <= k < i ==> #[trigger] chunks@[k] == Pos::from_tuple(
                        index_set_items(self.visible_chunks)[k],
                    ),
            decreases n - i,
        {
            match index_set_get_index(&self.visible_chunks, i) {
                Some(t) => {
                    chunks.push(Pos { x: t.0, y: t.1, z: t.2 });
                },
                None => {},
            }
            i += 1;
        }
        chunks
    }
}

/// Tells whether any viewer has moved, and clears the flag of every viewer:
/// however many moved, they give rise to one recomputation.
pub fn chunk_viewer_moved(viewers: &mut Vec<ChunkViewer>) -> (moved: bool)
    ensures
        moved == (exists|i: int| 0 <= i < old(viewers)@.len() && (#[trigger] old(viewers)@[i])@.moved),
        final(viewers)@.len() == old(viewers)@.len(),
        forall|i: int|
            0 <= i < old(viewers)@.len() ==> (#[trigger] final(viewers)@[i])@ == (ChunkViewerView {
                moved: false,
                ..old(viewers)@[i]@
            }),
{
    let mut moved = false;
    let n = viewers.len();
    let mut k: usize = 0;
    while k < n
        invariant
            n == old(viewers)@.len(),
            viewers@.len() == n,
            k <= n,
            moved == (exists|i: int| 0 <= i < k && (#[trigger] old(viewers)@[i])@.moved),
            forall|i: int|
                0 <= i < k ==> (#[trigger] viewers@[i])@ == (ChunkViewerView {
                    moved: false,
                    ..old(viewers)@[i]@
                }),
            forall|i: int| k <= i < n ==> (#[trigger] viewers@[i]) == old(viewers)@[i],
        decreases n - k,
    {
        if viewers[k].take_moved() {
            moved = true;
        }
        k += 1;
    }
    moved
}

} // verus!
