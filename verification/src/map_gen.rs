//! Binary-space-partition room generation.
//!
//! A root rectangle is cut again and again into two until every room is small
//! enough, or cannot be cut without leaving a sliver thinner than the minimum
//! leaf size.
use vstd::prelude::*;
use rand::rngs::StdRng;
use crate::units::{in_world, Point, UNIT, WORLD_LIMIT};
use crate::doorways::{calculate_door_positions, door_positions};
use crate::random::{draw_coin, draw_in_range};

verus! {

/// Smallest side a cut may leave, in sub-units.
pub const MIN_LEAF_SIZE: i64 = 200 * UNIT;

/// Largest side of a room that needs no further cut, in sub-units.
pub const MAX_LEAF_SIZE: i64 = 600 * UNIT;

/// The side of a room along which a cut offset is measured.
#[derive(Clone, Copy, Debug, PartialEq, Eq, Structural)]
pub enum Axis {
    /// The cut is vertical: it divides the width.
    Width,
    /// The cut is horizontal: it divides the height.
    Height,
}

/// A node of the partition: an axis-aligned rectangle with its lower-left
/// corner at `(x, y)`. `child_split` is set once the node has been cut in two;
/// a node that never was is a terminal room.
#[derive(Clone, Copy, Debug, PartialEq, Eq, Structural)]
pub struct Leaf {
    pub x: i64,
    pub y: i64,
    pub width: i64,
    pub height: i64,
    pub child_split: bool,
}

impl Leaf {
    /// The rectangle has positive sides and lies inside the world.
    pub open spec fn wf(self) -> bool {
        &&& self.width > 0
        &&& self.height > 0
        &&& in_world(self.x as int)
        &&& in_world(self.y as int)
        &&& in_world(self.x + self.width)
        &&& in_world(self.y + self.height)
    }

    pub open spec fn area(self) -> int {
        self.width * self.height
    }

    /// The length of the side along `axis`.
    pub open spec fn side(self, axis: Axis) -> int {
        match axis {
            Axis::Width => self.width as int,
            Axis::Height => self.height as int,
        }
    }

    /// The axis along which this room is cut. A room at least a quarter longer
    /// than it is tall is cut across its width, one at least a quarter taller
    /// than it is long across its height; otherwise the coin decides, heads
    /// meaning the height.
    pub open spec fn spec_split_axis(self, coin: bool) -> Axis {
        if self.width > self.height && 4 * self.width >= 5 * self.height {
            Axis::Width
        } else if self.height > self.width && 4 * self.height >= 5 * self.width {
            Axis::Height
        } else if coin {
            Axis::Height
        } else {
            Axis::Width
        }
    }

    /// Whether a cut along `axis` can leave `min_leaf_size` on both sides.
    pub open spec fn can_split(self, axis: Axis, min_leaf_size: int) -> bool {
        self.side(axis) - min_leaf_size > min_leaf_size
    }

    /// The two halves of this room when cut along `axis` at `offset` from its
    /// lower-left corner.
    pub open spec fn children(self, axis: Axis, offset: int) -> (Leaf, Leaf) {
        match axis {
            Axis::Width => (
                Leaf { x: self.x, y: self.y, width: offset as i64, height: self.height, child_split: false },
                Leaf {
                    x: (self.x + offset) as i64,
                    y: self.y,
                    width: (self.width - offset) as i64,
                    height: self.height,
                    child_split: false,
                },
            ),
            Axis::Height => (
                Leaf { x: self.x, y: self.y, width: self.width, height: offset as i64, child_split: false },
                Leaf {
                    x: self.x,
                    y: (self.y + offset) as i64,
                    width: self.width,
                    height: (self.height - offset) as i64,
                    child_split: false,
                },
            ),
        }
    }

    /// Whether `inner` lies within this room.
    pub open spec fn contains(self, inner: Leaf) -> bool {
        &&& self.x <= inner.x
        &&& self.y <= inner.y
        &&& inner.x + inner.width <= self.x + self.width
        &&& inner.y + inner.height <= self.y + self.height
    }

    /// Whether the two rooms share no area: one lies wholly to one side of
    /// the other.
    pub open spec fn apart(self, other: Leaf) -> bool {
        ||| self.x + self.width <= other.x
        ||| other.x + other.width <= self.x
        ||| self.y + self.height <= other.y
        ||| other.y + other.height <= self.y
    }

    /// Whether a coin and an offset describe a cut that `split` may make: the
    /// axis chosen with that coin has room for a cut, and the offset leaves at
    /// least `min_leaf_size` on both sides.
    pub open spec fn cut_allowed(self, min_leaf_size: int, coin: bool, offset: int) -> bool {
        let axis = self.spec_split_axis(coin);
        self.can_split(axis, min_leaf_size) && min_leaf_size <= offset <= self.side(axis)
            - min_leaf_size
    }

    /// Whether the two rooms cover the same rectangle.
    pub open spec fn same_rect(self, other: Leaf) -> bool {
        &&& self.x == other.x
        &&& self.y == other.y
        &&& self.width == other.width
        &&& self.height == other.height
    }

    /// Whether `first` and `second` cover the two halves of a cut of this room
    /// that `split` may make.
    pub open spec fn is_cut_into(self, first: Leaf, second: Leaf, min_leaf_size: int) -> bool {
        exists|coin: bool, offset: int|
            #[trigger] self.cut_allowed(min_leaf_size, coin, offset) && first.same_rect(
                self.children(self.spec_split_axis(coin), offset).0,
            ) && second.same_rect(self.children(self.spec_split_axis(coin), offset).1)
    }

    /// Both sides are at most `max_leaf_size`.
    pub open spec fn fits(self, max_leaf_size: int) -> bool {
        self.width <= max_leaf_size && self.height <= max_leaf_size
    }

    /// An axis the room may be cut along has no room for a cut, so an attempt
    /// to cut the room can fail.
    pub open spec fn blocked(self, min_leaf_size: int) -> bool {
        !self.can_split(self.spec_split_axis(true), min_leaf_size) || !self.can_split(
            self.spec_split_axis(false),
            min_leaf_size,
        )
    }

    /// An uncut room with the given corner and sides, or `None` if a side is
    /// not positive or the room reaches outside the world.
    pub fn new(x: i64, y: i64, width: i64, height: i64) -> (leaf: Option<Leaf>)
        ensures
            leaf == (if (Leaf { x, y, width, height, child_split: false }).wf() {
                Some(Leaf { x, y, width, height, child_split: false })
            } else {
                None
            }),
    {
        if width > 0 && height > 0 && -WORLD_LIMIT <= x && x <= WORLD_LIMIT && -WORLD_LIMIT <= y
            && y <= WORLD_LIMIT && width <= WORLD_LIMIT - x && height <= WORLD_LIMIT - y {
            Some(Leaf { x, y, width, height, child_split: false })
        } else {
            None
        }
    }

    /// Chooses the axis of the cut from the room's proportions and a coin.
    pub fn split_axis(&self, coin: bool) -> (axis: Axis)
        requires
            self.wf(),
        ensures
            axis == self.spec_split_axis(coin),
    {
        if self.width > self.height && 4 * self.width >= 5 * self.height {
            Axis::Width
        } else if self.height > self.width && 4 * self.height >= 5 * self.width {
            Axis::Height
        } else if coin {
            Axis::Height
        } else {
            Axis::Width
        }
    }

    /// Cuts the room along `axis` at `offset` and marks it as cut. The halves
    /// share the cut line and together cover the room exactly.
    pub fn split_at(&mut self, axis: Axis, offset: i64) -> (halves: (Leaf, Leaf))
        requires
            old(self).wf(),
            0 < offset < old(self).side(axis),
        ensures
            halves == old(self).children(axis, offset as int),
            *final(self) == (Leaf { child_split: true, ..*old(self) }),
            halves.0.wf(),
            halves.1.wf(),
            old(self).contains(halves.0),
            old(self).contains(halves.1),
            halves.0.apart(halves.1),
            halves.0.area() + halves.1.area() == old(self).area(),
    {
        let halves = match axis {
            Axis::Width => (
                Leaf { x: self.x, y: self.y, width: offset, height: self.height, child_split: false },
                Leaf {
                    x: self.x + offset,
                    y: self.y,
                    width: self.width - offset,
                    height: self.height,
                    child_split: false,
                },
            ),
            Axis::Height => (
                Leaf { x: self.x, y: self.y, width: self.width, height: offset, child_split: false },
                Leaf {
                    x: self.x,
                    y: self.y + offset,
                    width: self.width,
                    height: self.height - offset,
                    child_split: false,
                },
            ),
        };
        proof {
            lemma_children_cover(*self, axis, offset as int);
        }
        self.child_split = true;
        halves
    }

    /// Tries to cut the room in two. A coin is drawn, the axis chosen, and if
    /// that axis has room for a cut the offset is drawn uniformly from what
    /// leaves `min_leaf_size` on both sides. A room already cut, or one whose
    /// chosen axis is too short, is left as it is.
    pub fn split(&mut self, min_leaf_size: i64, rng: &mut StdRng) -> (halves: Option<(Leaf, Leaf)>)
        requires
            old(self).wf(),
            0 < min_leaf_size,
        ensures
            halves is None ==> *final(self) == *old(self) && (old(self).child_split || old(
                self,
            ).blocked(min_leaf_size as int)),
            halves matches Some(h) ==> {
                &&& !old(self).child_split
                &&& *final(self) == (Leaf { child_split: true, ..*old(self) })
                &&& is_split_of(*old(self), h.0, h.1, min_leaf_size as int)
            },
    {
        if self.child_split {
            return None;
        }
        let coin = draw_coin(rng);
        let axis = self.split_axis(coin);
        let side = match axis {
            Axis::Width => self.width,
            Axis::Height => self.height,
        };
        let max = side - min_leaf_size;
        if max <= min_leaf_size {
            return None;
        }
        let offset = draw_in_range(rng, min_leaf_size, max);
        let halves = self.split_at(axis, offset);
        assert(old(self).cut_allowed(min_leaf_size as int, coin, offset as int));
        Some(halves)
    }
}

/// The two halves of a cut have the same combined area as the room they were
/// cut from: the cut leaves no gap and no overlap.
pub proof fn lemma_children_cover(room: Leaf, axis: Axis, offset: int)
    requires
        room.wf(),
        0 < offset < room.side(axis),
    ensures
        room.children(axis, offset).0.area() + room.children(axis, offset).1.area() == room.area(),
{
    let w = room.width as int;
    let h = room.height as int;
    match axis {
        Axis::Width => {
            assert(offset * h + (w - offset) * h == w * h) by (nonlinear_arith);
        },
        Axis::Height => {
            assert(w * offset + w * (h - offset) == w * h) by (nonlinear_arith);
        },
    }
}

/// The combined area of the rooms that have not been cut.
pub open spec fn terminal_area(rooms: Seq<Leaf>) -> int
    decreases rooms.len(),
{
    if rooms.len() == 0 {
        0
    } else {
        terminal_area(rooms.drop_last()) + if rooms.last().child_split {
            0
        } else {
            rooms.last().area()
        }
    }
}

/// What is left to do from position `from` on: each room still to be looked at
/// weighs twice its area less one, so that cutting it makes the total lighter.
pub open spec fn pending_weight(rooms: Seq<Leaf>, from: int) -> int
    decreases rooms.len(),
{
    if rooms.len() <= from || rooms.len() == 0 {
        0
    } else {
        pending_weight(rooms.drop_last(), from) + 2 * rooms.last().area() - 1
    }
}

proof fn lemma_terminal_area_mark(rooms: Seq<Leaf>, i: int)
    requires
        0 <= i < rooms.len(),
        !rooms[i].child_split,
    ensures
        terminal_area(rooms.update(i, Leaf { child_split: true, ..rooms[i] })) == terminal_area(
            rooms,
        ) - rooms[i].area(),
    decreases rooms.len(),
{
    let marked = rooms.update(i, Leaf { child_split: true, ..rooms[i] });
    if i == rooms.len() - 1 {
        assert(marked.drop_last() =~= rooms.drop_last());
    } else {
        lemma_terminal_area_mark(rooms.drop_last(), i);
        assert(marked.drop_last() =~= rooms.drop_last().update(
            i,
            Leaf { child_split: true, ..rooms[i] },
        ));
    }
}

proof fn lemma_pending_weight_update(rooms: Seq<Leaf>, i: int, room: Leaf, from: int)
    requires
        0 <= i < from,
        i < rooms.len(),
    ensures
        pending_weight(rooms.update(i, room), from) == pending_weight(rooms, from),
    decreases rooms.len(),
{
    if rooms.len() > from {
        lemma_pending_weight_update(rooms.drop_last(), i, room, from);
        assert(rooms.update(i, room).drop_last() =~= rooms.drop_last().update(i, room));
    }
}

proof fn lemma_pending_weight_step(rooms: Seq<Leaf>, from: int)
    requires
        0 <= from < rooms.len(),
    ensures
        pending_weight(rooms, from) == pending_weight(rooms, from + 1) + 2 * rooms[from].area() - 1,
    decreases rooms.len(),
{
    if rooms.len() > from + 1 {
        lemma_pending_weight_step(rooms.drop_last(), from);
    } else {
        lemma_pending_weight_empty(rooms.drop_last(), from);
    }
}

proof fn lemma_pending_weight_empty(rooms: Seq<Leaf>, from: int)
    requires
        rooms.len() <= from,
    ensures
        pending_weight(rooms, from) == 0,
{
}

proof fn lemma_pending_weight_nonnegative(rooms: Seq<Leaf>, from: int)
    requires
        0 <= from,
        forall|j: int| 0 <= j < rooms.len() ==> (#[trigger] rooms[j]).wf(),
    ensures
        pending_weight(rooms, from) >= 0,
    decreases rooms.len(),
{
    if rooms.len() > from {
        lemma_pending_weight_nonnegative(rooms.drop_last(), from);
        let last = rooms.last();
        assert(last.wf());
        assert(last.width * last.height >= 1) by (nonlinear_arith)
            requires
                last.width >= 1,
                last.height >= 1,
        ;
    }
}

/// Whether the two halves of node `j` stand at positions `k` and `k + 1`,
/// further down the list.
#[verifier::opaque]
pub open spec fn halves_follow(nodes: Seq<Leaf>, j: int, k: int, min_leaf_size: int) -> bool {
    j < k && k + 1 < nodes.len() && nodes[j].is_cut_into(nodes[k], nodes[k + 1], min_leaf_size)
}

/// Whether `nodes` is a partition of `root` of which the first `done` nodes have
/// been looked at: the root comes first, every node lies inside it, only rooms
/// too large for `max_leaf_size` were cut, the two halves of every room that
/// was cut follow it side by side, every room looked at and left uncut either
/// fits or was blocked, no cut left a side shorter than `min_leaf_size`, and
/// the uncut rooms tile the root: no two of them share any area, and they have
/// the root's area between them.
pub open spec fn cut_so_far(
    nodes: Seq<Leaf>,
    root: Leaf,
    min_leaf_size: int,
    max_leaf_size: int,
    done: int,
) -> bool {
    &&& nodes.len() >= 1
    &&& 0 <= done <= nodes.len()
    &&& nodes[0] == root || nodes[0] == (Leaf { child_split: true, ..root })
    &&& forall|j: int| 0 <= j < nodes.len() ==> (#[trigger] nodes[j]).wf() && root.contains(nodes[j])
    &&& forall|j: int| done <= j < nodes.len() ==> !(#[trigger] nodes[j]).child_split
    &&& forall|j: int|
        0 <= j < done && !(#[trigger] nodes[j]).child_split ==> nodes[j].fits(max_leaf_size)
            || nodes[j].blocked(min_leaf_size)
    &&& forall|j: int|
        0 <= j < nodes.len() && (#[trigger] nodes[j]).child_split ==> !nodes[j].fits(max_leaf_size)
    &&& forall|j: int|
        0 <= j < nodes.len() && (#[trigger] nodes[j]).child_split ==> exists|k: int| #[trigger]
            halves_follow(nodes, j, k, min_leaf_size)
    &&& forall|j: int|
        0 <= j < nodes.len() ==> {
            &&& (#[trigger] nodes[j]).width >= min_leaf_size || nodes[j].width == root.width
            &&& nodes[j].height >= min_leaf_size || nodes[j].height == root.height
        }
    &&& forall|j: int, k: int|
        0 <= j < k < nodes.len() && !(#[trigger] nodes[j]).child_split && !(#[trigger] nodes[k]).child_split
            ==> nodes[j].apart(nodes[k])
    &&& terminal_area(nodes) == root.area()
}

/// Whether `nodes` is a finished partition of `root`: one of which every node
/// has been looked at.
pub open spec fn is_partition_of(
    nodes: Seq<Leaf>,
    root: Leaf,
    min_leaf_size: int,
    max_leaf_size: int,
) -> bool {
    cut_so_far(nodes, root, min_leaf_size, max_leaf_size, nodes.len() as int)
}

/// What `split` promises of the halves `first` and `second` of `room`.
pub open spec fn is_split_of(room: Leaf, first: Leaf, second: Leaf, min_leaf_size: int) -> bool {
    &&& exists|coin: bool, offset: int|
        #[trigger] room.cut_allowed(min_leaf_size, coin, offset) && (first, second) == room.children(
            room.spec_split_axis(coin),
            offset,
        )
    &&& first.wf() && second.wf()
    &&& !first.child_split && !second.child_split
    &&& room.contains(first) && room.contains(second)
    &&& first.apart(second)
    &&& first.area() + second.area() == room.area()
    &&& first.width >= min_leaf_size || first.width == room.width
    &&& first.height >= min_leaf_size || first.height == room.height
    &&& second.width >= min_leaf_size || second.width == room.width
    &&& second.height >= min_leaf_size || second.height == room.height
}

/// The list after node `i` has been cut into `first` and `second`.
spec fn after_cut(nodes: Seq<Leaf>, i: int, first: Leaf, second: Leaf) -> Seq<Leaf> {
    nodes.update(i, Leaf { child_split: true, ..nodes[i] }).push(first).push(second)
}

/// After a cut the halves of every cut node still follow it.
proof fn lemma_cut_keeps_halves(
    nodes: Seq<Leaf>,
    i: int,
    first: Leaf,
    second: Leaf,
    min: int,
    j: int,
)
    requires
        0 <= i < nodes.len(),
        is_split_of(nodes[i], first, second, min),
        0 <= j < nodes.len(),
        j == i || exists|k: int| #[trigger] halves_follow(nodes, j, k, min),
    ensures
        exists|k: int| #[trigger] halves_follow(after_cut(nodes, i, first, second), j, k, min),
{
    reveal(halves_follow);
    let after = after_cut(nodes, i, first, second);
    let cut = nodes[j];
    if j == i {
        let (coin, offset) = choose|coin: bool, offset: int|
            #[trigger] cut.cut_allowed(min, coin, offset) && (first, second) == cut.children(
                cut.spec_split_axis(coin),
                offset,
            );
        assert(after[j].cut_allowed(min, coin, offset));
        assert(halves_follow(after, j, nodes.len() as int, min));
    } else {
        let k = choose|k: int| #[trigger] halves_follow(nodes, j, k, min);
        let (coin, offset) = choose|coin: bool, offset: int|
            #[trigger] cut.cut_allowed(min, coin, offset) && nodes[k].same_rect(
                cut.children(cut.spec_split_axis(coin), offset).0,
            ) && nodes[k + 1].same_rect(cut.children(cut.spec_split_axis(coin), offset).1);
        assert(after[j].cut_allowed(min, coin, offset));
        assert(halves_follow(after, j, k, min));
    }
}

/// After a cut the uncut rooms have the area that they had before.
proof fn lemma_cut_keeps_area(nodes: Seq<Leaf>, i: int, first: Leaf, second: Leaf)
    requires
        0 <= i < nodes.len(),
        !nodes[i].child_split,
        !first.child_split,
        !second.child_split,
        first.area() + second.area() == nodes[i].area(),
    ensures
        terminal_area(after_cut(nodes, i, first, second)) == terminal_area(nodes),
{
    let marked = nodes.update(i, Leaf { child_split: true, ..nodes[i] });
    let grown = marked.push(first);
    let after = grown.push(second);
    lemma_terminal_area_mark(nodes, i);
    assert(grown.drop_last() =~= marked);
    assert(after.drop_last() =~= grown);
    assert(terminal_area(grown) == terminal_area(marked) + first.area());
    assert(terminal_area(after) == terminal_area(grown) + second.area());
}

/// A cut of node `i` leaves a partition of which one node more has been
/// looked at.
proof fn lemma_cut_keeps_partition(
    nodes: Seq<Leaf>,
    root: Leaf,
    min: int,
    max: int,
    i: int,
    first: Leaf,
    second: Leaf,
)
    requires
        cut_so_far(nodes, root, min, max, i),
        i < nodes.len(),
        !nodes[i].fits(max),
        is_split_of(nodes[i], first, second, min),
    ensures
        cut_so_far(after_cut(nodes, i, first, second), root, min, max, i + 1),
{
    let after = after_cut(nodes, i, first, second);
    assert(nodes[i].wf() && root.contains(nodes[i]));
    assert forall|j: int| 0 <= j < after.len() && (#[trigger] after[j]).child_split implies exists|
        k: int,
    | #[trigger] halves_follow(after, j, k, min) by {
        lemma_cut_keeps_halves(nodes, i, first, second, min, j);
    }
    assert forall|j: int, k: int|
        0 <= j < k < after.len() && !(#[trigger] after[j]).child_split && !(
        #[trigger] after[k]).child_split implies after[j].apart(after[k]) by {
        if k < nodes.len() {
            assert(after[j] == nodes[j] && after[k] == nodes[k]);
        } else if j < nodes.len() {
            assert(after[j] == nodes[j]);
            assert(j < i ==> nodes[j].apart(nodes[i]));
            assert(i < j ==> nodes[i].apart(nodes[j]));
        }
    }
    lemma_cut_keeps_area(nodes, i, first, second);
}

/// A node that fits or was blocked can be passed over.
proof fn lemma_skip_keeps_partition(nodes: Seq<Leaf>, root: Leaf, min: int, max: int, i: int)
    requires
        cut_so_far(nodes, root, min, max, i),
        i < nodes.len(),
        nodes[i].fits(max) || nodes[i].blocked(min),
    ensures
        cut_so_far(nodes, root, min, max, i + 1),
{
}

/// After a cut what is left to do weighs less than before, and not less than
/// nothing.
proof fn lemma_cut_weighs_less(nodes: Seq<Leaf>, i: int, first: Leaf, second: Leaf)
    requires
        0 <= i < nodes.len(),
        forall|j: int| 0 <= j < nodes.len() ==> (#[trigger] nodes[j]).wf(),
        first.wf(),
        second.wf(),
        first.area() + second.area() == nodes[i].area(),
    ensures
        0 <= pending_weight(after_cut(nodes, i, first, second), i + 1) < pending_weight(nodes, i),
{
    let marked = nodes.update(i, Leaf { child_split: true, ..nodes[i] });
    let grown = marked.push(first);
    let after = grown.push(second);
    lemma_pending_weight_step(nodes, i);
    lemma_pending_weight_update(nodes, i, Leaf { child_split: true, ..nodes[i] }, i + 1);
    assert(grown.drop_last() =~= marked);
    assert(after.drop_last() =~= grown);
    assert(pending_weight(grown, i + 1) == pending_weight(marked, i + 1) + 2 * first.area() - 1);
    assert(pending_weight(after, i + 1) == pending_weight(grown, i + 1) + 2 * second.area() - 1);
    lemma_pending_weight_nonnegative(after, i + 1);
}

/// With a node passed over what is left to do weighs less than before, and
/// not less than nothing.
proof fn lemma_skip_weighs_less(nodes: Seq<Leaf>, i: int)
    requires
        0 <= i < nodes.len(),
        forall|j: int| 0 <= j < nodes.len() ==> (#[trigger] nodes[j]).wf(),
    ensures
        0 <= pending_weight(nodes, i + 1) < pending_weight(nodes, i),
{
    lemma_pending_weight_step(nodes, i);
    lemma_pending_weight_nonnegative(nodes, i + 1);
    let room = nodes[i];
    assert(room.wf());
    assert(room.width * room.height >= 1) by (nonlinear_arith)
        requires
            room.width >= 1,
            room.height >= 1,
    ;
}

/// Cuts `root` into rooms. The rooms are looked at in the order in which they
/// were made, the root first; one with a side longer than `max_leaf_size` is
/// cut if `split` finds room for it, and its halves join the end of the list.
///
/// The list that comes back holds every node, cut or not. The rooms that
/// were not cut tile the root: they lie inside it and their areas add up to
/// its area. Each of them either fits `max_leaf_size` or was blocked.
pub fn partition(root: Leaf, min_leaf_size: i64, max_leaf_size: i64, rng: &mut StdRng) -> (rooms:
    Vec<Leaf>)
    requires
        root.wf(),
        !root.child_split,
        0 < min_leaf_size,
    ensures
        is_partition_of(rooms@, root, min_leaf_size as int, max_leaf_size as int),
{
    let mut rooms: Vec<Leaf> = Vec::new();
    rooms.push(root);
    proof {
        assert(rooms@.drop_last() =~= Seq::<Leaf>::empty());
        assert(terminal_area(rooms@.drop_last()) == 0);
    }
    let mut i: usize = 0;
    while i < rooms.len()
        invariant
            0 < min_leaf_size,
            cut_so_far(rooms@, root, min_leaf_size as int, max_leaf_size as int, i as int),
        decreases pending_weight(rooms@, i as int),
    {
        let ghost before = rooms@;
        let mut room = rooms[i];
        assert(before[i as int].wf());
        if room.width > max_leaf_size || room.height > max_leaf_size {
            match room.split(min_leaf_size, rng) {
                Some((first, second)) => {
                    rooms.set(i, room);
                    rooms.push(first);
                    rooms.push(second);
                    proof {
                        assert(rooms@ == after_cut(before, i as int, first, second));
                        lemma_cut_keeps_partition(
                            before,
                            root,
                            min_leaf_size as int,
                            max_leaf_size as int,
                            i as int,
                            first,
                            second,
                        );
                        lemma_cut_weighs_less(before, i as int, first, second);
                    }
                },
                None => {
                    proof {
                        lemma_skip_keeps_partition(
                            before,
                            root,
                            min_leaf_size as int,
                            max_leaf_size as int,
                            i as int,
                        );
                        lemma_skip_weighs_less(before, i as int);
                    }
                },
            }
        } else {
            proof {
                lemma_skip_keeps_partition(
                    before,
                    root,
                    min_leaf_size as int,
                    max_leaf_size as int,
                    i as int,
                );
                lemma_skip_weighs_less(before, i as int);
            }
        }
        i += 1;
    }
    rooms
}

/// Whether a node was never cut.
pub open spec fn is_terminal(room: Leaf) -> bool {
    !room.child_split
}

/// The rooms of a partition: its nodes that were never cut, in order.
pub fn terminal_rooms(nodes: &Vec<Leaf>) -> (rooms: Vec<Leaf>)
    ensures
        rooms@ == nodes@.filter(|room: Leaf| is_terminal(room)),
{
    let mut rooms: Vec<Leaf> = Vec::new();
    let mut i: usize = 0;
    assert(nodes@.take(0) =~= Seq::<Leaf>::empty());
    proof {
        Seq::<Leaf>::empty().lemma_filter_len(|room: Leaf| is_terminal(room));
    }
    while i < nodes.len()
        invariant
            i <= nodes@.len(),
            rooms@ == nodes@.take(i as int).filter(|room: Leaf| is_terminal(room)),
        decreases nodes@.len() - i,
    {
        proof {
            assert(nodes@.take(i + 1) =~= nodes@.take(i as int).push(nodes@[i as int]));
            nodes@.take(i as int).lemma_filter_push(nodes@[i as int], |room: Leaf| is_terminal(room));
        }
        if !nodes[i].child_split {
            rooms.push(nodes[i]);
        }
        i += 1;
    }
    assert(nodes@.take(nodes@.len() as int) =~= nodes@);
    rooms
}

/// What a room of the finished level carries: where it is, how large it is,
/// which sides of the level it lies on, and its doorways.
#[derive(Clone, Debug)]
pub struct RoomTag {
    pub center: Point,
    pub width: i64,
    pub height: i64,
    pub is_left_edge: bool,
    pub is_right_edge: bool,
    pub is_top_edge: bool,
    pub is_bottom_edge: bool,
    pub doors: Vec<Point>,
}

/// The middle of a room; an odd side puts it half a sub-unit low.
pub open spec fn center_of(room: Leaf) -> Point {
    Point { x: (room.x + room.width / 2) as i64, y: (room.y + room.height / 2) as i64 }
}

/// The doorways of `room` towards the rooms at positions `from` and later.
pub open spec fn doors_towards(rooms: Seq<Leaf>, room: Leaf, from: int) -> Seq<Point>
    decreases rooms.len() - from,
{
    if from < 0 || from >= rooms.len() {
        Seq::empty()
    } else {
        door_positions(room, rooms[from]) + doors_towards(rooms, room, from + 1)
    }
}

impl RoomTag {
    /// The rectangle that the tag describes.
    pub open spec fn bounds(self) -> Leaf {
        Leaf {
            x: (self.center.x - self.width / 2) as i64,
            y: (self.center.y - self.height / 2) as i64,
            width: self.width,
            height: self.height,
            child_split: false,
        }
    }

    /// Whether this is the tag of room `i` of `rooms` in a level whose outline
    /// is `root`: it has that room's place and size, says which sides of the
    /// outline the room lies on, and holds its doorways towards the rooms
    /// after it.
    pub open spec fn describes(self, rooms: Seq<Leaf>, i: int, root: Leaf) -> bool {
        &&& self.bounds() == rooms[i]
        &&& self.center == center_of(rooms[i])
        &&& self.is_left_edge == (rooms[i].x == root.x)
        &&& self.is_right_edge == (rooms[i].x + rooms[i].width == root.x + root.width)
        &&& self.is_bottom_edge == (rooms[i].y == root.y)
        &&& self.is_top_edge == (rooms[i].y + rooms[i].height == root.y + root.height)
        &&& self.doors@ == doors_towards(rooms, rooms[i], i + 1)
    }
}

/// Tags each room of a level. Every pair of rooms is tested once for a
/// shared boundary, and the doorways found are kept by the earlier of the two.
pub fn room_tags(rooms: &Vec<Leaf>, root: &Leaf) -> (tags: Vec<RoomTag>)
    requires
        root.wf(),
        forall|j: int| 0 <= j < rooms@.len() ==> (#[trigger] rooms@[j]).wf() && !rooms@[j].child_split,
    ensures
        tags@.len() == rooms@.len(),
        forall|i: int| 0 <= i < tags@.len() ==> (#[trigger] tags@[i]).describes(rooms@, i, *root),
{
    let mut tags: Vec<RoomTag> = Vec::new();
    let mut i: usize = 0;
    while i < rooms.len()
        invariant
            root.wf(),
            i <= rooms@.len(),
            tags@.len() == i,
            forall|j: int| 0 <= j < rooms@.len() ==> (#[trigger] rooms@[j]).wf() && !rooms@[j].child_split,
            forall|k: int| 0 <= k < tags@.len() ==> (#[trigger] tags@[k]).describes(rooms@, k, *root),
        decreases rooms@.len() - i,
    {
        let room = rooms[i];
        assert(rooms@[i as int].wf());
        let mut doors: Vec<Point> = Vec::new();
        let mut j: usize = i + 1;
        while j < rooms.len()
            invariant
                i < j <= rooms@.len(),
                room == rooms@[i as int],
                room.wf(),
                forall|k: int| 0 <= k < rooms@.len() ==> (#[trigger] rooms@[k]).wf(),
                doors@ + doors_towards(rooms@, room, j as int) == doors_towards(
                    rooms@,
                    room,
                    i + 1,
                ),
            decreases rooms@.len() - j,
        {
            let other = rooms[j];
            assert(rooms@[j as int].wf());
            let ghost before = doors@;
            let mut found = calculate_door_positions(&room, &other);
            doors.append(&mut found);
            assert(doors@ + doors_towards(rooms@, room, j + 1) =~= before + doors_towards(
                rooms@,
                room,
                j as int,
            ));
            j += 1;
        }
        assert(doors@ =~= doors@ + doors_towards(rooms@, room, j as int));
        let tag = RoomTag {
            center: Point { x: room.x + room.width / 2, y: room.y + room.height / 2 },
            width: room.width,
            height: room.height,
            is_left_edge: room.x == root.x,
            is_right_edge: room.x + room.width == root.x + root.width,
            is_top_edge: room.y + room.height == root.y + root.height,
            is_bottom_edge: room.y == root.y,
            doors,
        };
        assert(tag.describes(rooms@, i as int, *root));
        tags.push(tag);
        i += 1;
    }
    tags
}

/// The outline of a level of the given size, centred on the origin.
pub open spec fn level_root(root_width: int, root_height: int) -> Leaf {
    Leaf {
        x: (-(root_width / 2)) as i64,
        y: (-(root_height / 2)) as i64,
        width: root_width as i64,
        height: root_height as i64,
        child_split: false,
    }
}

/// Whether a level of this size and minimum leaf size can be generated: the
/// sides are positive and inside the world, and the minimum is positive.
pub open spec fn valid_level(root_width: int, root_height: int, min_leaf_size: int) -> bool {
    &&& 0 < root_width <= WORLD_LIMIT
    &&& 0 < root_height <= WORLD_LIMIT
    &&& 0 < min_leaf_size
}

/// Whether `tags` are the tags of the rooms of the partition `nodes`.
pub open spec fn tags_of(tags: Seq<RoomTag>, nodes: Seq<Leaf>, root: Leaf) -> bool {
    let rooms = nodes.filter(|room: Leaf| is_terminal(room));
    tags.len() == rooms.len() && forall|i: int|
        0 <= i < tags.len() ==> (#[trigger] tags[i]).describes(rooms, i, root)
}

/// Generates a level: partitions an outline of the given size, centred on the
/// origin, and tags its rooms with their doorways.
///
/// Whatever is drawn, the rooms tile the outline: they lie inside it, no two
/// of them share any area, and their areas add up to its area. Each has sides
/// of at most `max_leaf_size` or is one that an attempt to cut could not cut.
/// Nothing is generated for a size or a minimum that is not positive, or a
/// size that reaches outside the world.
pub fn generate(
    root_width: i64,
    root_height: i64,
    min_leaf_size: i64,
    max_leaf_size: i64,
    rng: &mut StdRng,
) -> (level: Option<Vec<RoomTag>>)
    ensures
        level is Some <==> valid_level(root_width as int, root_height as int, min_leaf_size as int),
        level matches Some(tags) ==> {
            let root = level_root(root_width as int, root_height as int);
            &&& exists|nodes: Seq<Leaf>|
                #[trigger] is_partition_of(nodes, root, min_leaf_size as int, max_leaf_size as int)
                    && tags_of(tags@, nodes, root)
            &&& tags@.len() >= 1
            &&& forall|i: int|
                0 <= i < tags@.len() ==> {
                    let room = (#[trigger] tags@[i]).bounds();
                    &&& room.wf()
                    &&& root.contains(room)
                    &&& room.fits(max_leaf_size as int) || room.blocked(min_leaf_size as int)
                }
            &&& forall|i: int, j: int|
                0 <= i < j < tags@.len() ==> (#[trigger] tags@[i]).bounds().apart(
                    (#[trigger] tags@[j]).bounds(),
                )
            &&& tags_area(tags@) == root.area()
        },
{
    if root_width <= 0 || root_width > WORLD_LIMIT || root_height <= 0 || root_height > WORLD_LIMIT
        || min_leaf_size <= 0 {
        return None;
    }
    let root = Leaf {
        x: -(root_width / 2),
        y: -(root_height / 2),
        width: root_width,
        height: root_height,
        child_split: false,
    };
    let nodes = partition(root, min_leaf_size, max_leaf_size, rng);
    let rooms = terminal_rooms(&nodes);
    proof {
        let pred = |room: Leaf| is_terminal(room);
        assert forall|j: int| 0 <= j < rooms@.len() implies {
            &&& (#[trigger] rooms@[j]).wf()
            &&& !rooms@[j].child_split
            &&& root.contains(rooms@[j])
            &&& rooms@[j].fits(max_leaf_size as int) || rooms@[j].blocked(min_leaf_size as int)
        } by {
            nodes@.lemma_filter_pred(pred, j);
            assert(rooms@.contains(rooms@[j]));
            nodes@.lemma_filter_contains_rev(pred, rooms@[j]);
            let k = choose|k: int| 0 <= k < nodes@.len() && nodes@[k] == rooms@[j];
        }
        lemma_some_room_is_terminal(nodes@, root);
    }
    let tags = room_tags(&rooms, &root);
    assert forall|i: int| 0 <= i < tags@.len() implies (#[trigger] tags@[i]).bounds() == rooms@[i] by {
        assert(tags@[i].describes(rooms@, i, root));
    }
    proof {
        let pred = |room: Leaf| is_terminal(room);
        assert forall|i: int, j: int| 0 <= i < j < tags@.len() implies (#[trigger] tags@[i]).bounds().apart(
            (#[trigger] tags@[j]).bounds(),
        ) by {
            lemma_filter_keeps_order(nodes@, pred, i, j);
            let (a, b) = choose|a: int, b: int|
                0 <= a < b < nodes@.len() && nodes@[a] == rooms@[i] && nodes@[b] == rooms@[j];
            assert(!nodes@[a].child_split && !nodes@[b].child_split);
        }
        lemma_terminal_area_is_room_area(nodes@);
        lemma_tags_area(tags@, rooms@);
    }
    Some(tags)
}

/// The combined area of the rooms of a list.
pub open spec fn total_area(rooms: Seq<Leaf>) -> int
    decreases rooms.len(),
{
    if rooms.len() == 0 {
        0
    } else {
        total_area(rooms.drop_last()) + rooms.last().area()
    }
}

/// The combined area of the rooms that a list of tags describes.
pub open spec fn tags_area(tags: Seq<RoomTag>) -> int
    decreases tags.len(),
{
    if tags.len() == 0 {
        0
    } else {
        tags_area(tags.drop_last()) + tags.last().width * tags.last().height
    }
}

/// Two elements of a filtered list stand in the list it was filtered from,
/// in the same order.
proof fn lemma_filter_keeps_order<A>(s: Seq<A>, pred: spec_fn(A) -> bool, i: int, j: int)
    requires
        0 <= i < j < s.filter(pred).len(),
    ensures
        exists|a: int, b: int|
            0 <= a < b < s.len() && s[a] == s.filter(pred)[i] && s[b] == s.filter(pred)[j],
    decreases s.len(),
{
    if s.len() == 0 {
        s.lemma_filter_len(pred);
    } else {
        let front = s.drop_last();
        let kept = front.filter(pred);
        assert(front.push(s.last()) =~= s);
        front.lemma_filter_push(s.last(), pred);
        if j < kept.len() {
            lemma_filter_keeps_order(front, pred, i, j);
            let (a, b) = choose|a: int, b: int|
                0 <= a < b < front.len() && front[a] == kept[i] && front[b] == kept[j];
            assert(s[a] == s.filter(pred)[i] && s[b] == s.filter(pred)[j]);
        } else {
            assert(kept.contains(kept[i]));
            front.lemma_filter_contains_rev(pred, kept[i]);
            let a = choose|a: int| 0 <= a < front.len() && front[a] == kept[i];
            assert(s[a] == s.filter(pred)[i] && s[s.len() - 1] == s.filter(pred)[j]);
        }
    }
}

/// The rooms that were never cut have the area that `terminal_area` counts.
proof fn lemma_terminal_area_is_room_area(nodes: Seq<Leaf>)
    ensures
        terminal_area(nodes) == total_area(nodes.filter(|room: Leaf| is_terminal(room))),
    decreases nodes.len(),
{
    let pred = |room: Leaf| is_terminal(room);
    if nodes.len() == 0 {
        nodes.lemma_filter_len(pred);
    } else {
        lemma_terminal_area_is_room_area(nodes.drop_last());
        assert(nodes.drop_last().push(nodes.last()) =~= nodes);
        nodes.drop_last().lemma_filter_push(nodes.last(), pred);
        if pred(nodes.last()) {
            assert(nodes.filter(pred).drop_last() =~= nodes.drop_last().filter(pred));
        }
    }
}

/// Tags that describe the rooms of a list have the area of those rooms.
proof fn lemma_tags_area(tags: Seq<RoomTag>, rooms: Seq<Leaf>)
    requires
        tags.len() == rooms.len(),
        forall|i: int| 0 <= i < tags.len() ==> (#[trigger] tags[i]).bounds() == rooms[i],
    ensures
        tags_area(tags) == total_area(rooms),
    decreases tags.len(),
{
    if tags.len() > 0 {
        lemma_tags_area(tags.drop_last(), rooms.drop_last());
        assert(tags.last().bounds() == rooms.last());
    }
}

/// A partition has at least one room that was never cut.
proof fn lemma_some_room_is_terminal(nodes: Seq<Leaf>, root: Leaf)
    requires
        root.wf(),
        terminal_area(nodes) == root.area(),
    ensures
        nodes.filter(|room: Leaf| is_terminal(room)).len() >= 1,
{
    assert(root.width * root.height >= 1) by (nonlinear_arith)
        requires
            root.width >= 1,
            root.height >= 1,
    ;
    lemma_no_terminal_no_area(nodes);
}

proof fn lemma_no_terminal_no_area(nodes: Seq<Leaf>)
    ensures
        nodes.filter(|room: Leaf| is_terminal(room)).len() == 0 ==> terminal_area(nodes) == 0,
    decreases nodes.len(),
{
    let pred = |room: Leaf| is_terminal(room);
    if nodes.len() > 0 {
        lemma_no_terminal_no_area(nodes.drop_last());
        assert(nodes.drop_last().push(nodes.last()) =~= nodes);
        nodes.drop_last().lemma_filter_push(nodes.last(), pred);
    } else {
        nodes.lemma_filter_len(pred);
    }
}

} // verus!
