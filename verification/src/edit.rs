//! Editor-state logic: the grid of identified operator nodes an editor
//! maintains, the cursor, and the reversible commands on them.
//!
//! Editors produce the token sequences the compiler consumes; the engine
//! itself never depends on this module.

use vstd::prelude::*;
use core::cmp::Ordering;

verus! {

/// Leftmost column an editor lets the cursor reach.
pub const MIN_X: usize = 2;

/// Topmost row an editor lets the cursor reach.
pub const MIN_Y: usize = 2;

/// A cell on the editor grid.
#[derive(Clone, Copy, Debug, Default, PartialEq, Eq, Structural)]
pub struct Position {
    pub x: i16,
    pub y: i16,
}

impl Position {
    /// A purely horizontal position.
    pub fn x(x: i16) -> (p: Self)
        ensures
            p.x == x,
            p.y == 0,
    {
        Position { x, y: 0 }
    }

    /// A purely vertical position.
    pub fn y(y: i16) -> (p: Self)
        ensures
            p.x == 0,
            p.y == y,
    {
        Position { x: 0, y }
    }
}

/// Reading order: row first, column second.
pub open spec fn position_order(a: Position, b: Position) -> Ordering {
    if a.y < b.y {
        Ordering::Less
    } else if a.y > b.y {
        Ordering::Greater
    } else if a.x < b.x {
        Ordering::Less
    } else if a.x > b.x {
        Ordering::Greater
    } else {
        Ordering::Equal
    }
}

impl PartialOrd for Position {
    /// Positions compare in reading order: row first, column second.
    fn partial_cmp(&self, other: &Self) -> (r: Option<Ordering>) {
        Some(
            if self.y < other.y {
                Ordering::Less
            } else if self.y > other.y {
                Ordering::Greater
            } else if self.x < other.x {
                Ordering::Less
            } else if self.x > other.x {
                Ordering::Greater
            } else {
                Ordering::Equal
            },
        )
    }
}

impl vstd::std_specs::cmp::PartialOrdSpecImpl for Position {
    open spec fn obeys_partial_cmp_spec() -> bool {
        true
    }

    open spec fn partial_cmp_spec(&self, other: &Self) -> Option<Ordering> {
        Some(position_order(*self, *other))
    }
}

/// One identified operator node on the grid.  The identity goes with the
/// node across edits of its text; a fresh node gets a fresh identity.
#[derive(Debug)]
pub struct Node {
    pub id: u64,
    pub draft: bool,
    pub op: String,
    pub position: Position,
}

/// The cursor stands on this node: same row, and within the node's text
/// (the space just after the text counts as part of the node).
pub open spec fn covers(n: Node, c: Position) -> bool {
    &&& n.position.y == c.y
    &&& n.position.x <= c.x
    &&& c.x - n.position.x <= n.op@.len()
}

/// What an editor persists: the nodes, the cursor, and the rendered program
/// text.
#[derive(Debug)]
pub struct SavedState {
    pub cursor: Position,
    pub nodes: Vec<Node>,
    pub program: String,
}

impl SavedState {
    /// Index of the first node under the cursor, if any.
    pub fn node_at_cursor(&self) -> (r: Option<usize>)
        ensures
            match r {
                Some(ix) => {
                    &&& ix < self.nodes@.len()
                    &&& covers(self.nodes@[ix as int], self.cursor)
                    &&& forall|j: int| 0 <= j < ix ==> !covers(#[trigger] self.nodes@[j], self.cursor)
                },
                None => forall|j: int|
                    0 <= j < self.nodes@.len() ==> !covers(#[trigger] self.nodes@[j], self.cursor),
            },
    {
        let n = self.nodes.len();
        let mut i: usize = 0;
        while i < n
            invariant
                i <= n,
                n == self.nodes@.len(),
                forall|j: int| 0 <= j < i ==> !covers(#[trigger] self.nodes@[j], self.cursor),
            decreases n - i,
        {
            let node = &self.nodes[i];
            if node.position.y == self.cursor.y && node.position.x <= self.cursor.x {
                let dx: i32 = self.cursor.x as i32 - node.position.x as i32;
                let len = node.op.as_str().unicode_len();
                if dx as usize <= len {
                    return Some(i);
                }
            }
            i = i + 1;
        }
        None
    }

    /// Whether any node is still a draft (not yet committed to the program).
    pub fn any_draft(&self) -> (r: bool)
        ensures
            r == exists|j: int| 0 <= j < self.nodes@.len() && (#[trigger] self.nodes@[j]).draft,
    {
        let n = self.nodes.len();
        let mut i: usize = 0;
        while i < n
            invariant
                i <= n,
                n == self.nodes@.len(),
                forall|j: int| 0 <= j < i ==> !(#[trigger] self.nodes@[j]).draft,
            decreases n - i,
        {
            if self.nodes[i].draft {
                return true;
            }
            i = i + 1;
        }
        false
    }
}

/// What the editor's keystrokes are interpreted as.
#[derive(Debug)]
pub enum InputMode {
    Normal,
    Insert,
    Replace,
}

impl Default for InputMode {
    fn default() -> (r: Self)
        ensures
            r matches InputMode::Normal,
    {
        InputMode::Normal
    }
}

/// Which screen an editor shows.
#[derive(Debug)]
pub enum Screen {
    Editor,
    Help,
    Ops,
}

impl Default for Screen {
    fn default() -> (r: Self)
        ensures
            r matches Screen::Editor,
    {
        Screen::Editor
    }
}

/// Move the cursor by an offset (the reversible cursor command).
pub fn apply_move_cursor(cursor: &mut Position, offset: Position)
    requires
        i16::MIN <= old(cursor).x + offset.x <= i16::MAX,
        i16::MIN <= old(cursor).y + offset.y <= i16::MAX,
    ensures
        final(cursor).x == old(cursor).x + offset.x,
        final(cursor).y == old(cursor).y + offset.y,
{
    cursor.x = cursor.x + offset.x;
    cursor.y = cursor.y + offset.y;
}

/// Undo a cursor move: shift back by the same offset.
pub fn undo_move_cursor(cursor: &mut Position, offset: Position)
    requires
        i16::MIN <= old(cursor).x - offset.x <= i16::MAX,
        i16::MIN <= old(cursor).y - offset.y <= i16::MAX,
    ensures
        final(cursor).x == old(cursor).x - offset.x,
        final(cursor).y == old(cursor).y - offset.y,
{
    cursor.x = cursor.x - offset.x;
    cursor.y = cursor.y - offset.y;
}

/// Merge two consecutive cursor moves into one offset.
pub fn merge_offsets(a: Position, b: Position) -> (r: Position)
    requires
        i16::MIN <= a.x + b.x <= i16::MAX,
        i16::MIN <= a.y + b.y <= i16::MAX,
    ensures
        r.x == a.x + b.x,
        r.y == a.y + b.y,
{
    Position { x: a.x + b.x, y: a.y + b.y }
}

/// Give every node a new identity (supplied by the caller, e.g. drawn at
/// random), returning the pairs of new and previous identity so the command
/// can be undone.
pub fn apply_randomize_ids(nodes: &mut Vec<Node>, new_ids: &Vec<u64>) -> (prev: Vec<(u64, u64)>)
    requires
        new_ids@.len() == old(nodes)@.len(),
    ensures
        final(nodes)@.len() == old(nodes)@.len(),
        forall|i: int|
            0 <= i < old(nodes)@.len() ==> {
                &&& (#[trigger] final(nodes)@[i]).id == new_ids@[i]
                &&& final(nodes)@[i].draft == old(nodes)@[i].draft
                &&& final(nodes)@[i].op == old(nodes)@[i].op
                &&& final(nodes)@[i].position == old(nodes)@[i].position
            },
        prev@.len() == old(nodes)@.len(),
        forall|i: int|
            0 <= i < old(nodes)@.len() ==> #[trigger] prev@[i] == (
                new_ids@[i],
                old(nodes)@[i].id,
            ),
{
    let n = nodes.len();
    let mut prev: Vec<(u64, u64)> = Vec::new();
    let mut i: usize = 0;
    while i < n
        invariant
            i <= n,
            n == nodes@.len(),
            n == old(nodes)@.len(),
            n == new_ids@.len(),
            prev@.len() == i,
            forall|j: int|
                i <= j < n ==> #[trigger] nodes@[j] == old(nodes)@[j],
            forall|j: int|
                0 <= j < i ==> {
                    &&& (#[trigger] nodes@[j]).id == new_ids@[j]
                    &&& nodes@[j].draft == old(nodes)@[j].draft
                    &&& nodes@[j].op == old(nodes)@[j].op
                    &&& nodes@[j].position == old(nodes)@[j].position
                },
            forall|j: int|
                0 <= j < i ==> #[trigger] prev@[j] == (new_ids@[j], old(nodes)@[j].id),
        decreases n - i,
    {
        prev.push((new_ids[i], nodes[i].id));
        let node = &mut nodes[i];
        node.id = new_ids[i];
        i = i + 1;
    }
    prev
}

/// The previous identity recorded for a new identity, if any (first match).
pub open spec fn lookup_prev(prev: Seq<(u64, u64)>, id: u64) -> Option<u64>
    decreases prev.len(),
{
    if prev.len() == 0 {
        None
    } else if prev[0].0 == id {
        Some(prev[0].1)
    } else {
        lookup_prev(prev.subrange(1, prev.len() as int), id)
    }
}

/// Look a new identity up in the recorded pairs.
fn find_prev(prev: &Vec<(u64, u64)>, id: u64) -> (r: Option<u64>)
    ensures
        r == lookup_prev(prev@, id),
{
    let n = prev.len();
    proof {
        assert(prev@.subrange(0, n as int) =~= prev@);
    }
    let mut i: usize = 0;
    while i < n
        invariant
            i <= n,
            n == prev@.len(),
            lookup_prev(prev@, id) == lookup_prev(prev@.subrange(i as int, n as int), id),
        decreases n - i,
    {
        if prev[i].0 == id {
            proof {
                assert(prev@.subrange(i as int, n as int)[0] == prev@[i as int]);
            }
            return Some(prev[i].1);
        }
        proof {
            assert(prev@.subrange(i as int, n as int)[0] == prev@[i as int]);
            assert(prev@.subrange(i as int, n as int).subrange(
                1,
                prev@.subrange(i as int, n as int).len() as int,
            ) =~= prev@.subrange(i + 1, n as int));
        }
        i = i + 1;
    }
    None
}

/// Undo an identity randomization: restore each node's recorded previous
/// identity; a node whose identity is not recorded gets the caller's
/// fallback (a fresh random identity, as when it was first created).
pub fn undo_randomize_ids(nodes: &mut Vec<Node>, prev: &Vec<(u64, u64)>, fallback: &Vec<u64>)
    requires
        fallback@.len() == old(nodes)@.len(),
    ensures
        final(nodes)@.len() == old(nodes)@.len(),
        forall|i: int|
            0 <= i < old(nodes)@.len() ==> {
                &&& (#[trigger] final(nodes)@[i]).id == (match lookup_prev(
                    prev@,
                    old(nodes)@[i].id,
                ) {
                    Some(p) => p,
                    None => fallback@[i],
                })
                &&& final(nodes)@[i].draft == old(nodes)@[i].draft
                &&& final(nodes)@[i].op == old(nodes)@[i].op
                &&& final(nodes)@[i].position == old(nodes)@[i].position
            },
{
    let n = nodes.len();
    let mut i: usize = 0;
    while i < n
        invariant
            i <= n,
            n == nodes@.len(),
            n == old(nodes)@.len(),
            n == fallback@.len(),
            forall|j: int|
                i <= j < n ==> #[trigger] nodes@[j] == old(nodes)@[j],
            forall|j: int|
                0 <= j < i ==> {
                    &&& (#[trigger] nodes@[j]).id == (match lookup_prev(
                        prev@,
                        old(nodes)@[j].id,
                    ) {
                        Some(p) => p,
                        None => fallback@[j],
                    })
                    &&& nodes@[j].draft == old(nodes)@[j].draft
                    &&& nodes@[j].op == old(nodes)@[j].op
                    &&& nodes@[j].position == old(nodes)@[j].position
                },
        decreases n - i,
    {
        let restored = match find_prev(prev, nodes[i].id) {
            Some(p) => p,
            None => fallback[i],
        };
        let node = &mut nodes[i];
        node.id = restored;
        i = i + 1;
    }
}

/// The built-in operator-name substitution cycles an editor steps a token
/// through (the first element is repeated at the end).
pub fn default_cycles() -> (r: Vec<Vec<String>>)
    ensures
        r@.len() == 1,
        r@[0]@.len() == 5,
        r@[0]@[0]@ == r@[0]@[4]@,
{
    let mut cycle: Vec<String> = Vec::new();
    cycle.push("s".to_owned());
    cycle.push("t".to_owned());
    cycle.push("w".to_owned());
    cycle.push("c".to_owned());
    cycle.push("s".to_owned());
    let mut r: Vec<Vec<String>> = Vec::new();
    r.push(cycle);
    r
}

} // verus!
