use vstd::laws_eq::obeys_concrete_eq;
use vstd::prelude::*;

verus! {

/// The axis along which a separator divides its rectangle.
#[derive(Debug, Clone, Copy, PartialEq, Eq, Structural)]
pub enum Orientation {
    /// Halves the vertical span: one child above the other.
    Horizontal,
    /// Halves the horizontal span: the children side by side.
    Vertical,
}

/// An axis-aligned rectangle: `x` and `y` are each an (origin, length) span.
#[derive(Debug, Clone, Copy, PartialEq, Eq)]
pub struct Dimensions {
    pub x: (i32, i32),
    pub y: (i32, i32),
}

/// The first half of a span: same origin, half the length (rounded down).
pub open spec fn first_half(s: (i32, i32)) -> (i32, i32) {
    (s.0, (s.1 as int / 2) as i32)
}

/// The second half of a span: it starts one unit past the end of the first half,
/// which leaves a one-unit seam between the two.
pub open spec fn second_half(s: (i32, i32)) -> (i32, i32) {
    ((s.0 + s.1 as int / 2 + 1) as i32, (s.1 as int / 2) as i32)
}

/// A span can be halved when its length is not negative and the second half's
/// origin fits in an `i32`.
pub open spec fn splittable(s: (i32, i32)) -> bool {
    0 <= s.1 && s.0 + s.1 as int / 2 + 1 <= i32::MAX
}

impl Dimensions {
    /// The two halves of this rectangle along `o`: top and bottom for
    /// `Horizontal`, left and right for `Vertical`.
    pub open spec fn split(self, o: Orientation) -> (Dimensions, Dimensions) {
        match o {
            Orientation::Horizontal => (
                Dimensions { x: self.x, y: first_half(self.y) },
                Dimensions { x: self.x, y: second_half(self.y) },
            ),
            Orientation::Vertical => (
                Dimensions { x: first_half(self.x), y: self.y },
                Dimensions { x: second_half(self.x), y: self.y },
            ),
        }
    }

    /// Both lengths are non-negative and `k` more units past either far edge
    /// still fit below `i32::MAX`. Each level of splitting moves a far edge out
    /// by at most the one-unit seam, so a layout of height `k` over a
    /// rectangle with `room(k)` never leaves the `i32` range.
    pub open spec fn room(self, k: int) -> bool {
        &&& 0 <= self.x.1
        &&& 0 <= self.y.1
        &&& self.x.0 + self.x.1 + k < i32::MAX
        &&& self.y.0 + self.y.1 + k < i32::MAX
    }
}

/// Splits `dim` side by side into a left and a right half.
pub fn tile_vertical(dim: &Dimensions) -> (r: (Dimensions, Dimensions))
    requires
        splittable(dim.x),
    ensures
        r == dim.split(Orientation::Vertical),
        r.0.y == dim.y && r.1.y == dim.y,
        r.0.x.1 + r.1.x.1 <= dim.x.1 <= r.0.x.1 + r.1.x.1 + 1,
        r.1.x.0 == r.0.x.0 + r.0.x.1 + 1,
{
    let left_dim = Dimensions { x: (dim.x.0, dim.x.1 / 2), y: (dim.y.0, dim.y.1) };
    let right_dim = Dimensions { x: (dim.x.0 + dim.x.1 / 2 + 1, dim.x.1 / 2), y: (dim.y.0, dim.y.1) };
    (left_dim, right_dim)
}

/// Splits `dim` into a top and a bottom half.
pub fn tile_horizontal(dim: &Dimensions) -> (r: (Dimensions, Dimensions))
    requires
        splittable(dim.y),
    ensures
        r == dim.split(Orientation::Horizontal),
        r.0.x == dim.x && r.1.x == dim.x,
        r.0.y.1 + r.1.y.1 <= dim.y.1 <= r.0.y.1 + r.1.y.1 + 1,
        r.1.y.0 == r.0.y.0 + r.0.y.1 + 1,
{
    let top_dim = Dimensions { x: (dim.x.0, dim.x.1), y: (dim.y.0, dim.y.1 / 2) };
    let bottom_dim = Dimensions { x: (dim.x.0, dim.x.1), y: (dim.y.0 + dim.y.1 / 2 + 1, dim.y.1 / 2) };
    (top_dim, bottom_dim)
}


/// What occupies a node of the layout tree.
#[derive(Debug)]
pub enum NodeType<T> {
    /// An internal node: its rectangle is split along the orientation between
    /// the two children.
    Separator(Orientation, Box<Node<T>>, Box<Node<T>>),
    /// No window: only the root of a tree that manages no window is empty.
    Empty,
    /// A leaf holding one window identifier.
    Window(T),
}

/// A node of the layout tree together with its screen rectangle.
#[derive(Debug)]
pub struct Node<T> {
    pub node_type: NodeType<T>,
    pub dim: Dimensions,
}

impl<T> Node<T> {
    /// The number of separators on the longest path from this node to a leaf.
    pub open spec fn height(self) -> nat
        decreases self,
    {
        match self.node_type {
            NodeType::Separator(_, l, r) => {
                let (hl, hr) = (l.height(), r.height());
                1 + if hl >= hr { hl } else { hr }
            },
            _ => 0,
        }
    }

    /// Every separator's children hold exactly the two halves of its
    /// rectangle along its orientation, and neither child is empty.
    pub open spec fn tiled(self) -> bool
        decreases self,
    {
        match self.node_type {
            NodeType::Separator(o, l, r) => {
                &&& self.dim.split(o) == (l.dim, r.dim)
                &&& !(l.node_type is Empty)
                &&& !(r.node_type is Empty)
                &&& l.tiled()
                &&& r.tiled()
            },
            _ => true,
        }
    }

    /// The tree invariant: tiled, and every coordinate of the layout fits in
    /// an `i32`.
    pub open spec fn wf(self) -> bool {
        self.tiled() && self.dim.room(self.height() as int)
    }

    /// The tree can take one more level of splitting anywhere in it.
    pub open spec fn can_grow(self) -> bool {
        self.dim.room(self.height() + 1int)
    }

    /// A window can be inserted at this node without leaving the `i32` range.
    pub open spec fn can_tile(self) -> bool {
        self.node_type is Empty || self.can_grow()
    }

    /// Whether a window leaf of the tree holds `id`.
    pub open spec fn contains(self, id: T) -> bool
        decreases self,
    {
        match self.node_type {
            NodeType::Separator(_, l, r) => l.contains(id) || r.contains(id),
            NodeType::Window(w) => w == id,
            NodeType::Empty => false,
        }
    }

    /// No identifier appears in two leaves.
    pub open spec fn distinct(self) -> bool
        decreases self,
    {
        match self.node_type {
            NodeType::Separator(_, l, r) => {
                &&& l.distinct()
                &&& r.distinct()
                &&& forall|w: T| !(#[trigger] l.contains(w) && r.contains(w))
            },
            _ => true,
        }
    }

    /// The same tree with its rectangles recomputed from `d` downwards: the
    /// node takes `d`, and each separator hands the halves of its own
    /// rectangle to its children.
    pub open spec fn laid_out(self, d: Dimensions) -> Node<T>
        decreases self,
    {
        Node {
            node_type: match self.node_type {
                NodeType::Separator(o, l, r) => NodeType::Separator(
                    o,
                    Box::new(l.laid_out(d.split(o).0)),
                    Box::new(r.laid_out(d.split(o).1)),
                ),
                NodeType::Empty => NodeType::Empty,
                NodeType::Window(w) => NodeType::Window(w),
            },
            dim: d,
        }
    }

    /// The tree after inserting window `id` at this node: an empty node
    /// becomes the window; any other node becomes a separator along `o`
    /// whose first child is the old content laid out over the first half
    /// and whose second child is the new window over the second half.
    pub open spec fn inserted(self, o: Orientation, id: T) -> Node<T> {
        match self.node_type {
            NodeType::Empty => Node { node_type: NodeType::Window(id), dim: self.dim },
            _ => Node {
                node_type: NodeType::Separator(
                    o,
                    Box::new(self.laid_out(self.dim.split(o).0)),
                    Box::new(Node { node_type: NodeType::Window(id), dim: self.dim.split(o).1 }),
                ),
                dim: self.dim,
            },
        }
    }

    /// The tree after removing window `id` below this node: the first
    /// separator found (left before right) with a child that is the window
    /// `id` is replaced by its other child, laid out over the separator's
    /// rectangle; other subtrees are searched on both sides. A leaf is left
    /// as it is, even the window `id` itself.
    pub open spec fn removed(self, id: T) -> Node<T>
        decreases self,
    {
        match self.node_type {
            NodeType::Separator(o, l, r) => {
                if l.node_type == NodeType::Window(id) {
                    r.laid_out(self.dim)
                } else if r.node_type == NodeType::Window(id) {
                    l.laid_out(self.dim)
                } else {
                    Node {
                        node_type: NodeType::Separator(
                            o,
                            Box::new(l.removed(id)),
                            Box::new(r.removed(id)),
                        ),
                        dim: self.dim,
                    }
                }
            },
            _ => self,
        }
    }

    /// The first leaf, searching left before right, that holds window `id`;
    /// meaningful when the tree contains `id`.
    pub open spec fn found(self, id: T) -> Node<T>
        decreases self,
    {
        match self.node_type {
            NodeType::Separator(_, l, r) => if l.contains(id) {
                l.found(id)
            } else {
                r.found(id)
            },
            _ => self,
        }
    }

    /// The tree with the leaf `found(id)` replaced by `m`.
    pub open spec fn with_found(self, id: T, m: Node<T>) -> Node<T>
        decreases self,
    {
        match self.node_type {
            NodeType::Separator(o, l, r) => if l.contains(id) {
                Node {
                    node_type: NodeType::Separator(o, Box::new(l.with_found(id, m)), r),
                    dim: self.dim,
                }
            } else {
                Node {
                    node_type: NodeType::Separator(o, l, Box::new(r.with_found(id, m))),
                    dim: self.dim,
                }
            },
            _ => m,
        }
    }
}

/// Splitting a rectangle with room for `k` levels gives two halves with room
/// for `k - 1`.
pub proof fn lemma_split_room(d: Dimensions, o: Orientation, k: int)
    requires
        d.room(k),
        k >= 1,
    ensures
        splittable(d.x),
        splittable(d.y),
        d.split(o).0.room(k - 1),
        d.split(o).1.room(k - 1),
{
}

/// Laying a tiled tree out over a rectangle with room for its height gives a
/// well-formed tree of the same height and the same windows.
pub proof fn lemma_laid_out<T>(n: Node<T>, d: Dimensions)
    requires
        n.tiled(),
        d.room(n.height() as int),
    ensures
        n.laid_out(d).wf(),
        n.laid_out(d).dim == d,
        n.laid_out(d).height() == n.height(),
        forall|w: T|
            #![trigger n.laid_out(d).contains(w)]
            #![trigger n.contains(w)]
            n.laid_out(d).contains(w) == n.contains(w),
        n.laid_out(d).distinct() == n.distinct(),
    decreases n,
{
    if let NodeType::Separator(o, l, r) = n.node_type {
        lemma_split_room(d, o, n.height() as int);
        let (a, b) = d.split(o);
        lemma_laid_out(*l, a);
        lemma_laid_out(*r, b);
        let m = n.laid_out(d);
        assert(m.node_type == NodeType::Separator(o, Box::new(l.laid_out(a)), Box::new(r.laid_out(b))));
        assert forall|w: T| m.contains(w) == n.contains(w) by {
            assert(m.contains(w) == (l.laid_out(a).contains(w) || r.laid_out(b).contains(w)));
            assert(n.contains(w) == (l.contains(w) || r.contains(w)));
        }
        assert((forall|w: T| !(#[trigger] l.laid_out(a).contains(w) && r.laid_out(b).contains(w)))
            == (forall|w: T| !(#[trigger] l.contains(w) && r.contains(w))));
    }
}

/// Inserting a window keeps the tree well-formed, grows it by at most one
/// level, keeps its rectangle, and adds exactly the new identifier.
pub proof fn lemma_inserted<T>(n: Node<T>, o: Orientation, id: T)
    requires
        n.wf(),
        n.can_tile(),
    ensures
        n.inserted(o, id).wf(),
        n.inserted(o, id).dim == n.dim,
        n.inserted(o, id).height() <= n.height() + 1,
        forall|w: T|
            #![trigger n.inserted(o, id).contains(w)]
            #![trigger n.contains(w)]
            n.inserted(o, id).contains(w) == (n.contains(w) || w == id),
        n.distinct() && !n.contains(id) ==> n.inserted(o, id).distinct(),
{
    let m = n.inserted(o, id);
    if !(n.node_type is Empty) {
        lemma_split_room(n.dim, o, n.height() + 1int);
        let (a, b) = n.dim.split(o);
        lemma_laid_out(n, a);
        let leaf = Node { node_type: NodeType::Window(id), dim: b };
        assert(m.node_type == NodeType::Separator(o, Box::new(n.laid_out(a)), Box::new(leaf)));
        assert forall|w: T| m.contains(w) == (n.contains(w) || w == id) by {
            assert(leaf.contains(w) == (w == id));
        }
        assert(leaf.height() == 0 && leaf.tiled());
        assert(m.height() == n.height() + 1);
        if n.distinct() && !n.contains(id) {
            assert forall|w: T| !(#[trigger] n.laid_out(a).contains(w) && leaf.contains(w)) by {
                assert(leaf.contains(w) == (w == id));
            }
            assert(leaf.distinct());
        }
    } else {
        assert(m.height() == 0 && m.tiled());
    }
}

/// Removing a window keeps the tree well-formed, keeps its rectangle, does
/// not make it taller, and keeps every other identifier. In a tree without
/// repeated identifiers, `id` is gone afterwards unless the tree is the
/// single leaf `Window(id)`.
pub proof fn lemma_removed<T>(n: Node<T>, id: T)
    requires
        n.wf(),
    ensures
        n.removed(id).wf(),
        n.removed(id).dim == n.dim,
        n.removed(id).height() <= n.height(),
        (n.removed(id).node_type is Empty) == (n.node_type is Empty),
        forall|w: T|
            #![trigger n.removed(id).contains(w)]
            #![trigger n.contains(w)]
            w != id ==> n.removed(id).contains(w) == n.contains(w),
        n.removed(id).contains(id) ==> n.contains(id),
        n.distinct() ==> n.removed(id).distinct(),
        n.distinct() && n.node_type != NodeType::Window(id) ==> !n.removed(id).contains(id),
    decreases n,
{
    if let NodeType::Separator(o, l, r) = n.node_type {
        lemma_split_room(n.dim, o, n.height() as int);
        if l.node_type == NodeType::Window(id) {
            lemma_laid_out(*r, n.dim);
            assert(l.contains(id));
            assert forall|w: T| w != id implies n.removed(id).contains(w) == n.contains(w) by {
                assert(!l.contains(w));
            }
        } else if r.node_type == NodeType::Window(id) {
            lemma_laid_out(*l, n.dim);
            assert(r.contains(id));
            assert forall|w: T| w != id implies n.removed(id).contains(w) == n.contains(w) by {
                assert(!r.contains(w));
            }
        } else {
            lemma_removed(*l, id);
            lemma_removed(*r, id);
            let m = n.removed(id);
            assert forall|w: T| m.contains(w) == (l.removed(id).contains(w) || r.removed(id).contains(w)) by {}
            if n.distinct() {
                assert forall|w: T| !(#[trigger] l.removed(id).contains(w) && r.removed(id).contains(w)) by {
                    if w != id {
                        assert(!(l.contains(w) && r.contains(w)));
                    }
                }
            }
        }
    }
}

/// The leaf found for a contained identifier is the window leaf of that
/// identifier, and putting it back where it was found gives the tree again.
pub proof fn lemma_found<T>(n: Node<T>, id: T)
    requires
        n.contains(id),
    ensures
        n.found(id).node_type == NodeType::Window(id),
        n.with_found(id, n.found(id)) == n,
    decreases n,
{
    if let NodeType::Separator(_, l, r) = n.node_type {
        if l.contains(id) {
            lemma_found(*l, id);
        } else {
            lemma_found(*r, id);
        }
    }
}

/// Inserting a window at the leaf of a contained identifier `f` keeps a tree
/// that can grow well-formed, keeps its rectangle, grows it by at most one
/// level, and adds exactly the new identifier.
pub proof fn lemma_insert_at_found<T>(n: Node<T>, f: T, o: Orientation, id: T)
    requires
        n.wf(),
        n.can_grow(),
        n.contains(f),
    ensures
        n.with_found(f, n.found(f).inserted(o, id)).wf(),
        n.with_found(f, n.found(f).inserted(o, id)).dim == n.dim,
        n.with_found(f, n.found(f).inserted(o, id)).height() <= n.height() + 1,
        forall|w: T|
            #![trigger n.with_found(f, n.found(f).inserted(o, id)).contains(w)]
            #![trigger n.contains(w)]
            n.with_found(f, n.found(f).inserted(o, id)).contains(w) == (n.contains(w) || w == id),
        n.distinct() && !n.contains(id) ==> n.with_found(f, n.found(f).inserted(o, id)).distinct(),
        n.found(f).wf(),
        n.found(f).can_tile(),
    decreases n,
{
    let m = n.with_found(f, n.found(f).inserted(o, id));
    if let NodeType::Separator(so, l, r) = n.node_type {
        lemma_split_room(n.dim, so, n.height() as int + 1);
        if l.contains(f) {
            lemma_insert_at_found(*l, f, o, id);
            let l2 = l.with_found(f, l.found(f).inserted(o, id));
            assert(m.node_type == NodeType::Separator(so, Box::new(l2), r));
            assert forall|w: T| m.contains(w) == (n.contains(w) || w == id) by {
                assert(m.contains(w) == (l2.contains(w) || r.contains(w)));
                assert(n.contains(w) == (l.contains(w) || r.contains(w)));
            }
            if n.distinct() && !n.contains(id) {
                assert forall|w: T| !(#[trigger] l2.contains(w) && r.contains(w)) by {
                    if w != id {
                        assert(!(l.contains(w) && r.contains(w)));
                    }
                }
            }
        } else {
            lemma_insert_at_found(*r, f, o, id);
            let r2 = r.with_found(f, r.found(f).inserted(o, id));
            assert(m.node_type == NodeType::Separator(so, l, Box::new(r2)));
            assert forall|w: T| m.contains(w) == (n.contains(w) || w == id) by {
                assert(m.contains(w) == (l.contains(w) || r2.contains(w)));
                assert(n.contains(w) == (l.contains(w) || r.contains(w)));
            }
            if n.distinct() && !n.contains(id) {
                assert forall|w: T| !(#[trigger] l.contains(w) && r2.contains(w)) by {
                    if w != id {
                        assert(!(l.contains(w) && r.contains(w)));
                    }
                }
            }
        }
    } else {
        lemma_inserted(n, o, id);
    }
}

/// Recomputes the rectangles of the whole subtree below `root` from the
/// rectangle of `root` itself.
fn resize_children<T>(root: &mut Node<T>)
    requires
        old(root).dim.room(old(root).height() as int),
    ensures
        *final(root) == old(root).laid_out(old(root).dim),
    decreases old(root).height(),
{
    match &mut root.node_type {
        NodeType::Separator(o, left_child, right_child) => {
            proof {
                lemma_split_room(old(root).dim, *o, old(root).height() as int);
            }
            let (left, right) = match o {
                Orientation::Horizontal => tile_horizontal(&root.dim),
                Orientation::Vertical => tile_vertical(&root.dim),
            };
            let ghost l0 = **left_child;
            let ghost r0 = **right_child;
            left_child.dim = left;
            right_child.dim = right;
            assert(left_child.height() == l0.height());
            assert(right_child.height() == r0.height());
            assert(left_child.laid_out(left) == l0.laid_out(left));
            assert(right_child.laid_out(right) == r0.laid_out(right));
            resize_children(&mut **left_child);
            resize_children(&mut **right_child);
        },
        _ => {},
    }
}


/// Inserts window `new_window` at `root`, the anchor: an empty anchor becomes
/// the window; any other anchor becomes a separator along `orientation`
/// whose first child keeps the anchor's old content, laid out over the first
/// half of its rectangle, and whose second child is the new window over the
/// second half.
pub fn tile<T>(root: &mut Node<T>, orientation: Orientation, new_window: T)
    requires
        old(root).wf(),
        old(root).can_tile(),
    ensures
        *final(root) == old(root).inserted(orientation, new_window),
        final(root).wf(),
{
    proof {
        lemma_inserted(*old(root), orientation, new_window);
    }
    if let NodeType::Empty = root.node_type {
        root.node_type = NodeType::Window(new_window);
        return;
    }
    proof {
        lemma_split_room(old(root).dim, orientation, old(root).height() + 1int);
    }
    let (left_dim, right_dim) = match orientation {
        Orientation::Horizontal => tile_horizontal(&root.dim),
        Orientation::Vertical => tile_vertical(&root.dim),
    };
    let mut old_content = NodeType::Empty;
    std::mem::swap(&mut old_content, &mut root.node_type);
    let mut moved = Node { node_type: old_content, dim: left_dim };
    proof {
        assert(moved.height() == old(root).height());
        assert(moved.laid_out(left_dim) == old(root).laid_out(left_dim));
    }
    resize_children(&mut moved);
    let new_win = Node { node_type: NodeType::Window(new_window), dim: right_dim };
    root.node_type = NodeType::Separator(orientation, Box::new(moved), Box::new(new_win));
}


/// Removes window `window_val` from the tree at `root`: its parent separator
/// is replaced by the window's sibling, which is laid out again over the
/// separator's rectangle. A tree that is a single leaf is left unchanged.
pub fn untile<T: Copy + PartialEq>(root: &mut Node<T>, window_val: &T)
    requires
        obeys_concrete_eq::<T>(),
        old(root).wf(),
    ensures
        *final(root) == old(root).removed(*window_val),
        final(root).wf(),
    decreases *old(root),
{
    proof {
        reveal(obeys_concrete_eq);
        lemma_removed(*old(root), *window_val);
    }
    match &mut root.node_type {
        NodeType::Window(_) => return,
        NodeType::Empty => return,
        NodeType::Separator(_, left_child, right_child) => {
            proof {
                lemma_split_room(old(root).dim, Orientation::Horizontal, old(root).height() as int);
            }
            if let NodeType::Window(child) = &left_child.node_type {
                if *child == *window_val {
                    let ghost kept = **right_child;
                    let mut promoted = NodeType::Empty;
                    std::mem::swap(&mut promoted, &mut right_child.node_type);
                    root.node_type = promoted;
                    assert(root.height() == kept.height());
                    assert(root.laid_out(root.dim) == kept.laid_out(root.dim));
                    resize_children(root);
                    return;
                }
            }
            if let NodeType::Window(child) = &right_child.node_type {
                if *child == *window_val {
                    let ghost kept = **left_child;
                    let mut promoted = NodeType::Empty;
                    std::mem::swap(&mut promoted, &mut left_child.node_type);
                    root.node_type = promoted;
                    assert(root.height() == kept.height());
                    assert(root.laid_out(root.dim) == kept.laid_out(root.dim));
                    resize_children(root);
                    return;
                }
            }
            untile(&mut **left_child, window_val);
            untile(&mut **right_child, window_val);
        },
    }
}


/// Finds the first leaf, searching left before right, that holds `window`,
/// and lends it out; changes made through it show in the tree.
pub fn find_node<T: Copy + PartialEq>(root: &mut Node<T>, window: T) -> (r: Option<&mut Node<T>>)
    requires
        obeys_concrete_eq::<T>(),
    ensures
        r is Some <==> old(root).contains(window),
        match r {
            None => *final(root) == *old(root),
            Some(node) => {
                &&& node.node_type == NodeType::Window(window)
                &&& *node == old(root).found(window)
                &&& *final(root) == old(root).with_found(window, *final(node))
            },
        },
    decreases *old(root),
{
    proof {
        reveal(obeys_concrete_eq);
        if old(root).contains(window) {
            lemma_found(*old(root), window);
        }
    }
    if let NodeType::Window(win) = &root.node_type {
        if *win == window {
            return Some(root);
        } else {
            return None;
        }
    }
    if let NodeType::Separator(_, left_win, right_win) = &mut root.node_type {
        match find_node(&mut **left_win, window) {
            Some(node) => {
                return Some(node);
            },
            None => {
                return find_node(&mut **right_win, window);
            },
        }
    }
    None
}

} // verus!

verus! {

/// After a window is inserted, searching for it succeeds and finds the
/// window leaf of that identifier.
pub proof fn lemma_insert_then_find<T>(root: Node<T>, o: Orientation, id: T)
    requires
        root.wf(),
        root.can_tile(),
    ensures
        root.inserted(o, id).contains(id),
        root.inserted(o, id).found(id).node_type == NodeType::Window(id),
{
    lemma_inserted(root, o, id);
    lemma_found(root.inserted(o, id), id);
}

/// In a tree without repeated identifiers, after a window is removed a
/// search for it fails, unless the tree is that window's leaf alone, which
/// removal leaves in place.
pub proof fn lemma_remove_then_find<T>(root: Node<T>, id: T)
    requires
        root.wf(),
        root.distinct(),
        root.node_type != NodeType::Window(id),
    ensures
        !root.removed(id).contains(id),
{
    lemma_removed(root, id);
}

/// Removing the right child of a separator whose left child is a window
/// leaves, in the separator's place, the left child laid out over the
/// separator's rectangle; and symmetrically for the left child.
pub proof fn lemma_promotion<T>(sep: Node<T>, a: T, b: T)
    requires
        sep.node_type is Separator,
        sep.node_type->Separator_1.node_type == NodeType::Window(a),
        sep.node_type->Separator_2.node_type == NodeType::Window(b),
    ensures
        sep.removed(b) == sep.node_type->Separator_1.laid_out(sep.dim),
        sep.removed(a) == sep.node_type->Separator_2.laid_out(sep.dim),
        sep.removed(b) == (Node { node_type: NodeType::Window(a), dim: sep.dim }),
{
}

} // verus!
