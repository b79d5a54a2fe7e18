use crate::tile::{
    find_node, lemma_found, lemma_insert_at_found, lemma_inserted, lemma_removed, tile, untile,
    Dimensions, Node, NodeType, Orientation,
};
use vstd::laws_eq::obeys_concrete_eq;
use vstd::prelude::*;

verus! {

/// A window to show and the rectangle to place it at.
#[derive(Debug, Clone, Copy, PartialEq, Eq)]
pub struct Placement<T> {
    pub window: T,
    pub dim: Dimensions,
}

/// The placements a redraw of the tree makes, in depth-first order, left
/// before right: one for each window leaf.
pub open spec fn placements<T>(n: Node<T>) -> Seq<Placement<T>>
    decreases n,
{
    match n.node_type {
        NodeType::Separator(_, l, r) => placements(*l) + placements(*r),
        NodeType::Window(w) => seq![Placement { window: w, dim: n.dim }],
        NodeType::Empty => Seq::empty(),
    }
}

fn collect_placements<T: Copy>(root: &Node<T>, out: &mut Vec<Placement<T>>)
    ensures
        final(out)@ == old(out)@ + placements(*root),
    decreases root,
{
    match &root.node_type {
        NodeType::Separator(_, left_child, right_child) => {
            collect_placements(left_child, out);
            collect_placements(right_child, out);
            proof {
                vstd::seq_lib::lemma_concat_associative(old(out)@, placements(**left_child), placements(**right_child));
            }
        },
        NodeType::Window(window) => {
            out.push(Placement { window: *window, dim: root.dim });
        },
        NodeType::Empty => {
            assert(old(out)@ + placements(*root) =~= old(out)@);
        },
    }
}

/// The placements that show every window of the tree at its rectangle.
pub fn redraw_nodes<T: Copy>(root: &Node<T>) -> (r: Vec<Placement<T>>)
    ensures
        r@ == placements(*root),
{
    let mut out: Vec<Placement<T>> = Vec::new();
    collect_placements(root, &mut out);
    assert(out@ =~= placements(*root));
    out
}

/// One step of seeding: `id` is inserted at the root, horizontally, unless
/// the tree already holds it or has no room for it.
pub open spec fn seed_step<T>(n: Node<T>, id: T) -> Node<T> {
    if n.contains(id) || !n.can_tile() {
        n
    } else {
        n.inserted(Orientation::Horizontal, id)
    }
}

/// The tree seeded over `dim` with the windows `ids`, in order.
pub open spec fn seeded<T>(dim: Dimensions, ids: Seq<T>) -> Node<T>
    decreases ids.len(),
{
    if ids.len() == 0 {
        Node { node_type: NodeType::Empty, dim }
    } else {
        seed_step(seeded(dim, ids.drop_last()), ids.last())
    }
}

/// Builds the initial tree over `dim`: each window is inserted at the root,
/// horizontally, in the order given. A window given twice is placed once,
/// and one that would take the layout out of the `i32` range is skipped.
pub fn tile_existing_windows<T: Copy + PartialEq>(windows: Vec<T>, dim: Dimensions) -> (root: Node<T>)
    requires
        obeys_concrete_eq::<T>(),
        dim.room(0),
    ensures
        root == seeded(dim, windows@),
        root.wf(),
        root.distinct(),
{
    let mut root: Node<T> = Node { node_type: NodeType::Empty, dim };
    let mut i: usize = 0;
    assert(windows@.subrange(0, 0) =~= Seq::<T>::empty());
    while i < windows.len()
        invariant
            obeys_concrete_eq::<T>(),
            i <= windows.len(),
            root == seeded(dim, windows@.subrange(0, i as int)),
            root.wf(),
            root.distinct(),
        decreases windows.len() - i,
    {
        let window = windows[i];
        let ghost before = root;
        let mut present = false;
        match find_node(&mut root, window) {
            Some(_) => {
                present = true;
            },
            None => {},
        }
        proof {
            if before.contains(window) {
                lemma_found(before, window);
            }
            if before.can_tile() {
                lemma_inserted(before, Orientation::Horizontal, window);
            }
            assert(windows@.subrange(0, i + 1).drop_last() =~= windows@.subrange(0, i as int));
        }
        if !present && room_to_tile(&root) {
            tile(&mut root, Orientation::Horizontal, window);
        }
        i += 1;
    }
    assert(windows@.subrange(0, windows.len() as int) =~= windows@);
    root
}

/// Whether a window can be inserted at `root` without leaving the `i32`
/// range: a check of `root.can_tile()`.
fn room_to_tile<T>(root: &Node<T>) -> (r: bool)
    ensures
        r == root.can_tile(),
{
    if let NodeType::Empty = root.node_type {
        return true;
    }
    let d = root.dim;
    if d.x.1 < 0 || d.y.1 < 0 {
        return false;
    }
    let far_x = d.x.0 as i64 + d.x.1 as i64;
    let far_y = d.y.0 as i64 + d.y.1 as i64;
    let far = if far_x >= far_y { far_x } else { far_y };
    let limit = i32::MAX as i64 - 2 - far;
    if limit < 0 {
        return false;
    }
    height_at_most(root, limit as u64)
}

/// Whether the tree has at most `k` levels of separators.
fn height_at_most<T>(n: &Node<T>, k: u64) -> (r: bool)
    ensures
        r == (n.height() <= k),
    decreases n,
{
    match &n.node_type {
        NodeType::Separator(_, left_child, right_child) => {
            k > 0 && height_at_most(left_child, k - 1) && height_at_most(right_child, k - 1)
        },
        _ => true,
    }
}

/// The event-driven owner of the layout tree: where new windows go is
/// decided by the focused window and the current orientation.
#[derive(Debug)]
pub struct Orchestrator<T> {
    /// The layout tree.
    pub root: Node<T>,
    /// The window that new windows are inserted next to, when it is in the
    /// tree.
    pub focus: Option<T>,
    /// The orientation of the next insertion.
    pub orientation: Orientation,
}

/// One input to the orchestrator.
#[derive(Debug, Clone, Copy, PartialEq, Eq)]
pub enum WindowEvent<T> {
    Created(T),
    Destroyed(T),
    FocusChanged(T),
    OrientationChanged,
}

/// The other orientation.
pub open spec fn flipped(o: Orientation) -> Orientation {
    match o {
        Orientation::Horizontal => Orientation::Vertical,
        Orientation::Vertical => Orientation::Horizontal,
    }
}

impl<T> Orchestrator<T> {
    /// The orchestrator's invariant: a well-formed tree in which no
    /// identifier appears twice.
    pub open spec fn wf(self) -> bool {
        self.root.wf() && self.root.distinct()
    }

    /// The anchor of the next insertion is the focused window's leaf.
    pub open spec fn anchored_at_focus(self) -> bool {
        self.focus is Some && self.root.contains(self.focus->0)
    }

    /// The tree after inserting `id` at the anchor: the focused window's
    /// leaf when the tree holds it, else the root.
    pub open spec fn tiled_at_anchor(self, id: T) -> Node<T> {
        if self.anchored_at_focus() {
            let f = self.focus->0;
            self.root.with_found(f, self.root.found(f).inserted(self.orientation, id))
        } else {
            self.root.inserted(self.orientation, id)
        }
    }

    /// The state after window `id` was created. A window already in the
    /// tree is not inserted again, and neither is one whose insertion would
    /// take the layout out of the `i32` range.
    pub open spec fn after_created(self, id: T) -> Self {
        if self.root.contains(id) || !self.root.can_tile() {
            self
        } else {
            Orchestrator {
                root: self.tiled_at_anchor(id),
                focus: self.focus,
                orientation: self.orientation,
            }
        }
    }

    /// The state after window `id` was destroyed. The focus is left as it
    /// is, even when it named `id`.
    pub open spec fn after_destroyed(self, id: T) -> Self {
        Orchestrator { root: self.root.removed(id), focus: self.focus, orientation: self.orientation }
    }

    /// The state after window `id` gained focus: the focus moves to a window
    /// of the tree and ignores any other.
    pub open spec fn after_focus(self, id: T) -> Self {
        if self.root.contains(id) {
            Orchestrator { root: self.root, focus: Some(id), orientation: self.orientation }
        } else {
            self
        }
    }

    /// The state after the orientation was toggled.
    pub open spec fn after_toggle(self) -> Self {
        Orchestrator { root: self.root, focus: self.focus, orientation: flipped(self.orientation) }
    }

    /// The state after one event.
    pub open spec fn next(self, e: WindowEvent<T>) -> Self {
        match e {
            WindowEvent::Created(id) => self.after_created(id),
            WindowEvent::Destroyed(id) => self.after_destroyed(id),
            WindowEvent::FocusChanged(id) => self.after_focus(id),
            WindowEvent::OrientationChanged => self.after_toggle(),
        }
    }

    /// The state after the events, in order.
    pub open spec fn after_events(self, events: Seq<WindowEvent<T>>) -> Self
        decreases events.len(),
    {
        if events.len() == 0 {
            self
        } else {
            self.next(events[0]).after_events(events.drop_first())
        }
    }
}

/// Every event keeps the orchestrator's invariant.
pub proof fn lemma_next_wf<T>(s: Orchestrator<T>, e: WindowEvent<T>)
    requires
        s.wf(),
    ensures
        s.next(e).wf(),
{
    match e {
        WindowEvent::Created(id) => {
            if !s.root.contains(id) && s.root.can_tile() {
                if s.anchored_at_focus() {
                    lemma_insert_at_found(s.root, s.focus->0, s.orientation, id);
                } else {
                    lemma_inserted(s.root, s.orientation, id);
                }
            }
        },
        WindowEvent::Destroyed(id) => {
            lemma_removed(s.root, id);
        },
        _ => {},
    }
}

/// Any sequence of events keeps the orchestrator's invariant: every tree it
/// reaches is tiled, in range, and free of repeated identifiers.
pub proof fn lemma_events_keep_tiling<T>(s: Orchestrator<T>, events: Seq<WindowEvent<T>>)
    requires
        s.wf(),
    ensures
        s.after_events(events).wf(),
        s.after_events(events).root.tiled(),
    decreases events.len(),
{
    if events.len() > 0 {
        lemma_next_wf(s, events[0]);
        lemma_events_keep_tiling(s.next(events[0]), events.drop_first());
    }
}

impl<T: Copy + PartialEq> Orchestrator<T> {
    /// An orchestrator over `root`, with the given focus and a horizontal
    /// orientation.
    pub fn new(root: Node<T>, focus: Option<T>) -> (r: Self)
        ensures
            r.root == root,
            r.focus == focus,
            r.orientation == Orientation::Horizontal,
    {
        Orchestrator { root, focus, orientation: Orientation::Horizontal }
    }

    /// Places a newly created window next to the focused window, or at the
    /// root when no window of the tree has focus.
    pub fn tile_new_window(&mut self, window: T)
        requires
            obeys_concrete_eq::<T>(),
            old(self).wf(),
        ensures
            *final(self) == old(self).after_created(window),
            final(self).wf(),
    {
        proof {
            lemma_next_wf(*old(self), WindowEvent::Created(window));
        }
        match find_node(&mut self.root, window) {
            Some(_) => {
                proof {
                    lemma_found(old(self).root, window);
                }
                return;
            },
            None => {},
        }
        if !room_to_tile(&self.root) {
            return;
        }
        let orientation = self.orientation;
        match self.focus {
            Some(f) => match find_node(&mut self.root, f) {
                Some(anchor) => {
                    proof {
                        lemma_insert_at_found(old(self).root, f, orientation, window);
                    }
                    tile(anchor, orientation, window);
                },
                None => {
                    tile(&mut self.root, orientation, window);
                },
            },
            None => {
                tile(&mut self.root, orientation, window);
            },
        }
    }

    /// Removes a destroyed window from the tree.
    pub fn untile_window(&mut self, window: T)
        requires
            obeys_concrete_eq::<T>(),
            old(self).wf(),
        ensures
            *final(self) == old(self).after_destroyed(window),
            final(self).wf(),
    {
        proof {
            lemma_next_wf(*old(self), WindowEvent::Destroyed(window));
        }
        untile(&mut self.root, &window);
    }

    /// Moves the focus to `window` when the tree holds it.
    pub fn change_focused_window(&mut self, window: T)
        requires
            obeys_concrete_eq::<T>(),
            old(self).wf(),
        ensures
            *final(self) == old(self).after_focus(window),
            final(self).wf(),
    {
        match find_node(&mut self.root, window) {
            Some(_) => {
                proof {
                    lemma_found(old(self).root, window);
                }
                self.focus = Some(window);
            },
            None => {},
        }
    }

    /// Switches the orientation of the next insertion.
    pub fn toggle_orientation(&mut self)
        requires
            old(self).wf(),
        ensures
            *final(self) == old(self).after_toggle(),
            final(self).wf(),
    {
        self.orientation = match self.orientation {
            Orientation::Horizontal => Orientation::Vertical,
            Orientation::Vertical => Orientation::Horizontal,
        };
    }

    /// Applies one event and tells whether the screen must be redrawn: after
    /// a window was created or destroyed.
    pub fn handle_event(&mut self, event: WindowEvent<T>) -> (redraw: bool)
        requires
            obeys_concrete_eq::<T>(),
            old(self).wf(),
        ensures
            *final(self) == old(self).next(event),
            final(self).wf(),
            redraw == (event is Created || event is Destroyed),
    {
        match event {
            WindowEvent::Created(window) => {
                self.tile_new_window(window);
                true
            },
            WindowEvent::Destroyed(window) => {
                self.untile_window(window);
                true
            },
            WindowEvent::FocusChanged(window) => {
                self.change_focused_window(window);
                false
            },
            WindowEvent::OrientationChanged => {
                self.toggle_orientation();
                false
            },
        }
    }
}

} // verus!
