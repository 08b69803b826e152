use vstd::prelude::*;

use crate::geometry::{compute_inner, compute_outer, inner_rect, outer_rect, Rect, Sizing};
use crate::kind::WidgetKind;
use crate::widget_state::WidgetState;

verus! {

broadcast use vstd::seq_lib::group_filter_ensures;

/// One node of the widget tree. Nodes live in the tree's arena and refer to
/// each other by index; a node that was removed stays in the arena, dead,
/// and its index is never handed out again.
#[derive(Debug)]
pub struct Node {
    pub parent: Option<usize>,
    pub children: Vec<usize>,
    pub state: WidgetState,
    pub kind: WidgetKind,
    pub theme: String,
    pub marked_for_removal: bool,
    pub layout_invalid: bool,
    pub alive: bool,
}

/// The widget tree: an arena of nodes with the root at index 0. A parent
/// owns its children through its ordered child list; a child names its
/// parent by index only, and always comes after it in the arena.
#[derive(Debug)]
pub struct WidgetTree {
    pub nodes: Vec<Node>,
    pub mouse_over: Option<usize>,
}

pub const ROOT: usize = 0;

impl WidgetTree {
    pub open spec fn len(&self) -> int {
        self.nodes@.len() as int
    }

    pub open spec fn node(&self, i: int) -> Node {
        self.nodes@[i]
    }

    pub open spec fn alive(&self, i: int) -> bool {
        0 <= i < self.len() && self.nodes@[i].alive
    }

    pub open spec fn children_of(&self, i: int) -> Seq<usize> {
        self.nodes@[i].children@
    }

    /// An alive non-root node names an alive parent that comes before it and
    /// lists it as a child.
    pub open spec fn parent_link(&self, i: int) -> bool {
        match self.nodes@[i].parent {
            Some(p) => {
                &&& (p as int) < i
                &&& self.alive(p as int)
                &&& self.children_of(p as int).contains(i as usize)
            },
            None => false,
        }
    }

    /// Every listed child is alive and names the lister as its parent.
    pub open spec fn child_link(&self, p: int, j: int) -> bool {
        let c = self.children_of(p)[j];
        &&& (c as int) < self.len()
        &&& self.nodes@[c as int].alive
        &&& self.nodes@[c as int].parent == Some(p as usize)
    }

    pub open spec fn wf(&self) -> bool {
        &&& 1 <= self.len() <= usize::MAX
        &&& self.nodes@[0].alive
        &&& self.nodes@[0].parent is None
        &&& forall|i: int| 0 < i < self.len() && #[trigger] self.nodes@[i].alive ==> self.parent_link(i)
        &&& forall|p: int, j: int|
            0 <= p < self.len() && 0 <= j < self.children_of(p).len() ==> #[trigger] self.child_link(p, j)
        &&& forall|p: int| 0 <= p < self.len() ==> (#[trigger] self.children_of(p)).no_duplicates()
        &&& forall|i: int| 0 <= i < self.len() && !(#[trigger] self.nodes@[i].alive) ==> self.children_of(i).len() == 0
        &&& forall|i: int| 0 <= i < self.len() ==> (#[trigger] self.nodes@[i].state).wf()
        &&& match self.mouse_over {
            Some(m) => {
                &&& 0 < m < self.len()
                &&& self.nodes@[m as int].alive
                &&& self.nodes@[m as int].parent == Some(0usize)
                &&& self.children_of(m as int).len() == 0
                &&& self.nodes@[m as int].kind.is_hover()
            },
            None => true,
        }
        &&& forall|i: int| 0 <= i < self.len() && #[trigger] self.nodes@[i].alive && self.nodes@[i].kind.is_hover()
            ==> self.mouse_over == Some(i as usize)
    }

    /// A new node under `parent`: alive, childless, unmarked and awaiting layout.
    pub open spec fn is_new_node(n: Node, parent: Option<usize>, kind: WidgetKind, theme: Seq<char>, sizing: Sizing) -> bool {
        &&& n.parent == parent
        &&& n.children@.len() == 0
        &&& n.state.fresh(sizing)
        &&& n.kind == kind
        &&& n.theme@ == theme
        &&& !n.marked_for_removal
        &&& n.layout_invalid
        &&& n.alive
    }

    /// A tree holding only its root.
    pub fn new(kind: WidgetKind, theme: &str, sizing: Sizing) -> (t: WidgetTree)
        requires
            !kind.is_hover(),
        ensures
            t.wf(),
            t.len() == 1,
            Self::is_new_node(t.node(0), None, kind, theme@, sizing),
            t.mouse_over is None,
    {
        let root = Node {
            parent: None,
            children: Vec::new(),
            state: WidgetState::new(sizing),
            kind,
            theme: theme.to_owned(),
            marked_for_removal: false,
            layout_invalid: true,
            alive: true,
        };
        let mut nodes: Vec<Node> = Vec::new();
        nodes.push(root);
        WidgetTree { nodes, mouse_over: None }
    }

    /// Creates a widget with the given behaviour and sizing and appends it to
    /// `parent`'s children, which now own it. Returns its index.
    pub fn add_child(&mut self, parent: usize, kind: WidgetKind, theme: &str, sizing: Sizing) -> (id: usize)
        requires
            old(self).wf(),
            old(self).alive(parent as int),
            old(self).len() < usize::MAX,
            !kind.is_hover(),
            !old(self).node(parent as int).kind.is_hover(),
        ensures
            final(self).wf(),
            id as int == old(self).len(),
            final(self).len() == old(self).len() + 1,
            Self::is_new_node(final(self).node(id as int), Some(parent), kind, theme@, sizing),
            final(self).children_of(parent as int) == old(self).children_of(parent as int).push(id),
            final(self).node(parent as int).state == old(self).node(parent as int).state,
            final(self).node(parent as int).kind == old(self).node(parent as int).kind,
            final(self).node(parent as int).parent == old(self).node(parent as int).parent,
            final(self).node(parent as int).alive == old(self).node(parent as int).alive,
            final(self).node(parent as int).marked_for_removal == old(self).node(parent as int).marked_for_removal,
            final(self).node(parent as int).layout_invalid == old(self).node(parent as int).layout_invalid,
            final(self).node(parent as int).theme == old(self).node(parent as int).theme,
            forall|i: int| 0 <= i < old(self).len() && i != parent ==> #[trigger] final(self).node(i) == old(self).node(i),
            final(self).mouse_over == old(self).mouse_over,
    {
        let ghost t0 = *self;
        let id = self.nodes.len();
        let node = Node {
            parent: Some(parent),
            children: Vec::new(),
            state: WidgetState::new(sizing),
            kind,
            theme: theme.to_owned(),
            marked_for_removal: false,
            layout_invalid: true,
            alive: true,
        };
        self.nodes.push(node);
        self.nodes[parent].children.push(id);
        let ghost t1 = *self;
        assert forall|i: int| 0 < i < t1.len() && #[trigger] t1.nodes@[i].alive implies t1.parent_link(i) by {
            if i < t0.len() {
                assert(t0.parent_link(i));
                let p = t0.nodes@[i].parent->0 as int;
                if p == parent {
                    assert(t0.children_of(p).contains(i as usize));
                    let k = choose|k: int| 0 <= k < t0.children_of(p).len() && t0.children_of(p)[k] == i as usize;
                    assert(t1.children_of(p)[k] == i as usize);
                }
            } else {
                assert(t1.children_of(parent as int).last() == id);
            }
        }
        assert forall|p: int, j: int| 0 <= p < t1.len() && 0 <= j < t1.children_of(p).len() implies #[trigger] t1.child_link(p, j) by {
            if p < t0.len() && j < t0.children_of(p).len() {
                assert(t0.child_link(p, j));
            }
        }
        assert forall|i: int| 0 <= i < t1.len() && #[trigger] t1.nodes@[i].alive && t1.nodes@[i].kind.is_hover()
            implies t1.mouse_over == Some(i as usize) by {
            if i < t0.len() {
                assert(t0.nodes@[i].alive);
            }
        }
        proof {
            if let Some(m) = t0.mouse_over {
                assert(t0.nodes@[m as int].alive);
            }
        }
        assert forall|p: int| 0 <= p < t1.len() implies (#[trigger] t1.children_of(p)).no_duplicates() by {
            if p == parent {
                assert(t0.children_of(p).no_duplicates());
                assert forall|j: int| 0 <= j < t0.children_of(p).len() implies t0.children_of(p)[j] != id by {
                    assert(t0.child_link(p, j));
                }
            } else if p < t0.len() {
                assert(t0.children_of(p).no_duplicates());
            }
        }
        assert forall|i: int| 0 <= i < t1.len() && !(#[trigger] t1.nodes@[i].alive) implies t1.children_of(i).len() == 0 by {
            if i < t0.len() {
                assert(!t0.nodes@[i].alive);
            }
        }
        assert forall|i: int| 0 <= i < t1.len() implies (#[trigger] t1.nodes@[i].state).wf() by {
            if i < t0.len() {
                assert(t0.nodes@[i].state.wf());
            }
        }
        id
    }

    /// True when `a` is `i` or one of its ancestors.
    pub open spec fn is_ancestor_or_self(&self, a: int, i: int) -> bool
        decreases i,
    {
        if i == a {
            true
        } else if i <= 0 || i >= self.len() {
            false
        } else {
            match self.nodes@[i].parent {
                Some(p) => if (p as int) < i {
                    self.is_ancestor_or_self(a, p as int)
                } else {
                    false
                },
                None => false,
            }
        }
    }

    /// True when the next removal sweep drops node `i`: it is an alive
    /// non-root node that is marked, or whose parent is dropped.
    pub open spec fn doomed(&self, i: int) -> bool
        decreases i,
    {
        if i <= 0 || i >= self.len() || !self.nodes@[i].alive {
            false
        } else if self.nodes@[i].marked_for_removal {
            true
        } else {
            match self.nodes@[i].parent {
                Some(p) => if (p as int) < i {
                    self.doomed(p as int)
                } else {
                    false
                },
                None => false,
            }
        }
    }

    /// The children a node keeps through a removal sweep.
    pub open spec fn survives(&self) -> spec_fn(usize) -> bool {
        |c: usize| !self.doomed(c as int)
    }

    /// `new` is what one removal sweep makes of `self`.
    pub open spec fn swept(&self, new: &WidgetTree) -> bool {
        &&& new.len() == self.len()
        &&& forall|i: int| 0 <= i < self.len() ==> #[trigger] new.nodes@[i].alive == (self.nodes@[i].alive && !self.doomed(i))
        &&& forall|i: int| 0 <= i < self.len() && #[trigger] new.nodes@[i].alive ==> {
            &&& new.nodes@[i].children@ == self.children_of(i).filter(self.survives())
            &&& new.nodes@[i].parent == self.nodes@[i].parent
            &&& new.nodes@[i].state == self.nodes@[i].state
            &&& new.nodes@[i].kind == self.nodes@[i].kind
            &&& new.nodes@[i].theme == self.nodes@[i].theme
            &&& new.nodes@[i].marked_for_removal == self.nodes@[i].marked_for_removal
            &&& new.nodes@[i].layout_invalid == self.nodes@[i].layout_invalid
        }
        &&& new.mouse_over == match self.mouse_over {
            Some(m) => if self.doomed(m as int) {
                None
            } else {
                Some(m)
            },
            None => None,
        }
    }

    /// The parent of `w`; `None` for the root.
    pub fn parent(&self, w: usize) -> (r: Option<usize>)
        requires
            self.wf(),
            self.alive(w as int),
        ensures
            r == self.node(w as int).parent,
            w == 0 <==> r is None,
            match r {
                Some(p) => self.alive(p as int) && p < w,
                None => true,
            },
    {
        proof {
            if w > 0 {
                assert(self.parent_link(w as int));
            }
        }
        self.nodes[w].parent
    }

    /// The root of the tree that holds `w`.
    pub fn get_root(&self, w: usize) -> (r: usize)
        requires
            self.wf(),
            self.alive(w as int),
        ensures
            r == ROOT,
            self.is_ancestor_or_self(r as int, w as int),
        decreases w,
    {
        match self.parent(w) {
            None => w,
            Some(p) => {
                let r = self.get_root(p);
                r
            },
        }
    }

    /// The node `levels` steps above `w`, or the root if the tree is not that deep.
    /// The node `levels` steps above `w`, stopping at the root.
    pub open spec fn up(&self, w: int, levels: nat) -> int
        decreases levels,
    {
        if levels == 0 {
            w
        } else {
            match self.nodes@[w].parent {
                Some(p) => self.up(p as int, (levels - 1) as nat),
                None => w,
            }
        }
    }

    pub fn go_up_tree(&self, w: usize, levels: usize) -> (r: usize)
        requires
            self.wf(),
            self.alive(w as int),
        ensures
            r as int == self.up(w as int, levels as nat),
            self.alive(r as int),
            self.is_ancestor_or_self(r as int, w as int),
        decreases levels,
    {
        if levels == 0 {
            return w;
        }
        match self.parent(w) {
            None => w,
            Some(p) => {
                let r = self.go_up_tree(p, levels - 1);
                proof { self.lemma_ancestor_trans(r as int, p, w as int); }
                r
            },
        }
    }

    proof fn lemma_ancestor_trans(&self, a: int, b: usize, i: int)
        requires
            self.wf(),
            self.alive(i),
            self.nodes@[i].parent == Some(b),
            self.is_ancestor_or_self(a, b as int),
        ensures
            self.is_ancestor_or_self(a, i),
    {
        if i > 0 {
            assert(self.parent_link(i));
        }
    }

    /// Sets the removal flag of `w`. The tree is not changed until the next
    /// removal sweep.
    pub fn mark_for_removal(&mut self, w: usize)
        requires
            old(self).wf(),
            old(self).alive(w as int),
        ensures
            final(self).wf(),
            final(self).nodes@ == old(self).nodes@.update(w as int, Node { marked_for_removal: true, ..old(self).node(w as int) }),
            final(self).mouse_over == old(self).mouse_over,
    {
        let ghost t0 = *self;
        self.nodes[w].marked_for_removal = true;
        proof { self.lemma_same_shape(&t0); }
    }

    /// Sets the text argument `key` of widget `w`.
    pub fn add_text_arg(&mut self, w: usize, key: &str, value: &str)
        requires
            old(self).wf(),
            old(self).alive(w as int),
        ensures
            final(self).wf(),
            final(self).len() == old(self).len(),
            final(self).mouse_over == old(self).mouse_over,
            forall|i: int| 0 <= i < old(self).len() && i != w ==> #[trigger] final(self).node(i) == old(self).node(i),
            final(self).node(w as int) == (Node { state: final(self).node(w as int).state, ..old(self).node(w as int) }),
            final(self).node(w as int).state.same_but_args(&old(self).node(w as int).state),
            final(self).node(w as int).state.text_args@.len() == old(self).node(w as int).state.text_args@.len()
                + if crate::widget_state::has_key(old(self).node(w as int).state.text_args@, key@) { 0int } else { 1int },
            forall|i: int| 0 <= i < old(self).node(w as int).state.text_args@.len()
                ==> (#[trigger] final(self).node(w as int).state.text_args@[i]).key@ == old(self).node(w as int).state.text_args@[i].key@,
            forall|k: Seq<char>| #[trigger] final(self).node(w as int).state.arg(k) == if k == key@ {
                Some(value@)
            } else {
                old(self).node(w as int).state.arg(k)
            },
    {
        let ghost t0 = *self;
        self.nodes[w].state.add_text_arg(key, value);
        proof { self.lemma_same_shape(&t0); }
    }

    /// Removes every text argument of widget `w`.
    pub fn clear_text_args(&mut self, w: usize)
        requires
            old(self).wf(),
            old(self).alive(w as int),
        ensures
            final(self).wf(),
            final(self).len() == old(self).len(),
            final(self).mouse_over == old(self).mouse_over,
            forall|i: int| 0 <= i < old(self).len() && i != w ==> #[trigger] final(self).node(i) == old(self).node(i),
            final(self).node(w as int) == (Node { state: final(self).node(w as int).state, ..old(self).node(w as int) }),
            final(self).node(w as int).state.same_but_args(&old(self).node(w as int).state),
            final(self).node(w as int).state.text_args@.len() == 0,
    {
        let ghost t0 = *self;
        self.nodes[w].state.clear_text_args();
        proof { self.lemma_same_shape(&t0); }
    }

    /// Sets the enabled, active or modal flag of widget `w`.
    pub fn set_flags(&mut self, w: usize, enabled: bool, active: bool, modal: bool)
        requires
            old(self).wf(),
            old(self).alive(w as int),
        ensures
            final(self).wf(),
            final(self).nodes@ == old(self).nodes@.update(w as int, Node {
                state: WidgetState { enabled, active, modal, ..old(self).node(w as int).state },
                ..old(self).node(w as int)
            }),
            final(self).mouse_over == old(self).mouse_over,
    {
        let ghost t0 = *self;
        self.nodes[w].state.enabled = enabled;
        self.nodes[w].state.active = active;
        self.nodes[w].state.modal = modal;
        proof { self.lemma_same_shape(&t0); }
    }

    /// Adds a callback to widget `w`.
    pub fn add_callback(&mut self, w: usize, cb: crate::callback::Callback)
        requires
            old(self).wf(),
            old(self).alive(w as int),
        ensures
            final(self).wf(),
            final(self).len() == old(self).len(),
            final(self).mouse_over == old(self).mouse_over,
            forall|i: int| 0 <= i < old(self).len() && i != w ==> #[trigger] final(self).node(i) == old(self).node(i),
            final(self).node(w as int) == (Node { state: final(self).node(w as int).state, ..old(self).node(w as int) }),
            final(self).node(w as int).state.callbacks@ == old(self).node(w as int).state.callbacks@.push(cb),
            final(self).node(w as int).state.text_args@ == old(self).node(w as int).state.text_args@,
            final(self).node(w as int).state.enabled == old(self).node(w as int).state.enabled,
            final(self).node(w as int).state.active == old(self).node(w as int).state.active,
            final(self).node(w as int).state.modal == old(self).node(w as int).state.modal,
    {
        let ghost t0 = *self;
        self.nodes[w].state.add_callback(cb);
        proof { self.lemma_same_shape(&t0); }
    }

    /// Sets the text of label widget `w`, reaching the label through the
    /// node's behaviour. Calling it on a widget that is not a label is a
    /// programming error that the precondition rules out.
    pub fn set_label_text(&mut self, w: usize, text: &str)
        requires
            old(self).wf(),
            old(self).alive(w as int),
            old(self).node(w as int).kind is Label,
        ensures
            final(self).wf(),
            final(self).len() == old(self).len(),
            final(self).mouse_over == old(self).mouse_over,
            forall|i: int| 0 <= i < old(self).len() && i != w ==> #[trigger] final(self).node(i) == old(self).node(i),
            final(self).node(w as int) == (Node { kind: final(self).node(w as int).kind, ..old(self).node(w as int) }),
            match final(self).node(w as int).kind {
                WidgetKind::Label(l) => l.text_view() == Some(text@),
                _ => false,
            },
    {
        let ghost t0 = *self;
        match &mut self.nodes[w].kind {
            WidgetKind::Label(l) => l.set_text(text),
            _ => {},
        }
        proof { self.lemma_same_shape(&t0); }
    }

    /// Schedules `w` for layout on the next sweep.
    pub fn invalidate_layout(&mut self, w: usize)
        requires
            old(self).wf(),
            old(self).alive(w as int),
        ensures
            final(self).wf(),
            final(self).nodes@ == old(self).nodes@.update(w as int, Node { layout_invalid: true, ..old(self).node(w as int) }),
            final(self).mouse_over == old(self).mouse_over,
    {
        let ghost t0 = *self;
        self.nodes[w].layout_invalid = true;
        proof { self.lemma_same_shape(&t0); }
    }

    /// Two trees whose nodes agree in links, liveness and state are alike
    /// well formed.
    proof fn lemma_same_shape(&self, t0: &WidgetTree)
        requires
            t0.wf(),
            self.len() == t0.len(),
            self.mouse_over == t0.mouse_over,
            forall|i: int| 0 <= i < self.len() ==> {
                &&& (#[trigger] self.nodes@[i]).parent == t0.nodes@[i].parent
                &&& self.nodes@[i].children == t0.nodes@[i].children
                &&& self.nodes@[i].alive == t0.nodes@[i].alive
                &&& (self.nodes@[i].state.text_args@ == t0.nodes@[i].state.text_args@ || self.nodes@[i].state.wf())
                &&& self.nodes@[i].kind.is_hover() == t0.nodes@[i].kind.is_hover()
            },
        ensures
            self.wf(),
    {
        assert forall|i: int| 0 < i < self.len() && #[trigger] self.nodes@[i].alive implies self.parent_link(i) by {
            assert(t0.parent_link(i));
            assert(self.nodes@[t0.nodes@[i].parent->0 as int].alive);
        }
        assert forall|p: int, j: int| 0 <= p < self.len() && 0 <= j < self.children_of(p).len() implies #[trigger] self.child_link(p, j) by {
            assert(t0.child_link(p, j));
            assert(self.nodes@[t0.children_of(p)[j] as int].alive);
        }
        assert forall|p: int| 0 <= p < self.len() implies (#[trigger] self.children_of(p)).no_duplicates() by {
            assert(t0.children_of(p).no_duplicates());
        }
        assert forall|i: int| 0 <= i < self.len() && !(#[trigger] self.nodes@[i].alive) implies self.children_of(i).len() == 0 by {
            assert(!t0.nodes@[i].alive);
        }
        assert forall|i: int| 0 <= i < self.len() implies (#[trigger] self.nodes@[i].state).wf() by {
            assert(t0.nodes@[i].state.wf());
            assert(self.nodes@[i].state.text_args@ == t0.nodes@[i].state.text_args@ || self.nodes@[i].state.wf());
        }
        assert forall|i: int| 0 <= i < self.len() && #[trigger] self.nodes@[i].alive && self.nodes@[i].kind.is_hover()
            implies self.mouse_over == Some(i as usize) by {
            assert(t0.nodes@[i].alive);
        }
        if let Some(m) = t0.mouse_over {
            assert(self.nodes@[m as int].alive);
        }
    }

    /// Drops every alive node that is marked for removal, together with its
    /// whole subtree, in one pass. The root is never dropped.
    pub fn remove_marked(&mut self)
        requires
            old(self).wf(),
        ensures
            final(self).wf(),
            old(self).swept(final(self)),
    {
        let ghost t0 = *self;
        let n = self.nodes.len();
        let mut doomed: Vec<bool> = Vec::new();
        let mut i: usize = 0;
        while i < n
            invariant
                *self == t0,
                n == t0.len(),
                i <= n,
                doomed@.len() == i,
                forall|j: int| 0 <= j < i ==> #[trigger] doomed@[j] == t0.doomed(j),
            decreases n - i,
        {
            let d = if i == 0 || !self.nodes[i].alive {
                false
            } else if self.nodes[i].marked_for_removal {
                true
            } else {
                match self.nodes[i].parent {
                    Some(p) => if p < i {
                        doomed[p]
                    } else {
                        false
                    },
                    None => false,
                }
            };
            doomed.push(d);
            i = i + 1;
        }
        let ghost pred = t0.survives();
        let mut i: usize = 0;
        while i < n
            invariant
                n == t0.len(),
                self.len() == n,
                i <= n,
                doomed@.len() == n,
                forall|j: int| 0 <= j < n ==> #[trigger] doomed@[j] == t0.doomed(j),
                t0.wf(),
                pred == t0.survives(),
                self.mouse_over == t0.mouse_over,
                forall|j: int| i <= j < n ==> #[trigger] self.nodes@[j] == t0.nodes@[j],
                forall|j: int| 0 <= j < i ==> Self::swept_node(#[trigger] self.nodes@[j], t0.nodes@[j], t0.doomed(j), pred),
            decreases n - i,
        {
            if doomed[i] {
                self.nodes[i].alive = false;
                self.nodes[i].children = Vec::new();
            } else if self.nodes[i].alive {
                proof {
                    assert forall|k: int| 0 <= k < t0.children_of(i as int).len() implies #[trigger] t0.children_of(i as int)[k] < n by {
                        assert(t0.child_link(i as int, k));
                    }
                }
                proof {
                    assert forall|c: int| 0 <= c < doomed@.len() implies #[trigger] doomed@[c] == !pred(c as usize) by {
                        assert(pred(c as usize) == !t0.doomed(c));
                    }
                }
                let kept = kept_children(&self.nodes[i].children, &doomed, Ghost(pred));
                self.nodes[i].children = kept;
            }
            i = i + 1;
        }
        if let Some(m) = self.mouse_over {
            if doomed[m] {
                self.mouse_over = None;
            }
        }
        proof { self.lemma_sweep_wf(&t0); }
    }

    /// True when the next layout sweep recomputes node `i`: it is alive and
    /// flagged, or its parent is recomputed.
    pub open spec fn needs_layout(&self, i: int) -> bool
        decreases i,
    {
        if i < 0 || i >= self.len() || !self.nodes@[i].alive {
            false
        } else if self.nodes@[i].layout_invalid {
            true
        } else if i == 0 {
            false
        } else {
            match self.nodes@[i].parent {
                Some(p) => if (p as int) < i {
                    self.needs_layout(p as int)
                } else {
                    false
                },
                None => false,
            }
        }
    }

    /// The rectangle node `i` is placed in: its parent's inner rectangle, or
    /// the origin for the root.
    pub open spec fn container_of(&self, i: int) -> Rect {
        match self.nodes@[i].parent {
            Some(p) => self.nodes@[p as int].state.inner,
            None => Rect { x: 0, y: 0, width: 0, height: 0 },
        }
    }

    /// `n` is node `o` after layout inside `container`.
    pub open spec fn placed(n: Node, o: Node, container: Rect) -> bool {
        let outer = outer_rect(o.state.sizing, container);
        &&& n == Node { state: WidgetState { rect: outer, inner: inner_rect(outer, o.state.sizing.border), ..o.state }, layout_invalid: false, ..o }
    }

    /// `new` is what one layout sweep makes of `self`: every node that needs
    /// layout gets the geometry its sizing gives inside its (new) container,
    /// and nothing else changes.
    pub open spec fn laid_out(&self, new: &WidgetTree) -> bool {
        &&& new.len() == self.len()
        &&& new.mouse_over == self.mouse_over
        &&& forall|i: int| 0 <= i < self.len() ==> if self.needs_layout(i) {
            Self::placed(#[trigger] new.nodes@[i], self.nodes@[i], new.container_of(i))
        } else {
            new.nodes@[i] == self.nodes@[i]
        }
    }

    /// Sets the layout flag on `w` and on every node below it.
    pub fn invalidate_children(&mut self, w: usize)
        requires
            old(self).wf(),
            old(self).alive(w as int),
        ensures
            final(self).wf(),
            final(self).len() == old(self).len(),
            final(self).mouse_over == old(self).mouse_over,
            forall|i: int| 0 <= i < old(self).len() ==> #[trigger] final(self).nodes@[i] == if old(self).alive(i) && old(self).is_ancestor_or_self(w as int, i) {
                Node { layout_invalid: true, ..old(self).nodes@[i] }
            } else {
                old(self).nodes@[i]
            },
    {
        let ghost t0 = *self;
        let n = self.nodes.len();
        let mut under: Vec<bool> = Vec::new();
        let mut i: usize = 0;
        while i < n
            invariant
                n == t0.len(),
                i <= n,
                under@.len() == i,
                forall|j: int| 0 <= j < i ==> #[trigger] under@[j] == t0.is_ancestor_or_self(w as int, j),
                forall|j: int| 0 <= j < n ==> #[trigger] self.nodes@[j] == if j < i && t0.alive(j) && t0.is_ancestor_or_self(w as int, j) {
                    Node { layout_invalid: true, ..t0.nodes@[j] }
                } else {
                    t0.nodes@[j]
                },
                self.len() == n,
                self.mouse_over == t0.mouse_over,
            decreases n - i,
        {
            let u = if i == w {
                true
            } else if i == 0 {
                false
            } else {
                match self.nodes[i].parent {
                    Some(p) => if p < i {
                        under[p]
                    } else {
                        false
                    },
                    None => false,
                }
            };
            under.push(u);
            if u && self.nodes[i].alive {
                self.nodes[i].layout_invalid = true;
            }
            i = i + 1;
        }
        proof { self.lemma_same_shape(&t0); }
    }

    /// Recomputes the geometry of every node that needs layout, parents
    /// before children, and clears their flags.
    #[verifier::rlimit(40)]
    pub fn layout(&mut self)
        requires
            old(self).wf(),
        ensures
            final(self).wf(),
            old(self).laid_out(final(self)),
    {
        let ghost t0 = *self;
        let n = self.nodes.len();
        let mut redo: Vec<bool> = Vec::new();
        let mut i: usize = 0;
        while i < n
            invariant
                n == t0.len(),
                t0.wf(),
                i <= n,
                redo@.len() == i,
                forall|j: int| 0 <= j < i ==> #[trigger] redo@[j] == t0.needs_layout(j),
                forall|j: int| 0 <= j < n ==> if j < i && t0.needs_layout(j) {
                    Self::placed(#[trigger] self.nodes@[j], t0.nodes@[j], self.container_of(j))
                } else {
                    self.nodes@[j] == t0.nodes@[j]
                },
                self.len() == n,
                self.mouse_over == t0.mouse_over,
            decreases n - i,
        {
            let alive = self.nodes[i].alive;
            let r = if !alive {
                false
            } else if self.nodes[i].layout_invalid {
                true
            } else if i == 0 {
                false
            } else {
                match self.nodes[i].parent {
                    Some(p) => if p < i {
                        redo[p]
                    } else {
                        false
                    },
                    None => false,
                }
            };
            redo.push(r);
            if r {
                let container = match self.nodes[i].parent {
                    Some(p) => {
                        proof {
                            if i > 0 {
                                assert(t0.parent_link(i as int));
                            }
                        }
                        self.nodes[p].state.inner
                    },
                    None => Rect::empty(),
                };
                let outer = compute_outer(&self.nodes[i].state.sizing, &container);
                let inner = compute_inner(&outer, &self.nodes[i].state.sizing.border);
                let ghost before = *self;
                self.nodes[i].state.rect = outer;
                self.nodes[i].state.inner = inner;
                self.nodes[i].layout_invalid = false;
                proof {
                    assert forall|j: int| 0 <= j < n && j != i && j < i + 1 && t0.needs_layout(j) implies
                        self.container_of(j) == before.container_of(j) by {
                        if j > 0 && t0.alive(j) {
                            assert(t0.parent_link(j));
                        } else if j == 0 {
                        }
                    }
                }
            }
            i = i + 1;
        }
        proof {
            self.lemma_same_shape(&t0);
        }
    }

    /// Replaces the hover widget: the current one, if any, is detached from
    /// the root and dropped at once, and a new one with the given behaviour
    /// is attached to the root in its place. Returns the new widget's index.
    /// Dropping at once is safe here: a hover widget is a childless leaf,
    /// and nodes are reached by index, so no traversal holds it.
    pub fn set_mouse_over(&mut self, kind: WidgetKind, sizing: Sizing) -> (id: usize)
        requires
            old(self).wf(),
            kind.is_hover(),
            old(self).len() < usize::MAX,
        ensures
            final(self).wf(),
            id as int == old(self).len(),
            final(self).len() == old(self).len() + 1,
            final(self).mouse_over == Some(id),
            Self::is_new_node(final(self).node(id as int), Some(0usize), kind, "mouse_over"@, sizing),
            old(self).replaced_hover(final(self), kind, id),
            final(self).children_of(0) == match old(self).mouse_over {
                Some(m) => old(self).children_of(0).filter(not_eq(m)),
                None => old(self).children_of(0),
            }.push(id),
            match old(self).mouse_over {
                Some(m) => !final(self).alive(m as int),
                None => true,
            },
            forall|i: int| 0 < i < old(self).len() && old(self).mouse_over != Some(i as usize)
                ==> #[trigger] final(self).node(i) == old(self).node(i),
            final(self).node(0) == (Node { children: final(self).node(0).children, ..old(self).node(0) }),
    {
        let ghost t0 = *self;
        if let Some(m) = self.mouse_over {
            let kept = without(&self.nodes[0].children, m);
            self.nodes[0].children = kept;
            self.nodes[m].alive = false;
            self.mouse_over = None;
            let ghost t1 = *self;
            proof {
                let pred = not_eq(m);
                assert forall|i: int| 0 < i < t1.len() && #[trigger] t1.nodes@[i].alive implies t1.parent_link(i) by {
                    assert(t0.parent_link(i));
                    let p = t0.nodes@[i].parent->0 as int;
                    if p == 0 {
                        let k = choose|k: int| 0 <= k < t0.children_of(0).len() && t0.children_of(0)[k] == i as usize;
                        t0.children_of(0).lemma_filter_contains(pred, k);
                    }
                }
                assert forall|p: int, j: int| 0 <= p < t1.len() && 0 <= j < t1.children_of(p).len() implies #[trigger] t1.child_link(p, j) by {
                    if p == 0 {
                        let c = t1.children_of(0)[j];
                        assert(t1.children_of(0).contains(c));
                        t0.children_of(0).lemma_filter_contains_rev(pred, c);
                        let k = choose|k: int| 0 <= k < t0.children_of(0).len() && t0.children_of(0)[k] == c;
                        assert(t0.child_link(0, k));
                        assert(pred(c));
                    } else {
                        assert(t0.child_link(p, j));
                        assert(p != m);
                    }
                }
                assert forall|p: int| 0 <= p < t1.len() implies (#[trigger] t1.children_of(p)).no_duplicates() by {
                    assert(t0.children_of(p).no_duplicates());
                    if p == 0 {
                        lemma_filter_no_dup(t0.children_of(0), pred);
                    }
                }
                assert forall|i: int| 0 <= i < t1.len() && !(#[trigger] t1.nodes@[i].alive) implies t1.children_of(i).len() == 0 by {
                    if i != m {
                        assert(!t0.nodes@[i].alive);
                    }
                }
                assert forall|i: int| 0 <= i < t1.len() implies (#[trigger] t1.nodes@[i].state).wf() by {
                    assert(t0.nodes@[i].state.wf());
                }
                assert forall|i: int| 0 <= i < t1.len() && #[trigger] t1.nodes@[i].alive && t1.nodes@[i].kind.is_hover()
                    implies t1.mouse_over == Some(i as usize) by {
                    assert(t0.nodes@[i].alive);
                }
            }
        }
        let ghost mid = *self;
        assert(forall|i: int| 0 < i < t0.len() && t0.mouse_over != Some(i as usize) ==> #[trigger] mid.nodes@[i] == t0.nodes@[i]);
        assert(mid.nodes@[0] == (Node { children: mid.nodes@[0].children, ..t0.nodes@[0] }));
        assert(match t0.mouse_over { Some(m) => !mid.alive(m as int), None => true });
        let id = self.attach_hover(kind, sizing);
        let ghost t_att = *self;
        self.mouse_over = Some(id);
        proof {
            let t2 = *self;
            assert(t2.nodes@ == t_att.nodes@);
            assert forall|i: int| 0 < i < mid.len() implies #[trigger] t2.node(i) == mid.node(i) by {
                assert(t_att.node(i) == mid.node(i));
            }
            if let Some(m) = t0.mouse_over {
                assert(t_att.node(m as int) == mid.node(m as int));
            }
            assert forall|i: int| 0 <= i < t2.len() && #[trigger] t2.nodes@[i].alive && t2.nodes@[i].kind.is_hover()
                implies t2.mouse_over == Some(i as usize) by {
            }
        }
        id
    }

    /// `new` is `self` with its hover widget, if any, dropped and a new one
    /// with behaviour `kind` attached to the root at index `id`.
    pub open spec fn replaced_hover(&self, new: &WidgetTree, kind: WidgetKind, id: usize) -> bool {
        &&& new.mouse_over == Some(id)
        &&& new.alive(id as int)
        &&& new.node(id as int).kind == kind
        &&& new.node(id as int).parent == Some(0usize)
        &&& match self.mouse_over {
            Some(m) => !new.alive(m as int),
            None => true,
        }
    }

    /// Attaches a new hover widget to the root; the caller records it.
    fn attach_hover(&mut self, kind: WidgetKind, sizing: Sizing) -> (id: usize)
        requires
            old(self).wf(),
            old(self).len() < usize::MAX,
            old(self).mouse_over is None,
            kind.is_hover(),
        ensures
            final(self).wf_except_hover(id),
            id as int == old(self).len(),
            final(self).len() == old(self).len() + 1,
            Self::is_new_node(final(self).node(id as int), Some(0usize), kind, "mouse_over"@, sizing),
            final(self).children_of(0) == old(self).children_of(0).push(id),
            final(self).node(0) == (Node { children: final(self).node(0).children, ..old(self).node(0) }),
            forall|i: int| 0 < i < old(self).len() ==> #[trigger] final(self).node(i) == old(self).node(i),
            final(self).mouse_over is None,
    {
        let ghost t0 = *self;
        let parent: usize = 0;
        let theme = "mouse_over";
        let id = self.nodes.len();
        let node = Node {
            parent: Some(parent),
            children: Vec::new(),
            state: WidgetState::new(sizing),
            kind,
            theme: theme.to_owned(),
            marked_for_removal: false,
            layout_invalid: true,
            alive: true,
        };
        self.nodes.push(node);
        self.nodes[parent].children.push(id);
        let ghost t1 = *self;
        assert forall|i: int| 0 < i < t1.len() && #[trigger] t1.nodes@[i].alive implies t1.parent_link(i) by {
            if i < t0.len() {
                assert(t0.parent_link(i));
                let p = t0.nodes@[i].parent->0 as int;
                if p == parent {
                    let k = choose|k: int| 0 <= k < t0.children_of(p).len() && t0.children_of(p)[k] == i as usize;
                    assert(t1.children_of(p)[k] == i as usize);
                }
            } else {
                assert(t1.children_of(parent as int).last() == id);
            }
        }
        assert forall|p: int, j: int| 0 <= p < t1.len() && 0 <= j < t1.children_of(p).len() implies #[trigger] t1.child_link(p, j) by {
            if p < t0.len() && j < t0.children_of(p).len() {
                assert(t0.child_link(p, j));
            }
        }
        assert forall|p: int| 0 <= p < t1.len() implies (#[trigger] t1.children_of(p)).no_duplicates() by {
            if p == parent {
                assert(t0.children_of(p).no_duplicates());
                assert forall|j: int| 0 <= j < t0.children_of(p).len() implies t0.children_of(p)[j] != id by {
                    assert(t0.child_link(p, j));
                }
            } else if p < t0.len() {
                assert(t0.children_of(p).no_duplicates());
            }
        }
        assert forall|i: int| 0 <= i < t1.len() && !(#[trigger] t1.nodes@[i].alive) implies t1.children_of(i).len() == 0 by {
            if i < t0.len() {
                assert(!t0.nodes@[i].alive);
            }
        }
        assert forall|i: int| 0 <= i < t1.len() implies (#[trigger] t1.nodes@[i].state).wf() by {
            if i < t0.len() {
                assert(t0.nodes@[i].state.wf());
            }
        }
        assert forall|i: int| 0 <= i < t1.len() && #[trigger] t1.nodes@[i].alive && t1.nodes@[i].kind.is_hover() implies i == id by {
            if i < t0.len() {
                assert(t0.nodes@[i].alive);
            }
        }
        let ghost t2 = WidgetTree { mouse_over: Some(id), ..t1 };
        assert(t2.nodes@ == t1.nodes@);
        assert(t2.children_of(id as int).len() == 0);
        assert(t2.len() == t1.len());
        assert(forall|i: int| 0 < i < t2.len() && #[trigger] t2.nodes@[i].alive ==> t2.parent_link(i));
        assert forall|p: int, j: int| 0 <= p < t2.len() && 0 <= j < t2.children_of(p).len() implies #[trigger] t2.child_link(p, j) by {
            assert(t1.child_link(p, j));
        }
        assert forall|p: int| 0 <= p < t2.len() implies (#[trigger] t2.children_of(p)).no_duplicates() by {
            assert(t1.children_of(p).no_duplicates());
        }
        assert(forall|i: int| 0 <= i < t2.len() && !(#[trigger] t2.nodes@[i].alive) ==> t2.children_of(i).len() == 0);
        assert(forall|i: int| 0 <= i < t2.len() ==> (#[trigger] t2.nodes@[i].state).wf());
        assert(t2.nodes@[id as int].kind.is_hover());
        assert(t2.nodes@[id as int].parent == Some(0usize));
        assert(forall|i: int| 0 <= i < t2.len() && #[trigger] t2.nodes@[i].alive && t2.nodes@[i].kind.is_hover()
            ==> t2.mouse_over == Some(i as usize));
        assert(t2.wf());
        id
    }

    /// Well formed, but for a fresh childless node `h` under the root whose
    /// behaviour may be a hover widget not yet recorded as such.
    pub open spec fn wf_except_hover(&self, h: usize) -> bool {
        &&& Self { mouse_over: Some(h), ..*self }.wf()
    }

    /// True when node `c` is alive, visible and covers the point.
    pub open spec fn covers(&self, c: int, x: int, y: int) -> bool {
        &&& self.alive(c)
        &&& self.nodes@[c].state.visible
        &&& self.nodes@[c].state.rect.spec_contains(x, y)
    }

    /// The last (topmost) entry of `cs` covering the point.
    pub open spec fn topmost_cover(&self, cs: Seq<usize>, x: int, y: int) -> Option<usize>
        decreases cs.len(),
    {
        if cs.len() == 0 {
            None
        } else if self.covers(cs.last() as int, x, y) {
            Some(cs.last())
        } else {
            self.topmost_cover(cs.drop_last(), x, y)
        }
    }

    /// The widget that a point event entering at `start` reaches: the
    /// deepest widget reached by always stepping into the topmost child
    /// covering the point.
    pub open spec fn hit(&self, start: int, x: int, y: int) -> int
        decreases self.len() - start,
    {
        if start < 0 || start >= self.len() {
            start
        } else {
            match self.topmost_cover(self.children_of(start), x, y) {
                Some(c) => if start < c < self.len() {
                    self.hit(c as int, x, y)
                } else {
                    start
                },
                None => start,
            }
        }
    }

    /// The most recently added alive modal widget among the first `k` nodes.
    pub open spec fn top_modal_below(&self, k: int) -> Option<int>
        decreases k,
    {
        if k <= 0 {
            None
        } else if self.alive(k - 1) && self.nodes@[k - 1].state.modal {
            Some(k - 1)
        } else {
            self.top_modal_below(k - 1)
        }
    }

    /// The modal widget that holds the input, if any.
    pub open spec fn top_modal(&self) -> Option<int> {
        self.top_modal_below(self.len())
    }

    /// The widget a click at the point goes to: inside the topmost modal
    /// widget if there is one (which absorbs clicks outside its children),
    /// else from the root.
    pub open spec fn click_target(&self, x: int, y: int) -> int {
        match self.top_modal() {
            Some(m) => self.hit(m, x, y),
            None => self.hit(0, x, y),
        }
    }

    /// The topmost child of `w` that covers the point.
    fn find_cover(&self, w: usize, x: i32, y: i32) -> (r: Option<usize>)
        requires
            self.wf(),
            self.alive(w as int),
        ensures
            r == self.topmost_cover(self.children_of(w as int), x as int, y as int),
            match r {
                Some(c) => self.alive(c as int) && w < c && self.nodes@[c as int].parent == Some(w),
                None => true,
            },
    {
        let ghost cs = self.children_of(w as int);
        let mut k: usize = self.nodes[w].children.len();
        assert(cs.subrange(0, k as int) =~= cs);
        while k > 0
            invariant
                k <= cs.len(),
                cs == self.children_of(w as int),
                self.wf(),
                self.alive(w as int),
                self.topmost_cover(cs, x as int, y as int) == self.topmost_cover(cs.subrange(0, k as int), x as int, y as int),
            decreases k,
        {
            let c = self.nodes[w].children[k - 1];
            proof {
                assert(self.child_link(w as int, k - 1));
                assert(cs.subrange(0, k as int).drop_last() =~= cs.subrange(0, k - 1));
            }
            let node = &self.nodes[c];
            if node.alive && node.state.visible && node.state.rect.contains(x, y) {
                proof {
                    if w > 0 {
                        assert(self.parent_link(w as int));
                    }
                    assert(self.parent_link(c as int));
                }
                return Some(c);
            }
            k = k - 1;
        }
        None
    }

    /// Finds the widget a point event entering at `start` reaches.
    pub fn hit_test(&self, start: usize, x: i32, y: i32) -> (r: usize)
        requires
            self.wf(),
            self.alive(start as int),
        ensures
            r as int == self.hit(start as int, x as int, y as int),
            self.alive(r as int),
            self.is_ancestor_or_self(start as int, r as int),
        decreases self.len() - start,
    {
        match self.find_cover(start, x, y) {
            Some(c) => {
                let r = self.hit_test(c, x, y);
                proof {
                    self.lemma_ancestor_chain(start as int, c, r as int);
                }
                r
            },
            None => start,
        }
    }

    proof fn lemma_ancestor_chain(&self, a: int, b: usize, i: int)
        requires
            self.wf(),
            0 <= a < self.len(),
            self.alive(b as int),
            self.nodes@[b as int].parent == Some(a as usize),
            self.alive(i),
            self.is_ancestor_or_self(b as int, i),
        ensures
            self.is_ancestor_or_self(a, i),
        decreases i,
    {
        if i == b as int {
            self.lemma_ancestor_trans(a, a as usize, i);
        } else {
            assert(self.parent_link(i));
            let p = self.nodes@[i].parent->0;
            self.lemma_ancestor_chain(a, b, p as int);
            self.lemma_ancestor_trans(a, p, i);
        }
    }

    /// Finds the modal widget that holds the input, if any.
    pub fn find_top_modal(&self) -> (r: Option<usize>)
        requires
            self.wf(),
        ensures
            match r {
                Some(m) => self.top_modal() == Some(m as int) && self.alive(m as int),
                None => self.top_modal() is None,
            },
    {
        let mut k: usize = self.nodes.len();
        while k > 0
            invariant
                k <= self.len(),
                self.top_modal() == self.top_modal_below(k as int),
            decreases k,
        {
            if self.nodes[k - 1].alive && self.nodes[k - 1].state.modal {
                return Some(k - 1);
            }
            k = k - 1;
        }
        None
    }

    /// Routes a click: returns the widget that receives it. While a modal
    /// widget is attached the receiver always lies inside it.
    pub fn route_click(&self, x: i32, y: i32) -> (r: usize)
        requires
            self.wf(),
        ensures
            r as int == self.click_target(x as int, y as int),
            self.alive(r as int),
            match self.top_modal() {
                Some(m) => self.is_ancestor_or_self(m, r as int),
                None => true,
            },
    {
        match self.find_top_modal() {
            Some(m) => self.hit_test(m, x, y),
            None => self.hit_test(0, x, y),
        }
    }

    /// The widgets an event not yet consumed passes through, in order: `w`,
    /// then each of its ancestors up to the root.
    pub fn propagation_chain(&self, w: usize) -> (r: Vec<usize>)
        requires
            self.wf(),
            self.alive(w as int),
        ensures
            r@.len() >= 1,
            r@[0] == w,
            r@.last() == ROOT,
            forall|i: int| 0 <= i < r@.len() ==> self.alive(#[trigger] r@[i] as int),
            forall|i: int| 0 <= i < r@.len() - 1 ==> self.node(#[trigger] r@[i] as int).parent == Some(r@[i + 1]),
    {
        let mut r: Vec<usize> = Vec::new();
        let mut cur = w;
        r.push(cur);
        loop
            invariant
                self.wf(),
                self.alive(cur as int),
                r@.len() >= 1,
                r@[0] == w,
                r@.last() == cur,
                forall|i: int| 0 <= i < r@.len() ==> self.alive(#[trigger] r@[i] as int),
                forall|i: int| 0 <= i < r@.len() - 1 ==> self.node(#[trigger] r@[i] as int).parent == Some(r@[i + 1]),
            decreases cur,
        {
            match self.parent(cur) {
                Some(p) => {
                    let ghost r0 = r@;
                    r.push(p);
                    proof {
                        assert forall|i: int| 0 <= i < r@.len() - 1 implies self.node(#[trigger] r@[i] as int).parent == Some(r@[i + 1]) by {
                            if i < r0.len() - 1 {
                                assert(r@[i] == r0[i] && r@[i + 1] == r0[i + 1]);
                            } else {
                                assert(r@[i] == cur);
                            }
                        }
                    }
                    cur = p;
                },
                None => {
                    return r;
                },
            }
        }
    }

    /// The widgets a click at the point is offered to, in order: the widget
    /// that receives it, then its ancestors, until one consumes it.
    pub fn click_chain(&self, x: i32, y: i32) -> (r: Vec<usize>)
        requires
            self.wf(),
        ensures
            r@.len() >= 1,
            r@[0] as int == self.click_target(x as int, y as int),
            r@.last() == ROOT,
            forall|i: int| 0 <= i < r@.len() ==> self.alive(#[trigger] r@[i] as int),
            forall|i: int| 0 <= i < r@.len() - 1 ==> self.node(#[trigger] r@[i] as int).parent == Some(r@[i + 1]),
    {
        let target = self.route_click(x, y);
        self.propagation_chain(target)
    }

    /// True when the draw pass draws widget `i`: it is in the tree and visible.
    pub open spec fn drawn(&self, i: int) -> bool {
        self.alive(i) && self.nodes@[i].state.visible
    }

    /// The widgets the draw pass draws, parents before children and, among
    /// siblings, in the order they were added.
    pub fn draw_order(&self) -> (r: Vec<usize>)
        requires
            self.wf(),
        ensures
            forall|i: int| 0 <= i < self.len() ==> (r@.contains(i as usize) <==> self.drawn(i)),
            forall|j: int, k: int| 0 <= j < k < r@.len() ==> r@[j] < r@[k],
    {
        let mut r: Vec<usize> = Vec::new();
        let mut i: usize = 0;
        while i < self.nodes.len()
            invariant
                i <= self.len(),
                forall|j: int| 0 <= j < r@.len() ==> (#[trigger] r@[j] as int) < i && self.drawn(r@[j] as int),
                forall|m: int| 0 <= m < i && self.drawn(m) ==> r@.contains(m as usize),
                forall|j: int, k: int| 0 <= j < k < r@.len() ==> r@[j] < r@[k],
            decreases self.len() - i,
        {
            if self.nodes[i].alive && self.nodes[i].state.visible {
                let ghost r0 = r@;
                r.push(i);
                proof {
                    assert forall|m: int| 0 <= m < i + 1 && self.drawn(m) implies r@.contains(m as usize) by {
                        if m == i {
                            assert(r@[r0.len() as int] == i);
                        } else {
                            let q = choose|q: int| 0 <= q < r0.len() && r0[q] == m as usize;
                            assert(r@[q] == m as usize);
                        }
                    }
                }
            }
            i = i + 1;
        }
        proof {
            assert forall|m: int| 0 <= m < self.len() && r@.contains(m as usize) implies self.drawn(m) by {
                let q = choose|q: int| 0 <= q < r@.len() && r@[q] == m as usize;
                assert(self.drawn(r@[q] as int));
            }
        }
        r
    }

    pub open spec fn swept_node(new: Node, old: Node, doomed: bool, pred: spec_fn(usize) -> bool) -> bool {
        &&& new.alive == (old.alive && !doomed)
        &&& new.parent == old.parent
        &&& new.state == old.state
        &&& new.kind == old.kind
        &&& new.theme == old.theme
        &&& new.marked_for_removal == old.marked_for_removal
        &&& new.layout_invalid == old.layout_invalid
        &&& new.children@ == if new.alive {
            old.children@.filter(pred)
        } else if doomed {
            Seq::empty()
        } else {
            old.children@
        }
    }

    proof fn lemma_sweep_wf(&self, t0: &WidgetTree)
        requires
            t0.wf(),
            self.len() == t0.len(),
            forall|j: int| 0 <= j < t0.len() ==> Self::swept_node(#[trigger] self.nodes@[j], t0.nodes@[j], t0.doomed(j), t0.survives()),
            self.mouse_over == match t0.mouse_over {
                Some(m) => if t0.doomed(m as int) {
                    None
                } else {
                    Some(m)
                },
                None => None,
            },
        ensures
            self.wf(),
            t0.swept(self),
    {
        let pred = t0.survives();
        assert(Self::swept_node(self.nodes@[0], t0.nodes@[0], t0.doomed(0), pred));
        assert forall|i: int| 0 < i < self.len() && #[trigger] self.nodes@[i].alive implies self.parent_link(i) by {
            assert(Self::swept_node(self.nodes@[i], t0.nodes@[i], t0.doomed(i), pred));
            assert(t0.parent_link(i));
            let p = t0.nodes@[i].parent->0 as int;
            assert(!t0.doomed(p));
            assert(Self::swept_node(self.nodes@[p], t0.nodes@[p], t0.doomed(p), pred));
            let k = choose|k: int| 0 <= k < t0.children_of(p).len() && t0.children_of(p)[k] == i as usize;
            assert(pred(i as usize) == !t0.doomed(i));
            t0.children_of(p).lemma_filter_contains(pred, k);
        }
        assert forall|p: int, j: int| 0 <= p < self.len() && 0 <= j < self.children_of(p).len() implies #[trigger] self.child_link(p, j) by {
            assert(Self::swept_node(self.nodes@[p], t0.nodes@[p], t0.doomed(p), pred));
            let c = self.children_of(p)[j];
            assert(self.nodes@[p].alive || t0.children_of(p).len() == 0);
            assert(self.children_of(p).contains(c));
            t0.children_of(p).lemma_filter_contains_rev(pred, c);
            let k = choose|k: int| 0 <= k < t0.children_of(p).len() && t0.children_of(p)[k] == c;
            assert(t0.child_link(p, k));
            assert(pred(c) == !t0.doomed(c as int));
            assert(Self::swept_node(self.nodes@[c as int], t0.nodes@[c as int], t0.doomed(c as int), pred));
        }
        assert forall|p: int| 0 <= p < self.len() implies (#[trigger] self.children_of(p)).no_duplicates() by {
            assert(Self::swept_node(self.nodes@[p], t0.nodes@[p], t0.doomed(p), pred));
            assert(t0.children_of(p).no_duplicates());
            lemma_filter_no_dup(t0.children_of(p), pred);
        }
        assert forall|i: int| 0 <= i < self.len() && !(#[trigger] self.nodes@[i].alive) implies self.children_of(i).len() == 0 by {
            assert(Self::swept_node(self.nodes@[i], t0.nodes@[i], t0.doomed(i), pred));
        }
        assert forall|i: int| 0 <= i < self.len() implies (#[trigger] self.nodes@[i].state).wf() by {
            assert(Self::swept_node(self.nodes@[i], t0.nodes@[i], t0.doomed(i), pred));
            assert(t0.nodes@[i].state.wf());
        }
        assert forall|i: int| 0 <= i < t0.len() implies #[trigger] self.nodes@[i].alive == (t0.nodes@[i].alive && !t0.doomed(i)) by {
            assert(Self::swept_node(self.nodes@[i], t0.nodes@[i], t0.doomed(i), pred));
        }
        assert forall|i: int| 0 <= i < t0.len() && #[trigger] self.nodes@[i].alive implies self.nodes@[i].children@ == t0.children_of(i).filter(t0.survives()) by {
            assert(Self::swept_node(self.nodes@[i], t0.nodes@[i], t0.doomed(i), pred));
        }
        match self.mouse_over {
            Some(m) => {
                assert(Self::swept_node(self.nodes@[m as int], t0.nodes@[m as int], t0.doomed(m as int), pred));
                assert(t0.children_of(m as int).filter(pred) =~= Seq::<usize>::empty()) by {
                    reveal(Seq::filter);
                }
            },
            None => {},
        }
        assert forall|i: int| 0 <= i < self.len() && #[trigger] self.nodes@[i].alive && self.nodes@[i].kind.is_hover()
            implies self.mouse_over == Some(i as usize) by {
            assert(Self::swept_node(self.nodes@[i], t0.nodes@[i], t0.doomed(i), pred));
        }
    }
}

/// Every non-root widget sits in exactly one child list, at exactly one
/// place, and the root sits in none.
pub proof fn lemma_single_parent(t: &WidgetTree, w: int)
    requires
        t.wf(),
        0 <= w < t.len(),
    ensures
        forall|q: int| 0 <= q < t.len() ==> !(#[trigger] t.children_of(q)).contains(0usize),
        t.alive(w) && w != 0 ==> {
            let p = t.node(w).parent->0 as int;
            &&& t.node(w).parent is Some
            &&& t.children_of(p).contains(w as usize)
            &&& forall|q: int| 0 <= q < t.len() && (#[trigger] t.children_of(q)).contains(w as usize) ==> q == p
            &&& forall|j: int, k: int|
                0 <= j < t.children_of(p).len() && 0 <= k < t.children_of(p).len()
                    && t.children_of(p)[j] == w as usize && t.children_of(p)[k] == w as usize ==> j == k
        },
{
    assert forall|q: int| 0 <= q < t.len() implies !(#[trigger] t.children_of(q)).contains(0usize) by {
        if t.children_of(q).contains(0usize) {
            let j = choose|j: int| 0 <= j < t.children_of(q).len() && t.children_of(q)[j] == 0usize;
            assert(t.child_link(q, j));
        }
    }
    if t.alive(w) && w != 0 {
        assert(t.parent_link(w));
        let p = t.node(w).parent->0 as int;
        assert forall|q: int| 0 <= q < t.len() && (#[trigger] t.children_of(q)).contains(w as usize) implies q == p by {
            let j = choose|j: int| 0 <= j < t.children_of(q).len() && t.children_of(q)[j] == w as usize;
            assert(t.child_link(q, j));
        }
        assert(t.children_of(p).no_duplicates());
    }
}

/// Replacing the hover widget leaves exactly one hover widget in the
/// tree: the new one, under the root, with the new behaviour (describing the
/// new target). The one it replaced is dead and in no child list.
pub proof fn lemma_hover_replaced(t0: &WidgetTree, t1: &WidgetTree, kind: WidgetKind, id: usize)
    requires
        t0.wf(),
        t1.wf(),
        t0.replaced_hover(t1, kind, id),
    ensures
        forall|i: int| 0 <= i < t1.len() && t1.alive(i) && (#[trigger] t1.node(i)).kind.is_hover() ==> i == id,
        t1.node(id as int).kind == kind,
        t1.children_of(0).contains(id),
        forall|q: int| 0 <= q < t1.len() && (#[trigger] t1.children_of(q)).contains(id) ==> q == 0,
        match t0.mouse_over {
            Some(m) => !t1.alive(m as int) && forall|q: int| 0 <= q < t1.len() ==> !(#[trigger] t1.children_of(q)).contains(m),
            None => true,
        },
{
    lemma_single_parent(t1, id as int);
    assert forall|i: int| 0 <= i < t1.len() && t1.alive(i) && (#[trigger] t1.node(i)).kind.is_hover() implies i == id by {
        assert(t1.nodes@[i].alive);
    }
    if let Some(m) = t0.mouse_over {
        assert forall|q: int| 0 <= q < t1.len() implies !(#[trigger] t1.children_of(q)).contains(m) by {
            if t1.children_of(q).contains(m) {
                let j = choose|j: int| 0 <= j < t1.children_of(q).len() && t1.children_of(q)[j] == m;
                assert(t1.child_link(q, j));
            }
        }
    }
}

/// After a node is marked for removal, one removal sweep leaves it and every
/// node below it dead, out of every child list and out of the draw pass.
pub proof fn lemma_removal_sweep(t0: &WidgetTree, t1: &WidgetTree, w: int, i: int)
    requires
        t0.wf(),
        t1.wf(),
        t0.swept(t1),
        t0.alive(w),
        w != 0,
        t0.node(w).marked_for_removal,
        0 <= i < t0.len(),
        t0.is_ancestor_or_self(w, i),
    ensures
        !t1.alive(i),
        !t1.drawn(i),
        forall|q: int| 0 <= q < t1.len() ==> !(#[trigger] t1.children_of(q)).contains(i as usize),
{
    if t0.alive(i) {
        lemma_doomed_below(t0, w, i);
    }
    assert forall|q: int| 0 <= q < t1.len() implies !(#[trigger] t1.children_of(q)).contains(i as usize) by {
        if t1.children_of(q).contains(i as usize) {
            let j = choose|j: int| 0 <= j < t1.children_of(q).len() && t1.children_of(q)[j] == i as usize;
            assert(t1.child_link(q, j));
        }
    }
}

proof fn lemma_doomed_below(t: &WidgetTree, w: int, i: int)
    requires
        t.wf(),
        t.alive(w),
        w != 0,
        t.node(w).marked_for_removal,
        t.alive(i),
        t.is_ancestor_or_self(w, i),
    ensures
        t.doomed(i),
    decreases i,
{
    if i != w {
        assert(t.parent_link(i));
        let p = t.node(i).parent->0 as int;
        lemma_doomed_below(t, w, p);
    }
}

/// Running the layout sweep a second time, with nothing changed in
/// between, leaves every widget's geometry as the first sweep left it.
pub proof fn lemma_layout_idempotent(t0: &WidgetTree, t1: &WidgetTree, t2: &WidgetTree)
    requires
        t0.wf(),
        t0.laid_out(t1),
        t1.laid_out(t2),
    ensures
        forall|i: int| 0 <= i < t1.len() ==> (#[trigger] t2.node(i)).state.rect == t1.node(i).state.rect
            && t2.node(i).state.inner == t1.node(i).state.inner,
        t2.nodes@ == t1.nodes@,
{
    assert forall|i: int| 0 <= i < t1.len() implies !(#[trigger] t1.needs_layout(i)) by {
        lemma_clean_after_layout(t0, t1, i);
    }
    assert(t2.nodes@ =~= t1.nodes@);
}

proof fn lemma_clean_after_layout(t0: &WidgetTree, t1: &WidgetTree, i: int)
    requires
        t0.laid_out(t1),
        0 <= i < t1.len(),
    ensures
        !t1.needs_layout(i),
    decreases i,
{
    if t1.alive(i) && i > 0 {
        match t1.node(i).parent {
            Some(p) => if (p as int) < i {
                lemma_clean_after_layout(t0, t1, p as int);
            },
            None => {},
        }
    }
}

/// The predicate that keeps every index but `m`.
pub open spec fn not_eq(m: usize) -> spec_fn(usize) -> bool {
    |c: usize| c != m
}

/// `v` with every occurrence of `m` taken out.
fn without(v: &Vec<usize>, m: usize) -> (r: Vec<usize>)
    ensures
        r@ == v@.filter(not_eq(m)),
{
    let ghost pred = not_eq(m);
    let mut r: Vec<usize> = Vec::new();
    let mut j: usize = 0;
    while j < v.len()
        invariant
            j <= v@.len(),
            pred == not_eq(m),
            r@ == v@.subrange(0, j as int).filter(pred),
        decreases v@.len() - j,
    {
        let c = v[j];
        proof {
            reveal(Seq::filter);
            assert(v@.subrange(0, j + 1).drop_last() =~= v@.subrange(0, j as int));
        }
        if c != m {
            r.push(c);
        }
        j = j + 1;
    }
    assert(v@.subrange(0, v@.len() as int) =~= v@);
    r
}

/// Filtering keeps a sequence free of duplicates.
proof fn lemma_filter_no_dup(s: Seq<usize>, pred: spec_fn(usize) -> bool)
    requires
        s.no_duplicates(),
    ensures
        s.filter(pred).no_duplicates(),
    decreases s.len(),
{
    reveal(Seq::filter);
    if s.len() > 0 {
        let rest = s.drop_last();
        assert(rest.no_duplicates());
        lemma_filter_no_dup(rest, pred);
        if rest.filter(pred).contains(s.last()) {
            rest.lemma_filter_contains_rev(pred, s.last());
            let k = choose|k: int| 0 <= k < rest.len() && rest[k] == s.last();
            assert(s[k] == s[s.len() - 1]);
        }
    }
}

/// The entries of `children` that `pred` keeps, where `doomed` tells, for
/// every index, whether `pred` drops it.
fn kept_children(children: &Vec<usize>, doomed: &Vec<bool>, Ghost(pred): Ghost<spec_fn(usize) -> bool>) -> (r: Vec<usize>)
    requires
        forall|k: int| 0 <= k < children@.len() ==> #[trigger] children@[k] < doomed@.len(),
        forall|c: int| 0 <= c < doomed@.len() ==> #[trigger] doomed@[c] == !pred(c as usize),
    ensures
        r@ == children@.filter(pred),
{
    let mut r: Vec<usize> = Vec::new();
    let mut j: usize = 0;
    while j < children.len()
        invariant
            j <= children@.len(),
            r@ == children@.subrange(0, j as int).filter(pred),
            forall|k: int| 0 <= k < children@.len() ==> #[trigger] children@[k] < doomed@.len(),
            forall|c: int| 0 <= c < doomed@.len() ==> #[trigger] doomed@[c] == !pred(c as usize),
        decreases children@.len() - j,
    {
        let c = children[j];
        proof {
            reveal(Seq::filter);
            assert(children@.subrange(0, j + 1).drop_last() =~= children@.subrange(0, j as int));
            assert(doomed@[c as int] == !pred(c));
        }
        if !doomed[c] {
            r.push(c);
        }
        j = j + 1;
    }
    assert(children@.subrange(0, children@.len() as int) =~= children@);
    r
}

} // verus!
