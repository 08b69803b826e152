use vstd::prelude::*;

use crate::callback::{Callback, CharacterInfo};
use crate::confirmation_window::ConfirmationWindow;
use crate::geometry::Sizing;
use crate::kind::WidgetKind;
use crate::label::Label;
use crate::tree::{Node, WidgetTree};

verus! {

/// The semantic input actions that keys are bound to.
#[derive(Clone, Copy, Debug, PartialEq, Eq, Structural)]
pub enum InputAction {
    ShowMenu,
    ToggleInventory,
    ToggleCharacter,
    EndTurn,
}

impl CharacterInfo {
    pub open spec fn spec_view(&self) -> (Seq<char>, Seq<char>, Option<Seq<char>>) {
        (self.id@, self.name@, match self.portrait {
            Some(p) => Some(p@),
            None => None,
        })
    }

    /// A copy with the same id, name and portrait.
    pub fn duplicate(&self) -> (r: CharacterInfo)
        ensures
            r.spec_view() == self.spec_view(),
    {
        let portrait = match &self.portrait {
            Some(p) => Some(p.clone()),
            None => None,
        };
        CharacterInfo { id: self.id.clone(), name: self.name.clone(), portrait }
    }
}

/// The id of an optional selection.
pub open spec fn sel_id(s: Option<CharacterInfo>) -> Option<Seq<char>> {
    match s {
        Some(c) => Some(c.id@),
        None => None,
    }
}

/// The selection and pending id after offering the first `k` characters:
/// the first character whose id is pending becomes the selection, and the
/// pending id is then cleared.
pub open spec fn sel_after(sel: Option<CharacterInfo>, pending: Option<Seq<char>>, chars: Seq<CharacterInfo>, k: int) -> (Option<Seq<char>>, Option<Seq<char>>)
    decreases k,
{
    if k <= 0 {
        (sel_id(sel), pending)
    } else {
        let prev = sel_after(sel, pending, chars, k - 1);
        match prev.1 {
            Some(id) => if id == chars[k - 1].id@ {
                (Some(chars[k - 1].id@), None)
            } else {
                prev
            },
            None => prev,
        }
    }
}

/// The id of an optional selection, empty when there is none.
pub open spec fn id_or_empty(s: Option<CharacterInfo>) -> Seq<char> {
    match s {
        Some(c) => c.id@,
        None => Seq::empty(),
    }
}

/// The name of an optional selection, empty when there is none.
pub open spec fn name_or_empty(s: Option<CharacterInfo>) -> Seq<char> {
    match s {
        Some(c) => c.name@,
        None => Seq::empty(),
    }
}

/// The node of the button for character `c`, shown active or not.
pub open spec fn button_ok(n: Node, pane: usize, c: CharacterInfo, active: bool) -> bool {
    &&& n.parent == Some(pane)
    &&& n.alive
    &&& n.kind == WidgetKind::Button
    &&& n.theme@ == "character_button"@
    &&& n.children@.len() == 0
    &&& n.state.arg("name"@) == Some(c.name@)
    &&& n.state.arg("portrait"@) == match c.portrait {
        Some(p) => Some(p@),
        None => None,
    }
    &&& n.state.active == active
    &&& n.state.enabled
    &&& n.state.callbacks@.len() == 1
    &&& match n.state.callbacks@[0] {
        Callback::SelectCharacter(s) => s.spec_view() == c.spec_view(),
        _ => false,
    }
}

/// The root widget of the character selection screen.
#[derive(Debug)]
pub struct CharacterSelector {
    pub selected: Option<CharacterInfo>,
    pub to_select: Option<String>,
    /// Set once the main loop is to stop.
    pub exit: bool,
}

impl CharacterSelector {
    pub open spec fn pending(&self) -> Option<Seq<char>> {
        match self.to_select {
            Some(s) => Some(s@),
            None => None,
        }
    }

    pub fn new() -> (r: CharacterSelector)
        ensures
            r.selected is None,
            r.to_select is None,
            !r.exit,
    {
        CharacterSelector { selected: None, to_select: None, exit: false }
    }

    pub fn is_exit(&self) -> (r: bool)
        ensures
            r == self.exit,
    {
        self.exit
    }

    pub fn selected(&self) -> (r: &Option<CharacterInfo>)
        ensures
            *r == self.selected,
    {
        &self.selected
    }

    /// Asks for the character with this id to be selected the next time the
    /// screen is built.
    pub fn set_to_select(&mut self, id: &str)
        ensures
            final(self).pending() == Some(id@),
            final(self).selected == old(self).selected,
            final(self).exit == old(self).exit,
    {
        self.to_select = Some(id.to_owned());
    }

    pub fn get_name(&self) -> (r: &'static str)
        ensures
            r@ == "root"@,
    {
        "root"
    }

    /// Handles a key: the menu key opens a modal confirmation asking to
    /// exit, as a child of `w`; other keys are not consumed.
    pub fn on_key_press(&mut self, tree: &mut WidgetTree, w: usize, key: InputAction) -> (consumed: bool)
        requires
            old(tree).wf(),
            old(tree).alive(w as int),
            !old(tree).node(w as int).kind.is_hover(),
            old(tree).len() + 4 <= usize::MAX,
        ensures
            consumed == (key == InputAction::ShowMenu),
            final(tree).wf(),
            *final(self) == *old(self),
            key != InputAction::ShowMenu ==> *final(tree) == *old(tree),
            key == InputAction::ShowMenu ==> {
                let d = old(tree).len();
                &&& final(tree).len() == d + 4
                &&& final(tree).node(d).kind == WidgetKind::ConfirmationWindow
                &&& final(tree).node(d).theme@ == "exit_confirmation_window"@
                &&& final(tree).node(d).state.modal
                &&& final(tree).node(d).parent == Some(w)
                &&& final(tree).children_of(w as int) == old(tree).children_of(w as int).push(d as usize)
                &&& final(tree).children_of(d) == seq![(d + 1) as usize, (d + 2) as usize, (d + 3) as usize]
                &&& final(tree).node(d + 1).theme@ == "cancel"@
                &&& final(tree).node(d + 2).theme@ == "accept"@
                &&& final(tree).node(d + 3).theme@ == "title"@
                &&& final(tree).node(d + 2).state.callbacks@ == seq![Callback::Exit]
                &&& final(tree).top_modal() is Some
            },
    {
        match key {
            InputAction::ShowMenu => {
                proof { reveal_strlit("exit_confirmation_window"); }
                let d = tree.add_child(w, WidgetKind::ConfirmationWindow, "exit_confirmation_window", Sizing::default_sizing());
                tree.set_flags(d, true, false, true);
                let ghost t1 = *tree;
                let window = ConfirmationWindow::new(Callback::Exit);
                let _kids = window.on_add(tree, d);
                proof {
                    let t2 = *tree;
                    assert(t2.node(d as int).state == t1.node(d as int).state);
                    assert(t2.node(w as int) == t1.node(w as int));
                    assert(t2.alive(d as int) && t2.node(d as int).state.modal);
                    lemma_has_modal(t2, d as int, t2.len());
                }
                true
            },
            _ => false,
        }
    }

    /// Builds the selection screen under `w`: a title, a title for the
    /// characters, a pane with one button per available character, buttons
    /// to create a character, delete the selected one and play, and a
    /// details box. A pending id picks the first character with that id.
    #[verifier::rlimit(80)]
    pub fn on_add(&mut self, tree: &mut WidgetTree, w: usize, characters: &Vec<CharacterInfo>) -> (r: Vec<usize>)
        requires
            old(tree).wf(),
            old(tree).alive(w as int),
            !old(tree).node(w as int).kind.is_hover(),
            old(tree).len() + characters@.len() + 7 <= usize::MAX,
        ensures
            final(tree).wf(),
            ({
                let n = old(tree).len();
                let c = characters@.len() as int;
                let after = sel_after(old(self).selected, old(self).pending(), characters@, c);
                &&& final(tree).len() == n + c + 7
                &&& r@ == seq![n as usize, (n + 1) as usize, (n + 2) as usize, (n + 3 + c) as usize,
                    (n + 4 + c) as usize, (n + 5 + c) as usize, (n + 6 + c) as usize]
                &&& final(tree).children_of(w as int) == old(tree).children_of(w as int) + r@
                &&& final(tree).node(n).theme@ == "title"@
                &&& final(tree).node(n + 1).theme@ == "characters_title"@
                &&& final(tree).node(n + 2).theme@ == "characters_pane"@
                &&& final(tree).node(n + 2).kind == WidgetKind::Empty
                &&& final(tree).children_of(n + 2).len() == c
                &&& forall|k: int| 0 <= k < c ==> #[trigger] final(tree).children_of(n + 2)[k] == (n + 3 + k) as usize
                &&& forall|k: int| 0 <= k < c ==> button_ok(
                    #[trigger] final(tree).node(n + 3 + k),
                    (n + 2) as usize,
                    characters@[k],
                    sel_after(old(self).selected, old(self).pending(), characters@, k + 1).0 == Some(characters@[k].id@),
                )
                &&& final(tree).node(n + 3 + c).theme@ == "new_character_button"@
                &&& final(tree).node(n + 3 + c).state.callbacks@ == seq![Callback::NewCharacter]
                &&& final(tree).node(n + 4 + c).theme@ == "delete_character_button"@
                &&& final(tree).node(n + 4 + c).state.enabled == old(self).selected is Some
                &&& final(tree).node(n + 4 + c).state.callbacks@.len() == 1
                &&& match final(tree).node(n + 4 + c).state.callbacks@[0] {
                    Callback::OpenDeleteDialog(id, name) => id@ == id_or_empty(old(self).selected) && name@ == name_or_empty(old(self).selected),
                    _ => false,
                }
                &&& final(tree).node(n + 5 + c).theme@ == "play_button"@
                &&& final(tree).node(n + 5 + c).state.enabled == after.0 is Some
                &&& final(tree).node(n + 5 + c).state.callbacks@ == seq![Callback::Play]
                &&& final(tree).node(n + 6 + c).theme@ == "details"@
                &&& final(tree).node(n + 6 + c).kind == WidgetKind::TextArea
                &&& sel_id(final(self).selected) == after.0
                &&& final(self).pending() == after.1
                &&& final(self).exit == old(self).exit
                &&& final(tree).mouse_over == old(tree).mouse_over
            }),
    {
        proof {
            reveal_strlit("title");
            reveal_strlit("characters_title");
            reveal_strlit("characters_pane");
            reveal_strlit("new_character_button");
            reveal_strlit("delete_character_button");
            reveal_strlit("play_button");
            reveal_strlit("details");
        }
        let ghost t0 = *tree;
        let ghost sel0 = self.selected;
        let ghost pend0 = self.pending();
        let title = tree.add_child(w, WidgetKind::Label(Label::new_empty()), "title", Sizing::default_sizing());
        let chars_title = tree.add_child(w, WidgetKind::Label(Label::new_empty()), "characters_title", Sizing::default_sizing());
        let pane = tree.add_child(w, WidgetKind::Empty, "characters_pane", Sizing::default_sizing());
        let ghost t_pane = *tree;
        let delete_enabled = self.selected.is_some();
        let (actor_id, actor_name) = match &self.selected {
            None => (String::new(), String::new()),
            Some(actor) => (actor.id.clone(), actor.name.clone()),
        };
        let mut k: usize = 0;
        while k < characters.len()
            invariant
                tree.wf(),
                t0.wf(),
                k <= characters@.len(),
                tree.len() == t0.len() + 3 + k,
                t0.len() + characters@.len() + 7 <= usize::MAX,
                pane as int == t0.len() + 2,
                title as int == t0.len(),
                chars_title as int == t0.len() + 1,
                tree.children_of(pane as int).len() == k,
                forall|j: int| 0 <= j < k ==> #[trigger] tree.children_of(pane as int)[j] == (t0.len() + 3 + j) as usize,
                forall|j: int| 0 <= j < k ==> button_ok(
                    #[trigger] tree.node(t0.len() + 3 + j),
                    pane,
                    characters@[j],
                    sel_after(sel0, pend0, characters@, j + 1).0 == Some(characters@[j].id@),
                ),
                forall|i: int| 0 <= i < t0.len() + 3 && i != pane ==> #[trigger] tree.node(i) == t_pane.node(i),
                tree.node(pane as int) == (Node { children: tree.node(pane as int).children, ..t_pane.node(pane as int) }),
                tree.mouse_over == t0.mouse_over,
                sel_id(self.selected) == sel_after(sel0, pend0, characters@, k as int).0,
                self.pending() == sel_after(sel0, pend0, characters@, k as int).1,
                self.exit == old(self).exit,
                actor_id@ == id_or_empty(sel0),
                actor_name@ == name_or_empty(sel0),
                delete_enabled == sel0 is Some,
                t_pane.alive(pane as int),
                !t_pane.node(pane as int).kind.is_hover(),
                t_pane.children_of(pane as int).len() == 0,
            decreases characters@.len() - k,
        {
            let actor = &characters[k];
            let select = match &self.to_select {
                Some(id) => *id == actor.id,
                None => false,
            };
            if select {
                self.selected = Some(actor.duplicate());
                self.to_select = None;
            }
            let active = match &self.selected {
                Some(s) => s.id == actor.id,
                None => false,
            };
            let ghost tb = *tree;
            let b = add_character_button(tree, pane, actor, active);
            proof {
                assert forall|i: int| 0 <= i < t0.len() + 3 && i != pane implies #[trigger] tree.node(i) == t_pane.node(i) by {
                    assert(tree.node(i) == tb.node(i));
                }
                assert forall|j: int| 0 <= j < k implies button_ok(
                    #[trigger] tree.node(t0.len() + 3 + j),
                    pane,
                    characters@[j],
                    sel_after(sel0, pend0, characters@, j + 1).0 == Some(characters@[j].id@),
                ) by {
                    assert(tree.node(t0.len() + 3 + j) == tb.node(t0.len() + 3 + j));
                }
                assert(tree.children_of(pane as int) == tb.children_of(pane as int).push(b));
            }
            k = k + 1;
        }
        let ghost t_loop = *tree;
        let new_character_button = add_button(tree, w, "new_character_button", Callback::NewCharacter, true, false);
        let ghost s1 = *tree;
        let delete_character_button = add_button(tree, w, "delete_character_button",
            Callback::OpenDeleteDialog(actor_id, actor_name), delete_enabled, false);
        let ghost s2 = *tree;
        let play_enabled = self.selected.is_some();
        let play_button = add_button(tree, w, "play_button", Callback::Play, play_enabled, false);
        let ghost s3 = *tree;
        let details = tree.add_child(w, WidgetKind::TextArea, "details", Sizing::default_sizing());
        let mut r: Vec<usize> = Vec::new();
        r.push(title);
        r.push(chars_title);
        r.push(pane);
        r.push(new_character_button);
        r.push(delete_character_button);
        r.push(play_button);
        r.push(details);
        proof {
            let t1 = *tree;
            let n = t0.len();
            let c = characters@.len() as int;
            assert(r@ =~= seq![n as usize, (n + 1) as usize, (n + 2) as usize, (n + 3 + c) as usize,
                (n + 4 + c) as usize, (n + 5 + c) as usize, (n + 6 + c) as usize]);
            assert forall|i: int| 0 <= i < s1.len() && i != w implies #[trigger] t1.node(i) == s1.node(i) by {
                assert(s2.node(i) == s1.node(i));
                assert(s3.node(i) == s2.node(i));
            }
            assert(t1.node(delete_character_button as int) == s2.node(delete_character_button as int));
            assert forall|k2: int| 0 <= k2 < c implies button_ok(
                #[trigger] t1.node(n + 3 + k2),
                (n + 2) as usize,
                characters@[k2],
                sel_after(sel0, pend0, characters@, k2 + 1).0 == Some(characters@[k2].id@),
            ) by {
                assert(s1.node(n + 3 + k2) == t_loop.node(n + 3 + k2));
            }
            assert(s1.node(n) == t_loop.node(n));
            assert(s1.node(n + 1) == t_loop.node(n + 1));
            assert(s1.node(n + 2) == t_loop.node(n + 2));
            assert(t_loop.node(w as int) == t_pane.node(w as int));
            assert(t1.children_of(w as int) =~= t0.children_of(w as int) + r@);
        }
        r
    }
}

/// Runs callback `cb` fired by widget `w` of the selection screen, whose
/// root holds `selector`. Returns the id of a character to delete from
/// storage, when the callback confirms a deletion.
pub fn fire_callback(tree: &mut WidgetTree, selector: &mut CharacterSelector, w: usize, cb: Callback) -> (delete: Option<String>)
    requires
        old(tree).wf(),
        old(tree).alive(w as int),
        old(tree).len() + 4 <= usize::MAX,
    ensures
        final(tree).wf(),
        match cb {
            Callback::RemoveParent => {
                &&& delete is None
                &&& match old(tree).node(w as int).parent {
                    Some(p) => final(tree).nodes@ == old(tree).nodes@.update(p as int, Node { marked_for_removal: true, ..old(tree).node(p as int) }),
                    None => *final(tree) == *old(tree),
                }
                &&& *final(selector) == *old(selector)
            },
            Callback::Exit => {
                &&& delete is None
                &&& final(selector).selected is None
                &&& final(selector).exit
                &&& *final(tree) == *old(tree)
            },
            Callback::OpenDeleteDialog(id, name) => {
                let d = old(tree).len();
                &&& delete is None
                &&& final(tree).len() == d + 4
                &&& final(tree).node(d).kind == WidgetKind::ConfirmationWindow
                &&& final(tree).node(d).theme@ == "delete_character_confirmation_window"@
                &&& final(tree).node(d).parent == Some(0usize)
                &&& final(tree).node(d).state.modal
                &&& final(tree).node(d + 3).state.arg("name"@) == Some(name@)
                &&& match final(tree).node(d + 2).state.callbacks@[0] {
                    Callback::ConfirmDelete(i) => i@ == id@,
                    _ => false,
                }
                &&& final(tree).top_modal() is Some
                &&& *final(selector) == *old(selector)
            },
            Callback::ConfirmDelete(id) => {
                &&& delete is Some && delete->0@ == id@
                &&& final(tree).node(w as int).marked_for_removal
                &&& final(tree).node(0).layout_invalid
                &&& final(selector).selected is None
                &&& final(selector).exit == old(selector).exit
            },
            Callback::SelectCharacter(c) => {
                let r = old(tree).up(w as int, 2);
                &&& delete is None
                &&& final(selector).selected is Some
                &&& final(selector).selected->0.spec_view() == c.spec_view()
                &&& final(selector).exit == old(selector).exit
                &&& final(selector).to_select == old(selector).to_select
                &&& final(tree).len() == old(tree).len()
                &&& final(tree).mouse_over == old(tree).mouse_over
                &&& forall|i: int| 0 <= i < old(tree).len() ==> #[trigger] final(tree).nodes@[i] == if old(tree).alive(i) && old(tree).is_ancestor_or_self(r, i) {
                    Node { layout_invalid: true, ..old(tree).nodes@[i] }
                } else {
                    old(tree).nodes@[i]
                }
            },
            Callback::NewCharacter => {
                let d = old(tree).len();
                &&& delete is None
                &&& final(tree).len() == d + 1
                &&& final(tree).node(d).kind == WidgetKind::CharacterBuilder
                &&& final(tree).node(d).state.modal
                &&& final(tree).node(d).parent == match old(tree).node(w as int).parent {
                    Some(p) => Some(p),
                    None => Some(w),
                }
                &&& *final(selector) == *old(selector)
            },
            Callback::Play => {
                let d = old(tree).len();
                &&& delete is None
                &&& final(selector).exit
                &&& final(selector).selected == old(selector).selected
                &&& final(tree).len() == d + 1
                &&& final(tree).node(d).kind == WidgetKind::LoadingScreen
                &&& final(tree).node(d).state.modal
                &&& final(tree).node(d).parent == Some(0usize)
            },
        },
{
    proof {
        reveal_strlit("delete_character_confirmation_window");
        reveal_strlit("name");
        lemma_root_not_hover(*tree);
    }
    match cb {
        Callback::RemoveParent => {
            if let Some(p) = tree.parent(w) {
                tree.mark_for_removal(p);
            }
            None
        },
        Callback::Exit => {
            selector.selected = None;
            selector.exit = true;
            None
        },
        Callback::OpenDeleteDialog(id, name) => {
            let d = tree.add_child(0, WidgetKind::ConfirmationWindow, "delete_character_confirmation_window", Sizing::default_sizing());
            tree.set_flags(d, true, false, true);
            let ghost t1 = *tree;
            let window = ConfirmationWindow::new(Callback::ConfirmDelete(id));
            let kids = window.on_add(tree, d);
            let ghost t2 = *tree;
            let title = kids[2];
            proof {
                assert(t2.node(d as int).state == t1.node(d as int).state);
                assert(t2.alive(title as int));
                assert(!t2.node(title as int).kind.is_hover());
            }
            tree.add_text_arg(title, "name", name.as_str());
            proof {
                let t3 = *tree;
                assert(t3.node(d as int) == t2.node(d as int));
                assert(t3.node(d as int + 2) == t2.node(d as int + 2));
                assert(t3.alive(d as int) && t3.node(d as int).state.modal);
                lemma_has_modal(t3, d as int, t3.len());
            }
            None
        },
        Callback::ConfirmDelete(id) => {
            tree.mark_for_removal(w);
            selector.selected = None;
            tree.invalidate_children(0);
            Some(id)
        },
        Callback::SelectCharacter(c) => {
            let parent = tree.go_up_tree(w, 2);
            selector.selected = Some(c.duplicate());
            tree.invalidate_children(parent);
            None
        },
        Callback::NewCharacter => {
            let parent = match tree.parent(w) {
                Some(p) => p,
                None => w,
            };
            proof { lemma_parent_not_hover(*tree, w as int); }
            let b = tree.add_child(parent, WidgetKind::CharacterBuilder, "character_builder", Sizing::default_sizing());
            tree.set_flags(b, true, false, true);
            None
        },
        Callback::Play => {
            selector.exit = true;
            let l = tree.add_child(0, WidgetKind::LoadingScreen, "loading_screen", Sizing::default_sizing());
            tree.set_flags(l, true, false, true);
            None
        },
    }
}

/// The root is never a hover widget.
proof fn lemma_root_not_hover(t: WidgetTree)
    requires
        t.wf(),
    ensures
        !t.node(0).kind.is_hover(),
{
    assert(t.nodes@[0].alive);
}

/// A widget's parent is never a hover widget, and neither is the root.
proof fn lemma_parent_not_hover(t: WidgetTree, w: int)
    requires
        t.wf(),
        t.alive(w),
    ensures
        match t.node(w).parent {
            Some(p) => !t.node(p as int).kind.is_hover(),
            None => !t.node(w).kind.is_hover(),
        },
{
    assert(t.nodes@[0].alive);
    if w > 0 {
        assert(t.parent_link(w));
        let p = t.node(w).parent->0 as int;
        if t.node(p).kind.is_hover() {
            assert(t.nodes@[p].alive);
            assert(t.children_of(p).contains(w as usize));
        }
    }
}

/// Adds to `parent` a button with theme `theme` and callback `cb`, enabled
/// and shown active or not.
fn add_button(tree: &mut WidgetTree, parent: usize, theme: &str, cb: Callback, enabled: bool, active: bool) -> (b: usize)
    requires
        old(tree).wf(),
        old(tree).alive(parent as int),
        !old(tree).node(parent as int).kind.is_hover(),
        old(tree).len() < usize::MAX,
    ensures
        final(tree).wf(),
        b as int == old(tree).len(),
        final(tree).len() == old(tree).len() + 1,
        final(tree).node(b as int).parent == Some(parent),
        final(tree).node(b as int).alive,
        final(tree).node(b as int).kind == WidgetKind::Button,
        final(tree).node(b as int).theme@ == theme@,
        final(tree).node(b as int).state.callbacks@ == seq![cb],
        final(tree).node(b as int).state.enabled == enabled,
        final(tree).node(b as int).state.active == active,
        final(tree).node(b as int).state.text_args@.len() == 0,
        final(tree).node(b as int).children@.len() == 0,
        final(tree).children_of(parent as int) == old(tree).children_of(parent as int).push(b),
        final(tree).node(parent as int) == (Node { children: final(tree).node(parent as int).children, ..old(tree).node(parent as int) }),
        forall|i: int| 0 <= i < old(tree).len() && i != parent ==> #[trigger] final(tree).node(i) == old(tree).node(i),
        final(tree).mouse_over == old(tree).mouse_over,
{
    let ghost t0 = *tree;
    let b = tree.add_child(parent, WidgetKind::Button, theme, Sizing::default_sizing());
    let ghost t1 = *tree;
    tree.add_callback(b, cb);
    let ghost t2 = *tree;
    tree.set_flags(b, enabled, active, false);
    proof {
        let t3 = *tree;
        assert forall|i: int| 0 <= i < t0.len() && i != parent implies #[trigger] t3.node(i) == t0.node(i) by {
            assert(t2.node(i) == t1.node(i));
        }
        assert(t2.node(parent as int) == t1.node(parent as int));
    }
    b
}

/// Adds the button for character `actor` to `pane`.
fn add_character_button(tree: &mut WidgetTree, pane: usize, actor: &CharacterInfo, active: bool) -> (b: usize)
    requires
        old(tree).wf(),
        old(tree).alive(pane as int),
        !old(tree).node(pane as int).kind.is_hover(),
        old(tree).len() < usize::MAX,
    ensures
        final(tree).wf(),
        b as int == old(tree).len(),
        final(tree).len() == old(tree).len() + 1,
        button_ok(final(tree).node(b as int), pane, *actor, active),
        final(tree).children_of(pane as int) == old(tree).children_of(pane as int).push(b),
        final(tree).node(pane as int) == (Node { children: final(tree).node(pane as int).children, ..old(tree).node(pane as int) }),
        forall|i: int| 0 <= i < old(tree).len() && i != pane ==> #[trigger] final(tree).node(i) == old(tree).node(i),
        final(tree).mouse_over == old(tree).mouse_over,
{
    proof {
        reveal_strlit("character_button");
        reveal_strlit("name");
        reveal_strlit("portrait");
    }
    let ghost t0 = *tree;
    let b = add_button(tree, pane, "character_button", Callback::SelectCharacter(actor.duplicate()), true, active);
    let ghost t1 = *tree;
    tree.add_text_arg(b, "name", actor.name.as_str());
    let ghost t2 = *tree;
    if let Some(portrait) = &actor.portrait {
        tree.add_text_arg(b, "portrait", portrait.as_str());
    }
    proof {
        let t3 = *tree;
        assert("name"@ != "portrait"@) by {
            assert("name"@[0] != "portrait"@[0]);
        }
        assert forall|i: int| 0 <= i < t0.len() && i != pane implies #[trigger] t3.node(i) == t0.node(i) by {
            assert(t2.node(i) == t1.node(i));
        }
        assert(t2.node(pane as int) == t1.node(pane as int));
        assert(t1.node(b as int).state.arg("portrait"@) is None);
        assert(t2.node(b as int).state.arg("portrait"@) is None);
    }
    b
}

/// A modal widget at index `d` below `k` means some modal widget holds the input.
proof fn lemma_has_modal(t: WidgetTree, d: int, k: int)
    requires
        0 <= d < k,
        t.alive(d),
        t.nodes@[d].state.modal,
    ensures
        t.top_modal_below(k) is Some,
    decreases k,
{
    if k - 1 != d {
        if !(t.alive(k - 1) && t.nodes@[k - 1].state.modal) {
            lemma_has_modal(t, d, k - 1);
        }
    }
}

} // verus!
