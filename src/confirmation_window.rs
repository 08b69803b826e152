use vstd::prelude::*;

use crate::callback::Callback;
use crate::geometry::Sizing;
use crate::kind::WidgetKind;
use crate::label::Label;
use crate::tree::WidgetTree;

verus! {

/// A dialog asking the user to confirm an action: a title, a cancel button
/// that closes the dialog, and an accept button running the given callback.
#[derive(Debug)]
pub struct ConfirmationWindow {
    pub accept_callback: Callback,
}

/// The children a confirmation window attaches under `w`: cancel, accept
/// and title, in that order.
pub open spec fn window_children_ok(t0: WidgetTree, t1: WidgetTree, w: int, accept: Callback, r: Seq<usize>) -> bool {
    let n = t0.len();
    &&& t1.wf()
    &&& t1.len() == n + 3
    &&& r == seq![n as usize, (n + 1) as usize, (n + 2) as usize]
    &&& t1.children_of(w) == t0.children_of(w) + r
    &&& t1.node(n).kind == WidgetKind::Button
    &&& t1.node(n).theme@ == "cancel"@
    &&& t1.node(n).state.callbacks@ == seq![Callback::RemoveParent]
    &&& t1.node(n + 1).kind == WidgetKind::Button
    &&& t1.node(n + 1).theme@ == "accept"@
    &&& t1.node(n + 1).state.callbacks@ == seq![accept]
    &&& t1.node(n + 2).kind == WidgetKind::Label(Label { text: None })
    &&& t1.node(n + 2).theme@ == "title"@
    &&& forall|i: int| 0 <= i < n && i != w ==> #[trigger] t1.node(i) == t0.node(i)
    &&& t1.node(w).state == t0.node(w).state
    &&& t1.node(w).kind == t0.node(w).kind
    &&& t1.node(w).theme == t0.node(w).theme
    &&& t1.node(w).parent == t0.node(w).parent
    &&& t1.mouse_over == t0.mouse_over
    &&& forall|i: int| n <= i < n + 3 ==> (#[trigger] t1.node(i)).parent == Some(w as usize) && t1.node(i).alive
}

impl ConfirmationWindow {
    pub fn new(accept_callback: Callback) -> (r: ConfirmationWindow)
        ensures
            r.accept_callback == accept_callback,
    {
        ConfirmationWindow { accept_callback }
    }

    pub fn get_name(&self) -> (r: &'static str)
        ensures
            r@ == "confirmation_window"@,
    {
        "confirmation_window"
    }

    /// Attaches the dialog's children under `w` and returns them: the
    /// cancel button, the accept button and the title label.
    pub fn on_add(self, tree: &mut WidgetTree, w: usize) -> (r: Vec<usize>)
        requires
            old(tree).wf(),
            old(tree).alive(w as int),
            !old(tree).node(w as int).kind.is_hover(),
            old(tree).len() + 3 <= usize::MAX,
        ensures
            window_children_ok(*old(tree), *final(tree), w as int, self.accept_callback, r@),
    {
        let ghost t0 = *tree;
        let ghost accept = self.accept_callback;
        proof {
            reveal_strlit("cancel");
            reveal_strlit("accept");
            reveal_strlit("title");
        }
        let cancel = tree.add_child(w, WidgetKind::Button, "cancel", Sizing::default_sizing());
        let ghost a = *tree;
        tree.add_callback(cancel, Callback::RemoveParent);
        let ghost b = *tree;
        let quit = tree.add_child(w, WidgetKind::Button, "accept", Sizing::default_sizing());
        let ghost c = *tree;
        tree.add_callback(quit, self.accept_callback);
        let ghost d = *tree;
        let label = tree.add_child(w, WidgetKind::Label(Label::new_empty()), "title", Sizing::default_sizing());
        let mut r: Vec<usize> = Vec::new();
        r.push(cancel);
        r.push(quit);
        r.push(label);
        proof {
            let t1 = *tree;
            assert(t1.children_of(w as int) =~= t0.children_of(w as int) + r@);
            assert forall|i: int| 0 <= i < t0.len() && i != w implies #[trigger] t1.node(i) == t0.node(i) by {
                assert(a.node(i) == t0.node(i));
                assert(b.node(i) == a.node(i));
                assert(c.node(i) == b.node(i));
                assert(d.node(i) == c.node(i));
                assert(t1.node(i) == d.node(i));
            }
            assert(c.node(cancel as int) == b.node(cancel as int));
            assert(d.node(cancel as int) == c.node(cancel as int));
            assert(t1.node(cancel as int) == d.node(cancel as int));
            assert(d.node(quit as int) == d.nodes@[quit as int]);
            assert(t1.node(quit as int) == d.node(quit as int));
            assert forall|i: int| t0.len() <= i < t0.len() + 3 implies (#[trigger] t1.node(i)).parent == Some(w) && t1.node(i).alive by {
                if i == cancel {
                } else if i == quit {
                }
            }
            let n = t0.len();
            assert(t1.len() == n + 3);
            assert(t1.node(n).kind == WidgetKind::Button);
            assert(t1.node(n).theme@ == "cancel"@);
            assert(t1.node(n).state.callbacks@ == seq![Callback::RemoveParent]);
            assert(t1.node(n + 1).kind == WidgetKind::Button);
            assert(t1.node(n + 1).theme@ == "accept"@);
            assert(t1.node(n + 1).state.callbacks@ == seq![accept]);
            assert(t1.node(n + 2).kind == WidgetKind::Label(Label { text: None }));
            assert(t1.node(w as int).state == t0.node(w as int).state);
            assert(t1.node(w as int).kind == t0.node(w as int).kind);
            assert(t1.mouse_over == t0.mouse_over);
            assert(t1.node(n + 2).theme@ == "title"@);
            assert(r@ =~= seq![n as usize, (n + 1) as usize, (n + 2) as usize]);
            assert(t1.wf());
            assert(t1.node(w as int).parent == t0.node(w as int).parent);
        }
        r
    }
}

} // verus!
