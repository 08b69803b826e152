use sulis_ui::callback::Callback;
use sulis_ui::geometry::{Border, Rect, Sizing};
use sulis_ui::kind::WidgetKind;
use sulis_ui::tree::WidgetTree;

fn screen() -> WidgetTree {
    WidgetTree::new(WidgetKind::Empty, "root", Sizing::new(0, 0, 800, 600))
}

fn count_in_child_lists(t: &WidgetTree, w: usize) -> usize {
    t.nodes.iter().filter(|n| n.alive).map(|n| n.children.iter().filter(|&&c| c == w).count()).sum()
}

#[test]
fn tree_add_child_links_both_ways() {
    let mut t = screen();
    let a = t.add_child(0, WidgetKind::Button, "a", Sizing::new(0, 0, 10, 10));
    let b = t.add_child(a, WidgetKind::TextArea, "b", Sizing::new(0, 0, 5, 5));
    assert_eq!(t.parent(a), Some(0));
    assert_eq!(t.parent(b), Some(a));
    assert_eq!(t.parent(0), None);
    assert_eq!(t.nodes[0].children, vec![a]);
    assert_eq!(t.nodes[a].children, vec![b]);
    assert_eq!(t.get_root(b), 0);
    assert_eq!(t.go_up_tree(b, 2), 0);
    assert_eq!(t.go_up_tree(b, 1), a);
    assert_eq!(t.go_up_tree(b, 9), 0);
}

#[test]
fn tree_every_widget_has_one_parent() {
    let mut t = screen();
    let a = t.add_child(0, WidgetKind::Empty, "a", Sizing::default_sizing());
    let b = t.add_child(a, WidgetKind::Button, "b", Sizing::default_sizing());
    let c = t.add_child(0, WidgetKind::Button, "c", Sizing::default_sizing());
    t.mark_for_removal(a);
    t.remove_marked();
    assert_eq!(count_in_child_lists(&t, 0), 0);
    assert_eq!(count_in_child_lists(&t, c), 1);
    assert_eq!(count_in_child_lists(&t, a), 0);
    assert_eq!(count_in_child_lists(&t, b), 0);
}

#[test]
fn tree_removal_sweep_drops_subtree() {
    let mut t = screen();
    let dialog = t.add_child(0, WidgetKind::ConfirmationWindow, "dialog", Sizing::default_sizing());
    let inner = t.add_child(dialog, WidgetKind::Empty, "inner", Sizing::default_sizing());
    let deep = t.add_child(inner, WidgetKind::Button, "deep", Sizing::default_sizing());
    let other = t.add_child(0, WidgetKind::Button, "other", Sizing::default_sizing());
    t.mark_for_removal(inner);
    // Nothing changes until the sweep.
    assert!(t.nodes[inner].alive);
    assert_eq!(t.nodes[dialog].children, vec![inner]);
    t.remove_marked();
    assert!(!t.nodes[inner].alive);
    assert!(!t.nodes[deep].alive);
    assert!(t.nodes[dialog].alive);
    assert!(t.nodes[other].alive);
    assert!(t.nodes[dialog].children.is_empty());
    assert_eq!(t.nodes[0].children, vec![dialog, other]);
}

#[test]
fn tree_root_survives_its_mark() {
    let mut t = screen();
    t.mark_for_removal(0);
    t.remove_marked();
    assert!(t.nodes[0].alive);
}

#[test]
fn tree_layout_places_children_in_parent_inner_rect() {
    let mut t = screen();
    let mut s = Sizing::new(10, 20, 100, 50);
    s.border = Border { top: 2, bottom: 3, left: 4, right: 5 };
    let a = t.add_child(0, WidgetKind::Empty, "a", s);
    let b = t.add_child(a, WidgetKind::Button, "b", Sizing::new(1, 1, 10, 10));
    t.layout();
    assert_eq!(t.nodes[0].state.rect, Rect { x: 0, y: 0, width: 800, height: 600 });
    assert_eq!(t.nodes[a].state.rect, Rect { x: 10, y: 20, width: 100, height: 50 });
    assert_eq!(t.nodes[a].state.inner, Rect { x: 14, y: 22, width: 91, height: 45 });
    assert_eq!(t.nodes[b].state.rect, Rect { x: 15, y: 23, width: 10, height: 10 });
    assert!(!t.nodes[a].layout_invalid);
    assert!(!t.nodes[b].layout_invalid);
}

#[test]
fn tree_layout_is_idempotent() {
    let mut t = screen();
    let a = t.add_child(0, WidgetKind::Empty, "a", Sizing::new(5, 5, 100, 100));
    let b = t.add_child(a, WidgetKind::Button, "b", Sizing::new(7, 9, 10, 10));
    t.invalidate_layout(a);
    t.layout();
    let first: Vec<(Rect, Rect)> = t.nodes.iter().map(|n| (n.state.rect, n.state.inner)).collect();
    t.layout();
    let second: Vec<(Rect, Rect)> = t.nodes.iter().map(|n| (n.state.rect, n.state.inner)).collect();
    assert_eq!(first, second);
    assert_eq!(t.nodes[b].state.rect, Rect { x: 12, y: 14, width: 10, height: 10 });
}

#[test]
fn tree_moving_a_parent_moves_its_children() {
    let mut t = screen();
    let a = t.add_child(0, WidgetKind::Empty, "a", Sizing::new(5, 5, 100, 100));
    let b = t.add_child(a, WidgetKind::Button, "b", Sizing::new(1, 1, 10, 10));
    t.layout();
    t.nodes[a].state.sizing.x = 50;
    t.invalidate_layout(a);
    t.layout();
    assert_eq!(t.nodes[b].state.rect.x, 51);
}

#[test]
fn tree_invalidate_children_flags_subtree_only() {
    let mut t = screen();
    let a = t.add_child(0, WidgetKind::Empty, "a", Sizing::default_sizing());
    let b = t.add_child(a, WidgetKind::Button, "b", Sizing::default_sizing());
    let c = t.add_child(0, WidgetKind::Button, "c", Sizing::default_sizing());
    t.layout();
    t.invalidate_children(a);
    assert!(t.nodes[a].layout_invalid);
    assert!(t.nodes[b].layout_invalid);
    assert!(!t.nodes[c].layout_invalid);
    assert!(!t.nodes[0].layout_invalid);
}

#[test]
fn tree_hit_test_picks_topmost_deepest() {
    let mut t = screen();
    let a = t.add_child(0, WidgetKind::Empty, "a", Sizing::new(0, 0, 100, 100));
    let b = t.add_child(0, WidgetKind::Empty, "b", Sizing::new(50, 50, 100, 100));
    let bb = t.add_child(b, WidgetKind::Button, "bb", Sizing::new(0, 0, 10, 10));
    t.layout();
    assert_eq!(t.hit_test(0, 10, 10), a);
    assert_eq!(t.hit_test(0, 55, 55), bb);
    assert_eq!(t.hit_test(0, 70, 70), b);
    assert_eq!(t.hit_test(0, 700, 500), 0);
}

#[test]
fn tree_modal_dialog_absorbs_clicks_outside() {
    let mut t = screen();
    let button = t.add_child(0, WidgetKind::Button, "button", Sizing::new(10, 10, 50, 20));
    t.add_callback(button, Callback::Play);
    let dialog = t.add_child(0, WidgetKind::ConfirmationWindow, "dialog", Sizing::new(300, 300, 200, 100));
    t.set_flags(dialog, true, false, true);
    let ok = t.add_child(dialog, WidgetKind::Button, "ok", Sizing::new(10, 10, 40, 20));
    t.layout();
    assert_eq!(t.find_top_modal(), Some(dialog));
    let target = t.route_click(20, 15);
    assert_ne!(target, button);
    assert_eq!(target, dialog);
    assert_eq!(t.route_click(315, 315), ok);
}

#[test]
fn tree_without_modal_clicks_reach_buttons() {
    let mut t = screen();
    let button = t.add_child(0, WidgetKind::Button, "button", Sizing::new(10, 10, 50, 20));
    t.layout();
    assert_eq!(t.find_top_modal(), None);
    assert_eq!(t.route_click(20, 15), button);
}

#[test]
fn tree_hover_widget_is_replaced_not_accumulated() {
    let mut t = screen();
    let first = t.set_mouse_over(WidgetKind::EntityMouseover(1), Sizing::new(5, 5, 0, 0));
    let second = t.set_mouse_over(WidgetKind::EntityMouseover(2), Sizing::new(9, 9, 0, 0));
    assert_eq!(t.mouse_over, Some(second));
    assert!(!t.nodes[first].alive);
    assert_eq!(t.nodes[0].children, vec![second]);
    let hovers: Vec<usize> = (0..t.nodes.len())
        .filter(|&i| t.nodes[i].alive && matches!(t.nodes[i].kind, WidgetKind::EntityMouseover(_) | WidgetKind::PropMouseover(_)))
        .collect();
    assert_eq!(hovers, vec![second]);
    assert!(matches!(t.nodes[second].kind, WidgetKind::EntityMouseover(2)));
}

#[test]
fn tree_hover_widget_removed_by_sweep_clears_record() {
    let mut t = screen();
    let h = t.set_mouse_over(WidgetKind::PropMouseover(0), Sizing::default_sizing());
    t.mark_for_removal(h);
    t.remove_marked();
    assert_eq!(t.mouse_over, None);
}

#[test]
fn tree_text_args_replace_in_place() {
    let mut t = screen();
    let a = t.add_child(0, WidgetKind::Label(sulis_ui::label::Label::new_empty()), "a", Sizing::default_sizing());
    t.add_text_arg(a, "name", "x");
    t.add_text_arg(a, "hp", "3");
    t.add_text_arg(a, "name", "y");
    assert_eq!(t.nodes[a].state.text_args.len(), 2);
    assert_eq!(t.nodes[a].state.get_text_arg("name"), Some("y".to_string()));
    assert_eq!(t.nodes[a].state.get_text_arg("hp"), Some("3".to_string()));
    assert_eq!(t.nodes[a].state.get_text_arg("missing"), None);
    t.clear_text_args(a);
    assert!(t.nodes[a].state.text_args.is_empty());
}

#[test]
fn tree_click_chain_walks_up_to_root() {
    let mut t = screen();
    let dialog = t.add_child(0, WidgetKind::ConfirmationWindow, "dialog", Sizing::new(100, 100, 200, 100));
    t.set_flags(dialog, true, false, true);
    let ok = t.add_child(dialog, WidgetKind::Button, "ok", Sizing::new(10, 10, 40, 20));
    t.layout();
    assert_eq!(t.click_chain(115, 115), vec![ok, dialog, 0]);
    assert_eq!(t.click_chain(5, 5), vec![dialog, 0]);
    assert_eq!(t.propagation_chain(0), vec![0]);
}

#[test]
fn tree_set_label_text_reaches_label() {
    let mut t = screen();
    let l = t.add_child(0, WidgetKind::Label(sulis_ui::label::Label::new_empty()), "l", Sizing::default_sizing());
    t.set_label_text(l, "hi");
    match &t.nodes[l].kind {
        WidgetKind::Label(label) => assert_eq!(label.text.as_deref(), Some("hi")),
        _ => panic!("expected a label"),
    }
}

#[test]
fn tree_draw_order_skips_removed_subtree() {
    let mut t = screen();
    let a = t.add_child(0, WidgetKind::Empty, "a", Sizing::default_sizing());
    let b = t.add_child(a, WidgetKind::Button, "b", Sizing::default_sizing());
    let c = t.add_child(0, WidgetKind::Button, "c", Sizing::default_sizing());
    assert_eq!(t.draw_order(), vec![0, a, b, c]);
    t.mark_for_removal(a);
    t.remove_marked();
    assert_eq!(t.draw_order(), vec![0, c]);
}
