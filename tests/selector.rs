use sulis_ui::callback::{Callback, CharacterInfo};
use sulis_ui::character_selector::{fire_callback, CharacterSelector, InputAction};
use sulis_ui::confirmation_window::ConfirmationWindow;
use sulis_ui::geometry::Sizing;
use sulis_ui::kind::WidgetKind;
use sulis_ui::tree::WidgetTree;

fn info(id: &str, name: &str, portrait: Option<&str>) -> CharacterInfo {
    CharacterInfo { id: id.to_string(), name: name.to_string(), portrait: portrait.map(|p| p.to_string()) }
}

fn characters() -> Vec<CharacterInfo> {
    vec![info("a1", "Aria", Some("aria_portrait")), info("b2", "Brom", None), info("c3", "Cyd", None)]
}

fn root() -> WidgetTree {
    WidgetTree::new(WidgetKind::CharacterSelector, "root", Sizing::new(0, 0, 800, 600))
}

#[test]
fn selector_on_add_builds_screen() {
    let mut t = root();
    let mut s = CharacterSelector::new();
    let kids = s.on_add(&mut t, 0, &characters());
    assert_eq!(kids.len(), 7);
    assert_eq!(t.nodes[0].children, kids);
    let themes: Vec<&str> = kids.iter().map(|&k| t.nodes[k].theme.as_str()).collect();
    assert_eq!(themes, vec!["title", "characters_title", "characters_pane", "new_character_button",
        "delete_character_button", "play_button", "details"]);
    let pane = kids[2];
    assert_eq!(t.nodes[pane].children.len(), 3);
    let first = t.nodes[pane].children[0];
    assert_eq!(t.nodes[first].state.get_text_arg("name"), Some("Aria".to_string()));
    assert_eq!(t.nodes[first].state.get_text_arg("portrait"), Some("aria_portrait".to_string()));
    let second = t.nodes[pane].children[1];
    assert_eq!(t.nodes[second].state.get_text_arg("portrait"), None);
    assert!(!t.nodes[first].state.active);
    assert!(!t.nodes[kids[4]].state.enabled);
    assert!(!t.nodes[kids[5]].state.enabled);
    assert!(s.selected().is_none());
}

#[test]
fn selector_to_select_picks_character() {
    let mut t = root();
    let mut s = CharacterSelector::new();
    s.set_to_select("b2");
    let kids = s.on_add(&mut t, 0, &characters());
    assert_eq!(s.selected().as_ref().map(|c| c.id.as_str()), Some("b2"));
    // The delete button names the selection held before the screen was built.
    assert!(matches!(&t.nodes[kids[4]].state.callbacks[0], Callback::OpenDeleteDialog(id, name) if id.is_empty() && name.is_empty()));
    assert!(s.to_select.is_none());
    let pane = kids[2];
    let buttons = t.nodes[pane].children.clone();
    assert!(!t.nodes[buttons[0]].state.active);
    assert!(t.nodes[buttons[1]].state.active);
    assert!(!t.nodes[buttons[2]].state.active);
    // The delete button was set up before the selection was made.
    assert!(!t.nodes[kids[4]].state.enabled);
    assert!(t.nodes[kids[5]].state.enabled);
}

#[test]
fn selector_unknown_to_select_is_kept() {
    let mut t = root();
    let mut s = CharacterSelector::new();
    s.set_to_select("zz");
    s.on_add(&mut t, 0, &characters());
    assert!(s.selected().is_none());
    assert_eq!(s.to_select.as_deref(), Some("zz"));
}

#[test]
fn selector_menu_key_opens_modal_exit_dialog() {
    let mut t = root();
    let mut s = CharacterSelector::new();
    s.set_to_select("a1");
    assert!(!s.on_key_press(&mut t, 0, InputAction::EndTurn));
    assert_eq!(t.nodes.len(), 1);
    assert_eq!(s.to_select.as_deref(), Some("a1"));
    assert!(s.on_key_press(&mut t, 0, InputAction::ShowMenu));
    let dialog = t.nodes[0].children[0];
    assert!(matches!(t.nodes[dialog].kind, WidgetKind::ConfirmationWindow));
    assert_eq!(t.nodes[dialog].theme, "exit_confirmation_window");
    assert!(t.nodes[dialog].state.modal);
    assert_eq!(t.find_top_modal(), Some(dialog));
    let accept = t.nodes[dialog].children[1];
    assert!(matches!(t.nodes[accept].state.callbacks[0], Callback::Exit));
    let cb = t.nodes[accept].state.callbacks[0].clone();
    assert!(fire_callback(&mut t, &mut s, accept, cb).is_none());
    assert!(s.is_exit());
}

#[test]
fn selector_cancel_closes_dialog() {
    let mut t = root();
    let mut s = CharacterSelector::new();
    s.on_key_press(&mut t, 0, InputAction::ShowMenu);
    let dialog = t.nodes[0].children[0];
    let cancel = t.nodes[dialog].children[0];
    let cb = t.nodes[cancel].state.callbacks[0].clone();
    fire_callback(&mut t, &mut s, cancel, cb);
    t.remove_marked();
    assert!(!t.nodes[dialog].alive);
    assert!(!t.nodes[cancel].alive);
    assert!(t.nodes[0].children.is_empty());
    assert_eq!(t.find_top_modal(), None);
    assert!(!s.is_exit());
}

#[test]
fn selector_select_then_delete() {
    let mut t = root();
    let mut s = CharacterSelector::new();
    let kids = s.on_add(&mut t, 0, &characters());
    let pane = kids[2];
    let brom = t.nodes[pane].children[1];
    let cb = t.nodes[brom].state.callbacks[0].clone();
    fire_callback(&mut t, &mut s, brom, cb);
    assert_eq!(s.selected().as_ref().map(|c| c.name.as_str()), Some("Brom"));
    assert!(t.nodes[0].layout_invalid);

    let delete = Callback::OpenDeleteDialog("b2".to_string(), "Brom".to_string());
    let n = t.nodes.len();
    fire_callback(&mut t, &mut s, kids[4], delete);
    assert_eq!(t.nodes[n].theme, "delete_character_confirmation_window");
    assert!(t.nodes[n].state.modal);
    assert_eq!(t.nodes[n + 3].state.get_text_arg("name"), Some("Brom".to_string()));
    let accept = n + 2;
    let cb = t.nodes[accept].state.callbacks[0].clone();
    let request = fire_callback(&mut t, &mut s, accept, cb);
    assert_eq!(request.as_deref(), Some("b2"));
    assert!(s.selected().is_none());
    assert!(t.nodes[accept].marked_for_removal);
}

#[test]
fn selector_new_character_and_play() {
    let mut t = root();
    let mut s = CharacterSelector::new();
    let kids = s.on_add(&mut t, 0, &characters());
    let n = t.nodes.len();
    fire_callback(&mut t, &mut s, kids[3], Callback::NewCharacter);
    assert!(matches!(t.nodes[n].kind, WidgetKind::CharacterBuilder));
    assert_eq!(t.nodes[n].parent, Some(0));
    assert!(t.nodes[n].state.modal);
    fire_callback(&mut t, &mut s, kids[5], Callback::Play);
    assert!(matches!(t.nodes[n + 1].kind, WidgetKind::LoadingScreen));
    assert!(s.is_exit());
}

#[test]
fn confirmation_window_children() {
    let mut t = root();
    let d = t.add_child(0, WidgetKind::ConfirmationWindow, "dialog", Sizing::default_sizing());
    let w = ConfirmationWindow::new(Callback::Play);
    assert_eq!(w.get_name(), "confirmation_window");
    let kids = w.on_add(&mut t, d);
    assert_eq!(t.nodes[d].children, kids);
    assert_eq!(t.nodes[kids[0]].theme, "cancel");
    assert_eq!(t.nodes[kids[1]].theme, "accept");
    assert_eq!(t.nodes[kids[2]].theme, "title");
    assert!(matches!(t.nodes[kids[0]].state.callbacks[0], Callback::RemoveParent));
    assert!(matches!(t.nodes[kids[1]].state.callbacks[0], Callback::Play));
}
