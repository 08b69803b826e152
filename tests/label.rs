use sulis_ui::geometry::Rect;
use sulis_ui::label::Label;

fn rect(x: i32, y: i32, width: i32, height: i32) -> Rect {
    Rect { x, y, width, height }
}

#[test]
fn label_new_holds_text() {
    let l = Label::new("hello");
    assert_eq!(l.text.as_deref(), Some("hello"));
}

#[test]
fn label_new_empty_has_no_text() {
    let l = Label::new_empty();
    assert!(l.text.is_none());
}

#[test]
fn label_set_and_clear_text() {
    let mut l = Label::new_empty();
    l.set_text("abc");
    assert_eq!(l.text.as_deref(), Some("abc"));
    l.clear_text();
    assert!(l.text.is_none());
}

#[test]
fn label_draw_centres_text() {
    let l = Label::new("abcd");
    let d = l.draw_text_mode(&rect(2, 3, 10, 1), 80, 25).unwrap();
    assert_eq!(d.x, 5);
    assert_eq!(d.y, 3);
    assert_eq!(d.text, "abcd");
}

#[test]
fn label_draw_clips_to_width() {
    let l = Label::new("abcdefgh");
    let d = l.draw_text_mode(&rect(0, 0, 3, 1), 80, 25).unwrap();
    assert_eq!(d.x, 0);
    assert_eq!(d.text, "abc");
}

#[test]
fn label_draw_off_grid_draws_nothing() {
    let l = Label::new("abc");
    assert!(l.draw_text_mode(&rect(100, 0, 3, 1), 80, 25).is_none());
    assert!(l.draw_text_mode(&rect(0, -1, 3, 1), 80, 25).is_none());
    assert!(Label::new_empty().draw_text_mode(&rect(0, 0, 3, 1), 80, 25).is_none());
}
