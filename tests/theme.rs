use sulis_ui::geometry::Sizing;
use sulis_ui::theme::{Theme, ThemeEntry};

#[test]
fn theme_lookup_falls_back_to_default() {
    let theme = Theme {
        entries: vec![
            ThemeEntry { id: "button".to_string(), sizing: Sizing::new(1, 2, 30, 10) },
            ThemeEntry { id: "button".to_string(), sizing: Sizing::new(9, 9, 9, 9) },
        ],
    };
    assert_eq!(theme.lookup("button"), Sizing::new(1, 2, 30, 10));
    assert_eq!(theme.lookup("missing"), Sizing::default_sizing());
}
