use sulis_ui::text::{int_to_string, u64_to_string};

#[test]
fn text_int_to_string_matches_display() {
    for v in [0, 7, 10, 42, -1, -305, i32::MAX, i32::MIN] {
        assert_eq!(int_to_string(v), v.to_string());
    }
    assert_eq!(u64_to_string(1234567890123), "1234567890123");
}
