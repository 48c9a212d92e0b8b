use sadhana_frontend::duration_input::{format_duration_str, format_time, sanitize_duration_input};

#[test]
fn test_format_duration() {
    let input = "90"; // 90 minutes
    let expected = Some("1h30m".to_string());
    assert_eq!(format_duration_str(input), expected);

    let input = "120"; // 120 minutes
    let expected = Some("2h0m".to_string());
    assert_eq!(format_duration_str(input), expected);

    let input = ""; // Empty input
    let expected = None;
    assert_eq!(format_duration_str(input), expected);

    let input = "23h"; // Invalid input
    let expected = None;
    assert_eq!(format_duration_str(input), expected);
}

#[test]
fn normal_forms_of_durations() {
    assert_eq!(format_duration_str(""), None);
    assert_eq!(format_duration_str("90").as_deref(), Some("1h30m"));
    assert_eq!(format_duration_str("45").as_deref(), Some("45m"));
    assert_eq!(format_duration_str("45m").as_deref(), Some("45m"));
    assert_eq!(format_duration_str("0").as_deref(), Some("0m"));
    assert_eq!(format_duration_str("2h"), None);
    assert_eq!(format_duration_str("12:"), None);
    assert_eq!(format_duration_str("1:5").as_deref(), Some("1h5m"));
    assert_eq!(format_duration_str("1h30").as_deref(), Some("1h30m"));
    assert_eq!(format_duration_str("1h 30m").as_deref(), Some("1h30m"));
    assert_eq!(format_duration_str("23h"), None);
    assert_eq!(format_duration_str("23h5").as_deref(), Some("23h5m"));
    assert_eq!(format_duration_str("999").as_deref(), Some("16h39m"));
    assert_eq!(format_duration_str("abc"), None);
    assert_eq!(format_duration_str("24h"), None);
    assert_eq!(format_duration_str("1h60"), None);
}

#[test]
fn typing_a_time() {
    let t = format_time("1234", 4, 4, false);
    assert_eq!(t.value, "12:34");
    assert_eq!((t.selection_start, t.selection_end), (5, 5));
    let t = format_time("9", 1, 1, false);
    assert_eq!(t.value, "09:--");
    assert_eq!(t.selection_start, 3);
    let t = format_time("25", 2, 2, false);
    assert_eq!(t.value, "2-:--");
    assert_eq!(t.selection_start, 1);
    let t = format_time("12:3", 4, 4, false);
    assert_eq!(t.value, "12:3-");
    assert_eq!(t.selection_start, 4);
    let t = format_time("127", 3, 3, false);
    assert_eq!(t.value, "12:07");
    assert_eq!(t.selection_start, 5);
    let t = format_time("", 0, 0, false);
    assert_eq!(t.value, "--:--");
    assert_eq!(t.selection_start, 0);
}

#[test]
fn deleting_in_a_time() {
    let t = format_time("12:3", 4, 4, true);
    assert_eq!(t.value, "12:3-");
    assert_eq!((t.selection_start, t.selection_end), (4, 4));
    let t = format_time("12:", 3, 3, true);
    assert_eq!(t.value, "12:--");
    assert_eq!(t.selection_start, 2);
}

#[test]
fn removing_what_breaks_a_duration() {
    assert_eq!(sanitize_duration_input("9x", 2), "9");
    assert_eq!(sanitize_duration_input("1h30", 4), "1h30");
    assert_eq!(sanitize_duration_input("abc", 0), "abc");
    assert_eq!(sanitize_duration_input("1hh", 3), "1h");
}

#[test]
fn normal_forms_stay_normal() {
    for input in ["90", "999", "1:5", "1h 30m", "23h5", "45", "12:59m"] {
        let once = format_duration_str(input).unwrap();
        assert_eq!(format_duration_str(&once).as_deref(), Some(once.as_str()));
    }
    // A normal form that starts with 0 may lose that zero.
    assert_eq!(format_duration_str("0:05").as_deref(), Some("05m"));
    assert_eq!(format_duration_str("05m").as_deref(), Some("5m"));
}
