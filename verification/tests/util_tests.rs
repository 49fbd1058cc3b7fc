use lecture::util::{format_duration, format_duration_ms, normalize_whitespace, slugify};

#[test]
fn slugify_collapses_separators() {
    assert_eq!(slugify("Computer Networks 101"), "computer-networks-101");
}

#[test]
fn duration_formats_as_hms() {
    assert_eq!(format_duration(3723), "01:02:03");
}

#[test]
fn slugify_trims_and_strips_dashes() {
    assert_eq!(slugify("  --Hello,  World!! "), "hello-world");
    assert_eq!(slugify("a__b"), "a-b");
}

#[test]
fn slugify_falls_back_to_session() {
    assert_eq!(slugify("!!!"), "session");
    assert_eq!(slugify(""), "session");
    assert_eq!(slugify("   "), "session");
}

#[test]
fn slugify_keeps_unicode_letters() {
    assert_eq!(slugify("Física 2"), "física-2");
    assert_eq!(slugify("Clase de Álgebra"), "clase-de-Álgebra");
}

#[test]
fn duration_without_hours_is_minutes_seconds() {
    assert_eq!(format_duration(0), "00:00");
    assert_eq!(format_duration(59), "00:59");
    assert_eq!(format_duration(3599), "59:59");
    assert_eq!(format_duration(360000), "100:00:00");
}

#[test]
fn duration_ms_uses_whole_seconds() {
    assert_eq!(format_duration_ms(61_999), "01:01");
    assert_eq!(format_duration_ms(999), "00:00");
    assert_eq!(format_duration_ms(3_723_500), format_duration(3723));
}

#[test]
fn whitespace_is_normalized() {
    assert_eq!(normalize_whitespace("  a \t b\n\nc  "), "a b c");
    assert_eq!(normalize_whitespace(""), "");
    assert_eq!(normalize_whitespace("x\u{3000}y"), "x y");
    let once = normalize_whitespace(" hola   mundo \n");
    assert_eq!(normalize_whitespace(&once), once);
}

#[test]
fn slug_of_a_slug_is_the_slug() {
    for title in ["Computer Networks 101", "  --Hello,  World!! ", "!!!", "Física 2", "a__b", ""] {
        let once = slugify(title);
        assert_eq!(slugify(&once), once);
    }
}
