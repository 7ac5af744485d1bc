use production_importer::dates;

#[test]
fn days_are_read_in_each_style() {
    for (style, day) in [
        (1, "01/31/20"),
        (2, "20.01.31"),
        (3, "31/01/20"),
        (4, "31.01.20"),
        (5, "31-01-20"),
        (6, "31 Jan 20"),
        (7, "Jan 31, 20"),
        (9, "Jan 31 2020"),
        (10, "01-31-20"),
        (11, "20/01/31"),
        (12, "200131"),
        (13, "31 Jan 2020"),
        (20, "2020-01-31"),
        (21, "2020-01-31"),
        (22, "01/31/20"),
        (23, "2020-01-31"),
        (25, "2020-01-31"),
        (100, "Jan 31 2020"),
        (101, "01/31/2020"),
        (102, "2020.01.31"),
        (103, "31/01/2020"),
        (104, "31.01.2020"),
        (105, "31-01-2020"),
        (106, "31 Jan 2020"),
        (107, "Jan 31, 2020"),
        (109, "Jan 31 2020"),
        (110, "01-31-2020"),
        (111, "2020/01/31"),
        (112, "20200131"),
        (113, "31 Jan 2020"),
        (120, "2020-01-31"),
        (121, "2020-01-31"),
        (126, "2020-01-31"),
        (127, "2020-01-31"),
    ] {
        assert!(dates::is_date(day, style), "{} in style {}", day, style);
        assert!(!dates::is_date("", style), "empty in style {}", style);
        assert!(!dates::is_date("n/a", style), "n/a in style {}", style);
        assert!(!dates::is_date(&day.replace("31", "32"), style), "32 in style {}", style);
    }
}

#[test]
fn days_with_times_are_read_in_each_style() {
    for (style, moment) in [
        (9, "Jan  2 2020 11:59:58.1234567PM"),
        (13, "02 Jan 2020 23:59:58.123"),
        (20, "2020-01-02 23:59:58"),
        (21, "2020-01-02 23:59:58.1234567"),
        (22, "01/02/20 11:59:58 PM"),
        (25, "2020-01-02 23:59:58.123"),
        (100, "Jan  2 2020 12:00AM"),
        (109, "Jan  2 2020 11:59:58.1234567PM"),
        (113, "02 Jan 2020 23:59:58.123"),
        (120, "2020-01-02 23:59:58"),
        (121, "2020-01-02 23:59:58.1234567"),
        (126, "2020-01-02T23:59:58.1234567"),
        (126, "2020-01-02T23:59:58"),
        (127, "2020-01-02T23:59:58.123"),
        (127, "2020-01-02T23:59:58.123Z"),
    ] {
        assert!(dates::is_date(moment, style), "{} in style {}", moment, style);
        assert!(!dates::is_date(moment, 23), "{} in style 23", moment);
    }
}

#[test]
fn one_style_is_not_another() {
    assert!(!dates::is_date("31/01/2020", 101));
    assert!(!dates::is_date("01/31/2020", 103));
    assert!(!dates::is_date("31/01/2020", 104));
    assert!(!dates::is_date("2020-01-31", 111));
    assert!(!dates::is_date("2020-01-31", 112));
    assert!(!dates::is_date("20200131", 23));
}

#[test]
fn calendar_decides_in_every_order_of_digits() {
    for (style, leap, common) in [
        (101, "02/29/2020", "02/29/1900"),
        (102, "2000.02.29", "2021.02.29"),
        (103, "29/02/2020", "29/02/2021"),
        (104, "30.04.2020", "31.04.2020"),
        (105, "31-12-9999", "31-13-9999"),
        (110, "01-01-0000", "00-01-0000"),
        (111, "2020/11/30", "2020/11/31"),
        (112, "20200229", "20210229"),
    ] {
        assert!(dates::is_date(leap, style), "{} in style {}", leap, style);
        assert!(!dates::is_date(common, style), "{} in style {}", common, style);
    }
}

#[test]
fn styles_without_formats_keep_what_was_written() {
    for style in [8, 14, 24, 50, 108, 114, 130] {
        assert!(dates::formats(style).is_empty());
        assert!(dates::is_date("23:59:58", style));
        assert!(!dates::is_date("", style));
    }
}

#[test]
fn formats_of_styles() {
    assert_eq!(dates::formats(103), vec!["%d/%m/%Y"]);
    assert_eq!(dates::formats(120), vec!["%Y-%m-%d", "%Y-%m-%d %H:%M:%S"]);
    assert_eq!(
        dates::formats(127),
        vec!["%Y-%m-%d", "%Y-%m-%dT%H:%M:%S%.f", "%Y-%m-%dT%H:%M:%S%.fZ"]
    );
}

#[test]
fn short_years_are_near_the_millennium() {
    assert!(dates::is_date("29/02/00", 3));
    assert!(dates::is_date("29/02/68", 3));
    assert!(!dates::is_date("29/02/69", 3));
    assert!(!dates::is_date("29/02/70", 3));
    assert!(dates::is_date("29/02/72", 3));
    assert!(dates::is_date("720229", 12));
    assert!(!dates::is_date("730229", 12));
    for (style, good, bad) in [
        (1, "02/29/04", "02/29/05"),
        (2, "96.02.29", "97.02.29"),
        (4, "31.12.99", "31.11.99"),
        (5, "30-04-70", "31-04-70"),
        (10, "12-31-00", "13-31-00"),
        (11, "20/06/30", "20/06/31"),
    ] {
        assert!(dates::is_date(good, style), "{} in style {}", good, style);
        assert!(!dates::is_date(bad, style), "{} in style {}", bad, style);
    }
}

#[test]
fn names_and_times_are_checked() {
    for name in [
        "Jan", "Feb", "Mar", "Apr", "May", "Jun", "Jul", "Aug", "Sep", "Oct", "Nov", "Dec",
    ] {
        assert!(dates::is_date(&format!("05 {} 2020", name), 106));
        assert!(dates::is_date(&format!(" 5 {} 20", name), 6));
    }
    assert!(!dates::is_date("05 Foo 2020", 106));
    assert!(!dates::is_date("30 Feb 2020", 106));
    assert!(dates::is_date("2020-01-02 00:00:00", 120));
    assert!(dates::is_date("2020-01-02 23:59:60", 120));
    assert!(!dates::is_date("2020-01-02 24:00:00", 120));
    assert!(!dates::is_date("2020-01-02 23:60:00", 120));
    assert!(!dates::is_date("2020-01-02 23:59:61", 120));
    assert!(dates::is_date("Jan  2 2020  1:05AM", 100));
    assert!(dates::is_date("Jan  2 2020 12:05PM", 100));
    assert!(!dates::is_date("Jan  2 2020 13:05PM", 100));
    assert!(!dates::is_date("Jan  2 2020 00:05AM", 100));
    assert!(dates::is_date("2020-01-02 23:59:58.1", 121));
    assert!(dates::is_date("2020-01-02 23:59:58.123456789", 121));
    assert!(!dates::is_date("2020-01-02 23:59:58.", 121));
    assert!(dates::is_date("2020-01-02 23:59:58", 121));
}

#[test]
fn foreign_characters_are_in_no_date() {
    for s in ["31/01/2020x", "n/a", "31/01/2020\u{e9}", "31/01/\u{662}020", "31/01/2020\\", "31/01\"2020"] {
        assert!(!dates::is_date(s, 103), "{:?}", s);
    }
    assert!(!dates::is_date("31 Jan_2020", 106));
}
