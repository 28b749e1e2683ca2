use lfc::calendar::extract_opponent;

#[test]
fn opponent_of_a_home_game_follows_the_separator() {
    assert_eq!(extract_opponent("Liverpool vs PSV", true), Some("PSV".to_string()));
}

#[test]
fn opponent_of_an_away_game_precedes_the_separator() {
    assert_eq!(
        extract_opponent("Internazionale vs Liverpool", false),
        Some("Internazionale".to_string())
    );
}

#[test]
fn opponent_is_trimmed() {
    assert_eq!(extract_opponent("Liverpool vs   Everton \t", true), Some("Everton".to_string()));
    assert_eq!(extract_opponent("  Arsenal  vs Liverpool", false), Some("Arsenal".to_string()));
}

#[test]
fn title_without_separator_names_no_opponent() {
    assert_eq!(extract_opponent("Liverpool v PSV", true), None);
    assert_eq!(extract_opponent("", true), None);
}

#[test]
fn title_with_two_separators_names_no_opponent() {
    assert_eq!(extract_opponent("A vs B vs C", true), None);
}

use lfc::calendar::{
    day_number, fixture_of_event, fixture_on_day_of, keep_plain_chars, parse_ical,
    property_value, sort_by_date, CalendarError, CalendarProperty, Fixture,
};

fn seconds(y: i32, m: u32, d: u32, h: u32, min: u32, s: u32) -> i64 {
    chrono::NaiveDate::from_ymd_opt(y, m, d)
        .unwrap()
        .and_hms_opt(h, min, s)
        .unwrap()
        .and_utc()
        .timestamp()
}

fn property(name: &str, value: Option<&str>) -> CalendarProperty {
    CalendarProperty { name: name.to_string(), value: value.map(|v| v.to_string()) }
}

fn fixture(date: i64, opponent: &str) -> Fixture {
    Fixture { date, opponent: opponent.to_string() }
}

const CALENDAR: &str = "BEGIN:VCALENDAR\r\nVERSION:2.0\r\nBEGIN:VEVENT\r\nSUMMARY:\u{26BD} Liverpool vs PSV\r\nLOCATION:Anfield, Liverpool\r\nDTSTART:20251126T200000Z\r\nEND:VEVENT\r\nBEGIN:VEVENT\r\nSUMMARY:Internazionale vs Liverpool\r\nLOCATION:San Siro\r\nDTSTART:20251109T163000\r\nEND:VEVENT\r\nBEGIN:VEVENT\r\nSUMMARY:Training day\r\nLOCATION:Kirkby\r\nDTSTART:20251101T100000Z\r\nEND:VEVENT\r\nBEGIN:VEVENT\r\nSUMMARY:Liverpool vs Everton\r\nDTSTART:20251201T100000Z\r\nEND:VEVENT\r\nBEGIN:VEVENT\r\nSUMMARY:Liverpool vs Chelsea\r\nLOCATION:Anfield\r\nDTSTART:2025-12-01\r\nEND:VEVENT\r\nEND:VCALENDAR\r\n";

#[test]
fn fixtures_are_read_and_put_in_order() {
    let fixtures = parse_ical(CALENDAR).unwrap();
    assert_eq!(
        fixtures,
        vec![
            fixture(seconds(2025, 11, 9, 16, 30, 0), "Internazionale"),
            fixture(seconds(2025, 11, 26, 20, 0, 0), "PSV"),
        ]
    );
}

#[test]
fn calendar_without_entries_has_no_fixtures() {
    assert_eq!(parse_ical("BEGIN:VCALENDAR\r\nEND:VCALENDAR\r\n"), Ok(vec![]));
    assert_eq!(parse_ical(""), Ok(vec![]));
}

#[test]
fn malformed_calendar_is_an_error() {
    assert_eq!(parse_ical("BEGIN:VEVENT\r\nEND:VEVENT\r\n"), Err(CalendarError::Malformed));
    assert_eq!(
        parse_ical("BEGIN:VCALENDAR\r\nBEGIN:VEVENT\r\nSUMMARY:x\r\n"),
        Err(CalendarError::Malformed)
    );
}

#[test]
fn value_of_the_first_property_with_a_name() {
    let properties = vec![
        property("DTSTART", Some("1")),
        property("SUMMARY", None),
        property("SUMMARY", Some("later")),
        property("LOCATION", Some("Anfield")),
    ];
    assert_eq!(property_value(&properties, "DTSTART"), Some("1".to_string()));
    assert_eq!(property_value(&properties, "SUMMARY"), None);
    assert_eq!(property_value(&properties, "LOCATION"), Some("Anfield".to_string()));
    assert_eq!(property_value(&properties, "location"), None);
    assert_eq!(property_value(&vec![], "SUMMARY"), None);
}

#[test]
fn entry_with_title_place_and_start_is_a_fixture() {
    let home = vec![
        property("SUMMARY", Some("\u{1F3C6} Liverpool vs Real Madrid ")),
        property("LOCATION", Some("Anfield")),
        property("DTSTART", Some("20251104T200000Z")),
    ];
    assert_eq!(
        fixture_of_event(&home),
        Some(fixture(seconds(2025, 11, 4, 20, 0, 0), "Real Madrid"))
    );
    let away = vec![
        property("SUMMARY", Some("Manchester City vs Liverpool")),
        property("LOCATION", Some("Etihad Stadium")),
        property("DTSTART", Some("20251109T163000")),
    ];
    assert_eq!(
        fixture_of_event(&away),
        Some(fixture(seconds(2025, 11, 9, 16, 30, 0), "Manchester City"))
    );
}

#[test]
fn entry_that_lacks_a_part_is_no_fixture() {
    let no_place = vec![
        property("SUMMARY", Some("Liverpool vs PSV")),
        property("DTSTART", Some("20251104T200000Z")),
    ];
    assert_eq!(fixture_of_event(&no_place), None);
    let bad_start = vec![
        property("SUMMARY", Some("Liverpool vs PSV")),
        property("LOCATION", Some("Anfield")),
        property("DTSTART", Some("20251104")),
    ];
    assert_eq!(fixture_of_event(&bad_start), None);
    let no_opponent = vec![
        property("SUMMARY", Some("Liverpool - PSV")),
        property("LOCATION", Some("Anfield")),
        property("DTSTART", Some("20251104T200000Z")),
    ];
    assert_eq!(fixture_of_event(&no_opponent), None);
}

#[test]
fn only_basic_latin_and_white_space_is_kept() {
    let kept: String = keep_plain_chars(&"\u{26BD} Li\u{e9}ge\u{3000}vs \u{1F600}x".chars().collect()).iter().collect();
    assert_eq!(kept, " Lige\u{3000}vs x");
}

#[test]
fn sorting_is_by_start_and_keeps_ties_in_order() {
    let sorted = sort_by_date(vec![
        fixture(30, "c"),
        fixture(10, "a1"),
        fixture(20, "b"),
        fixture(10, "a2"),
        fixture(-5, "z"),
    ]);
    assert_eq!(
        sorted,
        vec![fixture(-5, "z"), fixture(10, "a1"), fixture(10, "a2"), fixture(20, "b"), fixture(30, "c")]
    );
    assert_eq!(sort_by_date(vec![]), vec![]);
}

#[test]
fn day_numbers_round_down() {
    assert_eq!(day_number(0), 0);
    assert_eq!(day_number(86399), 0);
    assert_eq!(day_number(86400), 1);
    assert_eq!(day_number(-1), -1);
    assert_eq!(day_number(-86400), -1);
    assert_eq!(day_number(-86401), -2);
    for s in [i64::MIN, i64::MIN + 1, -172800, -12345, 12345, i64::MAX] {
        assert_eq!(day_number(s), s.div_euclid(86400));
    }
}

#[test]
fn todays_fixture_is_the_first_of_the_day() {
    let fixtures = vec![
        fixture(seconds(2025, 11, 9, 16, 30, 0), "Manchester City"),
        fixture(seconds(2025, 11, 26, 12, 0, 0), "Early"),
        fixture(seconds(2025, 11, 26, 20, 0, 0), "PSV"),
    ];
    assert_eq!(
        fixture_on_day_of(&fixtures, seconds(2025, 11, 26, 23, 59, 59)),
        Some(fixture(seconds(2025, 11, 26, 12, 0, 0), "Early"))
    );
    assert_eq!(
        fixture_on_day_of(&fixtures, seconds(2025, 11, 9, 0, 0, 0)),
        Some(fixture(seconds(2025, 11, 9, 16, 30, 0), "Manchester City"))
    );
    assert_eq!(fixture_on_day_of(&fixtures, seconds(2025, 11, 10, 0, 0, 0)), None);
    assert_eq!(fixture_on_day_of(&vec![], 0), None);
}

use lfc::calendar::check_today_fixture;

#[test]
fn todays_fixture_is_found_in_calendar_text() {
    assert_eq!(
        check_today_fixture(CALENDAR, seconds(2025, 11, 26, 8, 0, 0)),
        Ok(Some(fixture(seconds(2025, 11, 26, 20, 0, 0), "PSV")))
    );
    assert_eq!(check_today_fixture(CALENDAR, seconds(2025, 11, 27, 8, 0, 0)), Ok(None));
    assert_eq!(check_today_fixture("BEGIN:VEVENT\r\n", 0), Err(CalendarError::Malformed));
}
