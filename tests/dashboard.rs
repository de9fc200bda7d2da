use epaper_dash::calendar::{event_from_properties, event_time_label, join_range, parse_ics_datetime, IcsProperty, select_events, CalendarEvent, Stamp};
use epaper_dash::font::{Font, Glyph};
use epaper_dash::layout::{layout_frame, FontRole, Fonts, Frame};
use epaper_dash::schedule::is_stale;
use epaper_dash::weather::{mkicon, WeatherError};

fn stamp(year: i32, month: u32, day: u32, hour: u32) -> Stamp {
    Stamp { year, month, day, hour, minute: 0, second: 0 }
}

fn event(title: &str, start: Stamp, end: Option<Stamp>, allday: bool) -> CalendarEvent {
    CalendarEvent { title: title.to_string(), start, end, allday }
}

#[test]
fn allday_event_without_end() {
    let e = event("Holiday", stamp(2025, 1, 5, 0), None, true);
    assert_eq!(event_time_label(&e), "Sun Jan 05");
}

#[test]
fn timed_event_with_end() {
    let e = event("Meeting", stamp(2025, 1, 5, 14), Some(stamp(2025, 1, 5, 15)), false);
    assert_eq!(event_time_label(&e), "Sun Jan 05 2 PM - Sun Jan 05 3 PM");
}

#[test]
fn allday_range_and_timed_single() {
    let e = event("Trip", stamp(2025, 1, 5, 0), Some(stamp(2025, 1, 7, 0)), true);
    assert_eq!(event_time_label(&e), "Sun Jan 05 - Tue Jan 07");
    let e = event("Call", stamp(2024, 2, 29, 9), None, false);
    assert_eq!(event_time_label(&e), "Thu Feb 29 9 AM");
}

#[test]
fn repeats_differing_in_seconds_are_kept() {
    let today = stamp(2025, 1, 5, 0);
    let a = event("a", stamp(2025, 1, 5, 8), None, false);
    let mut b = event("a", stamp(2025, 1, 5, 8), None, false);
    b.start.second = 30;
    assert_eq!(select_events(&vec![a, b], &today, 10).len(), 2);
}

#[test]
fn join_range_cases() {
    assert_eq!(join_range("a".to_string(), None), "a");
    assert_eq!(join_range("a".to_string(), Some("b".to_string())), "a - b");
}

#[test]
fn select_events_filters_dedups_and_truncates() {
    let today = stamp(2025, 1, 5, 12);
    let evs = vec![
        event("old", stamp(2025, 1, 4, 9), None, false),
        event("a", stamp(2025, 1, 5, 8), None, false),
        event("a", stamp(2025, 1, 5, 8), None, false),
        event("b", stamp(2025, 2, 1, 0), None, true),
        event("c", stamp(2026, 1, 1, 0), None, true),
    ];
    let shown = select_events(&evs, &today, 10);
    let titles: Vec<&str> = shown.iter().map(|e| e.title.as_str()).collect();
    assert_eq!(titles, vec!["a", "b", "c"]);
    let shown = select_events(&evs, &today, 2);
    let titles: Vec<&str> = shown.iter().map(|e| e.title.as_str()).collect();
    assert_eq!(titles, vec!["a", "b"]);
}

#[test]
fn icon_by_condition_code() {
    assert_eq!(mkicon("https://api.weather.gov/icons/land/day/skc?size=medium", true), "\u{2600}");
    assert_eq!(mkicon("https://api.weather.gov/icons/land/night/skc?size=medium", false), "\u{1F319}");
    assert_eq!(mkicon("https://api.weather.gov/icons/land/day/tsra_sct,40?size=medium", true), "\u{26A1}");
    assert_eq!(mkicon("https://api.weather.gov/icons/land/night/bkn", false), "\u{2601}");
    assert_eq!(mkicon("https://api.weather.gov/icons/land/day/rain_showers,30/tsra,60", true), "\u{26C8}");
    assert_eq!(mkicon("https://example.com/unknown", true), "");
    assert_eq!(mkicon("fog", true), "\u{1F32B}");
    assert_eq!(mkicon("https://api.weather.gov/icons/land/day/cold", true), "\u{2744}");
}

#[test]
fn weather_error_message() {
    assert_eq!(WeatherError::NoResults.message(), "No results from api");
}

#[test]
fn staleness() {
    assert!(is_stale(900, 899));
    assert!(!is_stale(900, 900));
    assert!(!is_stale(-5, 0));
}

fn font(size: u16, ascent: i32, descent: i32, glyphs: Vec<(char, Glyph)>) -> Font {
    Font { pixel_size: size, ascent, descent, glyphs }
}

fn fonts() -> Fonts {
    let body: Vec<(char, Glyph)> = (0x20u8..0x7f)
        .map(|b| (b as char, Glyph { width: 0, height: 0, x_advance: 12, x_offset: 0, y_offset: 0, bitmap: vec![] }))
        .collect();
    let sun = Glyph { width: 20, height: 0, x_advance: 22, x_offset: 0, y_offset: 0, bitmap: vec![] };
    Fonts {
        header: font(56, 40, -10, vec![]),
        body: font(24, 18, -6, body),
        large: font(64, 50, -14, vec![]),
        emoji: font(56, 0, 0, vec![('\u{2600}', sun)]),
    }
}

#[test]
fn layout_places_columns() {
    let data = Frame {
        date: "Sun Jan 5".to_string(),
        time: "2:00 PM".to_string(),
        icon: "\u{2600}".to_string(),
        temperature: "40\u{B0}F".to_string(),
        events: vec![event("Standup", stamp(2025, 1, 5, 14), Some(stamp(2025, 1, 5, 15)), false)],
    };
    let out = layout_frame(&fonts(), &data);
    let got: Vec<(FontRole, String, i32, i32)> =
        out.iter().map(|p| (p.role, p.text.iter().collect(), p.x, p.y)).collect();
    assert_eq!(
        got,
        vec![
            (FontRole::Header, "Sun Jan 5".to_string(), 15, 75),
            (FontRole::Large, "2:00 PM".to_string(), 15, 175),
            (FontRole::Emoji, "\u{2600}".to_string(), 15, 303),
            (FontRole::Header, "40\u{B0}F".to_string(), 55, 303),
            (FontRole::Body, "Standup".to_string(), 365, 50),
            (FontRole::Body, "Sun Jan 05 2 PM - Sun Jan 05 3 PM".to_string(), 365, 78),
        ]
    );
}

#[test]
fn layout_stops_at_bottom() {
    let e = event("Entry", stamp(2025, 1, 5, 0), None, true);
    let data = Frame {
        date: String::new(),
        time: String::new(),
        icon: String::new(),
        temperature: "1".to_string(),
        events: vec![e; 20],
    };
    let out = layout_frame(&fonts(), &data);
    // each block: one title row (24 + 4) and a time line (24 + 4); 50 + 14 * 56 = 834 > 472
    let right: Vec<i32> = out.iter().filter(|p| p.x == 365).map(|p| p.y).collect();
    assert_eq!(out[2].x, 15);
    assert_eq!(right.len(), 2 * 7);
    assert_eq!(*right.last().unwrap(), 50 + 6 * 56 + 28);
}

#[test]
fn ics_whole_day_value() {
    let mut allday = false;
    let t = parse_ics_datetime("20250105", &mut allday);
    assert_eq!(t, Some(stamp(2025, 1, 5, 0)));
    assert!(allday);
}

#[test]
fn ics_date_time_values() {
    let mut allday = false;
    let t = parse_ics_datetime("20250105T1430", &mut allday).unwrap();
    assert_eq!((t.hour, t.minute, t.second), (14, 30, 0));
    let t = parse_ics_datetime("20250105T143015", &mut allday).unwrap();
    assert_eq!((t.year, t.month, t.day, t.hour, t.minute, t.second), (2025, 1, 5, 14, 30, 15));
    let t = parse_ics_datetime("20250105T143015Z", &mut allday).unwrap();
    assert_eq!(t.second, 15);
    assert!(!allday);
}

#[test]
fn ics_values_refused() {
    let mut allday = false;
    assert_eq!(parse_ics_datetime("2025", &mut allday), None);
    assert_eq!(parse_ics_datetime("2025013X", &mut allday), None);
    assert_eq!(parse_ics_datetime("20250230", &mut allday), None);
    assert!(!allday);
}

fn prop(name: &str, value: Option<&str>) -> IcsProperty {
    IcsProperty { name: name.to_string(), value: value.map(|v| v.to_string()) }
}

#[test]
fn event_properties_last_summary_and_times() {
    let props = vec![
        prop("SUMMARY", Some("First")),
        prop("DTSTART", Some("20250105T140000")),
        prop("LOCATION", Some("Room")),
        prop("DTEND", Some("20250105T150000")),
        prop("SUMMARY", Some("Standup")),
    ];
    let e = event_from_properties(&props).unwrap();
    assert_eq!(e.title, "Standup");
    assert_eq!(e.start, Stamp { year: 2025, month: 1, day: 5, hour: 14, minute: 0, second: 0 });
    assert_eq!(e.end, Some(Stamp { year: 2025, month: 1, day: 5, hour: 15, minute: 0, second: 0 }));
    assert!(!e.allday);
}

#[test]
fn event_properties_whole_day() {
    let props = vec![prop("DTSTART", Some("20250105")), prop("SUMMARY", Some("Holiday"))];
    let e = event_from_properties(&props).unwrap();
    assert!(e.allday);
    assert_eq!(e.start, stamp(2025, 1, 5, 0));
    assert_eq!(e.end, None);
}

#[test]
fn event_properties_need_title_and_start() {
    assert!(event_from_properties(&vec![prop("DTSTART", Some("20250105"))]).is_none());
    assert!(event_from_properties(&vec![prop("SUMMARY", Some("x")), prop("DTSTART", Some("bad"))]).is_none());
    let props = vec![prop("SUMMARY", Some("x")), prop("DTSTART", Some("20250105")), prop("SUMMARY", None)];
    assert!(event_from_properties(&props).is_none());
}
