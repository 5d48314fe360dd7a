use calgrid::config::{Config, ICalSource, StartDay};
use calgrid::date::Date;
use calgrid::event::{to_display, RawEvent, Time};
use calgrid::html::{
    decimal_string, make_html_element, make_html_element2, two_digits_space, two_digits_zero,
    wrap_and_join,
};
use calgrid::merge::events_on;
use calgrid::render::{render, weekday_name_str, RenderError};
use calgrid::window::{date_window, start_date};

fn config_with(
    weeks: u8,
    week_as_row: bool,
    header: bool,
    first_day: StartDay,
    wrapper: &str,
    names: &[&str],
) -> Config {
    Config {
        wrapper_class: wrapper.to_string(),
        css_path: String::new(),
        weeks,
        week_as_row,
        header,
        first_day,
        calendars: names
            .iter()
            .map(|n| (n.to_string(), ICalSource::File(format!("{}.ics", n))))
            .collect(),
    }
}

fn event(
    summary: Option<&str>,
    date: Date,
    time: Option<(u8, u8)>,
    has_sequence: bool,
) -> RawEvent {
    RawEvent {
        summary: summary.map(|s| s.to_string()),
        date,
        time: time.map(|(h, m)| Time { hour: h, minute: m }),
        has_sequence,
    }
}

#[test]
fn date_from_ymd_fields() {
    let d = Date::from_ymd(2024, 6, 15);
    assert_eq!(d.year, 2024);
    assert_eq!(d.month, 6);
    assert_eq!(d.day, 15);
    // 2024-06-15 is a Saturday.
    assert_eq!(d.weekday(), 5);
    assert_eq!(weekday_name_str(d.weekday()), "Sat");
}

#[test]
fn date_epoch_is_monday() {
    let d = Date::from_ymd(1, 1, 1);
    assert_eq!(d.days, 0);
    assert_eq!(d.weekday(), 0);
}

#[test]
fn date_next_day_handles_leap_years() {
    let d = Date::from_ymd(2024, 2, 28).next_day();
    assert_eq!((d.year, d.month, d.day), (2024, 2, 29));
    let d = d.next_day();
    assert_eq!((d.year, d.month, d.day), (2024, 3, 1));
    let d = Date::from_ymd(2023, 2, 28).next_day();
    assert_eq!((d.year, d.month, d.day), (2023, 3, 1));
    let d = Date::from_ymd(2024, 12, 31).next_day();
    assert_eq!((d.year, d.month, d.day), (2025, 1, 1));
}

#[test]
fn date_prev_and_sub_days() {
    let d = Date::from_ymd(2024, 3, 1).prev_day();
    assert_eq!((d.year, d.month, d.day), (2024, 2, 29));
    let d = Date::from_ymd(2024, 1, 1).sub_days(1);
    assert_eq!((d.year, d.month, d.day), (2023, 12, 31));
}

#[test]
fn window_start_day_of_week() {
    // P2: the start carries the requested weekday, lies on or before
    // today, and less than seven days back.
    let today = Date::from_ymd(2024, 6, 15);
    for w in 0..7u8 {
        let start = start_date(&today, &StartDay::DayOfWeek(w));
        assert_eq!(start.weekday(), w);
        assert!(start.days <= today.days);
        assert!(today.days - start.days < 7);
    }
    let monday = start_date(&today, &StartDay::DayOfWeek(0));
    assert_eq!((monday.year, monday.month, monday.day), (2024, 6, 10));
    // A day already carrying the requested weekday starts the window.
    let saturday = start_date(&today, &StartDay::DayOfWeek(5));
    assert_eq!((saturday.year, saturday.month, saturday.day), (2024, 6, 15));
}

#[test]
fn window_start_today_and_month() {
    let today = Date::from_ymd(2024, 6, 15);
    let s = start_date(&today, &StartDay::Today);
    assert_eq!((s.year, s.month, s.day), (2024, 6, 15));
    let s = start_date(&today, &StartDay::DayOfMonth(0));
    assert_eq!((s.year, s.month, s.day), (2024, 6, 1));
}

#[test]
fn window_has_seven_days_per_week() {
    // P1: exactly 7 * weeks consecutive days from the start.
    let today = Date::from_ymd(2024, 6, 15);
    let w = date_window(&today, &StartDay::DayOfWeek(0), 2);
    assert_eq!(w.len(), 14);
    assert_eq!((w[0].year, w[0].month, w[0].day), (2024, 6, 10));
    assert_eq!((w[13].year, w[13].month, w[13].day), (2024, 6, 23));
    for i in 1..w.len() {
        assert_eq!(w[i].days, w[i - 1].days + 1);
    }
    let empty = date_window(&today, &StartDay::Today, 0);
    assert_eq!(empty.len(), 0);
}

#[test]
fn projection_uses_placeholder_and_recurring() {
    let d = Date::from_ymd(2024, 6, 16);
    let e = to_display(&event(None, d, None, true), "home");
    assert_eq!(e.title, "<no title>");
    assert!(e.time.is_none());
    assert_eq!(e.classes, vec!["home".to_string(), "recurring".to_string()]);
    let e = to_display(&event(Some("Standup"), d, Some((9, 0)), false), "work");
    assert_eq!(e.title, "Standup");
    assert_eq!(e.classes, vec!["work".to_string()]);
}

#[test]
fn events_on_filters_by_date() {
    let d1 = Date::from_ymd(2024, 6, 16);
    let d2 = Date::from_ymd(2024, 6, 17);
    let events = vec![
        event(Some("a"), d1, None, false),
        event(Some("b"), d2, None, false),
        event(Some("c"), d1, None, false),
    ];
    let on = events_on(&events, "src", &d1);
    assert_eq!(on.len(), 2);
    assert_eq!(on[0].title, "a");
    assert_eq!(on[1].title, "c");
    assert_eq!(events_on(&events, "src", &d2).len(), 1);
}

#[test]
fn html_element_builders() {
    assert_eq!(make_html_element("p", None, "x"), "<p>x</p>");
    assert_eq!(
        make_html_element("p", Some("class=\"a\""), "x"),
        "<p class=\"a\">x</p>"
    );
    let attrs = vec![
        ("href".to_string(), "u".to_string()),
        ("class".to_string(), "c".to_string()),
    ];
    assert_eq!(
        make_html_element2("a", &attrs, "x"),
        "<a href=\"u\" class=\"c\">x</a>"
    );
}

#[test]
fn wrap_and_join_wraps_and_falls_back() {
    let items = vec!["a".to_string(), "b".to_string()];
    assert_eq!(wrap_and_join(&items, "(", ",", ")", None), "(a,b)");
    let none: Vec<String> = Vec::new();
    assert_eq!(wrap_and_join(&none, "(", ",", ")", None), "");
    assert_eq!(wrap_and_join(&none, "(", ",", ")", Some("alt")), "alt");
    let empties = vec![String::new(), String::new()];
    assert_eq!(wrap_and_join(&empties, "(", ",", ")", None), "(,)");
}

#[test]
fn decimal_formatting() {
    assert_eq!(decimal_string(5), "5");
    assert_eq!(decimal_string(31), "31");
    assert_eq!(two_digits_zero(9), "09");
    assert_eq!(two_digits_zero(30), "30");
    assert_eq!(two_digits_space(9), " 9");
    assert_eq!(two_digits_space(12), "12");
}

#[test]
fn render_fails_when_all_sources_fail() {
    // P4: with no succeeding source the render is fatal, no output.
    let config = config_with(1, true, false, StartDay::Today, "cal", &["A", "B"]);
    let today = Date::from_ymd(2024, 6, 15);
    let loaded: Vec<Option<Vec<RawEvent>>> = vec![None, None];
    assert_eq!(render(&config, &today, &loaded), Err(RenderError::AllSourcesFailed));
}

#[test]
fn render_fails_on_empty_window() {
    let config = config_with(0, true, false, StartDay::Today, "cal", &["A"]);
    let today = Date::from_ymd(2024, 6, 15);
    let loaded = vec![Some(Vec::new())];
    assert_eq!(render(&config, &today, &loaded), Err(RenderError::EmptyWindow));
}

#[test]
fn render_classifies_days() {
    // P6: 2024-06-14 is past, 2024-06-15 is today, 2024-06-16 is future.
    let config = config_with(1, true, false, StartDay::DayOfWeek(0), "cal", &["A"]);
    let today = Date::from_ymd(2024, 6, 15);
    let loaded = vec![Some(Vec::new())];
    let html = render(&config, &today, &loaded).unwrap();
    let expected = "<table class=\"cal\"><tr><td class=\"Mon past\"><div>10</div></td><td class=\"Tue past\"><div>11</div></td><td class=\"Wed past\"><div>12</div></td><td class=\"Thu past\"><div>13</div></td><td class=\"Fri past\"><div>14</div></td><td class=\"Sat today\"><div>15</div></td><td class=\"Sun future\"><div>16</div></td></tr></table>";
    assert_eq!(html, expected);
}

#[test]
fn render_is_deterministic() {
    // P5: identical inputs give byte-identical output.
    let config = config_with(2, true, true, StartDay::DayOfWeek(0), "cal", &["A", "B"]);
    let today = Date::from_ymd(2024, 6, 15);
    let d = Date::from_ymd(2024, 6, 16);
    let loaded = vec![
        Some(vec![event(Some("x"), d, Some((9, 30)), false)]),
        Some(vec![event(Some("y"), d, None, true)]),
    ];
    let first = render(&config, &today, &loaded).unwrap();
    let second = render(&config, &today, &loaded).unwrap();
    assert_eq!(first, second);
}

#[test]
fn render_merges_in_configuration_order_and_drops_failures() {
    // P3: both sources' events concatenate per date in configuration
    // order, and a failing source leaves the merged table unchanged.
    let today = Date::from_ymd(2024, 6, 15);
    let d = Date::from_ymd(2024, 6, 16);
    let a_events = || vec![event(Some("a1"), d, None, false)];
    let b_events = || vec![event(Some("b1"), d, None, false)];

    let two = config_with(1, true, false, StartDay::Today, "cal", &["A", "B"]);
    let loaded_two = vec![Some(a_events()), Some(b_events())];
    let html_two = render(&two, &today, &loaded_two).unwrap();
    let a_pos = html_two.find("a1").unwrap();
    let b_pos = html_two.find("b1").unwrap();
    assert!(a_pos < b_pos);

    let three = config_with(1, true, false, StartDay::Today, "cal", &["A", "B", "C"]);
    let loaded_three = vec![Some(a_events()), Some(b_events()), None];
    let html_three = render(&three, &today, &loaded_three).unwrap();
    assert_eq!(html_two, html_three);
}

#[test]
fn render_orientation_row_and_column() {
    // P7: week-as-row gives 2 data rows of 7 cells (plus a header row);
    // week-as-column gives 14 single-cell rows.
    let today = Date::from_ymd(2024, 6, 15);
    let loaded = vec![Some(Vec::new())];

    let rows = config_with(2, true, true, StartDay::DayOfWeek(0), "cal", &["A"]);
    let html = render(&rows, &today, &loaded).unwrap();
    assert_eq!(html.matches("<tr>").count(), 3);
    assert_eq!(html.matches("<th ").count(), 7);
    assert_eq!(html.matches("<td ").count(), 14);
    // The header starts at the weekday of the window's first date.
    assert!(html.starts_with("<table class=\"cal\"><tr><th class:\"Mon\">"));

    let cols = config_with(2, false, false, StartDay::DayOfWeek(0), "cal", &["A"]);
    let html = render(&cols, &today, &loaded).unwrap();
    assert_eq!(html.matches("<tr>").count(), 14);
    assert_eq!(html.matches("<td ").count(), 14);
    assert_eq!(html.matches("<th ").count(), 0);

    let cols_hdr = config_with(2, false, true, StartDay::DayOfWeek(0), "cal", &["A"]);
    let html = render(&cols_hdr, &today, &loaded).unwrap();
    assert_eq!(html.matches("<tr>").count(), 14);
    assert_eq!(html.matches("<th ").count(), 14);
}

#[test]
fn render_end_to_end_two_sources() {
    // P8: "Standup" at 09:00 from A and recurring "Lunch" from B on day
    // two of the window share one cell, in configuration order.
    let config = config_with(1, true, false, StartDay::Today, "w", &["A", "B"]);
    let today = Date::from_ymd(2024, 6, 15);
    let d2 = Date::from_ymd(2024, 6, 16);
    let loaded = vec![
        Some(vec![event(Some("Standup"), d2, Some((9, 0)), false)]),
        Some(vec![event(Some("Lunch"), d2, None, true)]),
    ];
    let html = render(&config, &today, &loaded).unwrap();
    let expected = "<table class=\"w\"><tr><td class=\"Sat today\"><div>15</div></td><td class=\"Sun future A B recurring\"><div>16</div><div class=\"A\"> 9:00 Standup</div><div class=\"B recurring\">Lunch</div></td><td class=\"Mon future\"><div>17</div></td><td class=\"Tue future\"><div>18</div></td><td class=\"Wed future\"><div>19</div></td><td class=\"Thu future\"><div>20</div></td><td class=\"Fri future\"><div>21</div></td></tr></table>";
    assert_eq!(html, expected);
}

#[test]
fn render_duplicate_classes_collapse() {
    // Two events of one source on one day contribute the source class once.
    let config = config_with(1, true, false, StartDay::Today, "cal", &["A"]);
    let today = Date::from_ymd(2024, 6, 15);
    let d = Date::from_ymd(2024, 6, 15);
    let loaded = vec![Some(vec![
        event(Some("x"), d, None, false),
        event(Some("y"), d, None, false),
    ])];
    let html = render(&config, &today, &loaded).unwrap();
    assert!(html.contains("<td class=\"Sat today A\">"));
}
