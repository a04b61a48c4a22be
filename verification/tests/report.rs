use schedule::date::Date;
use schedule::entry::{parse_week_entries, WeekEntry};
use schedule::report::{report, week_entry_line, Line, Mode};
use schedule::week::{get_current_week, Style};

fn day(text: &str) -> Date {
    Date::parse(text).unwrap()
}

fn entry(date: &str, description: &str) -> WeekEntry {
    WeekEntry { date: day(date), description: description.to_string() }
}

fn texts(lines: &[Line]) -> Vec<&str> {
    lines.iter().map(|l| l.text.as_str()).collect()
}

// 17 January 2024 was a Wednesday; its week starts on 15 January.
const TODAY: &str = "01/17/24";

const WEEKS: &str = "12/31/23 - three weeks back\n\
                     01/01/24 - monday two weeks back\n\
                     01/07/24 - sunday two weeks back\n\
                     01/08/24 - monday last week\n\
                     01/14/24 - sunday last week\n\
                     01/15/24 - monday\n\
                     01/21/24 - sunday\n\
                     01/22/24 - monday next week\n\
                     01/28/24 - sunday next week\n\
                     01/29/24 - in two weeks\n\
                     01/17/23 - a year ago\n";

#[test]
fn entry_on_the_week_start_is_current() {
    let today = day(TODAY);
    let start = get_current_week(&today).unwrap();
    assert_eq!(start, day("01/15/24"));
    let line = week_entry_line(&entry("01/15/24", "monday"), &start);
    assert_eq!(line.style, Style::Current);
    assert_eq!(line.text, "01/15/24 - monday");
}

#[test]
fn entry_on_the_sunday_before_the_week_start_is_adjacent() {
    let line = week_entry_line(&entry("01/14/24", "Sun"), &day("01/15/24"));
    assert_eq!(line.text, "01/14/24 - Sun");
    assert_eq!(line.style, Style::Adjacent);
}

#[test]
fn line_holds_date_separator_and_description() {
    let start = day("01/15/24");
    assert_eq!(week_entry_line(&entry("01/15/24", "Test"), &start).text, "01/15/24 - Test");
    assert_eq!(week_entry_line(&entry("1/5/24", ""), &start).text, "01/05/24 - ");
    assert_eq!(week_entry_line(&entry("12/31/99", "a - b"), &start).text, "12/31/99 - a - b");
}

#[test]
fn line_style_goes_by_the_week() {
    let start = day("01/15/24");
    let style = |date: &str| week_entry_line(&entry(date, "x"), &start).style;
    assert_eq!(style("01/15/24"), Style::Current);
    assert_eq!(style("01/17/24"), Style::Current);
    assert_eq!(style("01/21/24"), Style::Current);
    assert_eq!(style("01/22/24"), Style::Adjacent);
    assert_eq!(style("01/28/24"), Style::Adjacent);
    assert_eq!(style("01/14/24"), Style::Adjacent);
    assert_eq!(style("01/09/24"), Style::Adjacent);
    assert_eq!(style("01/08/24"), Style::Adjacent);
    assert_eq!(style("01/29/24"), Style::Plain);
    assert_eq!(style("01/07/24"), Style::Plain);
    assert_eq!(style("01/02/24"), Style::Plain);
    assert_eq!(style("01/01/24"), Style::Plain);
    assert_eq!(style("01/15/25"), Style::Plain);
    assert_eq!(style("01/15/23"), Style::Plain);
}

#[test]
fn all_shows_every_entry_in_order() {
    let entries = parse_week_entries(WEEKS);
    let lines = report(Mode::All, &entries, &day(TODAY)).unwrap();
    assert_eq!(
        texts(&lines),
        vec![
            "12/31/23 - three weeks back",
            "01/01/24 - monday two weeks back",
            "01/07/24 - sunday two weeks back",
            "01/08/24 - monday last week",
            "01/14/24 - sunday last week",
            "01/15/24 - monday",
            "01/21/24 - sunday",
            "01/22/24 - monday next week",
            "01/28/24 - sunday next week",
            "01/29/24 - in two weeks",
            "01/17/23 - a year ago",
        ]
    );
    let styles: Vec<Style> = lines.iter().map(|l| l.style).collect();
    assert_eq!(
        styles,
        vec![
            Style::Plain,
            Style::Plain,
            Style::Plain,
            Style::Adjacent,
            Style::Adjacent,
            Style::Current,
            Style::Current,
            Style::Adjacent,
            Style::Adjacent,
            Style::Plain,
            Style::Plain,
        ]
    );
}

#[test]
fn this_week_shows_at_most_one_week_away() {
    let entries = parse_week_entries(WEEKS);
    let lines = report(Mode::ThisWeek, &entries, &day(TODAY)).unwrap();
    assert_eq!(
        texts(&lines),
        vec![
            "01/08/24 - monday last week",
            "01/14/24 - sunday last week",
            "01/15/24 - monday",
            "01/21/24 - sunday",
            "01/22/24 - monday next week",
            "01/28/24 - sunday next week",
        ]
    );
    assert_eq!(lines[0].style, Style::Adjacent);
    assert_eq!(lines[2].style, Style::Current);
    assert_eq!(lines[5].style, Style::Adjacent);
}

#[test]
fn this_week_leaves_out_the_sunday_two_weeks_back() {
    let entries = parse_week_entries("01/07/24 - TwoBack\n01/15/24 - Now");
    let lines = report(Mode::ThisWeek, &entries, &day(TODAY)).unwrap();
    assert_eq!(texts(&lines), vec!["01/15/24 - Now"]);
    assert_eq!(lines[0].style, Style::Current);
}

#[test]
fn this_week_is_three_weeks_from_monday_to_sunday() {
    let today = day(TODAY);
    let start = day("01/15/24");
    let shows = |date: &str| Mode::ThisWeek.shows(&entry(date, "x"), &today, &start);
    assert!(shows("01/28/24"));
    assert!(!shows("01/29/24"));
    assert!(shows("01/08/24"));
    assert!(!shows("01/07/24"));
    assert!(!shows("01/01/24"));
    assert!(!shows("01/15/25"));
}

#[test]
fn this_month_shows_the_month_of_today_in_any_year() {
    let entries = parse_week_entries(
        "01/05/23 - january last year\n\
         12/31/23 - december\n\
         01/01/24 - january\n\
         01/31/24 - january still\n\
         02/01/24 - february\n\
         01/17/99 - january long ago\n",
    );
    let lines = report(Mode::ThisMonth, &entries, &day(TODAY)).unwrap();
    assert_eq!(
        texts(&lines),
        vec![
            "01/05/23 - january last year",
            "01/01/24 - january",
            "01/31/24 - january still",
            "01/17/99 - january long ago",
        ]
    );
}

#[test]
fn this_month_goes_by_today_and_not_by_the_week_start() {
    // 1 February 2024 was a Thursday: its week starts in January.
    let today = day("02/01/24");
    assert_eq!(get_current_week(&today).unwrap().month(), 1);
    let entries = parse_week_entries("01/30/24 - january\n02/10/24 - february\n");
    let lines = report(Mode::ThisMonth, &entries, &today).unwrap();
    assert_eq!(texts(&lines), vec!["02/10/24 - february"]);
}

#[test]
fn this_quarter_shows_no_entry() {
    let entries = parse_week_entries(WEEKS);
    assert!(report(Mode::ThisQuarter, &entries, &day(TODAY)).unwrap().is_empty());
}

#[test]
fn report_of_no_entries_is_empty() {
    for mode in [Mode::All, Mode::ThisWeek, Mode::ThisMonth, Mode::ThisQuarter] {
        assert!(report(mode, &Vec::new(), &day(TODAY)).unwrap().is_empty());
    }
}

#[test]
fn report_is_missing_where_the_week_start_is() {
    let least = chrono::NaiveDate::MIN;
    let first = Date::from_day_number(chrono::Datelike::num_days_from_ce(&least)).unwrap();
    let entries = parse_week_entries("01/15/24 - Test\n");
    assert_eq!(
        report(Mode::All, &entries, &first).is_some(),
        get_current_week(&first).is_some()
    );
}

#[test]
fn shows_tells_what_report_keeps() {
    let today = day(TODAY);
    let start = get_current_week(&today).unwrap();
    let entries = parse_week_entries(WEEKS);
    for mode in [Mode::All, Mode::ThisWeek, Mode::ThisMonth, Mode::ThisQuarter] {
        let kept: Vec<String> = entries
            .iter()
            .filter(|e| mode.shows(e, &today, &start))
            .map(|e| week_entry_line(e, &start).text)
            .collect();
        let lines = report(mode, &entries, &today).unwrap();
        assert_eq!(texts(&lines), kept);
    }
}
