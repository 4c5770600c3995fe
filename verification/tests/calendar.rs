use dscribe::{convert_dates_to_string, App, InputEvent, KeyCode, KeyEventKind, MAX_JULIAN_DAY, MIN_JULIAN_DAY};
use time::{Date, Month};

fn julian(y: i32, m: Month, d: u8) -> i32 {
    Date::from_calendar_date(y, m, d).unwrap().to_julian_day()
}

fn press(code: KeyCode) -> InputEvent {
    InputEvent::Key { code, kind: KeyEventKind::Press }
}

#[test]
fn julian_day_bounds_match_time() {
    assert_eq!(Date::MIN.to_julian_day(), MIN_JULIAN_DAY);
    assert_eq!(Date::MAX.to_julian_day(), MAX_JULIAN_DAY);
}

#[test]
fn dates_are_formatted_month_day_year() {
    let dates = vec![julian(2024, Month::January, 2), julian(1999, Month::December, 31)];
    assert_eq!(convert_dates_to_string(&dates, ""), "01-02-2024,12-31-1999");
    assert_eq!(convert_dates_to_string(&dates, "due "), "due 01-02-2024,due 12-31-1999");
    assert_eq!(convert_dates_to_string(&vec![], "x"), "");
    assert_eq!(convert_dates_to_string(&vec![julian(5, Month::March, 7)], ""), "03-07-0005");
}

#[test]
fn cursor_moves() {
    let today = julian(2024, Month::February, 28);
    let mut app = App::new(today);
    app.handle_key_event(KeyCode::Right);
    assert_eq!(app.date_cursor(), julian(2024, Month::February, 29));
    app.handle_key_event(KeyCode::Char('l'));
    assert_eq!(app.date_cursor(), julian(2024, Month::March, 1));
    app.handle_key_event(KeyCode::Tab);
    app.handle_key_event(KeyCode::Char('h'));
    app.handle_key_event(KeyCode::Left);
    assert_eq!(app.date_cursor(), julian(2024, Month::February, 29));
    app.handle_key_event(KeyCode::Down);
    assert_eq!(app.date_cursor(), julian(2024, Month::March, 7));
    app.handle_key_event(KeyCode::Char('k'));
    app.handle_key_event(KeyCode::Up);
    assert_eq!(app.date_cursor(), julian(2024, Month::February, 22));
    app.handle_key_event(KeyCode::Char('j'));
    assert_eq!(app.date_cursor(), julian(2024, Month::February, 29));
    assert!(!app.is_exiting());
}

#[test]
fn selecting_and_removing_dates() {
    let mut app = App::new(julian(2023, Month::May, 1));
    assert_eq!(app.display_dates(), "");
    app.handle_key_event(KeyCode::Backspace);
    assert_eq!(app.selected_date(), None);
    app.handle_key_event(KeyCode::Char(' '));
    app.handle_key_event(KeyCode::Right);
    app.handle_key_event(KeyCode::Char(' '));
    assert_eq!(app.display_dates(), "05-01-2023,05-02-2023");
    app.handle_key_event(KeyCode::Backspace);
    assert_eq!(app.display_dates(), "05-01-2023");
    app.handle_key_event(KeyCode::Backspace);
    assert_eq!(app.selected_date(), Some(vec![]));
    assert_eq!(app.display_dates(), "");
    app.handle_key_event(KeyCode::Backspace);
    assert_eq!(app.selected_date(), Some(vec![]));
}

#[test]
fn quit_drops_selection_enter_keeps_it() {
    let day = julian(2020, Month::July, 4);
    let mut a = App::new(day);
    a.handle_key_event(KeyCode::Char(' '));
    a.handle_key_event(KeyCode::Char('q'));
    assert!(a.is_exiting());
    assert_eq!(a.selected_date(), None);

    let mut b = App::new(day);
    b.handle_key_event(KeyCode::Char(' '));
    b.handle_key_event(KeyCode::Enter);
    assert!(b.is_exiting());
    assert_eq!(b.selected_date(), Some(vec![day]));

    let mut c = App::new(day);
    c.handle_key_event(KeyCode::Esc);
    assert!(c.is_exiting());
}

#[test]
fn only_key_presses_are_handled() {
    let day = julian(2020, Month::July, 4);
    let mut app = App::new(day);
    app.handle_event(InputEvent::Key { code: KeyCode::Right, kind: KeyEventKind::Release });
    app.handle_event(InputEvent::Key { code: KeyCode::Right, kind: KeyEventKind::Repeat });
    app.handle_event(InputEvent::Other);
    assert_eq!(app.date_cursor(), day);
    app.handle_event(press(KeyCode::Right));
    assert_eq!(app.date_cursor(), day + 1);
    app.handle_event(press(KeyCode::Other));
    app.handle_event(press(KeyCode::Char('z')));
    assert_eq!(app.date_cursor(), day + 1);
    assert!(!app.is_exiting());
}

#[test]
fn moves_undo_each_other() {
    let day = julian(2021, Month::January, 1);
    let mut app = App::new(day);
    app.handle_key_event(KeyCode::Right);
    app.handle_key_event(KeyCode::Left);
    app.handle_key_event(KeyCode::Down);
    app.handle_key_event(KeyCode::Up);
    assert_eq!(app.date_cursor(), day);
}

#[test]
fn edges_of_the_calendar() {
    let mut app = App::new(MAX_JULIAN_DAY - 1);
    app.next_day();
    assert_eq!(app.date_cursor(), MAX_JULIAN_DAY);
    let mut low = App::new(MIN_JULIAN_DAY + 7);
    low.handle_key_event(KeyCode::Up);
    assert_eq!(low.date_cursor(), MIN_JULIAN_DAY);
    assert_eq!(convert_dates_to_string(&vec![MIN_JULIAN_DAY, MAX_JULIAN_DAY], ""), "01-01--9999,12-31-9999");
}
