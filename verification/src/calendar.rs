//! The date picker: a cursor over calendar days moved by key presses, and
//! the list of days selected with it.
//!
//! A day is held as its Julian day number, the count that `time::Date`
//! converts to and from; the calendar arithmetic and the formatting of a
//! day stay with `time`.

use vstd::prelude::*;
use crate::text::push_char;

verus! {

/// The Julian day of `time::Date::MIN`, -9999-01-01.
pub const MIN_JULIAN_DAY: i32 = -1930999;

/// The Julian day of `time::Date::MAX`, 9999-12-31.
pub const MAX_JULIAN_DAY: i32 = 5373484;

/// A Julian day that `time::Date` can hold.
pub open spec fn is_valid_day(julian: int) -> bool {
    MIN_JULIAN_DAY <= julian <= MAX_JULIAN_DAY
}

/// The day after `julian`, as `time::Date::next_day` gives it.
///
/// Trusted: converts with `time::Date::from_julian_day` and
/// `time::Date::to_julian_day` and calls `time::Date::next_day`, which is
/// documented to give the next calendar date, and `None` for `Date::MAX`.
/// Julian day numbers count consecutive days, so the next date's number is
/// one more.
#[verifier::external_body]
fn next_julian_day(julian: i32) -> (next: Option<i32>)
    requires
        is_valid_day(julian as int),
    ensures
        next == (if julian < MAX_JULIAN_DAY {
            Some((julian + 1) as i32)
        } else {
            None::<i32>
        }),
{
    match time::Date::from_julian_day(julian).unwrap().next_day() {
        Some(date) => Some(date.to_julian_day()),
        None => None,
    }
}

/// The day before `julian`, as `time::Date::previous_day` gives it.
///
/// Trusted: converts with `time::Date::from_julian_day` and
/// `time::Date::to_julian_day` and calls `time::Date::previous_day`, which
/// is documented to give the previous calendar date, and `None` for
/// `Date::MIN`.
#[verifier::external_body]
fn previous_julian_day(julian: i32) -> (previous: Option<i32>)
    requires
        is_valid_day(julian as int),
    ensures
        previous == (if julian > MIN_JULIAN_DAY {
            Some((julian - 1) as i32)
        } else {
            None::<i32>
        }),
{
    match time::Date::from_julian_day(julian).unwrap().previous_day() {
        Some(date) => Some(date.to_julian_day()),
        None => None,
    }
}

/// The text that `time::Date::format` gives for the day with Julian number
/// `julian` under the format description `description`.
pub uninterp spec fn formatted_date(julian: int, description: Seq<char>) -> Seq<char>;

/// The format description of the selected dates: month, day and year,
/// joined by `-`.
pub open spec fn month_day_year() -> Seq<char> {
    "[month]-[day]-[year]"@
}

/// Formats a day under a format description.
///
/// Trusted: converts the day with `time::Date::from_julian_day`, parses the
/// description with `time::format_description::parse_borrowed` (version 3)
/// and calls `time::Date::format`. The result is named, not stated: it is
/// whatever `format` gives for that day and description. Only the
/// description this library uses is admitted, one that parses and whose
/// components a date has, so that neither step fails.
#[verifier::external_body]
fn format_date(julian: i32, description: &str) -> (text: String)
    requires
        is_valid_day(julian as int),
        description@ == month_day_year(),
    ensures
        text@ == formatted_date(julian as int, description@),
{
    let date = time::Date::from_julian_day(julian).unwrap();
    let items = time::format_description::parse_borrowed::<3>(description).unwrap();
    date.format(&items).unwrap()
}

/// `parts` joined, with `sep` between each two.
pub open spec fn join_with(parts: Seq<Seq<char>>, sep: Seq<char>) -> Seq<char>
    decreases parts.len(),
{
    if parts.len() == 0 {
        seq![]
    } else if parts.len() == 1 {
        parts[0]
    } else {
        join_with(parts.drop_last(), sep) + sep + parts.last()
    }
}

/// The text of a list of days: each formatted as month-day-year behind
/// `prefix`, joined by `,`.
pub open spec fn dates_text(dates: Seq<i32>, prefix: Seq<char>) -> Seq<char> {
    join_with(
        dates.map_values(|d: i32| prefix + formatted_date(d as int, month_day_year())),
        seq![','],
    )
}

/// Formats a list of days as month-day-year, each behind `prefix`, joined
/// by `,`.
pub fn convert_dates_to_string(dates: &Vec<i32>, prefix: &str) -> (text: String)
    requires
        forall|i: int| 0 <= i < dates.len() ==> is_valid_day(#[trigger] dates[i] as int),
    ensures
        text@ == dates_text(dates@, prefix@),
{
    let description = "[month]-[day]-[year]";
    let mut text = String::new();
    let mut i: usize = 0;
    let ghost parts = dates@.map_values(|d: i32| prefix@ + formatted_date(d as int, month_day_year()));
    while i < dates.len()
        invariant
            i <= dates.len(),
            description@ == month_day_year(),
            forall|j: int| 0 <= j < dates.len() ==> is_valid_day(#[trigger] dates[j] as int),
            parts == dates@.map_values(
                |d: i32| prefix@ + formatted_date(d as int, month_day_year()),
            ),
            text@ == join_with(parts.take(i as int), seq![',']),
        decreases dates.len() - i,
    {
        if i > 0 {
            push_char(&mut text, ',');
        }
        text.append(prefix);
        let date = format_date(dates[i], description);
        text.append(date.as_str());
        assert(parts.take(i + 1).drop_last() =~= parts.take(i as int));
        assert(parts.take(i + 1).last() == parts[i as int]);
        if i == 0 {
            assert(parts.take(1).len() == 1);
        }
        i = i + 1;
    }
    assert(parts.take(i as int) =~= parts);
    text
}

/// The keys the date picker tells apart.
#[derive(Debug, Clone, Copy, PartialEq, Eq)]
pub enum KeyCode {
    Char(char),
    Esc,
    Tab,
    Right,
    Left,
    Down,
    Up,
    Backspace,
    Enter,
    Other,
}

/// Whether a key was pressed, repeated or released.
#[derive(Debug, Clone, Copy, PartialEq, Eq)]
pub enum KeyEventKind {
    Press,
    Repeat,
    Release,
}

/// A terminal event as the date picker sees it.
#[derive(Debug, Clone, Copy, PartialEq, Eq)]
pub enum InputEvent {
    Key { code: KeyCode, kind: KeyEventKind },
    Other,
}

/// The abstract state of the date picker.
pub struct AppView {
    pub exit: bool,
    pub cursor: int,
    pub selected: Option<Seq<i32>>,
}

/// The date picker: whether it is done, the day under the cursor, and the
/// days selected so far (none until the first is added).
#[derive(Debug)]
pub struct App {
    exit: bool,
    date_cursor: i32,
    selected_date: Option<Vec<i32>>,
}

impl View for App {
    type V = AppView;

    closed spec fn view(&self) -> AppView {
        AppView {
            exit: self.exit,
            cursor: self.date_cursor as int,
            selected: match self.selected_date {
                Some(dates) => Some(dates@),
                None => None,
            },
        }
    }
}

/// Every day of the picker is one `time::Date` can hold.
pub open spec fn view_wf(v: AppView) -> bool {
    &&& is_valid_day(v.cursor)
    &&& v.selected matches Some(dates) ==> forall|i: int|
        0 <= i < dates.len() ==> is_valid_day(#[trigger] dates[i] as int)
}

/// How many days a key moves the cursor.
pub open spec fn key_step(key: KeyCode) -> int {
    match key {
        KeyCode::Tab | KeyCode::Right => 1,
        KeyCode::Left => -1,
        KeyCode::Down => 7,
        KeyCode::Up => -7,
        KeyCode::Char(c) => if c == 'l' {
            1
        } else if c == 'h' {
            -1
        } else if c == 'j' {
            7
        } else if c == 'k' {
            -7
        } else {
            0
        },
        _ => 0,
    }
}

/// A key can be handled in state `v` when it does not move the cursor off
/// the days `time::Date` can hold.
pub open spec fn key_allowed(v: AppView, key: KeyCode) -> bool {
    is_valid_day(v.cursor + key_step(key))
}

/// The selection with the cursor's day added at its end.
pub open spec fn with_cursor_added(v: AppView) -> Option<Seq<i32>> {
    match v.selected {
        Some(dates) => Some(dates.push(v.cursor as i32)),
        None => Some(seq![v.cursor as i32]),
    }
}

/// The selection with its last day removed.
pub open spec fn with_last_removed(v: AppView) -> Option<Seq<i32>> {
    match v.selected {
        Some(dates) => Some(if dates.len() > 0 {
            dates.drop_last()
        } else {
            dates
        }),
        None => None,
    }
}

/// The state after a key press: `q` drops the selection and quits; Esc and
/// Enter quit keeping it; Space adds the cursor's day; Backspace removes
/// the last day added; Tab, Right and `l` move a day on, Left and `h` a day
/// back, Down and `j` a week on, Up and `k` a week back; other keys change
/// nothing.
pub open spec fn after_key(v: AppView, key: KeyCode) -> AppView {
    match key {
        KeyCode::Char(c) => if c == 'q' {
            AppView { exit: true, selected: None, ..v }
        } else if c == ' ' {
            AppView { selected: with_cursor_added(v), ..v }
        } else {
            AppView { cursor: v.cursor + key_step(key), ..v }
        },
        KeyCode::Esc | KeyCode::Enter => AppView { exit: true, ..v },
        KeyCode::Backspace => AppView { selected: with_last_removed(v), ..v },
        _ => AppView { cursor: v.cursor + key_step(key), ..v },
    }
}

/// The state after an event: only key presses count.
pub open spec fn after_event(v: AppView, event: InputEvent) -> AppView {
    match event {
        InputEvent::Key { code, kind: KeyEventKind::Press } => after_key(v, code),
        _ => v,
    }
}

/// An event can be handled in state `v`.
pub open spec fn event_allowed(v: AppView, event: InputEvent) -> bool {
    match event {
        InputEvent::Key { code, kind: KeyEventKind::Press } => key_allowed(v, code),
        _ => true,
    }
}

/// How many days a key moves the cursor.
pub fn key_step_of(key: KeyCode) -> (step: i32)
    ensures
        step == key_step(key),
{
    match key {
        KeyCode::Tab | KeyCode::Right | KeyCode::Char('l') => 1,
        KeyCode::Left | KeyCode::Char('h') => -1,
        KeyCode::Down | KeyCode::Char('j') => 7,
        KeyCode::Up | KeyCode::Char('k') => -7,
        _ => 0,
    }
}

impl App {
    /// The picker's days are all ones `time::Date` can hold.
    pub open spec fn wf(&self) -> bool {
        view_wf(self@)
    }

    /// A picker with its cursor on `today`, nothing selected, not done.
    pub fn new(today: i32) -> (app: App)
        requires
            is_valid_day(today as int),
        ensures
            app.wf(),
            app@ == (AppView { exit: false, cursor: today as int, selected: None }),
    {
        App { exit: false, date_cursor: today, selected_date: None }
    }

    /// Whether the picker can handle `event`: whether a key press keeps the
    /// cursor on days `time::Date` can hold.
    pub fn can_handle(&self, event: InputEvent) -> (b: bool)
        requires
            self.wf(),
        ensures
            b == event_allowed(self@, event),
    {
        match event {
            InputEvent::Key { code, kind: KeyEventKind::Press } => {
                let to = self.date_cursor as i64 + key_step_of(code) as i64;
                MIN_JULIAN_DAY as i64 <= to && to <= MAX_JULIAN_DAY as i64
            },
            _ => true,
        }
    }

    /// Whether the picker is done.
    pub fn is_exiting(&self) -> (b: bool)
        ensures
            b == self@.exit,
    {
        self.exit
    }

    /// The day under the cursor.
    pub fn date_cursor(&self) -> (day: i32)
        ensures
            day as int == self@.cursor,
    {
        self.date_cursor
    }

    /// The days selected so far.
    pub fn selected_date(&self) -> (dates: Option<Vec<i32>>)
        ensures
            dates matches Some(d) ==> self@.selected == Some(d@),
            dates is None ==> self@.selected is None,
    {
        match &self.selected_date {
            Some(dates) => Some(dates.clone()),
            None => None,
        }
    }

    /// Marks the picker done.
    pub fn exit(&mut self)
        ensures
            final(self)@ == (AppView { exit: true, ..old(self)@ }),
    {
        self.exit = true;
    }

    /// Moves the cursor a day on.
    pub fn next_day(&mut self)
        requires
            old(self).wf(),
            old(self)@.cursor < MAX_JULIAN_DAY,
        ensures
            final(self).wf(),
            final(self)@ == (AppView { cursor: old(self)@.cursor + 1, ..old(self)@ }),
    {
        self.date_cursor = next_julian_day(self.date_cursor).unwrap();
    }

    /// Moves the cursor a day back.
    pub fn prev_day(&mut self)
        requires
            old(self).wf(),
            old(self)@.cursor > MIN_JULIAN_DAY,
        ensures
            final(self).wf(),
            final(self)@ == (AppView { cursor: old(self)@.cursor - 1, ..old(self)@ }),
    {
        self.date_cursor = previous_julian_day(self.date_cursor).unwrap();
    }

    /// Adds the cursor's day at the end of the selection.
    pub fn add_date(&mut self)
        requires
            old(self).wf(),
        ensures
            final(self).wf(),
            final(self)@ == (AppView { selected: with_cursor_added(old(self)@), ..old(self)@ }),
    {
        let cursor = self.date_cursor;
        match self.selected_date.take() {
            Some(mut dates) => {
                dates.push(cursor);
                self.selected_date = Some(dates);
            },
            None => {
                let mut dates: Vec<i32> = Vec::new();
                dates.push(cursor);
                self.selected_date = Some(dates);
            },
        }
    }

    /// Removes the last day of the selection, if there is one.
    pub fn remove_date(&mut self)
        requires
            old(self).wf(),
        ensures
            final(self).wf(),
            final(self)@ == (AppView { selected: with_last_removed(old(self)@), ..old(self)@ }),
    {
        match self.selected_date.take() {
            Some(mut dates) => {
                dates.pop();
                self.selected_date = Some(dates);
            },
            None => {},
        }
    }

    fn move_by(&mut self, step: i32)
        requires
            old(self).wf(),
            step == 1 || step == -1 || step == 7 || step == -7,
            is_valid_day(old(self)@.cursor + step),
        ensures
            final(self).wf(),
            final(self)@ == (AppView { cursor: old(self)@.cursor + step, ..old(self)@ }),
    {
        if step == 1 {
            self.next_day();
        } else if step == -1 {
            self.prev_day();
        } else if step == 7 {
            let mut n: usize = 0;
            let ghost start = self@;
            while n < 7
                invariant
                    n <= 7,
                    self.wf(),
                    is_valid_day(start.cursor + 7),
                    self@ == (AppView { cursor: start.cursor + n, ..start }),
                decreases 7 - n,
            {
                self.next_day();
                n = n + 1;
            }
        } else {
            let mut n: usize = 0;
            let ghost start = self@;
            while n < 7
                invariant
                    n <= 7,
                    self.wf(),
                    is_valid_day(start.cursor - 7),
                    self@ == (AppView { cursor: start.cursor - n, ..start }),
                decreases 7 - n,
            {
                self.prev_day();
                n = n + 1;
            }
        }
    }

    /// Updates the picker for a key press.
    pub fn handle_key_event(&mut self, key: KeyCode)
        requires
            old(self).wf(),
            key_allowed(old(self)@, key),
        ensures
            final(self).wf(),
            final(self)@ == after_key(old(self)@, key),
    {
        match key {
            KeyCode::Char('q') => {
                self.selected_date = None;
                self.exit();
            },
            KeyCode::Esc => self.exit(),
            KeyCode::Tab => self.next_day(),
            KeyCode::Char('l') => self.next_day(),
            KeyCode::Right => self.next_day(),
            KeyCode::Backspace => self.remove_date(),
            KeyCode::Left => self.prev_day(),
            KeyCode::Char('h') => self.prev_day(),
            KeyCode::Down => self.move_by(7),
            KeyCode::Char('j') => self.move_by(7),
            KeyCode::Up => self.move_by(-7),
            KeyCode::Char('k') => self.move_by(-7),
            KeyCode::Char(' ') => self.add_date(),
            KeyCode::Enter => self.exit(),
            _ => {},
        }
    }

    /// Updates the picker for a terminal event: key presses are handled,
    /// key repeats and releases and other events are passed over.
    pub fn handle_event(&mut self, event: InputEvent)
        requires
            old(self).wf(),
            event_allowed(old(self)@, event),
        ensures
            final(self).wf(),
            final(self)@ == after_event(old(self)@, event),
    {
        match event {
            InputEvent::Key { code, kind: KeyEventKind::Press } => self.handle_key_event(code),
            _ => {},
        }
    }

    /// The selected days as text: month-day-year, joined by `,`; empty when
    /// nothing was ever selected.
    pub fn display_dates(&self) -> (text: String)
        requires
            self.wf(),
        ensures
            text@ == (match self@.selected {
                Some(dates) => dates_text(dates, seq![]),
                None => seq![],
            }),
    {
        match &self.selected_date {
            Some(dates) => {
                assert(self@.selected == Some(dates@));
                assert forall|i: int| 0 <= i < dates.len() implies is_valid_day(
                    #[trigger] dates[i] as int,
                ) by {
                    assert(view_wf(self@));
                    assert(self@.selected->0 == dates@);
                    assert(is_valid_day(self@.selected->0[i] as int));
                }
                let text = convert_dates_to_string(dates, "");
                proof {
                    reveal_strlit("");
                }
                assert(""@ =~= Seq::<char>::empty());
                text
            },
            None => String::new(),
        }
    }
}

/// What each key does, key by key: Right, Tab and `l` move the cursor one
/// day on, Left and `h` one day back, Down and `j` a week on, Up and `k` a
/// week back, leaving the rest as it was; `q` quits dropping the
/// selection; Esc and Enter quit keeping it; Space appends the cursor's day
/// to the selection (starting one if there was none); Backspace drops the
/// selection's last day; any other key changes nothing.
pub proof fn lemma_key_effects(v: AppView, c: char)
    ensures
        after_key(v, KeyCode::Right) == (AppView { exit: v.exit, cursor: v.cursor + 1, selected: v.selected }),
        after_key(v, KeyCode::Tab) == (AppView { exit: v.exit, cursor: v.cursor + 1, selected: v.selected }),
        after_key(v, KeyCode::Char('l')) == (AppView { exit: v.exit, cursor: v.cursor + 1, selected: v.selected }),
        after_key(v, KeyCode::Left) == (AppView { exit: v.exit, cursor: v.cursor - 1, selected: v.selected }),
        after_key(v, KeyCode::Char('h')) == (AppView { exit: v.exit, cursor: v.cursor - 1, selected: v.selected }),
        after_key(v, KeyCode::Down) == (AppView { exit: v.exit, cursor: v.cursor + 7, selected: v.selected }),
        after_key(v, KeyCode::Char('j')) == (AppView { exit: v.exit, cursor: v.cursor + 7, selected: v.selected }),
        after_key(v, KeyCode::Up) == (AppView { exit: v.exit, cursor: v.cursor - 7, selected: v.selected }),
        after_key(v, KeyCode::Char('k')) == (AppView { exit: v.exit, cursor: v.cursor - 7, selected: v.selected }),
        after_key(v, KeyCode::Char('q')) == (AppView { exit: true, cursor: v.cursor, selected: None }),
        after_key(v, KeyCode::Esc) == (AppView { exit: true, cursor: v.cursor, selected: v.selected }),
        after_key(v, KeyCode::Enter) == (AppView { exit: true, cursor: v.cursor, selected: v.selected }),
        after_key(v, KeyCode::Char(' ')).exit == v.exit,
        after_key(v, KeyCode::Char(' ')).cursor == v.cursor,
        after_key(v, KeyCode::Char(' ')).selected == Some(
            (if v.selected is Some { v.selected->0 } else { Seq::<i32>::empty() }).push(v.cursor as i32),
        ),
        after_key(v, KeyCode::Backspace).exit == v.exit,
        after_key(v, KeyCode::Backspace).cursor == v.cursor,
        v.selected is None ==> after_key(v, KeyCode::Backspace).selected is None,
        v.selected matches Some(d) ==> after_key(v, KeyCode::Backspace).selected == Some(
            d.take(if d.len() > 0 { d.len() - 1 } else { 0 }),
        ),
        after_key(v, KeyCode::Other) == v,
        c != 'l' && c != 'h' && c != 'j' && c != 'k' && c != 'q' && c != ' ' ==> after_key(
            v,
            KeyCode::Char(c),
        ) == v,
{
    if let Some(d) = v.selected {
        if d.len() > 0 {
            assert(d.drop_last() =~= d.take(d.len() - 1));
        } else {
            assert(d.take(0) =~= d);
        }
        assert(after_key(v, KeyCode::Backspace).selected == Some(
            d.take(if d.len() > 0 { d.len() - 1 } else { 0 }),
        ));
    } else {
        assert(seq![v.cursor as i32] =~= Seq::<i32>::empty().push(v.cursor as i32));
    }
}

/// The text of a list of days: nothing for none, the one day's text for
/// one, and one more `,` and day text for each further day.
pub proof fn lemma_dates_text(dates: Seq<i32>, day: i32, prefix: Seq<char>)
    ensures
        dates_text(Seq::empty(), prefix) == Seq::<char>::empty(),
        dates_text(seq![day], prefix) == prefix + formatted_date(day as int, month_day_year()),
        dates.len() > 0 ==> dates_text(dates.push(day), prefix) == dates_text(dates, prefix)
            + seq![','] + prefix + formatted_date(day as int, month_day_year()),
{
    let f = |d: i32| prefix + formatted_date(d as int, month_day_year());
    assert(Seq::<i32>::empty().map_values(f) =~= Seq::<Seq<char>>::empty());
    assert(seq![day].map_values(f) =~= seq![f(day)]);
    let parts = dates.push(day).map_values(f);
    assert(parts.drop_last() =~= dates.map_values(f));
    assert(parts.last() == f(day));
    if dates.len() > 0 {
        assert(dates_text(dates.push(day), prefix) =~= dates_text(dates, prefix) + seq![','] + f(
            day,
        ));
    }
}

/// Moving the cursor a day on and a day back, or a week on and a week
/// back, leaves the picker as it was.
pub proof fn lemma_moves_undo(v: AppView)
    requires
        view_wf(v),
    ensures
        is_valid_day(v.cursor + 1) ==> after_key(after_key(v, KeyCode::Right), KeyCode::Left)
            == v,
        is_valid_day(v.cursor + 7) ==> after_key(after_key(v, KeyCode::Down), KeyCode::Up) == v,
        is_valid_day(v.cursor - 1) ==> after_key(after_key(v, KeyCode::Left), KeyCode::Right)
            == v,
        is_valid_day(v.cursor - 7) ==> after_key(after_key(v, KeyCode::Up), KeyCode::Down) == v,
{
}

/// Removing the last day right after adding the cursor's day gives back a
/// selection that was already started.
pub proof fn lemma_remove_undoes_add(v: AppView)
    requires
        v.selected is Some,
    ensures
        after_key(after_key(v, KeyCode::Char(' ')), KeyCode::Backspace) == v,
{
    let dates = v.selected->0;
    assert(dates.push(v.cursor as i32).drop_last() =~= dates);
}

} // verus!
