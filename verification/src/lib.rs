//! Note front-matter handling: splitting a note into its `---` delimited
//! front matter and body, rejoining them, the cache-file naming and line
//! encoding used to keep the front matter aside while the body is edited,
//! the entries of the note finder, and the date-selection state machine of
//! the calendar picker.

mod calendar;
mod cli;
mod front_matter;
mod paths;
mod searcher;
mod text;

pub use calendar::{
    after_event, after_key, convert_dates_to_string, dates_text, event_allowed, formatted_date,
    is_valid_day, join_with, key_allowed, key_step, key_step_of, lemma_dates_text, lemma_key_effects, lemma_moves_undo,
    lemma_remove_undoes_add, month_day_year, view_wf, with_cursor_added, with_last_removed, App,
    AppView, InputEvent, KeyCode, KeyEventKind, MAX_JULIAN_DAY, MIN_JULIAN_DAY,
};
pub use cli::Cli;
pub use front_matter::{
    body_of, closes_front_matter, front_matter_end, front_matter_of, join_front_matter_and_body,
    joined_note, lemma_dashes_is_delimiter, lemma_edit_cycle_keeps_unedited_note,
    lemma_front_matter_end_unique, lemma_join_then_scan, lemma_scan_steps, lemma_unedited_note_round_trips,
    scan_front_matter, scan_state, splits_as, NoteState, Scan,
};
pub use paths::{
    file_name, file_name_of, file_stem, front_matter_cache_path, join_path, joined_path, last_dot,
    lemma_file_name_of_plain, lemma_file_name_shape, lemma_seg_start,
    lemma_tmp_name_adds_extension, lemma_tmp_name_idempotent, lemma_tmp_name_replaces_extension, seg_start, tmp_extension,
    tmp_file_extension, tmp_name, write_front_matter_cache,
};
pub use searcher::{
    lemma_one_line_break, lemma_one_line_concat, lemma_one_line_keeps_text, lemma_one_line_len,
    one_line, replace_newlines, MultiLineItem,
};
pub use text::{
    chars_of, dashes, is_delimiter, is_delimiter_line, is_plain_line, is_white_space,
    is_white_space_char, lemma_delimiter_shape, lemma_lines_first_line, lemma_lines_keep_text, lemma_lines_round_trip, line_len, lines_of, lines_view, render,
    render_lines, split_lines, string_of_chars, strip_cr, trim_end,
};
