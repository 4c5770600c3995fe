use dscribe::{
    join_front_matter_and_body, render_lines, scan_front_matter, split_lines, NoteState, Scan,
};

fn strings(lines: &[&str]) -> Vec<String> {
    lines.iter().map(|s| s.to_string()).collect()
}

#[test]
fn step_by_line_transitions() {
    assert_eq!(Scan::Seeking.step_by_line(true, 0), Scan::PotentiallyFrontMatter);
    assert_eq!(Scan::Seeking.step_by_line(false, 0), Scan::Absent);
    assert_eq!(
        Scan::PotentiallyFrontMatter.step_by_line(true, 4),
        Scan::ExitFrontMatter { end: 5 }
    );
    assert_eq!(Scan::PotentiallyFrontMatter.step_by_line(false, 4), Scan::PotentiallyFrontMatter);
    assert_eq!(Scan::Absent.step_by_line(true, 3), Scan::Absent);
    assert_eq!(Scan::ExitFrontMatter { end: 2 }.step_by_line(true, 9), Scan::ExitFrontMatter { end: 2 });
}

#[test]
fn scan_note_with_front_matter() {
    let lines = strings(&["---", "title: a", "date: b", "---", "body 1", "body 2"]);
    assert_eq!(
        scan_front_matter(lines),
        NoteState::ContainsFrontMatter {
            front_matter: strings(&["title: a", "date: b"]),
            body: strings(&["body 1", "body 2"]),
        }
    );
}

#[test]
fn scan_delimiters_with_trailing_space() {
    let lines = strings(&["---  ", "k: v", "---\t", "text"]);
    assert_eq!(
        scan_front_matter(lines),
        NoteState::ContainsFrontMatter { front_matter: strings(&["k: v"]), body: strings(&["text"]) }
    );
}

#[test]
fn scan_empty_front_matter_and_body() {
    let lines = strings(&["---", "---"]);
    assert_eq!(
        scan_front_matter(lines),
        NoteState::ContainsFrontMatter { front_matter: vec![], body: vec![] }
    );
}

#[test]
fn scan_only_first_block_counts() {
    let lines = strings(&["---", "a", "---", "b", "---", "c"]);
    assert_eq!(
        scan_front_matter(lines),
        NoteState::ContainsFrontMatter { front_matter: strings(&["a"]), body: strings(&["b", "---", "c"]) }
    );
}

#[test]
fn scan_without_front_matter() {
    for case in [vec![], strings(&["text", "---", "x", "---"]), strings(&["---", "never closed"]), strings(&[" ---", "a", "---"])] {
        assert_eq!(scan_front_matter(case.clone()), NoteState::NoFrontMatter { body: case });
    }
}

#[test]
fn join_with_edited_note_without_front_matter() {
    let joined = join_front_matter_and_body(
        strings(&["title: a"]),
        NoteState::NoFrontMatter { body: strings(&["body"]) },
    );
    assert_eq!(joined, strings(&["---", "title: a", "---", "body"]));
}

#[test]
fn join_merges_front_matter_added_while_editing() {
    let joined = join_front_matter_and_body(
        strings(&["title: a"]),
        NoteState::ContainsFrontMatter { front_matter: strings(&["date: b"]), body: strings(&["body"]) },
    );
    assert_eq!(joined, strings(&["---", "title: a", "date: b", "---", "body"]));
}

#[test]
fn join_with_empty_cache_and_empty_body() {
    let joined = join_front_matter_and_body(vec![], NoteState::NoFrontMatter { body: vec![] });
    assert_eq!(joined, strings(&["---", "---"]));
}

#[test]
fn unedited_note_round_trips() {
    let lines = strings(&["---", "title: a", "---", "first", "second"]);
    match scan_front_matter(lines.clone()) {
        NoteState::ContainsFrontMatter { front_matter, body } => {
            let reread = scan_front_matter(body);
            assert_eq!(join_front_matter_and_body(front_matter, reread), lines);
        }
        other => panic!("expected front matter, got {:?}", other),
    }
}

#[test]
fn joined_note_rescans_to_merged_front_matter() {
    let edited = strings(&["---", "date: b", "---", "body"]);
    let joined = join_front_matter_and_body(strings(&["title: a"]), scan_front_matter(edited));
    assert_eq!(
        scan_front_matter(joined),
        NoteState::ContainsFrontMatter { front_matter: strings(&["title: a", "date: b"]), body: strings(&["body"]) }
    );
}

#[test]
fn scan_of_a_read_file_text() {
    let lines = split_lines("---\r\ntitle: a\r\n---\r\nbody\r\n");
    assert_eq!(
        scan_front_matter(lines),
        NoteState::ContainsFrontMatter { front_matter: strings(&["title: a"]), body: strings(&["body"]) }
    );
}

#[test]
fn edit_cycle_keeps_unedited_note() {
    let text = "---\ntitle: a\ntags: x\n---\nfirst\n\nlast\n";
    let lines = split_lines(text);
    let (front_matter, body) = match scan_front_matter(lines.clone()) {
        NoteState::ContainsFrontMatter { front_matter, body } => (front_matter, body),
        other => panic!("expected front matter, got {:?}", other),
    };
    let cached = split_lines(&render_lines(&front_matter));
    let reread = scan_front_matter(split_lines(&render_lines(&body)));
    let note = join_front_matter_and_body(cached, reread);
    assert_eq!(note, lines);
    assert_eq!(render_lines(&note), text);
}

#[test]
fn edit_cycle_merges_a_block_that_opens_the_body() {
    let lines = strings(&["---", "a", "---", "---", "b", "---", "c"]);
    let (front_matter, body) = match scan_front_matter(lines.clone()) {
        NoteState::ContainsFrontMatter { front_matter, body } => (front_matter, body),
        other => panic!("expected front matter, got {:?}", other),
    };
    let note = join_front_matter_and_body(front_matter, scan_front_matter(body));
    assert_eq!(note, strings(&["---", "a", "b", "---", "c"]));
}
