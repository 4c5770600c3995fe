//! Splitting a note into its front matter and body, and joining them again.
//!
//! A note opens with a front-matter block when its first line is a
//! delimiter (`---`, trailing white space allowed) and a later line is one
//! too; the block is the lines between the first two delimiters, and the
//! body is everything after the second.

use vstd::prelude::*;
use crate::text::{
    dashes, is_delimiter, is_delimiter_line, is_plain_line, is_white_space, lemma_lines_round_trip,
    lines_of, lines_view, render,
};

verus! {

/// The state of a line-by-line scan for a front-matter block.
#[derive(Debug, Clone, Copy, PartialEq, Eq, Structural)]
pub enum Scan {
    /// No line has been seen yet.
    Seeking,
    /// The first line was a delimiter; no closing delimiter yet.
    PotentiallyFrontMatter,
    /// The block is closed; the body starts at line `end`.
    ExitFrontMatter { end: usize },
    /// The first line was not a delimiter: the note has no front matter.
    Absent,
}

/// A note split into front matter and body, or a note without front matter.
#[derive(Debug, PartialEq, Eq)]
pub enum NoteState {
    ContainsFrontMatter { front_matter: Vec<String>, body: Vec<String> },
    NoFrontMatter { body: Vec<String> },
}

impl Scan {
    /// The state after seeing line `line_number`, which is a delimiter or not.
    pub open spec fn next_state(self, is_delimiter: bool, line_number: usize) -> Scan {
        match self {
            Scan::Seeking => if is_delimiter {
                Scan::PotentiallyFrontMatter
            } else {
                Scan::Absent
            },
            Scan::PotentiallyFrontMatter => if is_delimiter {
                Scan::ExitFrontMatter { end: (line_number + 1) as usize }
            } else {
                Scan::PotentiallyFrontMatter
            },
            _ => self,
        }
    }

    /// Advances the scan by one line.
    pub fn step_by_line(self, is_delimiter: bool, line_number: usize) -> (next: Scan)
        requires
            self is PotentiallyFrontMatter && is_delimiter ==> line_number < usize::MAX,
        ensures
            next == self.next_state(is_delimiter, line_number),
    {
        match self {
            Scan::Seeking => if is_delimiter {
                Scan::PotentiallyFrontMatter
            } else {
                Scan::Absent
            },
            Scan::PotentiallyFrontMatter => if is_delimiter {
                Scan::ExitFrontMatter { end: line_number + 1 }
            } else {
                Scan::PotentiallyFrontMatter
            },
            _ => self,
        }
    }
}

/// How the scan moves, state by state: the first line decides between a
/// possible block (a delimiter) and none; inside a possible block, a
/// delimiter at line `n` closes it with the body starting at line `n + 1`,
/// and any other line keeps it open; a closed block or a note without one
/// stays so whatever follows.
pub proof fn lemma_scan_steps(is_delim: bool, n: usize, end: usize)
    requires
        n < usize::MAX,
    ensures
        Scan::Seeking.next_state(true, n) == Scan::PotentiallyFrontMatter,
        Scan::Seeking.next_state(false, n) == Scan::Absent,
        Scan::PotentiallyFrontMatter.next_state(true, n) == (Scan::ExitFrontMatter {
            end: (n + 1) as usize,
        }),
        Scan::PotentiallyFrontMatter.next_state(false, n) == Scan::PotentiallyFrontMatter,
        Scan::Absent.next_state(is_delim, n) == Scan::Absent,
        (Scan::ExitFrontMatter { end }).next_state(is_delim, n) == (Scan::ExitFrontMatter { end }),
{
}

/// The scan state after all of `lines`, line `i` being numbered `i`.
pub open spec fn scan_state(lines: Seq<String>) -> Scan
    decreases lines.len(),
{
    if lines.len() == 0 {
        Scan::Seeking
    } else {
        scan_state(lines.drop_last()).next_state(
            is_delimiter(lines.last()@),
            (lines.len() - 1) as usize,
        )
    }
}

/// Line `k` closes a front-matter block that line 0 opens.
pub open spec fn closes_front_matter(lines: Seq<String>, k: int) -> bool {
    &&& 0 < k < lines.len()
    &&& is_delimiter(lines[0]@)
    &&& is_delimiter(lines[k]@)
    &&& forall|i: int| 0 < i < k ==> !is_delimiter(#[trigger] lines[i]@)
}

/// The index of the line that closes the note's front matter, if it has any.
pub open spec fn front_matter_end(lines: Seq<String>) -> Option<int> {
    if exists|k: int| closes_front_matter(lines, k) {
        Some(choose|k: int| closes_front_matter(lines, k))
    } else {
        None
    }
}

/// `state` is the split of `lines`: with front matter, the lines strictly
/// between the two delimiters and the lines after the second; without, all
/// the lines as body.
pub open spec fn splits_as(lines: Seq<String>, state: NoteState) -> bool {
    match front_matter_end(lines) {
        Some(k) => match state {
            NoteState::ContainsFrontMatter { front_matter, body } => {
                &&& front_matter@ == lines.subrange(1, k)
                &&& body@ == lines.subrange(k + 1, lines.len() as int)
            },
            NoteState::NoFrontMatter { .. } => false,
        },
        None => match state {
            NoteState::NoFrontMatter { body } => body@ == lines,
            NoteState::ContainsFrontMatter { .. } => false,
        },
    }
}

/// A note closes its front matter at one line at most.
pub proof fn lemma_front_matter_end_unique(lines: Seq<String>, k: int)
    requires
        closes_front_matter(lines, k),
    ensures
        front_matter_end(lines) == Some(k),
{
    let j = choose|j: int| closes_front_matter(lines, j);
    assert(closes_front_matter(lines, j));
    if j < k {
        assert(!is_delimiter(lines[j]@));
    }
    if k < j {
        assert(!is_delimiter(lines[k]@));
    }
}

proof fn lemma_scan_state(lines: Seq<String>)
    requires
        lines.len() <= usize::MAX,
    ensures
        match scan_state(lines) {
            Scan::Seeking => lines.len() == 0,
            Scan::Absent => lines.len() > 0 && !is_delimiter(lines[0]@),
            Scan::PotentiallyFrontMatter => {
                &&& lines.len() > 0
                &&& is_delimiter(lines[0]@)
                &&& forall|i: int| 0 < i < lines.len() ==> !is_delimiter(#[trigger] lines[i]@)
            },
            Scan::ExitFrontMatter { end } => closes_front_matter(lines, end - 1),
        },
    decreases lines.len(),
{
    if lines.len() > 0 {
        let prev = lines.drop_last();
        let n = prev.len() as int;
        lemma_scan_state(prev);
        assert forall|i: int| 0 <= i < n implies #[trigger] prev[i] == lines[i] by {}
        match scan_state(prev) {
            Scan::Seeking => {},
            Scan::Absent => {
                assert(prev[0] == lines[0]);
            },
            Scan::PotentiallyFrontMatter => {
                assert(prev[0] == lines[0]);
                assert forall|i: int| 0 < i < n implies !is_delimiter(#[trigger] lines[i]@) by {
                    assert(prev[i] == lines[i]);
                }
            },
            Scan::ExitFrontMatter { end } => {
                assert(prev[0] == lines[0]);
                assert(prev[end - 1] == lines[end - 1]);
                assert forall|i: int| 0 < i < end - 1 implies !is_delimiter(
                    #[trigger] lines[i]@,
                ) by {
                    assert(prev[i] == lines[i]);
                }
            },
        }
    }
}

/// Splits the lines of a note into its front matter and body.
pub fn scan_front_matter(lines: Vec<String>) -> (state: NoteState)
    ensures
        splits_as(lines@, state),
{
    let mut state = Scan::Seeking;
    let mut i: usize = 0;
    assert(lines@.take(0) =~= Seq::<String>::empty());
    while i < lines.len()
        invariant
            i <= lines.len(),
            state == scan_state(lines@.take(i as int)),
        decreases lines.len() - i,
    {
        let is_delim = is_delimiter_line(lines[i].as_str());
        state = state.step_by_line(is_delim, i);
        assert(lines@.take(i + 1).drop_last() =~= lines@.take(i as int));
        i = i + 1;
    }
    assert(lines@.take(i as int) =~= lines@);
    proof {
        lemma_scan_state(lines@);
    }
    match state {
        Scan::ExitFrontMatter { end } => {
            proof {
                lemma_front_matter_end_unique(lines@, end - 1);
            }
            let ghost all = lines@;
            let mut collected = lines;
            let body = collected.split_off(end);
            collected.pop();
            collected.remove(0);
            assert(collected@ =~= all.subrange(1, end - 1));
            NoteState::ContainsFrontMatter { front_matter: collected, body }
        },
        _ => {
            assert(front_matter_end(lines@) is None) by {
                if exists|k: int| closes_front_matter(lines@, k) {
                    let k = choose|k: int| closes_front_matter(lines@, k);
                    assert(closes_front_matter(lines@, k));
                }
            }
            NoteState::NoFrontMatter { body: lines }
        },
    }
}

/// The front-matter lines of a note state: none for a note without.
pub open spec fn front_matter_of(state: NoteState) -> Seq<String> {
    match state {
        NoteState::ContainsFrontMatter { front_matter, .. } => front_matter@,
        NoteState::NoFrontMatter { .. } => Seq::empty(),
    }
}

/// The body lines of a note state.
pub open spec fn body_of(state: NoteState) -> Seq<String> {
    match state {
        NoteState::ContainsFrontMatter { body, .. } => body@,
        NoteState::NoFrontMatter { body } => body@,
    }
}

/// The note that puts the cached front matter, then the front matter found
/// in the edited note, between two `---` lines, followed by the edited body.
pub open spec fn joined_note(cached: Seq<Seq<char>>, edited: NoteState) -> Seq<Seq<char>> {
    seq![dashes()] + cached + lines_view(front_matter_of(edited)) + seq![dashes()] + lines_view(
        body_of(edited),
    )
}

/// Joins the front matter kept aside while a note was edited with the note
/// as it stands after editing.
pub fn join_front_matter_and_body(front_matter_original: Vec<String>, state_post_edit: NoteState)
    -> (note: Vec<String>)
    ensures
        lines_view(note@) == joined_note(lines_view(front_matter_original@), state_post_edit),
{
    let mut front_matter_original = front_matter_original;
    let ghost cached = front_matter_original@;
    let mut new_front_matter: Vec<String> = Vec::new();
    proof {
        reveal_strlit("---");
    }
    let open = String::from_str("---");
    assert(open@ =~= dashes());
    new_front_matter.push(open);
    let close = String::from_str("---");
    assert(close@ =~= dashes());
    match state_post_edit {
        NoteState::ContainsFrontMatter { front_matter, body } => {
            let ghost edited_fm = front_matter@;
            let ghost edited_body = body@;
            let mut front_matter = front_matter;
            let mut body = body;
            new_front_matter.append(&mut front_matter_original);
            new_front_matter.append(&mut front_matter);
            new_front_matter.push(close);
            new_front_matter.append(&mut body);
            assert(lines_view(new_front_matter@) =~= seq![dashes()] + lines_view(cached)
                + lines_view(edited_fm) + seq![dashes()] + lines_view(edited_body));
        },
        NoteState::NoFrontMatter { body } => {
            let ghost edited_body = body@;
            let mut body = body;
            new_front_matter.append(&mut front_matter_original);
            new_front_matter.push(close);
            new_front_matter.append(&mut body);
            assert(lines_view(new_front_matter@) =~= seq![dashes()] + lines_view(cached)
                + lines_view(Seq::<String>::empty()) + seq![dashes()] + lines_view(edited_body));
        },
    }
    new_front_matter
}

/// A bare `---` line is a delimiter.
pub proof fn lemma_dashes_is_delimiter()
    ensures
        is_delimiter(dashes()),
{
    assert(dashes().last() == '-');
    assert(!is_white_space('-'));
}

/// Opening a note whose two delimiters are bare `---` lines and whose body
/// does not itself open with a front-matter block, setting the front matter
/// aside, and joining it back to the unedited body gives the note back.
pub proof fn lemma_unedited_note_round_trips(
    lines: Seq<String>,
    split: NoteState,
    reread: NoteState,
)
    requires
        splits_as(lines, split),
        split is ContainsFrontMatter,
        lines[0]@ == dashes(),
        lines[front_matter_end(lines)->0]@ == dashes(),
        splits_as(body_of(split), reread),
        reread is NoFrontMatter,
    ensures
        joined_note(lines_view(front_matter_of(split)), reread) == lines_view(lines),
{
    let k = front_matter_end(lines)->0;
    let fm = front_matter_of(split);
    let body = body_of(split);
    assert(body_of(reread) == body);
    assert(front_matter_of(reread) =~= Seq::<String>::empty());
    assert(fm == lines.subrange(1, k));
    assert(body == lines.subrange(k + 1, lines.len() as int));
    let j = joined_note(lines_view(fm), reread);
    assert(j.len() == lines.len());
    assert forall|i: int| 0 <= i < lines.len() implies #[trigger] j[i] == lines_view(lines)[i] by {
        if i == 0 {
        } else if i < k {
            assert(j[i] == lines_view(fm)[i - 1]);
        } else if i == k {
        } else {
            assert(j[i] == lines_view(body)[i - k - 1]);
        }
    }
    assert(j =~= lines_view(lines));
}

/// Joining cached front matter that holds no delimiter line with the split
/// of an edited note gives a note that splits into the cached front matter
/// followed by the edited note's front matter, and the edited body.
pub proof fn lemma_join_then_scan(
    cached: Seq<String>,
    edited: Seq<String>,
    edited_split: NoteState,
    joined: Seq<String>,
    rescan: NoteState,
)
    requires
        forall|i: int| 0 <= i < cached.len() ==> !is_delimiter(#[trigger] cached[i]@),
        splits_as(edited, edited_split),
        lines_view(joined) == joined_note(lines_view(cached), edited_split),
        splits_as(joined, rescan),
    ensures
        rescan is ContainsFrontMatter,
        lines_view(front_matter_of(rescan)) == lines_view(cached) + lines_view(
            front_matter_of(edited_split),
        ),
        lines_view(body_of(rescan)) == lines_view(body_of(edited_split)),
{
    let fm1 = front_matter_of(edited_split);
    let body = body_of(edited_split);
    let k: int = cached.len() + fm1.len() + 1int;
    let v = lines_view(joined);
    lemma_dashes_is_delimiter();
    assert forall|i: int| 0 <= i < fm1.len() implies !is_delimiter(#[trigger] fm1[i]@) by {
        if edited_split is ContainsFrontMatter {
            let k1 = front_matter_end(edited)->0;
            assert(fm1[i] == edited[i + 1]);
        }
    }
    assert(joined.len() == v.len());
    assert forall|i: int| 0 <= i < joined.len() implies #[trigger] joined[i]@ == v[i] by {}
    assert(joined[0]@ == dashes());
    assert(joined[k]@ == dashes());
    assert forall|i: int| 0 < i < k implies !is_delimiter(#[trigger] joined[i]@) by {
        assert(joined[i]@ == v[i]);
        if i <= cached.len() {
            assert(v[i] == cached[i - 1]@);
        } else {
            assert(v[i] == fm1[i - 1 - cached.len()]@);
        }
    }
    assert(closes_front_matter(joined, k));
    lemma_front_matter_end_unique(joined, k);
    assert(lines_view(front_matter_of(rescan)) =~= lines_view(cached) + lines_view(fm1));
    assert(lines_view(body_of(rescan)) =~= lines_view(body));
}

/// The whole cycle of opening a note and closing it unedited keeps its
/// lines: the front matter is written to the cache file and the body back
/// to the note, both are read back line by line, the re-read body is
/// scanned, and the cached front matter is joined to it. This holds for
/// notes whose two delimiters are bare `---` lines, whose lines read back
/// as they were written (no `\r` at a line's end), and whose body does not
/// itself open with a front-matter block.
pub proof fn lemma_edit_cycle_keeps_unedited_note(
    lines: Seq<String>,
    split: NoteState,
    cached: Seq<String>,
    reread_lines: Seq<String>,
    reread: NoteState,
)
    requires
        forall|i: int| 0 <= i < lines.len() ==> is_plain_line(#[trigger] lines[i]@),
        splits_as(lines, split),
        split is ContainsFrontMatter,
        lines[0]@ == dashes(),
        lines[front_matter_end(lines)->0]@ == dashes(),
        lines_view(cached) == lines_of(render(lines_view(front_matter_of(split)))),
        lines_view(reread_lines) == lines_of(render(lines_view(body_of(split)))),
        splits_as(reread_lines, reread),
        reread is NoFrontMatter,
    ensures
        joined_note(lines_view(cached), reread) == lines_view(lines),
{
    let k = front_matter_end(lines)->0;
    let fm = front_matter_of(split);
    let body = body_of(split);
    assert(fm == lines.subrange(1, k));
    assert(body == lines.subrange(k + 1, lines.len() as int));
    assert forall|i: int| 0 <= i < fm.len() implies is_plain_line(#[trigger] lines_view(fm)[i]) by {
        assert(fm[i] == lines[i + 1]);
    }
    assert forall|i: int| 0 <= i < body.len() implies is_plain_line(
        #[trigger] lines_view(body)[i],
    ) by {
        assert(body[i] == lines[i + k + 1]);
    }
    lemma_lines_round_trip(lines_view(fm));
    lemma_lines_round_trip(lines_view(body));
    assert(body_of(reread) == reread_lines);
    assert(front_matter_of(reread) =~= Seq::<String>::empty());
    let j = joined_note(lines_view(cached), reread);
    assert(j.len() == lines.len());
    assert forall|i: int| 0 <= i < lines.len() implies #[trigger] j[i] == lines_view(lines)[i] by {
        if 0 < i < k {
            assert(j[i] == lines_view(cached)[i - 1]);
            assert(lines_view(fm)[i - 1] == fm[i - 1]@);
        } else if i > k {
            assert(j[i] == lines_view(reread_lines)[i - k - 1]);
            assert(lines_view(body)[i - k - 1] == body[i - k - 1]@);
        }
    }
    assert(j =~= lines_view(lines));
}

} // verus!
