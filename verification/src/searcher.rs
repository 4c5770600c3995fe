//! The entries offered by the note finder: a note's path with its text,
//! shown on one line in the list and in full in the preview.

use vstd::prelude::*;
use crate::text::{chars_of, push_char};

verus! {

/// `s` with each `\n` replaced by two spaces.
pub open spec fn one_line(s: Seq<char>) -> Seq<char>
    decreases s.len(),
{
    if s.len() == 0 {
        seq![]
    } else {
        one_line(s.drop_last()) + if s.last() == '\n' {
            seq![' ', ' ']
        } else {
            seq![s.last()]
        }
    }
}

/// The one-line form of a text is made piece by piece: that of a
/// concatenation is the concatenation of those of its parts.
pub proof fn lemma_one_line_concat(a: Seq<char>, b: Seq<char>)
    ensures
        one_line(a + b) == one_line(a) + one_line(b),
    decreases b.len(),
{
    if b.len() == 0 {
        assert(a + b =~= a);
        assert(one_line(a) + one_line(b) =~= one_line(a));
    } else {
        lemma_one_line_concat(a, b.drop_last());
        assert((a + b).drop_last() =~= a + b.drop_last());
        assert((a + b).last() == b.last());
        assert(one_line(a + b) =~= one_line(a) + one_line(b));
    }
}

/// A text without line breaks is shown on one line as it stands.
pub proof fn lemma_one_line_keeps_text(s: Seq<char>)
    requires
        !s.contains('\n'),
    ensures
        one_line(s) == s,
    decreases s.len(),
{
    if s.len() > 0 {
        assert(!s.drop_last().contains('\n')) by {
            if s.drop_last().contains('\n') {
                let j = choose|j: int| 0 <= j < s.drop_last().len() && s.drop_last()[j] == '\n';
                assert(s[j] == '\n');
            }
        }
        lemma_one_line_keeps_text(s.drop_last());
        assert(s.contains(s.last()));
        assert(one_line(s) =~= s);
    }
}

/// Each line break of a text becomes two spaces, and nothing else changes
/// around it.
pub proof fn lemma_one_line_break(a: Seq<char>, b: Seq<char>)
    ensures
        one_line(a + seq!['\n'] + b) == one_line(a) + seq![' ', ' '] + one_line(b),
{
    lemma_one_line_concat(a + seq!['\n'], b);
    lemma_one_line_concat(a, seq!['\n']);
    assert(seq!['\n'].drop_last() =~= Seq::<char>::empty());
    assert(seq!['\n'].last() == '\n');
    assert(one_line(Seq::<char>::empty()) =~= Seq::<char>::empty());
    assert(one_line(seq!['\n']) =~= seq![' ', ' ']);
}

/// A finder entry's one-line text has one character more than its body for
/// each line break, and no other change.
pub proof fn lemma_one_line_len(s: Seq<char>)
    ensures
        one_line(s).len() == s.len() + s.filter(|c: char| c == '\n').len(),
    decreases s.len(),
{
    reveal_with_fuel(Seq::filter, 1);
    if s.len() > 0 {
        lemma_one_line_len(s.drop_last());
    }
}

/// Replaces each `\n` of `s` with two spaces.
pub fn replace_newlines(s: &str) -> (r: String)
    ensures
        r@ == one_line(s@),
{
    let chars = chars_of(s);
    let mut r = String::new();
    let mut i: usize = 0;
    assert(s@.take(0) =~= Seq::<char>::empty());
    while i < chars.len()
        invariant
            i <= chars.len(),
            chars@ == s@,
            r@ == one_line(s@.take(i as int)),
        decreases chars.len() - i,
    {
        let c = chars[i];
        if c == '\n' {
            push_char(&mut r, ' ');
            push_char(&mut r, ' ');
        } else {
            push_char(&mut r, c);
        }
        assert(s@.take(i + 1).drop_last() =~= s@.take(i as int));
        assert(r@ =~= one_line(s@.take(i + 1)));
        i = i + 1;
    }
    assert(s@.take(i as int) =~= s@);
    r
}

/// A note offered by the finder.
pub struct MultiLineItem {
    /// The path, a colon, a line break, and the note's text.
    pub body: String,
    /// The body on a single line.
    pub oneline: String,
    /// The note's path.
    pub file_name: String,
}

impl MultiLineItem {
    /// The entry for the note at `file_name` with text `text`.
    pub fn new(file_name: String, text: String) -> (item: Self)
        ensures
            item.body@ == file_name@ + seq![':', '\n'] + text@,
            item.oneline@ == one_line(item.body@),
            item.file_name == file_name,
    {
        let mut body = file_name.clone();
        push_char(&mut body, ':');
        push_char(&mut body, '\n');
        body.append(text.as_str());
        let oneline = replace_newlines(body.as_str());
        assert(body@ =~= file_name@ + seq![':', '\n'] + text@);
        MultiLineItem { body, oneline, file_name }
    }
}

} // verus!
