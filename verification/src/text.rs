//! Text handling shared by the note and cache code: Unicode white space,
//! trailing-white-space trimming, and the line encoding of a text file
//! (lines ended by `\n`, a `\r` before it dropped on reading).

use vstd::prelude::*;

verus! {

/// Appends one character to a string.
///
/// Trusted: calls `String::push`, whose documentation says it appends the
/// given `char` to the end of the string.
#[verifier::external_body]
pub(crate) fn push_char(s: &mut String, c: char)
    ensures
        final(s)@ == old(s)@.push(c),
{
    s.push(c);
}

/// The characters of `s`, in order.
pub fn chars_of(s: &str) -> (v: Vec<char>)
    ensures
        v@ == s@,
{
    let mut v: Vec<char> = Vec::new();
    for c in it: s.chars()
        invariant
            v@ == it.seq().take(it.index() as int),
            it.seq() == s@,
    {
        v.push(c);
    }
    v
}

/// The string made of `chars[from..to]`.
pub fn string_of_chars(chars: &Vec<char>, from: usize, to: usize) -> (s: String)
    requires
        from <= to <= chars.len(),
    ensures
        s@ == chars@.subrange(from as int, to as int),
{
    let mut s = String::new();
    let mut i = from;
    while i < to
        invariant
            from <= i <= to <= chars.len(),
            s@ == chars@.subrange(from as int, i as int),
        decreases to - i,
    {
        push_char(&mut s, chars[i]);
        assert(chars@.subrange(from as int, i + 1) =~= chars@.subrange(from as int, i as int).push(
            chars@[i as int],
        ));
        i = i + 1;
    }
    s
}

/// The characters with the Unicode `White_Space` property, the set that
/// `char::is_whitespace` and `str::trim_end` go by.
pub open spec fn is_white_space(c: char) -> bool {
    let u = c as u32;
    ||| 0x9 <= u <= 0xd
    ||| u == 0x20
    ||| u == 0x85
    ||| u == 0xa0
    ||| u == 0x1680
    ||| 0x2000 <= u <= 0x200a
    ||| u == 0x2028
    ||| u == 0x2029
    ||| u == 0x202f
    ||| u == 0x205f
    ||| u == 0x3000
}

/// Whether `c` is Unicode white space.
pub fn is_white_space_char(c: char) -> (b: bool)
    ensures
        b == is_white_space(c),
{
    let u = c as u32;
    (0x9 <= u && u <= 0xd) || u == 0x20 || u == 0x85 || u == 0xa0 || u == 0x1680 || (0x2000 <= u
        && u <= 0x200a) || u == 0x2028 || u == 0x2029 || u == 0x202f || u == 0x205f || u == 0x3000
}

/// `s` with its trailing white space removed.
pub open spec fn trim_end(s: Seq<char>) -> Seq<char>
    decreases s.len(),
{
    if s.len() > 0 && is_white_space(s.last()) {
        trim_end(s.drop_last())
    } else {
        s
    }
}

/// The three dashes that open and close a front-matter block.
pub open spec fn dashes() -> Seq<char> {
    seq!['-', '-', '-']
}

/// A line is a front-matter delimiter when, with its trailing white space
/// removed, it reads `---`.
pub open spec fn is_delimiter(line: Seq<char>) -> bool {
    trim_end(line) == dashes()
}

/// Whether `line` is a front-matter delimiter.
pub fn is_delimiter_line(line: &str) -> (b: bool)
    ensures
        b == is_delimiter(line@),
{
    let chars = chars_of(line);
    let mut end = chars.len();
    assert(line@.take(end as int) =~= line@);
    while end > 0 && is_white_space_char(chars[end - 1])
        invariant
            end <= chars.len(),
            chars@ == line@,
            trim_end(line@) == trim_end(line@.take(end as int)),
        decreases end,
    {
        assert(line@.take(end as int).drop_last() =~= line@.take(end - 1));
        end = end - 1;
    }
    assert(trim_end(line@) == line@.take(end as int));
    if end == 3 && chars[0] == '-' && chars[1] == '-' && chars[2] == '-' {
        assert(line@.take(3) =~= dashes());
        true
    } else {
        assert(end == 3 ==> line@.take(3)[0] == chars[0] && line@.take(3)[1] == chars[1]
            && line@.take(3)[2] == chars[2]);
        false
    }
}

/// The length of the first line of `s`: the characters before its first
/// `\n`, or all of them when it has none.
pub open spec fn line_len(s: Seq<char>) -> nat
    decreases s.len(),
{
    if s.len() == 0 || s[0] == '\n' {
        0
    } else {
        1 + line_len(s.drop_first())
    }
}

/// A line read from a file loses one `\r` that stood before its `\n`.
pub open spec fn strip_cr(line: Seq<char>) -> Seq<char> {
    if line.len() > 0 && line.last() == '\r' {
        line.drop_last()
    } else {
        line
    }
}

/// The lines of a text, as a line-by-line reader gives them: split at each
/// `\n`, with the `\n` and one `\r` before it removed; a last line without
/// `\n` is kept as it stands, and a text that ends with `\n` has no empty
/// line after it.
pub open spec fn lines_of(s: Seq<char>) -> Seq<Seq<char>>
    decreases s.len(),
{
    if s.len() == 0 {
        seq![]
    } else {
        let n = line_len(s);
        if n >= s.len() {
            seq![s]
        } else {
            seq![strip_cr(s.take(n as int))] + lines_of(s.skip(n + 1int))
        }
    }
}

/// The text that holds each line followed by `\n`.
pub open spec fn render(lines: Seq<Seq<char>>) -> Seq<char>
    decreases lines.len(),
{
    if lines.len() == 0 {
        seq![]
    } else {
        render(lines.drop_last()) + lines.last() + seq!['\n']
    }
}

/// The characters of each string of a list.
pub open spec fn lines_view(lines: Seq<String>) -> Seq<Seq<char>> {
    lines.map_values(|l: String| l@)
}

/// A line that survives being written and read back: it holds no `\n` and
/// does not end with `\r`.
pub open spec fn is_plain_line(line: Seq<char>) -> bool {
    &&& !line.contains('\n')
    &&& !(line.len() > 0 && line.last() == '\r')
}

proof fn lemma_line_len(s: Seq<char>, k: int)
    requires
        0 <= k <= s.len(),
        forall|i: int| 0 <= i < k ==> s[i] != '\n',
        k == s.len() || s[k] == '\n',
    ensures
        line_len(s) == k,
    decreases k,
{
    if k > 0 {
        lemma_line_len(s.drop_first(), k - 1);
    }
}

proof fn lemma_trim_end(s: Seq<char>)
    ensures
        trim_end(s).len() <= s.len(),
        trim_end(s) == s.take(trim_end(s).len() as int),
        forall|i: int| trim_end(s).len() <= i < s.len() ==> is_white_space(#[trigger] s[i]),
        trim_end(s).len() > 0 ==> !is_white_space(trim_end(s).last()),
    decreases s.len(),
{
    if s.len() > 0 && is_white_space(s.last()) {
        lemma_trim_end(s.drop_last());
        let t = trim_end(s.drop_last());
        assert(s.drop_last().take(t.len() as int) =~= s.take(t.len() as int));
        assert forall|i: int| t.len() <= i < s.len() implies is_white_space(#[trigger] s[i]) by {
            if i < s.len() - 1 {
                assert(s.drop_last()[i] == s[i]);
            }
        }
    } else {
        assert(s.take(s.len() as int) =~= s);
    }
}

/// A line is a delimiter exactly when it is three dashes followed by
/// nothing but white space.
pub proof fn lemma_delimiter_shape(line: Seq<char>)
    ensures
        is_delimiter(line) <==> {
            &&& line.len() >= 3
            &&& line.take(3) == dashes()
            &&& forall|i: int| 3 <= i < line.len() ==> is_white_space(#[trigger] line[i])
        },
{
    lemma_trim_end(line);
    let t = trim_end(line);
    let k = t.len() as int;
    if line.len() >= 3 && line.take(3) == dashes() && forall|i: int|
        3 <= i < line.len() ==> is_white_space(#[trigger] line[i]) {
        assert(line[0] == '-' && line[1] == '-' && line[2] == '-') by {
            assert(line.take(3)[0] == line[0]);
            assert(line.take(3)[1] == line[1]);
            assert(line.take(3)[2] == line[2]);
        }
        if k > 3 {
            assert(t.last() == line[k - 1]);
            assert(is_white_space(line[k - 1]));
        }
        if k < 3 {
            assert(is_white_space(line[k]));
        }
        assert(k == 3);
        assert(t =~= dashes());
    }
    if is_delimiter(line) {
        assert(k == 3);
        assert(line.take(3) =~= t);
    }
}

proof fn lemma_line_len_props(s: Seq<char>)
    ensures
        line_len(s) <= s.len(),
        forall|i: int| 0 <= i < line_len(s) ==> s[i] != '\n',
        line_len(s) < s.len() ==> s[line_len(s) as int] == '\n',
    decreases s.len(),
{
    if s.len() > 0 && s[0] != '\n' {
        lemma_line_len_props(s.drop_first());
        assert forall|i: int| 0 <= i < line_len(s) implies s[i] != '\n' by {
            if i > 0 {
                assert(s.drop_first()[i - 1] == s[i]);
            }
        }
        if line_len(s) < s.len() {
            assert(s.drop_first()[line_len(s) - 1] == s[line_len(s) as int]);
        }
    }
}

/// Reading a text line by line loses nothing but the line breaks: writing
/// the lines back gives the text again, with a final `\n` added when the
/// text lacked one (for texts without `\r`).
pub proof fn lemma_lines_keep_text(s: Seq<char>)
    requires
        !s.contains('\r'),
    ensures
        render(lines_of(s)) == (if s.len() == 0 || s.last() == '\n' {
            s
        } else {
            s + seq!['\n']
        }),
    decreases s.len(),
{
    if s.len() > 0 {
        let n = line_len(s) as int;
        lemma_line_len_props(s);
        if n >= s.len() {
            assert(s.last() != '\n');
            assert(lines_of(s) =~= seq![s]);
            lemma_render_first(seq![s]);
            assert(seq![s].drop_first() =~= Seq::<Seq<char>>::empty());
            assert(render(lines_of(s)) =~= s + seq!['\n']);
        } else {
            let head = s.take(n);
            let rest = s.skip(n + 1);
            assert(!head.contains('\r')) by {
                if head.contains('\r') {
                    let j = choose|j: int| 0 <= j < head.len() && head[j] == '\r';
                    assert(s[j] == '\r');
                }
            }
            assert(!rest.contains('\r')) by {
                if rest.contains('\r') {
                    let j = choose|j: int| 0 <= j < rest.len() && rest[j] == '\r';
                    assert(s[n + 1 + j] == '\r');
                }
            }
            assert(head.len() > 0 ==> head.last() != '\r') by {
                if head.len() > 0 {
                    assert(head.contains(head.last()));
                }
            }
            assert(strip_cr(head) == head);
            let ls = seq![head] + lines_of(rest);
            assert(lines_of(s) == ls);
            lemma_render_first(ls);
            assert(ls[0] == head);
            assert(ls.drop_first() =~= lines_of(rest));
            lemma_lines_keep_text(rest);
            assert(s =~= head + seq!['\n'] + rest);
            if rest.len() == 0 {
                assert(s.last() == '\n');
            } else {
                assert(rest.last() == s.last());
            }
            assert(render(lines_of(s)) =~= (if s.len() == 0 || s.last() == '\n' {
                s
            } else {
                s + seq!['\n']
            }));
        }
    }
}

/// A line without `\n` ends at the first `\n` that follows it, which goes,
/// together with one `\r` before it; a last line without `\n` is kept
/// whole, a final `\r` included.
pub proof fn lemma_lines_first_line(line: Seq<char>, rest: Seq<char>)
    requires
        !line.contains('\n'),
    ensures
        lines_of(line + seq!['\n'] + rest) == seq![
            if line.len() > 0 && line.last() == '\r' {
                line.take(line.len() - 1)
            } else {
                line
            },
        ] + lines_of(rest),
        line.len() > 0 ==> lines_of(line) == seq![line],
{
    let s = line + seq!['\n'] + rest;
    assert forall|i: int| 0 <= i < line.len() implies s[i] != '\n' by {
        assert(s[i] == line[i]);
        assert(line.contains(line[i]));
    }
    lemma_line_len(s, line.len() as int);
    assert(s.take(line.len() as int) =~= line);
    assert(s.skip(line.len() + 1int) =~= rest);
    if line.len() > 0 && line.last() == '\r' {
        assert(line.drop_last() =~= line.take(line.len() - 1));
    }
    if line.len() > 0 {
        assert forall|i: int| 0 <= i < line.len() implies line[i] != '\n' by {
            assert(line.contains(line[i]));
        }
        lemma_line_len(line, line.len() as int);
    }
}

/// Splits a text into its lines, as reading it line by line does.
pub fn split_lines(text: &str) -> (lines: Vec<String>)
    ensures
        lines_view(lines@) == lines_of(text@),
{
    let chars = chars_of(text);
    let n = chars.len();
    let ghost s = text@;
    let mut lines: Vec<String> = Vec::new();
    let mut start: usize = 0;
    assert(s.skip(0) =~= s);
    while start < n
        invariant
            start <= n == s.len(),
            chars@ == s,
            lines_of(s) == lines_view(lines@) + lines_of(s.skip(start as int)),
        decreases n - start,
    {
        let ghost rest = s.skip(start as int);
        let mut end = start;
        while end < n && chars[end] != '\n'
            invariant
                start <= end <= n == s.len(),
                chars@ == s,
                forall|i: int| start <= i < end ==> s[i] != '\n',
            decreases n - end,
        {
            end = end + 1;
        }
        proof {
            lemma_line_len(rest, end - start);
        }
        let line;
        let next;
        if end < n {
            let stop = if end > start && chars[end - 1] == '\r' {
                end - 1
            } else {
                end
            };
            line = string_of_chars(&chars, start, stop);
            assert(line@ =~= strip_cr(rest.take(end - start)));
            next = end + 1;
            assert(rest.skip(end - start + 1) =~= s.skip(next as int));
        } else {
            line = string_of_chars(&chars, start, end);
            assert(line@ =~= rest);
            next = n;
            assert(s.skip(next as int) =~= Seq::<char>::empty());
        }
        let ghost before = lines@;
        lines.push(line);
        assert(lines_view(lines@) =~= lines_view(before).push(line@));
        start = next;
    }
    assert(lines_of(s.skip(n as int)) =~= Seq::<Seq<char>>::empty()) by {
        assert(s.skip(n as int).len() == 0);
    }
    assert(lines_view(lines@) + Seq::<Seq<char>>::empty() =~= lines_view(lines@));
    lines
}

/// The text of a file that holds the given lines, each followed by `\n`.
pub fn render_lines(lines: &Vec<String>) -> (text: String)
    ensures
        text@ == render(lines_view(lines@)),
{
    let mut text = String::new();
    let mut i: usize = 0;
    assert(lines_view(lines@.take(0)) =~= Seq::<Seq<char>>::empty());
    while i < lines.len()
        invariant
            i <= lines.len(),
            text@ == render(lines_view(lines@.take(i as int))),
        decreases lines.len() - i,
    {
        text.append(lines[i].as_str());
        push_char(&mut text, '\n');
        assert(lines_view(lines@.take(i + 1)).drop_last() =~= lines_view(lines@.take(i as int)));
        i = i + 1;
    }
    assert(lines@.take(i as int) =~= lines@);
    text
}

proof fn lemma_render_first(lines: Seq<Seq<char>>)
    requires
        lines.len() > 0,
    ensures
        render(lines) == lines[0] + seq!['\n'] + render(lines.drop_first()),
    decreases lines.len(),
{
    if lines.len() == 1 {
        assert(lines.drop_last() =~= Seq::<Seq<char>>::empty());
        assert(lines.drop_first() =~= Seq::<Seq<char>>::empty());
        assert(render(lines.drop_last()) =~= Seq::<char>::empty());
        assert(lines.last() == lines[0]);
        assert(render(lines) =~= lines[0] + seq!['\n']);
        assert(render(lines) =~= lines[0] + seq!['\n'] + render(lines.drop_first()));
    } else {
        lemma_render_first(lines.drop_last());
        assert(lines.drop_last().drop_first() =~= lines.drop_first().drop_last());
        assert(lines.drop_first().last() == lines.last());
        assert(render(lines) =~= lines[0] + seq!['\n'] + render(lines.drop_first()));
    }
}

/// Writing lines to a file and reading the file back line by line gives the
/// same lines, for lines that hold no `\n` and do not end with `\r`.
pub proof fn lemma_lines_round_trip(lines: Seq<Seq<char>>)
    requires
        forall|i: int| 0 <= i < lines.len() ==> is_plain_line(#[trigger] lines[i]),
    ensures
        lines_of(render(lines)) == lines,
    decreases lines.len(),
{
    if lines.len() == 0 {
        assert(lines =~= Seq::<Seq<char>>::empty());
    } else {
        lemma_render_first(lines);
        let first = lines[0];
        let rest = lines.drop_first();
        let t = render(lines);
        assert(is_plain_line(lines[0]));
        assert forall|i: int| 0 <= i < rest.len() implies is_plain_line(#[trigger] rest[i]) by {
            assert(rest[i] == lines[i + 1]);
        }
        lemma_lines_round_trip(rest);
        assert forall|i: int| 0 <= i < first.len() implies t[i] != '\n' by {
            assert(t[i] == first[i]);
            assert(first.contains(first[i]));
        }
        assert(t[first.len() as int] == '\n');
        lemma_line_len(t, first.len() as int);
        assert(t.take(first.len() as int) =~= first);
        assert(t.skip(first.len() + 1int) =~= render(rest));
        assert(strip_cr(first) == first);
        assert(lines_of(t) =~= seq![first] + rest);
        assert(seq![first] + rest =~= lines);
    }
}

} // verus!
