//! Paths of the front-matter cache: the file name of a note's path, the
//! cache file name derived from it (`.tmp` in place of the extension), and
//! joining that name onto the cache directory.

use vstd::prelude::*;
use crate::text::{chars_of, render, render_lines, lines_view, string_of_chars, push_char};

verus! {

/// Where the last `/`-separated segment of `p` starts: just after its last
/// `/`, or 0 when it has none.
pub open spec fn seg_start(p: Seq<char>) -> nat
    decreases p.len(),
{
    if p.len() == 0 {
        0
    } else if p.last() == '/' {
        p.len()
    } else {
        seg_start(p.drop_last())
    }
}

/// The bounds of `seg_start`: it lies within `p`, follows a `/` when it is
/// not 0, and no `/` comes after it.
pub proof fn lemma_seg_start(p: Seq<char>)
    ensures
        seg_start(p) <= p.len(),
        seg_start(p) > 0 ==> p[seg_start(p) - 1] == '/',
        forall|i: int| seg_start(p) <= i < p.len() ==> p[i] != '/',
    decreases p.len(),
{
    if p.len() > 0 && p.last() != '/' {
        lemma_seg_start(p.drop_last());
        assert forall|i: int| seg_start(p) <= i < p.len() implies p[i] != '/' by {
            if i < p.len() - 1 {
                assert(p.drop_last()[i] == p[i]);
            }
        }
    }
}

proof fn lemma_seg_start_at(p: Seq<char>, st: int)
    requires
        0 <= st <= p.len(),
        forall|i: int| st <= i < p.len() ==> p[i] != '/',
        st == 0 || p[st - 1] == '/',
    ensures
        seg_start(p) == st,
    decreases p.len(),
{
    if p.len() > st {
        assert forall|i: int| st <= i < p.drop_last().len() implies p.drop_last()[i] != '/' by {
            assert(p.drop_last()[i] == p[i]);
        }
        if st > 0 {
            assert(p.drop_last()[st - 1] == p[st - 1]);
        }
        lemma_seg_start_at(p.drop_last(), st);
    }
}

/// The final component of a path, as `Path::file_name` gives it: trailing
/// `/` and `.` components are passed over; a path that ends in `..`, or
/// that has no normal component at its end (`""`, `"/"`, `"."`), has none.
pub open spec fn file_name_of(p: Seq<char>) -> Option<Seq<char>>
    decreases p.len(),
{
    let st = seg_start(p);
    let seg = p.skip(st as int);
    if seg.len() == 0 || seg == seq!['.'] {
        if st == 0 {
            None
        } else {
            proof {
                lemma_seg_start(p);
            }
            file_name_of(p.take(st - 1))
        }
    } else if seg == seq!['.', '.'] {
        None
    } else {
        Some(seg)
    }
}

/// The index of the last `.` in `s`, or -1 when it has none.
pub open spec fn last_dot(s: Seq<char>) -> int
    decreases s.len(),
{
    if s.len() == 0 {
        -1
    } else if s.last() == '.' {
        s.len() - 1
    } else {
        last_dot(s.drop_last())
    }
}

/// The stem of a file name, as `Path::file_stem` gives it: the name before
/// its last `.`, or the whole name when it has no `.` or its only `.` leads
/// it (`.bashrc`).
pub open spec fn file_stem(name: Seq<char>) -> Seq<char> {
    let d = last_dot(name);
    if d <= 0 {
        name
    } else {
        name.take(d)
    }
}

/// The extension of the cache files.
pub open spec fn tmp_extension() -> Seq<char> {
    seq!['.', 't', 'm', 'p']
}

/// The cache file name of a note, as `Path::with_extension("tmp")` gives it
/// for the note's file name: the stem followed by `.tmp`. A name `..x`,
/// whose stem is `.`, is the exception: `with_extension` first drops the
/// old extension, which leaves `..`, a path without a file name that takes
/// no extension.
pub open spec fn tmp_name(file: Seq<char>) -> Seq<char> {
    let stem = file_stem(file_name_of(file)->0);
    if stem == seq!['.'] {
        seq!['.', '.']
    } else {
        stem + tmp_extension()
    }
}

/// `name` pushed onto `dir`, as `PathBuf::push` does it: an absolute `name`
/// replaces `dir`; otherwise a `/` goes between them unless `dir` is empty
/// or already ends with one.
pub open spec fn joined_path(dir: Seq<char>, name: Seq<char>) -> Seq<char> {
    if name.len() > 0 && name[0] == '/' {
        name
    } else if dir.len() == 0 || dir.last() == '/' {
        dir + name
    } else {
        dir + seq!['/'] + name
    }
}

proof fn lemma_last_dot(s: Seq<char>)
    ensures
        -1 <= last_dot(s) < s.len(),
        last_dot(s) >= 0 ==> s[last_dot(s)] == '.',
        forall|i: int| last_dot(s) < i < s.len() ==> s[i] != '.',
    decreases s.len(),
{
    if s.len() > 0 && s.last() != '.' {
        lemma_last_dot(s.drop_last());
        assert forall|i: int| last_dot(s) < i < s.len() implies s[i] != '.' by {
            if i < s.len() - 1 {
                assert(s.drop_last()[i] == s[i]);
            }
        }
        if last_dot(s) >= 0 {
            assert(s.drop_last()[last_dot(s)] == s[last_dot(s)]);
        }
    }
}

proof fn lemma_last_dot_at(s: Seq<char>, d: int)
    requires
        -1 <= d < s.len(),
        d >= 0 ==> s[d] == '.',
        forall|i: int| d < i < s.len() ==> s[i] != '.',
    ensures
        last_dot(s) == d,
    decreases s.len(),
{
    if s.len() > d + 1 {
        assert forall|i: int| d < i < s.drop_last().len() implies s.drop_last()[i] != '.' by {
            assert(s.drop_last()[i] == s[i]);
        }
        if d >= 0 {
            assert(s.drop_last()[d] == s[d]);
        }
        lemma_last_dot_at(s.drop_last(), d);
    }
}

/// The file name of a path holds no `/` and is neither empty, `.` nor `..`.
pub proof fn lemma_file_name_shape(p: Seq<char>)
    requires
        file_name_of(p) is Some,
    ensures
        !file_name_of(p)->0.contains('/'),
        file_name_of(p)->0.len() > 0,
        file_name_of(p)->0 != seq!['.'],
        file_name_of(p)->0 != seq!['.', '.'],
    decreases p.len(),
{
    let st = seg_start(p);
    let seg = p.skip(st as int);
    lemma_seg_start(p);
    if seg.len() == 0 || seg == seq!['.'] {
        lemma_file_name_shape(p.take(st - 1));
    } else {
        assert forall|i: int| 0 <= i < seg.len() implies seg[i] != '/' by {
            assert(seg[i] == p[st + i]);
        }
    }
}

/// The file name of a path: its final component, if it is a normal one.
pub fn file_name(path: &str) -> (name: Option<String>)
    ensures
        name is None <==> file_name_of(path@) is None,
        name matches Some(n) ==> file_name_of(path@) == Some(n@),
{
    let chars = chars_of(path);
    let ghost p = path@;
    let mut end = chars.len();
    assert(p.take(end as int) =~= p);
    loop
        invariant
            end <= chars.len(),
            chars@ == p,
            p == path@,
            file_name_of(p) == file_name_of(p.take(end as int)),
        decreases end,
    {
        let ghost q = p.take(end as int);
        let mut start = end;
        while start > 0 && chars[start - 1] != '/'
            invariant
                start <= end <= chars.len(),
                chars@ == p,
                forall|i: int| start <= i < end ==> p[i] != '/',
            decreases start,
        {
            start = start - 1;
        }
        proof {
            lemma_seg_start_at(q, start as int);
        }
        let len = end - start;
        assert(q.skip(start as int) =~= p.subrange(start as int, end as int));
        let is_dot = len == 1 && chars[start] == '.';
        let is_dot_dot = len == 2 && chars[start] == '.' && chars[start + 1] == '.';
        assert(is_dot <==> q.skip(start as int) =~= seq!['.']) by {
            if len == 1 {
                assert(q.skip(start as int)[0] == chars[start as int]);
            }
        }
        assert(is_dot_dot <==> q.skip(start as int) =~= seq!['.', '.']) by {
            if len == 2 {
                assert(q.skip(start as int)[0] == chars[start as int]);
                assert(q.skip(start as int)[1] == chars[start + 1]);
            }
        }
        assert(seg_start(q) == start);
        if len == 0 || is_dot {
            if start == 0 {
                assert(file_name_of(q) is None);
                return None;
            }
            assert(file_name_of(q) == file_name_of(q.take(start - 1)));
            assert(q.take(start - 1) =~= p.take(start - 1));
            end = start - 1;
        } else if is_dot_dot {
            assert(file_name_of(q) is None);
            return None;
        } else {
            assert(file_name_of(q) == Some(q.skip(start as int)));
            return Some(string_of_chars(&chars, start, end));
        }
    }
}

/// The name of the cache file that keeps a note's front matter: the note's
/// file name with its extension replaced by `tmp`.
pub fn tmp_file_extension(file: String) -> (tmp: String)
    requires
        file_name_of(file@) is Some,
    ensures
        tmp@ == tmp_name(file@),
{
    let name = file_name(file.as_str()).unwrap();
    let chars = chars_of(name.as_str());
    let ghost n = name@;
    let mut i = chars.len();
    while i > 0 && chars[i - 1] != '.'
        invariant
            i <= chars.len(),
            chars@ == n,
            forall|j: int| i <= j < n.len() ==> n[j] != '.',
        decreases i,
    {
        i = i - 1;
    }
    proof {
        lemma_last_dot_at(n, i - 1);
    }
    let stop = if i <= 1 {
        chars.len()
    } else {
        i - 1
    };
    let mut tmp = string_of_chars(&chars, 0, stop);
    assert(chars@.subrange(0, stop as int) =~= file_stem(n));
    if stop == 1 && chars[0] == '.' {
        assert(file_stem(n) =~= seq!['.']);
        push_char(&mut tmp, '.');
        assert(tmp@ =~= seq!['.', '.']);
        return tmp;
    }
    assert(file_stem(n) != seq!['.']) by {
        if file_stem(n) == seq!['.'] {
            assert(file_stem(n)[0] == chars[0]);
        }
    }
    push_char(&mut tmp, '.');
    push_char(&mut tmp, 't');
    push_char(&mut tmp, 'm');
    push_char(&mut tmp, 'p');
    assert(tmp@ =~= file_stem(n) + tmp_extension());
    tmp
}

/// Pushes `name` onto the directory path `dir`.
pub fn join_path(dir: &str, name: &str) -> (path: String)
    ensures
        path@ == joined_path(dir@, name@),
{
    let d = chars_of(dir);
    let n = chars_of(name);
    if n.len() > 0 && n[0] == '/' {
        return string_of_chars(&n, 0, n.len());
    }
    let mut path = string_of_chars(&d, 0, d.len());
    assert(d@.subrange(0, d.len() as int) =~= dir@);
    if !(d.len() == 0 || d[d.len() - 1] == '/') {
        push_char(&mut path, '/');
    }
    path.append(name);
    path
}

/// The path of the cache file that keeps a note's front matter.
pub fn front_matter_cache_path(cache_dir: &str, file_name: String) -> (path: String)
    requires
        file_name_of(file_name@) is Some,
    ensures
        path@ == joined_path(cache_dir@, tmp_name(file_name@)),
{
    let tmp = tmp_file_extension(file_name);
    join_path(cache_dir, tmp.as_str())
}

/// What caching a note's front matter writes: the cache file's path, and
/// the front-matter lines as the file's text.
pub fn write_front_matter_cache(cache_dir: &str, file_name: String, front_matter: &Vec<String>)
    -> (write: (String, String))
    requires
        file_name_of(file_name@) is Some,
    ensures
        write.0@ == joined_path(cache_dir@, tmp_name(file_name@)),
        write.1@ == render(lines_view(front_matter@)),
{
    let path = front_matter_cache_path(cache_dir, file_name);
    let text = render_lines(front_matter);
    (path, text)
}

/// A plain name (no `/`, not empty, `.` or `..`) is the file name of
/// itself, of any path that ends with `/` and it, and of such a path with a
/// trailing `/`.
pub proof fn lemma_file_name_of_plain(dir: Seq<char>, name: Seq<char>)
    requires
        name.len() > 0,
        !name.contains('/'),
        name != seq!['.'],
        name != seq!['.', '.'],
    ensures
        file_name_of(name) == Some(name),
        file_name_of(dir + seq!['/'] + name) == Some(name),
        file_name_of(dir + seq!['/'] + name + seq!['/']) == Some(name),
{
    assert forall|i: int| 0 <= i < name.len() implies name[i] != '/' by {
        assert(name.contains(name[i]));
    }
    lemma_seg_start_at(name, 0);
    assert(name.skip(0) =~= name);
    let p = dir + seq!['/'] + name;
    let st: int = dir.len() + 1int;
    assert forall|i: int| st <= i < p.len() implies p[i] != '/' by {
        assert(p[i] == name[i - st]);
    }
    lemma_seg_start_at(p, st);
    assert(p.skip(st) =~= name);
    let q = p + seq!['/'];
    lemma_seg_start_at(q, q.len() as int);
    assert(q.skip(q.len() as int) =~= Seq::<char>::empty());
    assert(q.take(q.len() - 1) =~= p);
}

/// The cache name replaces the extension, whatever its length: a name
/// `a.e`, with no `.` in `e`, becomes `a.tmp` (unless `a` is `.`).
pub proof fn lemma_tmp_name_replaces_extension(file: Seq<char>, a: Seq<char>, e: Seq<char>)
    requires
        file_name_of(file) == Some(a + seq!['.'] + e),
        !e.contains('.'),
        a.len() > 0,
        a != seq!['.'],
    ensures
        tmp_name(file) == a + seq!['.', 't', 'm', 'p'],
{
    let n = a + seq!['.'] + e;
    assert forall|i: int| a.len() < i < n.len() implies n[i] != '.' by {
        assert(n[i] == e[i - a.len() - 1]);
        assert(e.contains(e[i - a.len() - 1]));
    }
    lemma_last_dot_at(n, a.len() as int);
    assert(n.take(a.len() as int) =~= a);
}

/// A name without `.`, or whose only `.` leads it, keeps all of itself and
/// gains `.tmp`.
pub proof fn lemma_tmp_name_adds_extension(file: Seq<char>, n: Seq<char>)
    requires
        file_name_of(file) == Some(n),
        forall|i: int| 0 < i < n.len() ==> n[i] != '.',
    ensures
        tmp_name(file) == n + seq!['.', 't', 'm', 'p'],
{
    lemma_file_name_shape(file);
    if n.len() > 0 && n[0] == '.' {
        lemma_last_dot_at(n, 0);
        assert(n != seq!['.']);
    } else {
        lemma_last_dot_at(n, -1);
    }
    assert(file_stem(n) == n);
    if n == seq!['.'] {
        assert(false);
    }
}

/// A cache file name is its own file name, and naming the cache file of a
/// cache file gives the same name back (for file names other than `..x`,
/// whose cache name `..` is no file name).
pub proof fn lemma_tmp_name_idempotent(file: Seq<char>)
    requires
        file_name_of(file) is Some,
        file_stem(file_name_of(file)->0) != seq!['.'],
    ensures
        !tmp_name(file).contains('/'),
        file_name_of(tmp_name(file)) == Some(tmp_name(file)),
        tmp_name(tmp_name(file)) == tmp_name(file),
{
    let name = file_name_of(file)->0;
    lemma_file_name_shape(file);
    lemma_last_dot(name);
    let stem = file_stem(name);
    let t = tmp_name(file);
    assert(stem.len() > 0);
    assert forall|i: int| 0 <= i < stem.len() implies stem[i] == name[i] by {}
    assert forall|i: int| 0 <= i < t.len() implies t[i] != '/' by {
        if i < stem.len() {
            assert(name.contains(name[i]));
        }
    }
    lemma_seg_start_at(t, 0);
    assert(t.skip(0) =~= t);
    assert(t.len() >= 5);
    assert(file_name_of(t) == Some(t));
    lemma_last_dot_at(t, stem.len() as int);
    assert(t.take(stem.len() as int) =~= stem);
    assert(file_stem(t) == stem);
}

} // verus!
