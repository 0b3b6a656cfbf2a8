//! Tab completion: which candidates are offered for a partly typed line,
//! and where they replace it.
//!
//! Finding candidates needs the outside world (a completion script, the
//! file system, the search path). A [`CompletionSession`] decides, step by
//! step, what to ask for next and what to answer once it knows enough.
use vstd::prelude::*;
use vstd::utf8::encode_utf8;
use crate::repl::{decoded, non_empty, FileMode, REPL};
use crate::shell::{ShellHelper, completer_args, lines, split_lines, string_from_utf8};
use crate::text::{
    chars_of, ends_with, has_prefix, has_suffix, is_whitespace, is_ws, push_char, split_ws,
    starts_with, string_from_range, to_owned_string, trim_end, trim_end_string, views,
};

verus! {

/// A completion candidate: what is listed, and what replaces the word.
pub struct Completion {
    pub display: String,
    pub replacement: String,
}

/// The candidates as (display, replacement) pairs.
pub open spec fn completion_views(v: Seq<Completion>) -> Seq<(Seq<char>, Seq<char>)> {
    v.map_values(|c: Completion| (c.display@, c.replacement@))
}

/// `s` followed by a space.
pub open spec fn with_space(s: Seq<char>) -> Seq<char> {
    s.push(' ')
}

/// A candidate that lists `s` and inserts it followed by a space.
pub open spec fn spaced(s: Seq<char>) -> (Seq<char>, Seq<char>) {
    (s, with_space(s))
}

/// The candidates for a list of words.
pub open spec fn spaced_all(v: Seq<Seq<char>>) -> Seq<(Seq<char>, Seq<char>)> {
    v.map_values(|s: Seq<char>| spaced(s))
}

/// A path candidate made ready to insert: it lists its replacement, and a
/// space follows the replacement unless it is a directory (ends in `/`).
pub open spec fn path_ready(c: (Seq<char>, Seq<char>)) -> (Seq<char>, Seq<char>) {
    (c.1, if has_suffix(c.1, seq!['/']) {
        c.1
    } else {
        c.1.push(' ')
    })
}

/// Lexicographic order of character sequences, by code point (the order of
/// `String`'s `Ord`, since UTF-8 preserves it).
pub open spec fn lex_lt(a: Seq<char>, b: Seq<char>) -> bool
    decreases a.len(),
{
    if a.len() == 0 {
        b.len() > 0
    } else if b.len() == 0 {
        false
    } else if a[0] != b[0] {
        (a[0] as int) < (b[0] as int)
    } else {
        lex_lt(a.drop_first(), b.drop_first())
    }
}

/// In strictly increasing order, hence without repetitions.
pub open spec fn strictly_sorted(v: Seq<Seq<char>>) -> bool {
    forall|i: int, j: int| 0 <= i < j < v.len() ==> lex_lt(#[trigger] v[i], #[trigger] v[j])
}

/// The words of `v` that start with `p`, in order.
pub open spec fn with_prefix(v: Seq<Seq<char>>, p: Seq<char>) -> Seq<Seq<char>>
    decreases v.len(),
{
    if v.len() == 0 {
        Seq::empty()
    } else if has_prefix(v.last(), p) {
        with_prefix(v.drop_last(), p).push(v.last())
    } else {
        with_prefix(v.drop_last(), p)
    }
}

/// The builtins offered for completion.
pub open spec fn completable_builtins() -> Seq<Seq<char>> {
    seq![
        seq!['e', 'c', 'h', 'o'],
        seq!['e', 'x', 'i', 't'],
        seq!['c', 'o', 'm', 'p', 'l', 'e', 't', 'e']
    ]
}

/// The candidates a completion script's output offers: one per non-empty
/// line.
pub open spec fn script_candidates(text: Seq<char>) -> Seq<(Seq<char>, Seq<char>)> {
    spaced_all(non_empty(lines(text)))
}

/// The byte offset at which the last word of `line` begins: the last word
/// ends the line once trailing whitespace is dropped (see
/// [`lemma_last_word_ends_line`]), and this is the UTF-8 length of what
/// comes before it.
pub open spec fn last_word_start(line: Seq<char>) -> int {
    let t = trim_end(line);
    encode_utf8(t.subrange(0, t.len() - split_ws(line).last().len())).len() as int
}

/// A directory entry of the search path: its name, and what the file system
/// tells of it (`None` when nothing can be learnt).
pub struct PathEntry {
    pub name: String,
    pub file: Option<FileMode>,
}

/// The entry may be run as a command (see [`REPL::is_executable`]).
pub open spec fn runnable(e: PathEntry) -> bool {
    e.file matches Some(f) && f.is_regular_file && f.permissions & 0o111 != 0
}

/// The names of the runnable entries, in order.
pub open spec fn runnable_names(entries: Seq<PathEntry>) -> Seq<Seq<char>>
    decreases entries.len(),
{
    if entries.len() == 0 {
        Seq::empty()
    } else if runnable(entries.last()) {
        runnable_names(entries.drop_last()).push(entries.last().name@)
    } else {
        runnable_names(entries.drop_last())
    }
}

/// The last word of a line is where the line ends once trailing whitespace
/// is dropped.
pub proof fn lemma_last_word_ends_line(line: Seq<char>)
    requires
        split_ws(line).len() > 0,
    ensures
        has_suffix(trim_end(line), split_ws(line).last()),
    decreases line.len(),
{
    if line.len() > 0 {
        let u = line.drop_last();
        let c = line.last();
        if is_ws(c) {
            lemma_last_word_ends_line(u);
        } else {
            assert(trim_end(line) == line);
            if line.len() == 1 || is_ws(line[line.len() - 2]) {
                assert(line.subrange(line.len() - 1, line.len() as int) =~= seq![c]);
            } else {
                assert(u.last() == line[line.len() - 2]);
                lemma_split_nonempty_after_word(u);
                lemma_last_word_ends_line(u);
                assert(trim_end(u) == u);
                let w = split_ws(u).last();
                assert(line.subrange(line.len() - (w.len() + 1), line.len() as int) =~= u.subrange(
                    u.len() - w.len(),
                    u.len() as int,
                ).push(c));
            }
        }
    }
}

pub proof fn lemma_lex_irreflexive(a: Seq<char>)
    ensures
        !lex_lt(a, a),
    decreases a.len(),
{
    if a.len() > 0 {
        lemma_lex_irreflexive(a.drop_first());
    }
}

pub proof fn lemma_lex_asymmetric(a: Seq<char>, b: Seq<char>)
    ensures
        !(lex_lt(a, b) && lex_lt(b, a)),
    decreases a.len(),
{
    if a.len() > 0 && b.len() > 0 && a[0] == b[0] {
        lemma_lex_asymmetric(a.drop_first(), b.drop_first());
    }
}

pub proof fn lemma_lex_transitive(a: Seq<char>, b: Seq<char>, c: Seq<char>)
    requires
        lex_lt(a, b),
        lex_lt(b, c),
    ensures
        lex_lt(a, c),
    decreases a.len(),
{
    if a.len() > 0 && b.len() > 0 && c.len() > 0 && a[0] == b[0] && b[0] == c[0] {
        lemma_lex_transitive(a.drop_first(), b.drop_first(), c.drop_first());
    }
}

pub proof fn lemma_lex_total(a: Seq<char>, b: Seq<char>)
    requires
        a != b,
    ensures
        lex_lt(a, b) || lex_lt(b, a),
    decreases a.len(),
{
    if a.len() == 0 {
        assert(b.len() > 0) by {
            if b.len() == 0 {
                assert(a =~= b);
            }
        }
    } else if b.len() == 0 {
    } else if a[0] != b[0] {
        assert((a[0] as int) != (b[0] as int));
    } else {
        if a.drop_first() == b.drop_first() {
            assert(a =~= seq![a[0]] + a.drop_first());
            assert(b =~= seq![b[0]] + b.drop_first());
        }
        lemma_lex_total(a.drop_first(), b.drop_first());
    }
}

/// Whether `a` comes before `b` (see [`lex_lt`]).
fn lex_less(a: &Vec<char>, b: &Vec<char>) -> (r: bool)
    ensures
        r == lex_lt(a@, b@),
{
    let mut i: usize = 0;
    assert(a@.skip(0) =~= a@);
    assert(b@.skip(0) =~= b@);
    loop
        invariant
            i <= a.len(),
            i <= b.len(),
            lex_lt(a@, b@) == lex_lt(a@.skip(i as int), b@.skip(i as int)),
        decreases a.len() - i,
    {
        if i == a.len() {
            return i < b.len();
        }
        if i == b.len() {
            return false;
        }
        if a[i] != b[i] {
            assert(a@.skip(i as int)[0] == a@[i as int]);
            assert(b@.skip(i as int)[0] == b@[i as int]);
            return a[i] < b[i];
        }
        assert(a@.skip(i as int).drop_first() =~= a@.skip(i + 1));
        assert(b@.skip(i as int).drop_first() =~= b@.skip(i + 1));
        i = i + 1;
    }
}

/// The position of the first word of `out` that does not come before `x`.
fn first_not_before(out: &Vec<String>, xs: &Vec<char>) -> (k: usize)
    ensures
        k <= out.len(),
        forall|i: int| 0 <= i < k ==> lex_lt(#[trigger] views(out@)[i], xs@),
        k < out.len() ==> !lex_lt(views(out@)[k as int], xs@),
{
    let mut k: usize = 0;
    while k < out.len()
        invariant
            k <= out.len(),
            forall|i: int| 0 <= i < k ==> lex_lt(#[trigger] views(out@)[i], xs@),
        decreases out.len() - k,
    {
        let ys = chars_of(out[k].as_str());
        if !lex_less(&ys, xs) {
            return k;
        }
        k = k + 1;
    }
    k
}

/// Adds `x` to the sorted list `out` unless it is already there.
fn insert_sorted(out: &mut Vec<String>, x: String)
    requires
        strictly_sorted(views(old(out)@)),
    ensures
        strictly_sorted(views(final(out)@)),
        forall|y: Seq<char>| #[trigger]
            views(final(out)@).contains(y) <==> (views(old(out)@).contains(y) || y == x@),
{
    let xs = chars_of(x.as_str());
    let ghost old_views = views(out@);
    let k = first_not_before(out, &xs);
    // here out[k] is the first element not before x (or k is the end)
    if k < out.len() {
        let ys = chars_of(out[k].as_str());
        if crate::text::chars_eq(&ys, &xs) {
            assert(old_views[k as int] == x@);
            assert(views(out@).contains(x@));
            return ;
        }
    }
    let ghost xv = x@;
    out.insert(k, x);
    let ghost nv = views(out@);
    assert(nv =~= old_views.insert(k as int, xv));
    assert forall|i: int, j: int| 0 <= i < j < nv.len() implies lex_lt(
        #[trigger] nv[i],
        #[trigger] nv[j],
    ) by {
        if k < old_views.len() {
            // x comes before old_views[k]
            assert(!lex_lt(old_views[k as int], xv));
            assert(old_views[k as int] != xv);
            lemma_lex_total(old_views[k as int], xv);
        }
        if j < k {
            assert(nv[i] == old_views[i] && nv[j] == old_views[j]);
        } else if j == k {
            assert(nv[j] == xv && nv[i] == old_views[i]);
        } else if i == k {
            assert(nv[i] == xv && nv[j] == old_views[j - 1]);
            if j - 1 > k {
                assert(lex_lt(old_views[k as int], old_views[j - 1]));
                lemma_lex_transitive(xv, old_views[k as int], old_views[j - 1]);
            }
        } else if i < k {
            assert(nv[i] == old_views[i] && nv[j] == old_views[j - 1]);
            if i < j - 1 {
            } else {
                assert(i == j - 1);
            }
            assert(lex_lt(old_views[i], xv));
            assert(lex_lt(xv, old_views[k as int]));
            lemma_lex_transitive(old_views[i], xv, old_views[k as int]);
            if j - 1 > k {
                lemma_lex_transitive(old_views[i], old_views[k as int], old_views[j - 1]);
            }
        } else {
            assert(nv[i] == old_views[i - 1] && nv[j] == old_views[j - 1]);
        }
    }
    assert forall|y: Seq<char>| #[trigger]
        nv.contains(y) <==> (old_views.contains(y) || y == xv) by {
        if nv.contains(y) {
            let i = choose|i: int| 0 <= i < nv.len() && nv[i] == y;
            if i < k {
                assert(old_views[i] == y);
            } else if i > k {
                assert(old_views[i - 1] == y);
            }
        }
        if old_views.contains(y) {
            let i = choose|i: int| 0 <= i < old_views.len() && old_views[i] == y;
            if i < k {
                assert(nv[i] == y);
            } else {
                assert(nv[i + 1] == y);
            }
        }
        if y == xv {
            assert(nv[k as int] == y);
        }
    }
}

impl ShellHelper {
    /// The names of the runnable entries among `entries` (those of the
    /// search path's directories) that start with `current`, sorted, each
    /// once.
    pub fn check_executable_names(current: &str, entries: &Vec<PathEntry>) -> (r: Vec<String>)
        ensures
            strictly_sorted(views(r@)),
            forall|y: Seq<char>| #[trigger]
                views(r@).contains(y) <==> (runnable_names(entries@).contains(y) && has_prefix(
                    y,
                    current@,
                )),
    {
        let mut found: Vec<String> = Vec::new();
        let mut i: usize = 0;
        while i < entries.len()
            invariant
                i <= entries.len(),
                strictly_sorted(views(found@)),
                forall|y: Seq<char>| #[trigger]
                    views(found@).contains(y) <==> (runnable_names(
                        entries@.subrange(0, i as int),
                    ).contains(y) && has_prefix(y, current@)),
            decreases entries.len() - i,
        {
            let ghost before = runnable_names(entries@.subrange(0, i as int));
            let ghost after = runnable_names(entries@.subrange(0, i + 1));
            assert(entries@.subrange(0, i + 1).drop_last() =~= entries@.subrange(0, i as int));
            assert(entries@.subrange(0, i + 1).last() == entries@[i as int]);
            let ok = REPL::is_executable(entries[i].file);
            if ok {
                assert(after =~= before.push(entries@[i as int].name@));
                assert forall|y: Seq<char>| #[trigger] after.contains(y) <==> (before.contains(y)
                    || y == entries@[i as int].name@) by {
                    if after.contains(y) {
                        let j = choose|j: int| 0 <= j < after.len() && after[j] == y;
                        if j < before.len() {
                            assert(before[j] == y);
                        }
                    }
                    if before.contains(y) {
                        let j = choose|j: int| 0 <= j < before.len() && before[j] == y;
                        assert(after[j] == y);
                    }
                    if y == entries@[i as int].name@ {
                        assert(after[before.len() as int] == y);
                    }
                }
                if starts_with(entries[i].name.as_str(), current) {
                    insert_sorted(&mut found, entries[i].name.clone());
                }
            } else {
                assert(after == before);
            }
            i = i + 1;
        }
        assert(entries@.subrange(0, entries.len() as int) =~= entries@);
        found
    }

    /// The byte offset at which the last word of `line` begins (see
    /// [`last_word_start`]).
    pub fn get_pos_of_arg(line: &str) -> (r: usize)
        requires
            split_ws(line@).len() > 0,
        ensures
            r == last_word_start(line@) as usize,
    {
        let cs = chars_of(line);
        let t = trim_end_string(line);
        let tc = chars_of(t.as_str());
        let words = split_words(line);
        let last_chars = chars_of(words[words.len() - 1].as_str());
        proof {
            lemma_last_word_ends_line(line@);
        }
        assert(views(words@).last() == words@[words.len() - 1]@);
        let prefix = string_from_range(&tc, 0, tc.len() - last_chars.len());
        prefix.as_str().len()
    }

    /// Path candidates made ready to insert (see [`path_ready`]).
    pub fn append_space_to_completion(candidates: Vec<Completion>) -> (r: Vec<Completion>)
        ensures
            completion_views(r@) == completion_views(candidates@).map_values(
                |c: (Seq<char>, Seq<char>)| path_ready(c),
            ),
    {
        let mut out: Vec<Completion> = Vec::new();
        let mut i: usize = 0;
        proof {
            reveal_strlit("/");
            assert("/"@ =~= seq!['/']);
        }
        while i < candidates.len()
            invariant
                i <= candidates.len(),
                completion_views(out@) == completion_views(candidates@).subrange(0, i as int).map_values(
                    |c: (Seq<char>, Seq<char>)| path_ready(c),
                ),
            decreases candidates.len() - i,
        {
            proof {
                reveal_strlit("/");
                assert("/"@ =~= seq!['/']);
            }
            let candidate = &candidates[i];
            let mut new_rep = candidate.replacement.clone();
            if !ends_with(new_rep.as_str(), "/") {
                push_char(&mut new_rep, ' ');
            }
            let ghost before = completion_views(out@);
            let display = candidate.replacement.clone();
            let ghost item = (display@, new_rep@);
            assert(item == path_ready(completion_views(candidates@)[i as int]));
            out.push(Completion { display, replacement: new_rep });
            assert(completion_views(out@) =~= before.push(item));
            assert(completion_views(candidates@).subrange(0, i + 1).map_values(
                |c: (Seq<char>, Seq<char>)| path_ready(c),
            ) =~= completion_views(candidates@).subrange(0, i as int).map_values(
                |c: (Seq<char>, Seq<char>)| path_ready(c),
            ).push(item));
            i = i + 1;
        }
        assert(completion_views(candidates@).subrange(0, candidates.len() as int)
            =~= completion_views(candidates@));
        out
    }
}

/// Candidates that list each word and insert it followed by a space.
pub fn spaced_completions(words: &Vec<String>) -> (r: Vec<Completion>)
    ensures
        completion_views(r@) == spaced_all(views(words@)),
{
    let mut out: Vec<Completion> = Vec::new();
    let mut i: usize = 0;
    while i < words.len()
        invariant
            i <= words.len(),
            completion_views(out@) == spaced_all(views(words@).subrange(0, i as int)),
        decreases words.len() - i,
    {
        let mut rep = words[i].clone();
        push_char(&mut rep, ' ');
        let display = words[i].clone();
        let ghost item = (display@, rep@);
        assert(item == spaced(words@[i as int]@));
        let ghost before = completion_views(out@);
        out.push(Completion { display, replacement: rep });
        assert(completion_views(out@) =~= before.push(item));
        assert(views(words@).subrange(0, i + 1) =~= views(words@).subrange(0, i as int).push(
            words@[i as int]@,
        ));
        assert(spaced_all(views(words@).subrange(0, i + 1)) =~= spaced_all(
            views(words@).subrange(0, i as int),
        ).push(item));
        i = i + 1;
    }
    assert(views(words@).subrange(0, words.len() as int) =~= views(words@));
    out
}

/// The candidates a completion script offers with its standard output:
/// `None` when the output is not valid UTF-8.
pub fn completions_from_output(stdout: Vec<u8>) -> (r: Option<Vec<Completion>>)
    ensures
        decoded(stdout@) is None ==> r is None,
        decoded(stdout@) matches Some(text) ==> (r matches Some(c) && completion_views(c@)
            == script_candidates(text)),
{
    let out = match string_from_utf8(stdout) {
        Some(s) => s,
        None => {
            return None;
        },
    };
    let all = split_lines(out.as_str());
    let mut kept: Vec<String> = Vec::new();
    let mut i: usize = 0;
    while i < all.len()
        invariant
            i <= all.len(),
            views(kept@) == non_empty(views(all@.subrange(0, i as int))),
        decreases all.len() - i,
    {
        let ghost before = views(kept@);
        assert(views(all@.subrange(0, i + 1)).drop_last() =~= views(all@.subrange(0, i as int)));
        assert(views(all@.subrange(0, i + 1)).last() == all@[i as int]@);
        if !all[i].as_str().is_empty() {
            kept.push(all[i].clone());
            assert(views(kept@) =~= before.push(all@[i as int]@));
        }
        i = i + 1;
    }
    assert(all@.subrange(0, all.len() as int) =~= all@);
    Some(spaced_completions(&kept))
}

/// The builtins whose name starts with `line`, as candidates.
pub fn matching_builtins(line: &str) -> (r: Vec<Completion>)
    ensures
        completion_views(r@) == spaced_all(with_prefix(completable_builtins(), line@)),
{
    proof {
        reveal_strlit("echo");
        reveal_strlit("exit");
        reveal_strlit("complete");
        assert("echo"@ =~= seq!['e', 'c', 'h', 'o']);
        assert("exit"@ =~= seq!['e', 'x', 'i', 't']);
        assert("complete"@ =~= seq!['c', 'o', 'm', 'p', 'l', 'e', 't', 'e']);
    }
    let mut names: Vec<String> = Vec::new();
    let ghost all = completable_builtins();
    let ghost e = all.drop_last().drop_last();
    assert(e =~= seq![all[0]]);
    assert(e.drop_last() =~= Seq::<Seq<char>>::empty());
    assert(with_prefix(e.drop_last(), line@) == Seq::<Seq<char>>::empty());
    assert(e.last() == all[0]);
    if starts_with("echo", line) {
        names.push(to_owned_string("echo"));
    }
    assert(views(names@) =~= with_prefix(e, line@));
    assert(all.drop_last().drop_last() == e);
    assert(all.drop_last().last() == all[1]);
    if starts_with("exit", line) {
        let ghost before = views(names@);
        names.push(to_owned_string("exit"));
        assert(views(names@) =~= before.push(all[1]));
    }
    assert(views(names@) =~= with_prefix(all.drop_last(), line@));
    assert(all.last() == all[2]);
    if starts_with("complete", line) {
        let ghost before = views(names@);
        names.push(to_owned_string("complete"));
        assert(views(names@) =~= before.push(all[2]));
    }
    assert(views(names@) =~= with_prefix(all, line@));
    spaced_completions(&names)
}

/// The whitespace-separated words of `line` (`str::split_whitespace`).
pub fn split_words(line: &str) -> (r: Vec<String>)
    ensures
        views(r@) == split_ws(line@),
{
    let cs = chars_of(line);
    let mut words: Vec<String> = Vec::new();
    let mut i: usize = 0;
    while i < cs.len()
        invariant
            i <= cs.len(),
            cs@ == line@,
            views(words@) == split_ws(cs@.take(i as int)),
        decreases cs.len() - i,
    {
        let c = cs[i];
        let ghost t = cs@.take(i + 1);
        assert(t.drop_last() =~= cs@.take(i as int));
        assert(t.last() == c);
        if is_whitespace(c) {
        } else if i == 0 || is_whitespace(cs[i - 1]) {
            proof {
                if i > 0 {
                    assert(t[t.len() - 2] == cs@[i - 1]);
                }
            }
            let mut w = String::new();
            push_char(&mut w, c);
            let ghost before = views(words@);
            words.push(w);
            assert(views(words@) =~= before.push(seq![c]));
        } else {
            assert(t[t.len() - 2] == cs@[i - 1]);
            let n = words.len();
            assert(n > 0) by {
                lemma_split_nonempty_after_word(cs@.take(i as int));
            }
            let ghost before = views(words@);
            let mut w = words.pop().unwrap();
            push_char(&mut w, c);
            let ghost wv = w@;
            words.push(w);
            assert(views(words@) =~= before.update(before.len() - 1, before.last().push(c)));
        }
        i = i + 1;
    }
    assert(cs@.take(cs.len() as int) =~= cs@);
    words
}

proof fn lemma_split_nonempty_after_word(s: Seq<char>)
    requires
        s.len() > 0,
        !is_ws(s.last()),
    ensures
        split_ws(s).len() > 0,
    decreases s.len(),
{
    if s.len() > 1 && !is_ws(s[s.len() - 2]) {
        assert(s.drop_last().last() == s[s.len() - 2]);
        lemma_split_nonempty_after_word(s.drop_last());
    }
}

} // verus!

verus! {

/// What a completion session waits for.
#[derive(Clone, Copy, Debug, PartialEq, Eq, Structural)]
pub enum CompletionStage {
    /// The output of the completion script.
    AwaitScript,
    /// Path candidates for the whole line.
    AwaitLinePaths,
    /// Path candidates for the last word.
    AwaitWordPaths,
    /// The entries of the search path's directories.
    AwaitExecutables,
    Finished,
}

/// What a completion session asks of its caller next.
pub enum CompletionStep {
    /// Run `script` with the argument vector `args` (its first element is
    /// the program name to show) and report its standard output, or `None`
    /// when it cannot be run.
    RunScript { script: String, args: Vec<String> },
    /// Complete `text` as a file path at byte position `pos` and report the
    /// candidates, or `None` when that fails.
    CompletePath { text: String, pos: usize },
    /// Report the entries of the search path's directories.
    ListExecutables,
    /// The answer: the candidates, replacing the line from byte `start` on.
    Done { start: usize, candidates: Vec<Completion> },
}

/// What the caller reports back.
pub enum CompletionEvent {
    ScriptOutput(Option<Vec<u8>>),
    PathCandidates(Option<Vec<Completion>>),
    Executables(Vec<PathEntry>),
}

/// The abstract value of a [`CompletionStep`].
pub enum StepModel {
    RunScript(Seq<char>, Seq<Seq<char>>),
    CompletePath(Seq<char>, usize),
    ListExecutables,
    Done(usize, Seq<(Seq<char>, Seq<char>)>),
}

pub open spec fn step_model(s: CompletionStep) -> StepModel {
    match s {
        CompletionStep::RunScript { script, args } => StepModel::RunScript(script@, views(args@)),
        CompletionStep::CompletePath { text, pos } => StepModel::CompletePath(text@, pos),
        CompletionStep::ListExecutables => StepModel::ListExecutables,
        CompletionStep::Done { start, candidates } => StepModel::Done(
            start,
            completion_views(candidates@),
        ),
    }
}

/// The line ends in whitespace: a new word is being started.
pub open spec fn ends_in_ws(line: Seq<char>) -> bool {
    line.len() > 0 && is_ws(line.last())
}

/// The byte length of `s` in UTF-8.
pub open spec fn byte_len(s: Seq<char>) -> usize {
    encode_utf8(s).len() as usize
}

/// When no builtin starts with `line`, the search path is listed; else the
/// matching builtins are the answer.
pub open spec fn next_after_word(line: Seq<char>) -> (CompletionStage, StepModel) {
    let b = with_prefix(completable_builtins(), line);
    if b.len() == 0 {
        (CompletionStage::AwaitExecutables, StepModel::ListExecutables)
    } else {
        (CompletionStage::Finished, StepModel::Done(0, spaced_all(b)))
    }
}

/// With more than one word, the last word is completed as a path.
pub open spec fn next_after_line(line: Seq<char>, args: Seq<Seq<char>>) -> (
    CompletionStage,
    StepModel,
) {
    if args.len() > 1 {
        (
            CompletionStage::AwaitWordPaths,
            StepModel::CompletePath(args.last(), byte_len(args.last())),
        )
    } else {
        next_after_word(line)
    }
}

/// A line ending in whitespace is completed as a path.
pub open spec fn next_after_script(line: Seq<char>, pos: usize, args: Seq<Seq<char>>) -> (
    CompletionStage,
    StepModel,
) {
    if ends_in_ws(line) {
        (CompletionStage::AwaitLinePaths, StepModel::CompletePath(line, pos))
    } else {
        next_after_line(line, args)
    }
}

/// How far a session has come; every step moves it further.
pub open spec fn stage_rank(stage: CompletionStage) -> int {
    match stage {
        CompletionStage::AwaitScript => 0,
        CompletionStage::AwaitLinePaths => 1,
        CompletionStage::AwaitWordPaths => 2,
        CompletionStage::AwaitExecutables => 3,
        CompletionStage::Finished => 4,
    }
}

/// `event` is what `stage` waits for.
pub open spec fn event_fits(stage: CompletionStage, event: CompletionEvent) -> bool {
    match stage {
        CompletionStage::AwaitScript => event is ScriptOutput,
        CompletionStage::AwaitLinePaths => event is PathCandidates,
        CompletionStage::AwaitWordPaths => event is PathCandidates,
        CompletionStage::AwaitExecutables => event is Executables,
        CompletionStage::Finished => false,
    }
}

/// The completion of one line.
pub struct CompletionSession {
    pub line: String,
    /// The cursor's byte position.
    pub pos: usize,
    /// The words of the line.
    pub args: Vec<String>,
    pub stage: CompletionStage,
}

impl CompletionSession {
    /// The words are those of the line, and the last word is being completed
    /// only when there is more than one.
    pub open spec fn well_formed(&self) -> bool {
        &&& views(self.args@) == split_ws(self.line@)
        &&& self.stage == CompletionStage::AwaitWordPaths ==> self.args@.len() > 1
    }

    /// Starts completing `line` with the cursor at `pos`: a completion
    /// script registered for the first word is asked first; otherwise the
    /// session goes on as after a script that gave nothing.
    pub fn start(helper: &ShellHelper, line: &str, pos: usize) -> (r: (Self, CompletionStep))
        requires
            split_ws(line@).len() > 0,
        ensures
            r.0.well_formed(),
            r.0.line@ == line@,
            r.0.pos == pos,
            views(r.0.args@) == split_ws(line@),
            helper.completions().contains_key(split_ws(line@)[0]) ==> {
                &&& r.0.stage == CompletionStage::AwaitScript
                &&& step_model(r.1) == StepModel::RunScript(
                    helper.completions()[split_ws(line@)[0]],
                    completer_args(split_ws(line@)),
                )
            },
            !helper.completions().contains_key(split_ws(line@)[0]) ==> (r.0.stage, step_model(r.1))
                == next_after_script(line@, pos, split_ws(line@)),
    {
        let args = split_words(line);
        let mut session = CompletionSession {
            line: to_owned_string(line),
            pos,
            args,
            stage: CompletionStage::AwaitScript,
        };
        match helper.completer_invocation(&session.args) {
            Some((script, call)) => (session, CompletionStep::RunScript { script, args: call }),
            None => {
                let step = session.after_script();
                (session, step)
            },
        }
    }

    fn after_word(&mut self) -> (step: CompletionStep)
        requires
            views(old(self).args@) == split_ws(old(self).line@),
        ensures
            final(self).well_formed(),
            final(self).line == old(self).line,
            final(self).pos == old(self).pos,
            final(self).args == old(self).args,
            (final(self).stage, step_model(step)) == next_after_word(old(self).line@),
    {
        let matched = matching_builtins(self.line.as_str());
        assert(completion_views(matched@).len() == matched@.len());
        assert(spaced_all(with_prefix(completable_builtins(), self.line@)).len() == with_prefix(
            completable_builtins(),
            self.line@,
        ).len());
        if matched.len() == 0 {
            self.stage = CompletionStage::AwaitExecutables;
            CompletionStep::ListExecutables
        } else {
            self.stage = CompletionStage::Finished;
            CompletionStep::Done { start: 0, candidates: matched }
        }
    }

    fn after_line(&mut self) -> (step: CompletionStep)
        requires
            views(old(self).args@) == split_ws(old(self).line@),
        ensures
            final(self).well_formed(),
            final(self).line == old(self).line,
            final(self).pos == old(self).pos,
            final(self).args == old(self).args,
            (final(self).stage, step_model(step)) == next_after_line(
                old(self).line@,
                views(old(self).args@),
            ),
    {
        if self.args.len() > 1 {
            let last = self.args[self.args.len() - 1].clone();
            let n = last.as_str().len();
            self.stage = CompletionStage::AwaitWordPaths;
            CompletionStep::CompletePath { text: last, pos: n }
        } else {
            self.after_word()
        }
    }

    fn after_script(&mut self) -> (step: CompletionStep)
        requires
            views(old(self).args@) == split_ws(old(self).line@),
        ensures
            final(self).well_formed(),
            final(self).line == old(self).line,
            final(self).pos == old(self).pos,
            final(self).args == old(self).args,
            (final(self).stage, step_model(step)) == next_after_script(
                old(self).line@,
                old(self).pos,
                views(old(self).args@),
            ),
    {
        let cs = chars_of(self.line.as_str());
        if cs.len() > 0 && is_whitespace(cs[cs.len() - 1]) {
            self.stage = CompletionStage::AwaitLinePaths;
            CompletionStep::CompletePath { text: self.line.clone(), pos: self.pos }
        } else {
            self.after_line()
        }
    }

    /// Goes on with what the caller reports: a script's output that is
    /// valid UTF-8 gives the answer (one candidate per non-empty line); path
    /// candidates, when there are any, give the answer made ready to insert;
    /// the search path's entries give the matching executables, sorted and
    /// each once. Otherwise the next source is asked.
    pub fn resume(&mut self, event: CompletionEvent) -> (step: CompletionStep)
        requires
            old(self).well_formed(),
            event_fits(old(self).stage, event),
        ensures
            final(self).well_formed(),
            stage_rank(final(self).stage) > stage_rank(old(self).stage),
            final(self).line == old(self).line,
            final(self).pos == old(self).pos,
            final(self).args == old(self).args,
            old(self).stage == CompletionStage::AwaitScript ==> match event {
                CompletionEvent::ScriptOutput(Some(bytes)) if decoded(bytes@) is Some => {
                    &&& final(self).stage == CompletionStage::Finished
                    &&& step_model(step) == StepModel::Done(
                        old(self).pos,
                        script_candidates(decoded(bytes@)->0),
                    )
                },
                _ => (final(self).stage, step_model(step)) == next_after_script(
                    old(self).line@,
                    old(self).pos,
                    views(old(self).args@),
                ),
            },
            old(self).stage == CompletionStage::AwaitLinePaths ==> match event {
                CompletionEvent::PathCandidates(Some(c)) => {
                    &&& final(self).stage == CompletionStage::Finished
                    &&& step_model(step) == StepModel::Done(
                        old(self).pos,
                        completion_views(c@).map_values(|p: (Seq<char>, Seq<char>)| path_ready(p)),
                    )
                },
                _ => (final(self).stage, step_model(step)) == next_after_line(
                    old(self).line@,
                    views(old(self).args@),
                ),
            },
            old(self).stage == CompletionStage::AwaitWordPaths ==> match event {
                CompletionEvent::PathCandidates(Some(c)) => {
                    &&& final(self).stage == CompletionStage::Finished
                    &&& step_model(step) == StepModel::Done(
                        last_word_start(old(self).line@) as usize,
                        completion_views(c@).map_values(|p: (Seq<char>, Seq<char>)| path_ready(p)),
                    )
                },
                _ => (final(self).stage, step_model(step)) == next_after_word(old(self).line@),
            },
            old(self).stage == CompletionStage::AwaitExecutables ==> match event {
                CompletionEvent::Executables(entries) => {
                    &&& final(self).stage == CompletionStage::Finished
                    &&& step matches CompletionStep::Done { start, candidates }
                    &&& start == 0
                    &&& executables_answer(
                        completion_views(candidates@),
                        entries@,
                        old(self).line@,
                    )
                },
                _ => false,
            },
    {
        match event {
            CompletionEvent::ScriptOutput(out) => {
                if let Some(bytes) = out {
                    if let Some(found) = completions_from_output(bytes) {
                        self.stage = CompletionStage::Finished;
                        return CompletionStep::Done { start: self.pos, candidates: found };
                    }
                }
                self.after_script()
            },
            CompletionEvent::PathCandidates(found) => {
                if self.stage == CompletionStage::AwaitLinePaths {
                    match found {
                        Some(c) => {
                            self.stage = CompletionStage::Finished;
                            CompletionStep::Done {
                                start: self.pos,
                                candidates: ShellHelper::append_space_to_completion(c),
                            }
                        },
                        None => self.after_line(),
                    }
                } else {
                    match found {
                        Some(c) => {
                            self.stage = CompletionStage::Finished;
                            let start = ShellHelper::get_pos_of_arg(self.line.as_str());
                            CompletionStep::Done {
                                start,
                                candidates: ShellHelper::append_space_to_completion(c),
                            }
                        },
                        None => self.after_word(),
                    }
                }
            },
            CompletionEvent::Executables(entries) => {
                let matched = ShellHelper::check_executable_names(self.line.as_str(), &entries);
                self.stage = CompletionStage::Finished;
                CompletionStep::Done { start: 0, candidates: spaced_completions(&matched) }
            },
        }
    }
}

/// The answer from the search path: one candidate per distinct name of a
/// runnable entry that starts with `line`, in sorted order, listing the name
/// and inserting it followed by a space.
pub open spec fn executables_answer(
    candidates: Seq<(Seq<char>, Seq<char>)>,
    entries: Seq<PathEntry>,
    line: Seq<char>,
) -> bool {
    exists|r: Seq<Seq<char>>|
        {
            &&& candidates == spaced_all(r)
            &&& strictly_sorted(r)
            &&& forall|y: Seq<char>| #[trigger]
                r.contains(y) <==> (runnable_names(entries).contains(y) && has_prefix(y, line))
        }
}

} // verus!

verus! {

/// Which completion is asked for once no script has answered: a line that
/// ends in whitespace is completed as a path where the cursor is; otherwise,
/// with more than one word, the last word of the line (which ends it) is
/// completed as a path, at its own end.
pub proof fn law_completed_word(line: Seq<char>, pos: usize)
    ensures
        line.len() > 0 && is_ws(line.last()) ==> next_after_script(line, pos, split_ws(line)) == (
        CompletionStage::AwaitLinePaths,
        StepModel::CompletePath(line, pos),
        ),
        !(line.len() > 0 && is_ws(line.last())) && split_ws(line).len() > 1 ==> {
            &&& next_after_script(line, pos, split_ws(line)) == (
                CompletionStage::AwaitWordPaths,
                StepModel::CompletePath(
                    split_ws(line).last(),
                    encode_utf8(split_ws(line).last()).len() as usize,
                ),
            )
            &&& next_after_line(line, split_ws(line)) == next_after_script(
                line,
                pos,
                split_ws(line),
            )
            &&& has_suffix(line, split_ws(line).last())
        },
{
    if !(line.len() > 0 && is_ws(line.last())) && split_ws(line).len() > 1 {
        lemma_last_word_ends_line(line);
        if line.len() > 0 {
            assert(trim_end(line) == line);
        }
    }
}

} // verus!

verus! {

proof fn lemma_trim_end_drops_whitespace(s: Seq<char>)
    ensures
        trim_end(s).len() <= s.len(),
        trim_end(s) == s.subrange(0, trim_end(s).len() as int),
        forall|j: int| trim_end(s).len() <= j < s.len() ==> is_ws(#[trigger] s[j]),
    decreases s.len(),
{
    if s.len() > 0 && is_ws(s.last()) {
        let u = s.drop_last();
        lemma_trim_end_drops_whitespace(u);
        assert(u.subrange(0, trim_end(u).len() as int) =~= s.subrange(0, trim_end(u).len() as int));
        assert forall|j: int| trim_end(s).len() <= j < s.len() implies is_ws(#[trigger] s[j]) by {
            if j < u.len() {
                assert(s[j] == u[j]);
            }
        }
    } else {
        assert(s.subrange(0, s.len() as int) =~= s);
    }
}

/// Completion of the last word replaces the line from where that word
/// begins: the word stands there in the line, only whitespace follows it,
/// and the start is the UTF-8 length of what comes before it.
pub proof fn law_last_word_start(line: Seq<char>)
    requires
        split_ws(line).len() > 0,
    ensures
        exists|k: int|
            #![trigger line.subrange(0, k)]
            {
                let w = split_ws(line).last();
                &&& 0 <= k
                &&& k + w.len() <= line.len()
                &&& line.subrange(k, k + w.len()) == w
                &&& forall|j: int| k + w.len() <= j < line.len() ==> is_ws(#[trigger] line[j])
                &&& last_word_start(line) == encode_utf8(line.subrange(0, k)).len()
            },
{
    let w = split_ws(line).last();
    let t = trim_end(line);
    lemma_trim_end_drops_whitespace(line);
    lemma_last_word_ends_line(line);
    let k = t.len() - w.len();
    assert(t.subrange(k, t.len() as int) == w);
    assert(line.subrange(k, k + w.len()) =~= t.subrange(k, t.len() as int));
    assert(t.subrange(0, k) =~= line.subrange(0, k));
    assert(k + w.len() == t.len());
    assert(last_word_start(line) == encode_utf8(line.subrange(0, k)).len());
}

} // verus!
