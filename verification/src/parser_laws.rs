//! What the command-line parser promises for whole inputs: unquoted words
//! split at whitespace, quoted text kept as one argument, adjacent quoted
//! and unquoted pieces glued together, and escaped characters taken
//! literally.
use vstd::prelude::*;
use crate::parser::{
    ParserState, ParserView, initial_parser, is_quote, parse_line, run, step,
};
use crate::text::{is_ws, split_ws, trim, trim_end, trim_start};

verus! {

/// No quote and no backslash occurs in `s`.
pub open spec fn plain_text(s: Seq<char>) -> bool {
    forall|i: int| 0 <= i < s.len() ==> !is_quote(#[trigger] s[i]) && s[i] != '\\'
}

/// `s` is a non-empty word that the parser reads as itself: no whitespace,
/// no quote, no backslash.
pub open spec fn plain_word(s: Seq<char>) -> bool {
    &&& s.len() > 0
    &&& plain_text(s)
    &&& forall|i: int| 0 <= i < s.len() ==> !is_ws(#[trigger] s[i])
}

/// `x` can stand between two quote characters `q` and be read as written:
/// it does not hold `q`, and between double quotes it holds no backslash
/// (between single quotes a backslash is an ordinary character).
pub open spec fn quotable(x: Seq<char>, q: char) -> bool {
    forall|i: int| 0 <= i < x.len() ==> #[trigger] x[i] != q && (q == '"' ==> x[i] != '\\')
}

/// The parser state in which text quoted with `q` is read.
pub open spec fn quote_state(q: char) -> ParserState {
    if q == '\'' {
        ParserState::SingleQuote
    } else {
        ParserState::DoubleQuote
    }
}

pub proof fn lemma_run_concat(p: ParserView, a: Seq<char>, b: Seq<char>)
    ensures
        run(p, a + b) == run(run(p, a), b),
    decreases b.len(),
{
    if b.len() == 0 {
        assert(a + b =~= a);
    } else {
        assert((a + b).drop_last() =~= a + b.drop_last());
        assert((a + b).last() == b.last());
        lemma_run_concat(p, a, b.drop_last());
    }
}

proof fn lemma_run_single(p: ParserView, c: char)
    ensures
        run(p, seq![c]) == step(p, c),
{
    assert(seq![c].drop_last() =~= Seq::<char>::empty());
    assert(seq![c].last() == c);
    assert(run(p, seq![c].drop_last()) == p);
}

/// Unquoted text without special characters: the finished arguments and
/// the one being built are the whitespace-separated words read so far.
proof fn lemma_run_plain(t: Seq<char>)
    requires
        plain_text(t),
    ensures
        run(initial_parser(), t).state == ParserState::NoQuote,
        !run(initial_parser(), t).is_escaped,
        t.len() > 0 ==> run(initial_parser(), t).previous_char == Some(t.last()),
        t.len() == 0 ==> run(initial_parser(), t).previous_char.is_none(),
        t.len() > 0 && !is_ws(t.last()) ==> {
            &&& split_ws(t).len() > 0
            &&& run(initial_parser(), t).args == split_ws(t).drop_last()
            &&& run(initial_parser(), t).current_arg == split_ws(t).last()
            &&& split_ws(t).last().len() > 0
        },
        !(t.len() > 0 && !is_ws(t.last())) ==> {
            &&& run(initial_parser(), t).args == split_ws(t)
            &&& run(initial_parser(), t).current_arg.len() == 0
        },
    decreases t.len(),
{
    if t.len() > 0 {
        let u = t.drop_last();
        assert(plain_text(u)) by {
            assert forall|i: int| 0 <= i < u.len() implies !is_quote(#[trigger] u[i]) && u[i]
                != '\\' by {
                assert(u[i] == t[i]);
            }
        }
        lemma_run_plain(u);
        let c = t.last();
        assert(!is_quote(t[t.len() - 1]) && t[t.len() - 1] != '\\');
        let p = run(initial_parser(), u);
        if u.len() > 0 {
            assert(u.last() == t[t.len() - 2]);
        }
        if is_ws(c) {
        } else {
            if u.len() > 0 {
                assert(!is_quote(u.last()));
            }
            if u.len() > 0 && !is_ws(u.last()) {
                assert(split_ws(t).drop_last() =~= split_ws(u).drop_last());
            } else {
                assert(split_ws(t).drop_last() =~= split_ws(u));
                assert(p.current_arg.push(c) =~= seq![c]);
            }
        }
    }
}

proof fn lemma_split_leading_ws(s: Seq<char>)
    requires
        s.len() > 0,
        is_ws(s[0]),
    ensures
        split_ws(s) == split_ws(s.drop_first()),
    decreases s.len(),
{
    let u = s.drop_first();
    if s.len() == 1 {
        assert(u.len() == 0);
        assert(s.drop_last().len() == 0);
        assert(s.last() == s[0]);
        assert(split_ws(s.drop_last()) == Seq::<Seq<char>>::empty());
        assert(split_ws(u) == Seq::<Seq<char>>::empty());
    } else {
        assert(s.drop_last()[0] == s[0]);
        lemma_split_leading_ws(s.drop_last());
        assert(s.drop_last().drop_first() =~= u.drop_last());
        assert(u.last() == s.last());
        if u.len() > 1 {
            assert(u[u.len() - 2] == s[s.len() - 2]);
        }
    }
}

proof fn lemma_split_trim_start(s: Seq<char>)
    ensures
        split_ws(trim_start(s)) == split_ws(s),
    decreases s.len(),
{
    if s.len() > 0 && is_ws(s[0]) {
        lemma_split_leading_ws(s);
        lemma_split_trim_start(s.drop_first());
    }
}

proof fn lemma_split_trim_end(s: Seq<char>)
    ensures
        split_ws(trim_end(s)) == split_ws(s),
    decreases s.len(),
{
    if s.len() > 0 && is_ws(s.last()) {
        lemma_split_trim_end(s.drop_last());
    }
}

proof fn lemma_plain_text_subrange(s: Seq<char>, i: int, j: int)
    requires
        plain_text(s),
        0 <= i <= j <= s.len(),
    ensures
        plain_text(s.subrange(i, j)),
{
    assert forall|k: int| 0 <= k < s.subrange(i, j).len() implies !is_quote(
        #[trigger] s.subrange(i, j)[k],
    ) && s.subrange(i, j)[k] != '\\' by {
        assert(s.subrange(i, j)[k] == s[i + k]);
    }
}

/// Text without quotes or backslashes is split into its whitespace-separated
/// words, as `str::split_whitespace` would split it.
pub proof fn law_unquoted_words(s: Seq<char>)
    requires
        plain_text(s),
    ensures
        parse_line(s) == split_ws(s),
{
    crate::text::lemma_trim_subrange(s);
    let (i, j) = choose|i: int, j: int| 0 <= i <= j <= s.len() && trim(s) == s.subrange(i, j);
    lemma_plain_text_subrange(s, i, j);
    let t = trim(s);
    lemma_run_plain(t);
    lemma_split_trim_start(s);
    lemma_split_trim_end(trim_start(s));
    let p = run(initial_parser(), t);
    if t.len() > 0 && !is_ws(t.last()) {
        assert(p.args.push(p.current_arg) =~= split_ws(t));
    }
}

proof fn lemma_trim_identity(s: Seq<char>)
    requires
        s.len() > 0,
        !is_ws(s[0]),
        !is_ws(s.last()),
    ensures
        trim(s) == s,
{
}

/// A plain word read in unquoted context, right after a non-quote or at the
/// start, becomes the argument being built.
proof fn lemma_run_word(p: ParserView, w: Seq<char>)
    requires
        plain_word(w),
        p.state == ParserState::NoQuote,
        !p.is_escaped,
        p.current_arg.len() == 0,
        p.previous_char matches Some(c) ==> !is_quote(c),
        !p.was_escaped,
    ensures
        run(p, w) == (ParserView {
            current_arg: w,
            previous_char: Some(w.last()),
            ..p
        }),
    decreases w.len(),
{
    let u = w.drop_last();
    assert(w[w.len() - 1] == w.last());
    if u.len() == 0 {
        assert(w =~= seq![w.last()]);
        lemma_run_single(p, w.last());
        assert(p.current_arg.push(w.last()) =~= w);
    } else {
        assert(plain_word(u)) by {
            assert forall|i: int| 0 <= i < u.len() implies !is_quote(#[trigger] u[i]) && u[i]
                != '\\' && !is_ws(u[i]) by {
                assert(u[i] == w[i]);
            }
        }
        lemma_run_word(p, u);
        assert(u.last() == w[w.len() - 2]);
        assert(u.push(w.last()) =~= w);
    }
}

/// Quotable text read inside quotes `q` is added to the argument being
/// built, character for character.
proof fn lemma_run_quoted(p: ParserView, x: Seq<char>, q: char)
    requires
        q == '\'' || q == '"',
        quotable(x, q),
        p.state == quote_state(q),
        !p.is_escaped,
        !p.was_escaped,
        p.previous_char is Some,
    ensures
        run(p, x) == (ParserView {
            current_arg: p.current_arg + x,
            previous_char: if x.len() > 0 {
                Some(x.last())
            } else {
                p.previous_char
            },
            ..p
        }),
    decreases x.len(),
{
    if x.len() == 0 {
        assert(p.current_arg + x =~= p.current_arg);
    } else {
        let u = x.drop_last();
        assert(quotable(u, q)) by {
            assert forall|i: int| 0 <= i < u.len() implies #[trigger] u[i] != q && (q == '"'
                ==> u[i] != '\\') by {
                assert(u[i] == x[i]);
            }
        }
        lemma_run_quoted(p, u, q);
        let c = x.last();
        assert(x[x.len() - 1] == c);
        let pu = run(p, u);
        assert(pu.state == quote_state(q));
        assert(pu.previous_char is Some);
        assert(step(pu, c).current_arg == pu.current_arg.push(c));
        assert((p.current_arg + u).push(x.last()) =~= p.current_arg + x);
    }
}

/// The state after `w` and a space: `w` is finished, nothing is being built.
proof fn lemma_word_then_space(w: Seq<char>)
    requires
        plain_word(w),
    ensures
        run(initial_parser(), w + seq![' ']) == (ParserView {
            args: seq![w],
            previous_char: Some(' '),
            ..initial_parser()
        }),
{
    lemma_run_word(initial_parser(), w);
    lemma_run_concat(initial_parser(), w, seq![' ']);
    lemma_run_single(run(initial_parser(), w), ' ');
    assert(Seq::<Seq<char>>::empty().push(w) =~= seq![w]);
}

/// From the state after a finished word and a space, an opening quote `q`,
/// quotable text `x` and the closing quote leave `[w, x]` finished.
proof fn lemma_quoted_after_space(w: Seq<char>, x: Seq<char>, q: char)
    requires
        q == '\'' || q == '"',
        quotable(x, q),
    ensures
        run(
            ParserView { args: seq![w], previous_char: Some(' '), ..initial_parser() },
            seq![q] + x + seq![q],
        ) == (ParserView {
            args: seq![w, x],
            previous_char: Some(q),
            ..initial_parser()
        }),
{
    let p0 = ParserView { args: seq![w], previous_char: Some(' '), ..initial_parser() };
    lemma_run_concat(p0, seq![q] + x, seq![q]);
    lemma_run_concat(p0, seq![q], x);
    lemma_run_single(p0, q);
    let p1 = run(p0, seq![q]);
    assert(p1.state == quote_state(q));
    lemma_run_quoted(p1, x, q);
    let p2 = run(p1, x);
    assert(Seq::<char>::empty() + x =~= x);
    lemma_run_single(p2, q);
    assert(seq![w].push(x) =~= seq![w, x]);
}

/// `w 'x'`: a quoted argument is kept as it is written, with its spaces and
/// the other kind of quote, when it holds neither its own quote nor a
/// backslash.
pub proof fn law_quoted_argument(w: Seq<char>, x: Seq<char>, q: char)
    requires
        plain_word(w),
        q == '\'' || q == '"',
        quotable(x, q),
    ensures
        parse_line(w + seq![' ', q] + x + seq![q]) == seq![w, x],
{
    let s = w + seq![' ', q] + x + seq![q];
    assert(s[0] == w[0]);
    assert(s.last() == q);
    lemma_trim_identity(s);
    assert(s =~= (w + seq![' ']) + ((seq![q] + x) + seq![q]));
    lemma_run_concat(initial_parser(), w + seq![' '], (seq![q] + x) + seq![q]);
    lemma_word_then_space(w);
    lemma_quoted_after_space(w, x, q);
}

/// `w 'x''y'` or `w 'x'"y"`: quoted pieces written one after the other form a
/// single argument.
pub proof fn law_adjacent_quotes_join(w: Seq<char>, x: Seq<char>, q1: char, y: Seq<char>, q2: char)
    requires
        plain_word(w),
        q1 == '\'' || q1 == '"',
        q2 == '\'' || q2 == '"',
        quotable(x, q1),
        quotable(y, q2),
    ensures
        parse_line(w + seq![' ', q1] + x + seq![q1, q2] + y + seq![q2]) == seq![w, x + y],
{
    let s = w + seq![' ', q1] + x + seq![q1, q2] + y + seq![q2];
    assert(s[0] == w[0]);
    assert(s.last() == q2);
    lemma_trim_identity(s);
    let a = w + seq![' '];
    let b = seq![q1] + x + seq![q1];
    let c = seq![q2] + y + seq![q2];
    assert(s =~= a + (b + c));
    lemma_run_concat(initial_parser(), a, b + c);
    lemma_word_then_space(w);
    let p0 = run(initial_parser(), a);
    lemma_run_concat(p0, b, c);
    lemma_quoted_after_space(w, x, q1);
    let p1 = run(p0, b);
    lemma_run_concat(p1, seq![q2] + y, seq![q2]);
    lemma_run_concat(p1, seq![q2], y);
    lemma_run_single(p1, q2);
    let p2 = run(p1, seq![q2]);
    assert(seq![w, x].drop_last() =~= seq![w]);
    assert(p2.current_arg == x);
    lemma_run_quoted(p2, y, q2);
    let p3 = run(p2, y);
    lemma_run_single(p3, q2);
    assert(seq![w].push(x + y) =~= seq![w, x + y]);
}

/// `w 'x'z`: unquoted text right after a closing quote is glued to the
/// quoted argument.
pub proof fn law_text_after_quote_joins(w: Seq<char>, x: Seq<char>, q: char, z: Seq<char>)
    requires
        plain_word(w),
        q == '\'' || q == '"',
        quotable(x, q),
        plain_word(z),
    ensures
        parse_line(w + seq![' ', q] + x + seq![q] + z) == seq![w, x + z],
{
    let s = w + seq![' ', q] + x + seq![q] + z;
    assert(s[0] == w[0]);
    assert(s.last() == z.last());
    assert(z[z.len() - 1] == z.last());
    lemma_trim_identity(s);
    let a = w + seq![' '];
    let b = seq![q] + x + seq![q];
    assert(s =~= a + (b + z));
    lemma_run_concat(initial_parser(), a, b + z);
    lemma_word_then_space(w);
    let p0 = run(initial_parser(), a);
    lemma_run_concat(p0, b, z);
    lemma_quoted_after_space(w, x, q);
    let p1 = run(p0, b);
    // The first character of z reopens x; the rest are plain.
    let z0 = z[0];
    let zr = z.drop_first();
    assert(z =~= seq![z0] + zr);
    lemma_run_concat(p1, seq![z0], zr);
    lemma_run_single(p1, z0);
    let p2 = run(p1, seq![z0]);
    assert(seq![w, x].drop_last() =~= seq![w]);
    assert(p2.current_arg == x.push(z0));
    lemma_run_plain_tail(p2, zr);
    let p3 = run(p2, zr);
    assert(x.push(z0) + zr =~= x + z);
    assert(seq![w].push(x + z) =~= seq![w, x + z]);
}

/// Plain word characters read in unquoted context after a non-quote or an
/// escaped character are appended to the argument being built.
proof fn lemma_run_plain_tail(p: ParserView, z: Seq<char>)
    requires
        forall|i: int| 0 <= i < z.len() ==> !is_quote(#[trigger] z[i]) && z[i] != '\\' && !is_ws(
            z[i],
        ),
        p.state == ParserState::NoQuote,
        !p.is_escaped,
        p.previous_char matches Some(c) && (!is_quote(c) || p.was_escaped),
    ensures
        run(p, z) == (ParserView {
            current_arg: p.current_arg + z,
            previous_char: if z.len() > 0 {
                Some(z.last())
            } else {
                p.previous_char
            },
            was_escaped: if z.len() > 0 {
                false
            } else {
                p.was_escaped
            },
            ..p
        }),
    decreases z.len(),
{
    if z.len() == 0 {
        assert(p.current_arg + z =~= p.current_arg);
    } else {
        let u = z.drop_last();
        assert forall|i: int| 0 <= i < u.len() implies !is_quote(#[trigger] u[i]) && u[i] != '\\'
            && !is_ws(u[i]) by {
            assert(u[i] == z[i]);
        }
        lemma_run_plain_tail(p, u);
        assert(z[z.len() - 1] == z.last());
        assert((p.current_arg + u).push(z.last()) =~= p.current_arg + z);
    }
}

/// `w \cv`: a backslash outside quotes makes the next character an ordinary
/// part of the argument, even a space, a quote or a backslash.
pub proof fn law_escaped_character_is_literal(w: Seq<char>, c: char, v: Seq<char>)
    requires
        plain_word(w),
        plain_word(v),
    ensures
        parse_line(w + seq![' ', '\\', c] + v) == seq![w, seq![c] + v],
{
    let s = w + seq![' ', '\\', c] + v;
    assert(s[0] == w[0]);
    assert(s.last() == v.last());
    assert(v[v.len() - 1] == v.last());
    lemma_trim_identity(s);
    let a = w + seq![' '];
    let b = seq!['\\', c];
    assert(s =~= a + (b + v));
    lemma_run_concat(initial_parser(), a, b + v);
    lemma_word_then_space(w);
    let p0 = run(initial_parser(), a);
    lemma_run_concat(p0, b, v);
    assert(b =~= seq!['\\'] + seq![c]);
    lemma_run_concat(p0, seq!['\\'], seq![c]);
    lemma_run_single(p0, '\\');
    let p1 = run(p0, seq!['\\']);
    assert(p1.is_escaped);
    lemma_run_single(p1, c);
    let p2 = run(p1, seq![c]);
    assert(p2.current_arg =~= seq![c]);
    lemma_run_plain_tail(p2, v);
    assert(seq![w].push(seq![c] + v) =~= seq![w, seq![c] + v]);
}

} // verus!

verus! {

proof fn lemma_trim_idempotent(s: Seq<char>)
    ensures
        trim(trim(s)) == trim(s),
{
    crate::text::lemma_trim_start_suffix(s);
    let t = trim_start(s);
    crate::text::lemma_trim_end_prefix(t);
    let u = trim_end(t);
    if u.len() > 0 {
        let k = choose|k: int| 0 <= k <= t.len() && trim_end(t) == t.subrange(0, k);
        assert(u[0] == t[0]);
        lemma_trim_identity(u);
    }
}

/// Whitespace around a line does not change how it is parsed.
pub proof fn law_surrounding_whitespace_ignored(p: ParserView, s: Seq<char>)
    ensures
        crate::parser::parse_outcome(p, s) == crate::parser::parse_outcome(p, trim(s)),
{
    lemma_trim_idempotent(s);
}

/// `"x" w` or `'x' w`: a quoted first word, such as the name of an
/// executable with spaces in it, is one argument.
pub proof fn law_leading_quoted_word(x: Seq<char>, q: char, w: Seq<char>)
    requires
        q == '\'' || q == '"',
        quotable(x, q),
        plain_word(w),
    ensures
        parse_line(seq![q] + x + seq![q, ' '] + w) == seq![x, w],
{
    let s = seq![q] + x + seq![q, ' '] + w;
    assert(s[0] == q);
    assert(s.last() == w.last());
    assert(w[w.len() - 1] == w.last());
    lemma_trim_identity(s);
    let a = seq![q] + x + seq![q];
    assert(s =~= a + (seq![' '] + w));
    let p0 = initial_parser();
    lemma_run_concat(p0, a, seq![' '] + w);
    lemma_run_concat(p0, seq![q] + x, seq![q]);
    lemma_run_concat(p0, seq![q], x);
    lemma_run_single(p0, q);
    let p1 = run(p0, seq![q]);
    assert(p1.state == quote_state(q));
    lemma_run_quoted(p1, x, q);
    let p2 = run(p1, x);
    assert(Seq::<char>::empty() + x =~= x);
    lemma_run_single(p2, q);
    let p3 = run(p2, seq![q]);
    assert(p3.args =~= seq![x]);
    lemma_run_concat(p3, seq![' '], w);
    lemma_run_single(p3, ' ');
    let p4 = run(p3, seq![' ']);
    lemma_run_word(p4, w);
    assert(seq![x].push(w) =~= seq![x, w]);
}

/// `w "\e"`: inside double quotes a backslash escapes `\`, `"`, `$`, a
/// backquote and a newline, and is kept before any other character.
pub proof fn law_double_quoted_escape(w: Seq<char>, e: char)
    requires
        plain_word(w),
    ensures
        parse_line(w + seq![' ', '"', '\\', e, '"']) == seq![
            w,
            if e == '\\' || e == '"' || e == '$' || e == '`' || e == '\n' {
                seq![e]
            } else {
                seq!['\\', e]
            },
        ],
{
    let s = w + seq![' ', '"', '\\', e, '"'];
    assert(s[0] == w[0]);
    assert(s.last() == '"');
    lemma_trim_identity(s);
    let a = w + seq![' '];
    assert(s =~= a + (((seq!['"'] + seq!['\\']) + seq![e]) + seq!['"']));
    lemma_run_concat(initial_parser(), a, ((seq!['"'] + seq!['\\']) + seq![e]) + seq!['"']);
    lemma_word_then_space(w);
    let p0 = run(initial_parser(), a);
    lemma_run_concat(p0, (seq!['"'] + seq!['\\']) + seq![e], seq!['"']);
    lemma_run_concat(p0, seq!['"'] + seq!['\\'], seq![e]);
    lemma_run_concat(p0, seq!['"'], seq!['\\']);
    lemma_run_single(p0, '"');
    let p1 = run(p0, seq!['"']);
    lemma_run_single(p1, '\\');
    let p2 = run(p1, seq!['\\']);
    assert(p2.is_escaped && p2.state == ParserState::DoubleQuote);
    lemma_run_single(p2, e);
    let p3 = run(p2, seq![e]);
    lemma_run_single(p3, '"');
    let t = if e == '\\' || e == '"' || e == '$' || e == '`' || e == '\n' {
        seq![e]
    } else {
        seq!['\\', e]
    };
    assert(p3.current_arg =~= t);
    assert(seq![w].push(t) =~= seq![w, t]);
}

/// `v w'x'` or `v w"x"`: unquoted text written right before an opening
/// quote is glued to the quoted piece, forming one argument.
pub proof fn law_text_before_quote_joins(v: Seq<char>, w: Seq<char>, x: Seq<char>, q: char)
    requires
        plain_word(v),
        plain_word(w),
        q == '\'' || q == '"',
        quotable(x, q),
    ensures
        parse_line(v + seq![' '] + w + seq![q] + x + seq![q]) == seq![v, w + x],
{
    let s = v + seq![' '] + w + seq![q] + x + seq![q];
    assert(s[0] == v[0]);
    assert(s.last() == q);
    lemma_trim_identity(s);
    let a = v + seq![' '];
    let b = seq![q] + x + seq![q];
    assert(s =~= a + (w + b));
    lemma_run_concat(initial_parser(), a, w + b);
    lemma_word_then_space(v);
    let p0 = run(initial_parser(), a);
    lemma_run_concat(p0, w, b);
    lemma_run_word(p0, w);
    let p1 = run(p0, w);
    assert(w[w.len() - 1] == w.last());
    assert(!is_quote(w.last()));
    lemma_run_concat(p1, seq![q] + x, seq![q]);
    lemma_run_concat(p1, seq![q], x);
    lemma_run_single(p1, q);
    let p2 = run(p1, seq![q]);
    assert(p2.state == quote_state(q));
    assert(p2.current_arg == w);
    lemma_run_quoted(p2, x, q);
    let p3 = run(p2, x);
    lemma_run_single(p3, q);
    assert(seq![v].push(w + x) =~= seq![v, w + x]);
}

} // verus!
