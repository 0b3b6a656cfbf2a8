//! Character-level text helpers shared by the parser, the command runner
//! and the completer: Unicode whitespace, trimming, prefixes, joining and
//! splitting, all stated over `Seq<char>`.
use vstd::prelude::*;

verus! {

/// The Unicode `White_Space` property (PropList.txt), which is what
/// `char::is_whitespace` tests.
pub open spec fn is_ws(c: char) -> bool {
    let u = c as u32;
    ||| 0x09 <= u <= 0x0d
    ||| u == 0x20
    ||| u == 0x85
    ||| u == 0xa0
    ||| u == 0x1680
    ||| 0x2000 <= u <= 0x200a
    ||| u == 0x2028
    ||| u == 0x2029
    ||| u == 0x202f
    ||| u == 0x205f
    ||| u == 0x3000
}

/// `s` with its leading whitespace removed.
pub open spec fn trim_start(s: Seq<char>) -> Seq<char>
    decreases s.len(),
{
    if s.len() > 0 && is_ws(s[0]) {
        trim_start(s.drop_first())
    } else {
        s
    }
}

/// `s` with its trailing whitespace removed.
pub open spec fn trim_end(s: Seq<char>) -> Seq<char>
    decreases s.len(),
{
    if s.len() > 0 && is_ws(s.last()) {
        trim_end(s.drop_last())
    } else {
        s
    }
}

/// `s` with whitespace removed at both ends.
pub open spec fn trim(s: Seq<char>) -> Seq<char> {
    trim_end(trim_start(s))
}

/// `p` is a prefix of `s`.
pub open spec fn has_prefix(s: Seq<char>, p: Seq<char>) -> bool {
    p.len() <= s.len() && s.subrange(0, p.len() as int) == p
}

/// `p` is a suffix of `s`.
pub open spec fn has_suffix(s: Seq<char>, p: Seq<char>) -> bool {
    p.len() <= s.len() && s.subrange(s.len() - p.len(), s.len() as int) == p
}

/// The parts joined with `sep` between each two of them.
pub open spec fn join(parts: Seq<Seq<char>>, sep: Seq<char>) -> Seq<char>
    decreases parts.len(),
{
    if parts.len() == 0 {
        Seq::empty()
    } else if parts.len() == 1 {
        parts[0]
    } else {
        join(parts.drop_last(), sep) + sep + parts.last()
    }
}

/// The parts written one after the other.
pub open spec fn concat_all(parts: Seq<Seq<char>>) -> Seq<char>
    decreases parts.len(),
{
    if parts.len() == 0 {
        Seq::empty()
    } else {
        concat_all(parts.drop_last()) + parts.last()
    }
}

/// The maximal runs of non-whitespace characters of `s`, in order: what
/// `str::split_whitespace` yields.
pub open spec fn split_ws(s: Seq<char>) -> Seq<Seq<char>>
    decreases s.len(),
{
    if s.len() == 0 {
        Seq::empty()
    } else {
        let words = split_ws(s.drop_last());
        let c = s.last();
        if is_ws(c) {
            words
        } else if s.len() == 1 || is_ws(s[s.len() - 2]) {
            words.push(seq![c])
        } else {
            words.update(words.len() - 1, words.last().push(c))
        }
    }
}

/// The views of a vector of strings.
pub open spec fn views(v: Seq<String>) -> Seq<Seq<char>> {
    v.map_values(|s: String| s@)
}

/// The view of an optional string.
pub open spec fn opt_view(o: Option<String>) -> Option<Seq<char>> {
    match o {
        Some(s) => Some(s@),
        None => None,
    }
}

/// Tests the Unicode `White_Space` property.
pub fn is_whitespace(c: char) -> (r: bool)
    ensures
        r == is_ws(c),
{
    let u = c as u32;
    (0x09 <= u && u <= 0x0d) || u == 0x20 || u == 0x85 || u == 0xa0 || u == 0x1680 || (0x2000
        <= u && u <= 0x200a) || u == 0x2028 || u == 0x2029 || u == 0x202f || u == 0x205f || u
        == 0x3000
}

/// The characters of `s`, in order.
pub fn chars_of(s: &str) -> (v: Vec<char>)
    ensures
        v@ == s@,
{
    let mut v: Vec<char> = Vec::new();
    for c in it: s.chars()
        invariant
            v@ == it.seq().take(it.index() as int),
            it.seq() == s@,
    {
        v.push(c);
    }
    v
}

/// Appends one character with `String::push`. Trusted: the contract claims
/// that the string afterwards holds its old characters followed by `c`, as
/// `String::push` is documented to do.
#[verifier::external_body]
pub(crate) fn push_char(s: &mut String, c: char)
    ensures
        final(s)@ == old(s)@.push(c),
{
    s.push(c);
}

/// A string holding the characters `v[from..to]`.
pub fn string_from_range(v: &Vec<char>, from: usize, to: usize) -> (s: String)
    requires
        from <= to <= v.len(),
    ensures
        s@ == v@.subrange(from as int, to as int),
{
    let mut s = String::new();
    let mut i = from;
    while i < to
        invariant
            from <= i <= to <= v.len(),
            s@ == v@.subrange(from as int, i as int),
        decreases to - i,
    {
        push_char(&mut s, v[i]);
        i = i + 1;
        assert(s@ =~= v@.subrange(from as int, i as int));
    }
    s
}

/// A string holding the characters of `v`.
pub fn string_from_chars(v: &Vec<char>) -> (s: String)
    ensures
        s@ == v@,
{
    let s = string_from_range(v, 0, v.len());
    assert(v@.subrange(0, v@.len() as int) =~= v@);
    s
}

/// An owned copy of `s`.
pub fn to_owned_string(s: &str) -> (r: String)
    ensures
        r@ == s@,
{
    s.to_owned()
}

/// Appends the characters of `t` to `s`.
pub fn push_all(s: &mut String, t: &str)
    ensures
        final(s)@ == old(s)@ + t@,
{
    let cs = chars_of(t);
    let ghost start = s@;
    let mut i: usize = 0;
    while i < cs.len()
        invariant
            0 <= i <= cs.len(),
            cs@ == t@,
            s@ == start + cs@.subrange(0, i as int),
        decreases cs.len() - i,
    {
        push_char(s, cs[i]);
        i = i + 1;
        assert(s@ =~= start + cs@.subrange(0, i as int));
    }
    assert(cs@.subrange(0, cs@.len() as int) =~= cs@);
}

pub proof fn lemma_trim_start_suffix(s: Seq<char>)
    ensures
        exists|k: int| 0 <= k <= s.len() && trim_start(s) == s.subrange(k, s.len() as int),
        trim_start(s).len() > 0 ==> !is_ws(trim_start(s)[0]),
    decreases s.len(),
{
    if s.len() > 0 && is_ws(s[0]) {
        lemma_trim_start_suffix(s.drop_first());
        let k = choose|k: int|
            0 <= k <= s.drop_first().len() && trim_start(s.drop_first())
                == s.drop_first().subrange(k, s.drop_first().len() as int);
        assert(s.drop_first().subrange(k, s.drop_first().len() as int) =~= s.subrange(
            k + 1,
            s.len() as int,
        ));
    } else {
        assert(s.subrange(0, s.len() as int) =~= s);
    }
}

pub proof fn lemma_trim_end_prefix(s: Seq<char>)
    ensures
        exists|k: int| 0 <= k <= s.len() && trim_end(s) == s.subrange(0, k),
        trim_end(s).len() > 0 ==> !is_ws(trim_end(s).last()),
    decreases s.len(),
{
    if s.len() > 0 && is_ws(s.last()) {
        lemma_trim_end_prefix(s.drop_last());
        let k = choose|k: int|
            0 <= k <= s.drop_last().len() && trim_end(s.drop_last()) == s.drop_last().subrange(
                0,
                k,
            );
        assert(s.drop_last().subrange(0, k) =~= s.subrange(0, k));
    } else {
        assert(s.subrange(0, s.len() as int) =~= s);
    }
}

/// `trim` keeps a contiguous part of its input.
pub proof fn lemma_trim_subrange(s: Seq<char>)
    ensures
        exists|i: int, j: int| 0 <= i <= j <= s.len() && trim(s) == s.subrange(i, j),
{
    lemma_trim_start_suffix(s);
    let k = choose|k: int| 0 <= k <= s.len() && trim_start(s) == s.subrange(k, s.len() as int);
    lemma_trim_end_prefix(trim_start(s));
    let m = choose|m: int|
        0 <= m <= trim_start(s).len() && trim_end(trim_start(s)) == trim_start(s).subrange(0, m);
    assert(s.subrange(k, s.len() as int).subrange(0, m) =~= s.subrange(k, k + m));
}

/// The position of the first non-whitespace character of `v`, or `v.len()`.
fn skip_ws_forward(v: &Vec<char>) -> (i: usize)
    ensures
        i <= v.len(),
        trim_start(v@) == v@.subrange(i as int, v.len() as int),
{
    let mut i: usize = 0;
    assert(v@.subrange(0, v.len() as int) =~= v@);
    while i < v.len() && is_whitespace(v[i])
        invariant
            i <= v.len(),
            trim_start(v@) == trim_start(v@.subrange(i as int, v.len() as int)),
        decreases v.len() - i,
    {
        assert(v@.subrange(i as int, v.len() as int).drop_first() =~= v@.subrange(
            i + 1,
            v.len() as int,
        ));
        i = i + 1;
    }
    i
}

/// The end of `v[from..]` once its trailing whitespace is dropped.
fn skip_ws_backward(v: &Vec<char>, from: usize) -> (j: usize)
    requires
        from <= v.len(),
    ensures
        from <= j <= v.len(),
        trim_end(v@.subrange(from as int, v.len() as int)) == v@.subrange(from as int, j as int),
{
    let mut j: usize = v.len();
    while j > from && is_whitespace(v[j - 1])
        invariant
            from <= j <= v.len(),
            trim_end(v@.subrange(from as int, v.len() as int)) == trim_end(
                v@.subrange(from as int, j as int),
            ),
        decreases j,
    {
        assert(v@.subrange(from as int, j as int).drop_last() =~= v@.subrange(
            from as int,
            j - 1,
        ));
        j = j - 1;
    }
    j
}

/// The bounds of `trim(v)` inside `v`.
pub fn trim_bounds(v: &Vec<char>) -> (r: (usize, usize))
    ensures
        r.0 <= r.1 <= v.len(),
        trim(v@) == v@.subrange(r.0 as int, r.1 as int),
{
    let i = skip_ws_forward(v);
    let j = skip_ws_backward(v, i);
    (i, j)
}

/// The characters of `s` with whitespace removed at both ends (`str::trim`).
pub fn trimmed_chars(s: &str) -> (v: Vec<char>)
    ensures
        v@ == trim(s@),
{
    let cs = chars_of(s);
    let (i, j) = trim_bounds(&cs);
    let mut v: Vec<char> = Vec::new();
    let mut k = i;
    while k < j
        invariant
            i <= k <= j <= cs.len(),
            v@ == cs@.subrange(i as int, k as int),
        decreases j - k,
    {
        v.push(cs[k]);
        k = k + 1;
        assert(v@ =~= cs@.subrange(i as int, k as int));
    }
    v
}

/// `s` without whitespace at either end (`str::trim`).
pub fn trim_string(s: &str) -> (r: String)
    ensures
        r@ == trim(s@),
{
    let v = trimmed_chars(s);
    string_from_chars(&v)
}

/// `s` without trailing whitespace (`str::trim_end`).
pub fn trim_end_string(s: &str) -> (r: String)
    ensures
        r@ == trim_end(s@),
{
    let cs = chars_of(s);
    let j = skip_ws_backward(&cs, 0);
    assert(cs@.subrange(0, cs.len() as int) =~= cs@);
    string_from_range(&cs, 0, j)
}

/// Whether two character sequences are equal.
pub fn chars_eq(a: &Vec<char>, b: &Vec<char>) -> (r: bool)
    ensures
        r == (a@ == b@),
{
    if a.len() != b.len() {
        return false;
    }
    let mut i: usize = 0;
    while i < a.len()
        invariant
            a.len() == b.len(),
            i <= a.len(),
            a@.subrange(0, i as int) == b@.subrange(0, i as int),
        decreases a.len() - i,
    {
        if a[i] != b[i] {
            assert(a@[i as int] != b@[i as int]);
            return false;
        }
        assert(a@.subrange(0, i + 1) =~= a@.subrange(0, i as int).push(a@[i as int]));
        assert(b@.subrange(0, i + 1) =~= b@.subrange(0, i as int).push(b@[i as int]));
        i = i + 1;
    }
    assert(a@ =~= a@.subrange(0, a.len() as int));
    assert(b@ =~= b@.subrange(0, b.len() as int));
    true
}

/// Whether `s` and `t` hold the same characters.
pub fn str_eq(s: &str, t: &str) -> (r: bool)
    ensures
        r == (s@ == t@),
{
    let a = chars_of(s);
    let b = chars_of(t);
    chars_eq(&a, &b)
}

/// Whether `p` is a prefix of `s` (`str::starts_with`).
pub fn starts_with(s: &str, p: &str) -> (r: bool)
    ensures
        r == has_prefix(s@, p@),
{
    let a = chars_of(s);
    let b = chars_of(p);
    if b.len() > a.len() {
        return false;
    }
    let mut i: usize = 0;
    while i < b.len()
        invariant
            b.len() <= a.len(),
            a@ == s@,
            b@ == p@,
            i <= b.len(),
            a@.subrange(0, i as int) == b@.subrange(0, i as int),
        decreases b.len() - i,
    {
        if a[i] != b[i] {
            assert(a@.subrange(0, b.len() as int)[i as int] == a@[i as int]);
            assert(a@.subrange(0, b.len() as int) != b@);
            return false;
        }
        assert(a@.subrange(0, i + 1) =~= a@.subrange(0, i as int).push(a@[i as int]));
        assert(b@.subrange(0, i + 1) =~= b@.subrange(0, i as int).push(b@[i as int]));
        i = i + 1;
    }
    assert(b@ =~= b@.subrange(0, b.len() as int));
    true
}

/// Whether `p` is a suffix of `s` (`str::ends_with`).
pub fn ends_with(s: &str, p: &str) -> (r: bool)
    ensures
        r == has_suffix(s@, p@),
{
    let a = chars_of(s);
    let b = chars_of(p);
    if b.len() > a.len() {
        return false;
    }
    let off = a.len() - b.len();
    let mut i: usize = 0;
    while i < b.len()
        invariant
            b.len() <= a.len(),
            a@ == s@,
            b@ == p@,
            off == a.len() - b.len(),
            i <= b.len(),
            a@.subrange(off as int, off + i) == b@.subrange(0, i as int),
        decreases b.len() - i,
    {
        if a[off + i] != b[i] {
            assert(a@.subrange(off as int, a.len() as int)[i as int] == a@[off + i]);
            assert(a@.subrange(off as int, a.len() as int) != b@);
            return false;
        }
        assert(a@.subrange(off as int, off + i + 1) =~= a@.subrange(off as int, off + i).push(
            a@[off + i],
        ));
        assert(b@.subrange(0, i + 1) =~= b@.subrange(0, i as int).push(b@[i as int]));
        i = i + 1;
    }
    assert(b@ =~= b@.subrange(0, b.len() as int));
    true
}

/// The strings joined with `sep` between each two of them (`[String]::join`).
pub fn join_strings(parts: &Vec<String>, sep: &str) -> (r: String)
    ensures
        r@ == join(views(parts@), sep@),
{
    let mut r = String::new();
    let mut i: usize = 0;
    while i < parts.len()
        invariant
            i <= parts.len(),
            r@ == join(views(parts@.subrange(0, i as int)), sep@),
        decreases parts.len() - i,
    {
        let ghost before = parts@.subrange(0, i as int);
        let ghost after = parts@.subrange(0, i + 1);
        assert(views(after).drop_last() =~= views(before));
        assert(views(after).last() == parts@[i as int]@);
        if i > 0 {
            push_all(&mut r, sep);
        }
        push_all(&mut r, parts[i].as_str());
        i = i + 1;
        proof {
            if i == 1 {
                assert(views(after).len() == 1);
            }
        }
    }
    assert(parts@.subrange(0, parts.len() as int) =~= parts@);
    r
}

/// The strings written one after the other.
pub fn concat_strings(parts: &Vec<String>) -> (r: String)
    ensures
        r@ == concat_all(views(parts@)),
{
    let mut r = String::new();
    let mut i: usize = 0;
    while i < parts.len()
        invariant
            i <= parts.len(),
            r@ == concat_all(views(parts@.subrange(0, i as int))),
        decreases parts.len() - i,
    {
        let ghost before = parts@.subrange(0, i as int);
        let ghost after = parts@.subrange(0, i + 1);
        assert(views(after).drop_last() =~= views(before));
        assert(views(after).last() == parts@[i as int]@);
        push_all(&mut r, parts[i].as_str());
        i = i + 1;
    }
    assert(parts@.subrange(0, parts.len() as int) =~= parts@);
    r
}

} // verus!
