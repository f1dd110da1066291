//! Character-level text operations used when masking secrets and reading
//! secret lists: pattern replacement and line splitting.
use vstd::prelude::*;

verus! {

/// Leftmost, non-overlapping replacement of every occurrence of `pat` in `s`
/// by `with`, scanning from the start. An empty pattern matches before every
/// character and once at the end.
pub open spec fn replace_all(s: Seq<char>, pat: Seq<char>, with: Seq<char>) -> Seq<char>
    decreases s.len(),
{
    if s.len() == 0 {
        if pat.len() == 0 {
            with
        } else {
            s
        }
    } else if pat.len() == 0 {
        with + seq![s[0]] + replace_all(s.drop_first(), pat, with)
    } else if pat.is_prefix_of(s) {
        with + replace_all(s.skip(pat.len() as int), pat, with)
    } else {
        seq![s[0]] + replace_all(s.drop_first(), pat, with)
    }
}

/// Whether `pat` occurs in `s` at position `i`.
pub open spec fn occurs_at(s: Seq<char>, pat: Seq<char>, i: int) -> bool {
    0 <= i && i + pat.len() <= s.len() && s.subrange(i, i + pat.len()) == pat
}

/// Whether `pat` occurs anywhere in `s`.
pub open spec fn occurs_in(s: Seq<char>, pat: Seq<char>) -> bool {
    exists|i: int| occurs_at(s, pat, i)
}

/// The characters of `s`, in order.
pub(crate) fn chars_of(s: &str) -> (v: Vec<char>)
    ensures
        v@ == s@,
{
    let mut v: Vec<char> = Vec::new();
    for c in it: s.chars()
        invariant
            v@ == it.seq().take(it.index() as int),
    {
        v.push(c);
    }
    v
}


/// Builds a `String` from its characters, in order.
///
/// Trusted: calls `FromIterator<&char>` for `String` (std), which appends the
/// characters one after another, so the result's characters are exactly `v`.
#[verifier::external_body]
pub(crate) fn string_from_chars(v: &Vec<char>) -> (s: String)
    ensures
        s@ == v@,
{
    v.iter().collect()
}

/// Appends all of `extra` to `out`.
fn push_all(out: &mut Vec<char>, extra: &Vec<char>)
    ensures
        final(out)@ == old(out)@ + extra@,
{
    let mut j: usize = 0;
    while j < extra.len()
        invariant
            j <= extra.len(),
            out@ == old(out)@ + extra@.take(j as int),
        decreases extra.len() - j,
    {
        out.push(extra[j]);
        j = j + 1;
        assert(out@ =~= old(out)@ + extra@.take(j as int));
    }
    assert(extra@.take(j as int) =~= extra@);
}

/// Whether `pat` occurs in `s` at character position `i`.
pub(crate) fn starts_with_at(s: &Vec<char>, i: usize, pat: &Vec<char>) -> (b: bool)
    requires
        i <= s.len(),
    ensures
        b == pat@.is_prefix_of(s@.skip(i as int)),
{
    if pat.len() > s.len() - i {
        return false;
    }
    let mut j: usize = 0;
    while j < pat.len()
        invariant
            j <= pat.len(),
            i + pat.len() <= s.len(),
            forall|k: int| 0 <= k < j ==> s@[i + k] == pat@[k],
        decreases pat.len() - j,
    {
        if s[i + j] != pat[j] {
            assert(s@.skip(i as int)[j as int] == s@[i + j]);
            return false;
        }
        j = j + 1;
    }
    assert(pat@ =~= s@.skip(i as int).subrange(0, pat@.len() as int));
    true
}

/// `replace_all` over character vectors.
fn replace_chars(s: &Vec<char>, pat: &Vec<char>, with: &Vec<char>) -> (out: Vec<char>)
    ensures
        out@ == replace_all(s@, pat@, with@),
{
    let mut out: Vec<char> = Vec::new();
    let mut i: usize = 0;
    assert(s@.skip(0) =~= s@);
    while i < s.len()
        invariant
            i <= s.len(),
            out@ + replace_all(s@.skip(i as int), pat@, with@) == replace_all(s@, pat@, with@),
        decreases s.len() - i,
    {
        let ghost rest = s@.skip(i as int);
        let ghost before = out@;
        if pat.len() > 0 && starts_with_at(s, i, pat) {
            push_all(&mut out, with);
            assert(rest.skip(pat@.len() as int) =~= s@.skip(i + pat@.len()));
            assert(out@ + replace_all(s@.skip(i + pat@.len()), pat@, with@) =~= before
                + replace_all(rest, pat@, with@));
            i = i + pat.len();
        } else {
            if pat.len() == 0 {
                push_all(&mut out, with);
            }
            out.push(s[i]);
            assert(rest.drop_first() =~= s@.skip(i + 1));
            assert(out@ + replace_all(s@.skip(i + 1), pat@, with@) =~= before
                + replace_all(rest, pat@, with@));
            i = i + 1;
        }
    }
    assert(s@.skip(i as int) =~= Seq::<char>::empty());
    if pat.len() == 0 {
        push_all(&mut out, with);
    } else {
        assert(out@ + Seq::<char>::empty() =~= out@);
    }
    out
}

/// Replaces every occurrence of `pat` in `s` by `with`, as `str::replace`
/// does: leftmost matches first, without overlap.
pub fn replace(s: &str, pat: &str, with: &str) -> (res: String)
    ensures
        res@ == replace_all(s@, pat@, with@),
{
    let sc = chars_of(s);
    let pc = chars_of(pat);
    let wc = chars_of(with);
    let out = replace_chars(&sc, &pc, &wc);
    string_from_chars(&out)
}


/// The pieces of `s` between newline characters; there is always one more
/// piece than there are newlines.
pub open spec fn split_newlines(s: Seq<char>) -> Seq<Seq<char>>
    decreases s.len(),
{
    if s.len() == 0 {
        seq![Seq::empty()]
    } else {
        let init = split_newlines(s.drop_last());
        if s.last() == '\n' {
            init.push(Seq::empty())
        } else {
            init.update(init.len() - 1, init.last().push(s.last()))
        }
    }
}

/// A line that was ended by a newline loses one carriage return before it.
pub open spec fn strip_cr(line: Seq<char>) -> Seq<char> {
    if line.len() > 0 && line.last() == '\r' {
        line.drop_last()
    } else {
        line
    }
}

/// The lines of `s`, as `str::lines` yields them: split at `\n` or `\r\n`,
/// without the terminators; a final line ending is optional, and a `\r` that
/// is not followed by `\n` stays in the line.
pub open spec fn text_lines(s: Seq<char>) -> Seq<Seq<char>> {
    let parts = split_newlines(s);
    let ended = parts.drop_last().map_values(|l: Seq<char>| strip_cr(l));
    if parts.last().len() == 0 {
        ended
    } else {
        ended.push(parts.last())
    }
}

/// The views of a vector of strings.
pub open spec fn string_views(v: Seq<String>) -> Seq<Seq<char>> {
    v.map_values(|x: String| x@)
}

/// `split_newlines` always yields at least one piece.
pub proof fn lemma_split_newlines_nonempty(s: Seq<char>)
    ensures
        split_newlines(s).len() >= 1,
    decreases s.len(),
{
    if s.len() > 0 {
        lemma_split_newlines_nonempty(s.drop_last());
    }
}

/// Splits `s` into lines as `str::lines` does.
pub fn lines(s: &str) -> (res: Vec<String>)
    ensures
        string_views(res@) == text_lines(s@),
{
    let chars = chars_of(s);
    let mut out: Vec<String> = Vec::new();
    let mut cur: Vec<char> = Vec::new();
    let mut i: usize = 0;
    proof {
        assert(chars@.take(0) =~= Seq::<char>::empty());
        assert(string_views(out@) =~= split_newlines(chars@.take(0)).drop_last().map_values(
            |l: Seq<char>| strip_cr(l),
        ));
    }
    while i < chars.len()
        invariant
            i <= chars.len(),
            string_views(out@) == split_newlines(chars@.take(i as int)).drop_last().map_values(
                |l: Seq<char>| strip_cr(l),
            ),
            cur@ == split_newlines(chars@.take(i as int)).last(),
        decreases chars.len() - i,
    {
        let ghost pre = chars@.take(i as int);
        let ghost post = chars@.take(i + 1);
        proof {
            assert(post.drop_last() =~= pre);
            assert(post.last() == chars@[i as int]);
            lemma_split_newlines_nonempty(pre);
        }
        let c = chars[i];
        if c == '\n' {
            let ghost line = cur@;
            if cur.len() > 0 && cur[cur.len() - 1] == '\r' {
                cur.pop();
            }
            assert(cur@ =~= strip_cr(line));
            let done = string_from_chars(&cur);
            let ghost old_views = string_views(out@);
            out.push(done);
            assert(string_views(out@) =~= old_views.push(strip_cr(line)));
            cur = Vec::new();
            proof {
                let parts = split_newlines(pre);
                assert(split_newlines(post) == parts.push(Seq::empty()));
                assert(parts.push(Seq::<char>::empty()).drop_last() =~= parts);
                assert(parts =~= parts.drop_last().push(parts.last()));
                assert(parts.map_values(|l: Seq<char>| strip_cr(l)) =~= parts.drop_last().map_values(
                    |l: Seq<char>| strip_cr(l),
                ).push(strip_cr(parts.last())));
            }
        } else {
            cur.push(c);
            proof {
                let parts = split_newlines(pre);
                let next = split_newlines(post);
                assert(next == parts.update(parts.len() - 1, parts.last().push(c)));
                assert(next.drop_last() =~= parts.drop_last());
            }
        }
        i = i + 1;
    }
    proof {
        assert(chars@.take(i as int) =~= s@);
        lemma_split_newlines_nonempty(s@);
    }
    if cur.len() > 0 {
        let last = string_from_chars(&cur);
        let ghost old_views = string_views(out@);
        out.push(last);
        assert(string_views(out@) =~= old_views.push(cur@));
        proof {
            let parts = split_newlines(s@);
            assert(string_views(out@) =~= parts.drop_last().map_values(|l: Seq<char>| strip_cr(l)).push(parts.last()));
        }
    }
    out
}


/// No character of `a` occurs in `b`.
pub open spec fn shares_no_char(a: Seq<char>, b: Seq<char>) -> bool {
    forall|i: int, j: int| 0 <= i < a.len() && 0 <= j < b.len() ==> a[i] != b[j]
}

/// An occurrence at position `i >= k` of `x + y`, where `x` has length `k`,
/// is an occurrence in `y` at `i - k`.
proof fn lemma_occurs_in_suffix(x: Seq<char>, y: Seq<char>, p: Seq<char>, i: int)
    requires
        occurs_at(x + y, p, i),
        i >= x.len(),
    ensures
        occurs_at(y, p, i - x.len()),
{
    assert((x + y).subrange(i, i + p.len()) =~= y.subrange(i - x.len(), i - x.len() + p.len()));
}

/// An occurrence of `p` in a suffix of `s` is an occurrence in `s`.
proof fn lemma_occurs_in_skip(s: Seq<char>, k: int, p: Seq<char>, i: int)
    requires
        0 <= k <= s.len(),
        occurs_at(s.skip(k), p, i),
    ensures
        occurs_at(s, p, i + k),
{
    assert(s.skip(k).subrange(i, i + p.len()) =~= s.subrange(i + k, i + k + p.len()));
}

/// A non-empty `p` that shares no character with `x` does not occur in
/// `x + y` at a position inside `x`.
proof fn lemma_no_occurrence_starting_in(x: Seq<char>, y: Seq<char>, p: Seq<char>, i: int)
    requires
        0 <= i < x.len(),
        p.len() > 0,
        shares_no_char(p, x),
    ensures
        !occurs_at(x + y, p, i),
{
    if occurs_at(x + y, p, i) {
        assert((x + y).subrange(i, i + p.len())[0] == x[i]);
    }
}

/// A sequence whose first element is that of `t` and whose tail is a prefix
/// of the tail of `t` is a prefix of `t`.
proof fn lemma_prefix_from_tail(q: Seq<char>, t: Seq<char>)
    requires
        t.len() > 0,
        q.len() > 0,
        q[0] == t[0],
        q.drop_first().is_prefix_of(t.drop_first()),
    ensures
        q.is_prefix_of(t),
{
    assert forall|k: int| 0 <= k < q.len() implies q[k] == t[k] by {
        if k > 0 {
            assert(q[k] == q.drop_first()[k - 1]);
            assert(q.drop_first()[k - 1] == t.drop_first().subrange(0, q.len() - 1)[k - 1]);
        }
    }
    assert(q =~= t.subrange(0, q.len() as int));
}

/// A prefix of the replaced text that shares no character with the
/// replacement is a prefix of the original text.
pub proof fn lemma_prefix_of_replaced(t: Seq<char>, pat: Seq<char>, with: Seq<char>, q: Seq<char>)
    requires
        with.len() > 0,
        shares_no_char(q, with),
        q.is_prefix_of(replace_all(t, pat, with)),
    ensures
        q.is_prefix_of(t),
    decreases t.len(),
{
    let out = replace_all(t, pat, with);
    if q.len() == 0 {
        assert(q =~= t.subrange(0, 0));
    } else if t.len() == 0 || pat.len() == 0 || pat.is_prefix_of(t) {
        assert(out.subrange(0, q.len() as int)[0] == out[0]);
        if t.len() == 0 && pat.len() != 0 {
            assert(out.len() == 0);
        } else {
            assert(out[0] == with[0]);
        }
    } else {
        let rest = replace_all(t.drop_first(), pat, with);
        assert(out == seq![t[0]] + rest);
        let q1 = q.drop_first();
        assert(q1 =~= rest.subrange(0, q1.len() as int));
        lemma_prefix_of_replaced(t.drop_first(), pat, with, q1);
        assert(q[0] == out.subrange(0, q.len() as int)[0]);
        lemma_prefix_from_tail(q, t);
    }
}

/// Replacing any pattern by a text that shares no character with `p` does not
/// create an occurrence of `p`.
pub proof fn lemma_replace_creates_no_occurrence(
    s: Seq<char>,
    pat: Seq<char>,
    with: Seq<char>,
    p: Seq<char>,
    i: int,
)
    requires
        p.len() > 0,
        with.len() > 0,
        shares_no_char(p, with),
        occurs_at(replace_all(s, pat, with), p, i),
    ensures
        occurs_in(s, p),
    decreases s.len(),
{
    let out = replace_all(s, pat, with);
    if s.len() == 0 {
        if pat.len() == 0 {
            assert(out =~= with + Seq::<char>::empty());
            lemma_no_occurrence_starting_in(with, Seq::empty(), p, i);
        }
    } else if pat.len() == 0 {
        let rest = replace_all(s.drop_first(), pat, with);
        let head = with + seq![s[0]];
        assert(out == head + rest);
        if i < with.len() {
            assert(head + rest =~= with + (seq![s[0]] + rest));
            lemma_no_occurrence_starting_in(with, seq![s[0]] + rest, p, i);
        } else if i == with.len() {
            let tail = seq![s[0]] + rest;
            assert(head + rest =~= with + tail);
            lemma_occurs_in_suffix(with, tail, p, i);
            let p1 = p.drop_first();
            assert(tail.subrange(0, p.len() as int) == p);
            assert(p1 =~= rest.subrange(0, p1.len() as int));
            lemma_prefix_of_replaced(s.drop_first(), pat, with, p1);
            assert(p[0] == tail.subrange(0, p.len() as int)[0]);
            lemma_prefix_from_tail(p, s);
            assert(occurs_at(s, p, 0));
        } else {
            lemma_occurs_in_suffix(head, rest, p, i);
            lemma_replace_creates_no_occurrence(s.drop_first(), pat, with, p, i - head.len());
            let j = choose|j: int| occurs_at(s.drop_first(), p, j);
            lemma_occurs_in_skip(s, 1, p, j);
        }
    } else if pat.is_prefix_of(s) {
        let rest = replace_all(s.skip(pat.len() as int), pat, with);
        assert(out == with + rest);
        if i < with.len() {
            lemma_no_occurrence_starting_in(with, rest, p, i);
        } else {
            lemma_occurs_in_suffix(with, rest, p, i);
            lemma_replace_creates_no_occurrence(s.skip(pat.len() as int), pat, with, p, i - with.len());
            let j = choose|j: int| occurs_at(s.skip(pat.len() as int), p, j);
            lemma_occurs_in_skip(s, pat.len() as int, p, j);
        }
    } else {
        let rest = replace_all(s.drop_first(), pat, with);
        assert(out == seq![s[0]] + rest);
        if i == 0 {
            let p1 = p.drop_first();
            assert(out.subrange(0, p.len() as int) == p);
            assert(p1 =~= rest.subrange(0, p1.len() as int));
            lemma_prefix_of_replaced(s.drop_first(), pat, with, p1);
            assert(p[0] == out.subrange(0, p.len() as int)[0]);
            lemma_prefix_from_tail(p, s);
            assert(occurs_at(s, p, 0));
        } else {
            lemma_occurs_in_suffix(seq![s[0]], rest, p, i);
            lemma_replace_creates_no_occurrence(s.drop_first(), pat, with, p, i - 1);
            let j = choose|j: int| occurs_at(s.drop_first(), p, j);
            lemma_occurs_in_skip(s, 1, p, j);
        }
    }
}

/// Replacing a non-empty `p` by a non-empty text that shares no character
/// with `p` leaves no occurrence of `p`.
pub proof fn lemma_replace_removes_pattern(s: Seq<char>, p: Seq<char>, with: Seq<char>, i: int)
    requires
        p.len() > 0,
        with.len() > 0,
        shares_no_char(p, with),
    ensures
        !occurs_at(replace_all(s, p, with), p, i),
    decreases s.len(),
{
    let out = replace_all(s, p, with);
    if occurs_at(out, p, i) {
        if s.len() == 0 {
        } else if p.is_prefix_of(s) {
            let rest = replace_all(s.skip(p.len() as int), p, with);
            assert(out == with + rest);
            if i < with.len() {
                lemma_no_occurrence_starting_in(with, rest, p, i);
            } else {
                lemma_occurs_in_suffix(with, rest, p, i);
                lemma_replace_removes_pattern(s.skip(p.len() as int), p, with, i - with.len());
            }
        } else {
            let rest = replace_all(s.drop_first(), p, with);
            assert(out == seq![s[0]] + rest);
            if i == 0 {
                let p1 = p.drop_first();
                assert(out.subrange(0, p.len() as int) == p);
                assert(p1 =~= rest.subrange(0, p1.len() as int));
                lemma_prefix_of_replaced(s.drop_first(), p, with, p1);
                assert(p[0] == out.subrange(0, p.len() as int)[0]);
                lemma_prefix_from_tail(p, s);
            } else {
                lemma_occurs_in_suffix(seq![s[0]], rest, p, i);
                lemma_replace_removes_pattern(s.drop_first(), p, with, i - 1);
            }
        }
    }
}

/// Replacing a non-empty pattern that does not occur leaves the text as it is.
pub proof fn lemma_replace_absent_is_identity(s: Seq<char>, pat: Seq<char>, with: Seq<char>)
    requires
        pat.len() > 0,
        !occurs_in(s, pat),
    ensures
        replace_all(s, pat, with) == s,
    decreases s.len(),
{
    if s.len() > 0 {
        if pat.is_prefix_of(s) {
            assert(occurs_at(s, pat, 0));
        }
        assert forall|j: int| !occurs_at(s.drop_first(), pat, j) by {
            if occurs_at(s.drop_first(), pat, j) {
                lemma_occurs_in_skip(s, 1, pat, j);
            }
        }
        lemma_replace_absent_is_identity(s.drop_first(), pat, with);
        assert(seq![s[0]] + s.drop_first() =~= s);
    }
}


/// Law: a final line ending, `\n` or `\r\n`, adds no line: the text has the
/// same lines with it as without it, for a non-empty text that does not
/// already end in `\n` or `\r`.
pub proof fn law_final_line_ending_optional(s: Seq<char>)
    requires
        s.len() > 0,
        s.last() != '\n',
        s.last() != '\r',
    ensures
        text_lines(s.push('\n')) == text_lines(s),
        text_lines(s + seq!['\r', '\n']) == text_lines(s),
{
    let parts = split_newlines(s);
    lemma_split_newlines_nonempty(s);
    lemma_split_newlines_nonempty(s.drop_last());
    let init = split_newlines(s.drop_last());
    assert(parts == init.update(init.len() - 1, init.last().push(s.last())));
    assert(parts.last() == init.last().push(s.last()));
    assert(parts.last().len() > 0);
    assert(strip_cr(parts.last()) == parts.last());

    let t = s.push('\n');
    assert(t.drop_last() =~= s);
    assert(split_newlines(t) == parts.push(Seq::empty()));
    assert(split_newlines(t).drop_last() =~= parts);
    assert(parts.map_values(|l: Seq<char>| strip_cr(l)) =~= parts.drop_last().map_values(
        |l: Seq<char>| strip_cr(l),
    ).push(parts.last()));

    let u = s.push('\r');
    let v = s + seq!['\r', '\n'];
    assert(u.drop_last() =~= s);
    assert(v.drop_last() =~= u);
    let uparts = split_newlines(u);
    assert(uparts == parts.update(parts.len() - 1, parts.last().push('\r')));
    assert(split_newlines(v) == uparts.push(Seq::empty()));
    assert(split_newlines(v).drop_last() =~= uparts);
    assert(strip_cr(parts.last().push('\r')) =~= parts.last());
    assert(uparts.map_values(|l: Seq<char>| strip_cr(l)) =~= parts.drop_last().map_values(
        |l: Seq<char>| strip_cr(l),
    ).push(parts.last()));
}


/// A text without newline is a single piece.
proof fn lemma_split_without_newline(x: Seq<char>)
    requires
        !x.contains('\n'),
    ensures
        split_newlines(x) == seq![x],
    decreases x.len(),
{
    if x.len() > 0 {
        let init = x.drop_last();
        assert(!init.contains('\n')) by {
            if init.contains('\n') {
                let i = choose|i: int| 0 <= i < init.len() && init[i] == '\n';
                assert(x[i] == '\n');
            }
        }
        lemma_split_without_newline(init);
        assert(x[x.len() - 1] == x.last());
        assert(x.last() != '\n');
        assert(init.push(x.last()) =~= x);
        assert(seq![init].update(0, init.push(x.last())) =~= seq![x]);
    } else {
        assert(x =~= Seq::<char>::empty());
    }
}

/// The pieces of a concatenation: the last piece of the first text joins
/// the first piece of the second.
proof fn lemma_split_concat(p: Seq<char>, y: Seq<char>)
    ensures
        split_newlines(p + y) == split_newlines(p).drop_last() + seq![
            split_newlines(p).last() + split_newlines(y)[0],
        ] + split_newlines(y).drop_first(),
    decreases y.len(),
{
    lemma_split_newlines_nonempty(p);
    lemma_split_newlines_nonempty(y);
    let sp = split_newlines(p);
    if y.len() == 0 {
        assert(p + y =~= p);
        assert(sp.last() + Seq::<char>::empty() =~= sp.last());
        assert(sp.drop_last() + seq![sp.last()] + Seq::<Seq<char>>::empty() =~= sp);
    } else {
        let y1 = y.drop_last();
        let c = y.last();
        lemma_split_concat(p, y1);
        lemma_split_newlines_nonempty(y1);
        let sy1 = split_newlines(y1);
        let prev = split_newlines(p + y1);
        assert((p + y).drop_last() =~= p + y1);
        assert((p + y).last() == c);
        lemma_split_newlines_nonempty(p + y1);
        if c == '\n' {
            assert(split_newlines(y) == sy1.push(Seq::empty()));
            assert(sy1.push(Seq::<char>::empty())[0] == sy1[0]);
            assert(sy1.push(Seq::<char>::empty()).drop_first() =~= sy1.drop_first().push(Seq::empty()));
            assert(prev.push(Seq::<char>::empty()) =~= sp.drop_last() + seq![sp.last() + sy1[0]]
                + sy1.drop_first().push(Seq::empty()));
        } else {
            let sy = sy1.update(sy1.len() - 1, sy1.last().push(c));
            assert(split_newlines(y) == sy);
            if sy1.len() == 1 {
                assert(sy[0] == sy1[0].push(c));
                assert(sy.drop_first() =~= Seq::<Seq<char>>::empty());
                assert(sy1.drop_first() =~= Seq::<Seq<char>>::empty());
                assert((sp.last() + sy1[0]).push(c) =~= sp.last() + sy1[0].push(c));
                assert(prev.update(prev.len() - 1, prev.last().push(c)) =~= sp.drop_last() + seq![
                    sp.last() + sy[0],
                ] + sy.drop_first());
            } else {
                assert(sy[0] == sy1[0]);
                assert(sy.drop_first() =~= sy1.drop_first().update(
                    sy1.len() - 2,
                    sy1.last().push(c),
                ));
                assert(prev.update(prev.len() - 1, prev.last().push(c)) =~= sp.drop_last() + seq![
                    sp.last() + sy[0],
                ] + sy.drop_first());
            }
        }
    }
}

/// Law: the first line runs up to the first newline and loses a carriage
/// return before it; the lines after are those of the rest. A non-empty
/// text without newline is one line, and an empty text has none.
pub proof fn law_lines_from_the_front(x: Seq<char>, rest: Seq<char>)
    requires
        !x.contains('\n'),
    ensures
        text_lines(x + seq!['\n'] + rest) == seq![strip_cr(x)] + text_lines(rest),
        x.len() > 0 ==> text_lines(x) == seq![x],
        text_lines(Seq::<char>::empty()) == Seq::<Seq<char>>::empty(),
{
    lemma_split_without_newline(x);
    let nl = seq!['\n'];
    let p = x + nl;
    assert(p.drop_last() =~= x);
    assert(p.last() == '\n');
    assert(split_newlines(p) == seq![x].push(Seq::empty()));
    let sp = seq![x, Seq::<char>::empty()];
    assert(seq![x].push(Seq::<char>::empty()) =~= sp);
    lemma_split_concat(p, rest);
    lemma_split_newlines_nonempty(rest);
    let sr = split_newlines(rest);
    assert(x + nl + rest =~= p + rest);
    let whole = split_newlines(p + rest);
    assert(sp.drop_last() =~= seq![x]);
    assert(Seq::<char>::empty() + sr[0] =~= sr[0]);
    assert(whole =~= seq![x] + sr);
    assert(whole.last() == sr.last());
    assert(whole.drop_last() =~= seq![x] + sr.drop_last());
    assert(whole.drop_last().map_values(|l: Seq<char>| strip_cr(l)) =~= seq![strip_cr(x)]
        + sr.drop_last().map_values(|l: Seq<char>| strip_cr(l)));
    if sr.last().len() == 0 {
    } else {
        assert((seq![strip_cr(x)] + sr.drop_last().map_values(|l: Seq<char>| strip_cr(l))).push(
            sr.last(),
        ) =~= seq![strip_cr(x)] + sr.drop_last().map_values(|l: Seq<char>| strip_cr(l)).push(
            sr.last(),
        ));
    }
    let e = Seq::<char>::empty();
    assert(split_newlines(e) == seq![e]);
    assert(seq![e].drop_last().map_values(|l: Seq<char>| strip_cr(l)) =~= Seq::<Seq<char>>::empty());
    if x.len() > 0 {
        assert(seq![x].drop_last().map_values(|l: Seq<char>| strip_cr(l)) =~= Seq::<Seq<char>>::empty());
        assert(Seq::<Seq<char>>::empty().push(x) =~= seq![x]);
    }
}


/// Law: replacing a non-empty pattern by itself changes nothing: nothing
/// outside the matches is lost, added or moved.
pub proof fn law_replace_by_itself_is_identity(s: Seq<char>, pat: Seq<char>)
    requires
        pat.len() > 0,
    ensures
        replace_all(s, pat, pat) == s,
    decreases s.len(),
{
    if s.len() > 0 {
        if pat.is_prefix_of(s) {
            law_replace_by_itself_is_identity(s.skip(pat.len() as int), pat);
            assert(pat + s.skip(pat.len() as int) =~= s);
        } else {
            law_replace_by_itself_is_identity(s.drop_first(), pat);
            assert(seq![s[0]] + s.drop_first() =~= s);
        }
    }
}

} // verus!
