//! Label selector expressions (`app=web,tier!=db,env in (a,b),!legacy`):
//! their meaning on a set of labels, and their text syntax.
use crate::text::{chars_of, starts_with_at, string_from_chars, string_views};
use vstd::prelude::*;

verus! {

/// One requirement of a selector.
#[derive(Clone, Debug, PartialEq, Eq)]
pub enum Expression {
    /// The key is present and its value is one of the values.
    In(String, Vec<String>),
    /// The key is absent, or its value is none of the values.
    NotIn(String, Vec<String>),
    /// The key is present with this value.
    Equal(String, String),
    /// The key is absent, or its value differs.
    NotEqual(String, String),
    /// The key is present.
    Exists(String),
    /// The key is absent.
    DoesNotExist(String),
}

/// The mathematical form of an [`Expression`].
pub enum ExpressionView {
    In(Seq<char>, Seq<Seq<char>>),
    NotIn(Seq<char>, Seq<Seq<char>>),
    Equal(Seq<char>, Seq<char>),
    NotEqual(Seq<char>, Seq<char>),
    Exists(Seq<char>),
    DoesNotExist(Seq<char>),
}

impl View for Expression {
    type V = ExpressionView;

    open spec fn view(&self) -> ExpressionView {
        match self {
            Expression::In(k, vs) => ExpressionView::In(k@, string_views(vs@)),
            Expression::NotIn(k, vs) => ExpressionView::NotIn(k@, string_views(vs@)),
            Expression::Equal(k, v) => ExpressionView::Equal(k@, v@),
            Expression::NotEqual(k, v) => ExpressionView::NotEqual(k@, v@),
            Expression::Exists(k) => ExpressionView::Exists(k@),
            Expression::DoesNotExist(k) => ExpressionView::DoesNotExist(k@),
        }
    }
}

/// The views of a list of expressions.
pub open spec fn expression_views(v: Seq<Expression>) -> Seq<ExpressionView> {
    v.map_values(|e: Expression| e@)
}

/// The views of a list of key/value pairs.
pub open spec fn pair_views(v: Seq<(String, String)>) -> Seq<(Seq<char>, Seq<char>)> {
    v.map_values(|p: (String, String)| (p.0@, p.1@))
}

/// The value of the first pair with key `key`, if any.
pub open spec fn lookup(pairs: Seq<(Seq<char>, Seq<char>)>, key: Seq<char>) -> Option<Seq<char>>
    decreases pairs.len(),
{
    if pairs.len() == 0 {
        None
    } else if pairs[0].0 == key {
        Some(pairs[0].1)
    } else {
        lookup(pairs.drop_first(), key)
    }
}

impl ExpressionView {
    /// Whether the requirement holds of the labels.
    pub open spec fn matches(self, labels: Seq<(Seq<char>, Seq<char>)>) -> bool {
        match self {
            ExpressionView::In(k, vs) => match lookup(labels, k) {
                Some(v) => vs.contains(v),
                None => false,
            },
            ExpressionView::NotIn(k, vs) => match lookup(labels, k) {
                Some(v) => !vs.contains(v),
                None => true,
            },
            ExpressionView::Equal(k, v) => lookup(labels, k) == Some(v),
            ExpressionView::NotEqual(k, v) => lookup(labels, k) != Some(v),
            ExpressionView::Exists(k) => lookup(labels, k) is Some,
            ExpressionView::DoesNotExist(k) => lookup(labels, k) is None,
        }
    }
}

/// Whether every requirement holds of the labels.
pub open spec fn all_match(exprs: Seq<ExpressionView>, labels: Seq<(Seq<char>, Seq<char>)>) -> bool {
    forall|i: int| 0 <= i < exprs.len() ==> #[trigger] exprs[i].matches(labels)
}

/// The value of `key` among `labels`, as `lookup` states it.
fn find_value<'a>(labels: &'a Vec<(String, String)>, key: &String) -> (res: Option<&'a String>)
    ensures
        match res {
            Some(v) => lookup(pair_views(labels@), key@) == Some(v@),
            None => lookup(pair_views(labels@), key@) is None,
        },
{
    let mut i: usize = 0;
    assert(pair_views(labels@).skip(0) =~= pair_views(labels@));
    while i < labels.len()
        invariant
            i <= labels.len(),
            lookup(pair_views(labels@), key@) == lookup(pair_views(labels@).skip(i as int), key@),
        decreases labels.len() - i,
    {
        let ghost rest = pair_views(labels@).skip(i as int);
        if labels[i].0 == *key {
            return Some(&labels[i].1);
        }
        assert(rest.drop_first() =~= pair_views(labels@).skip(i + 1));
        i = i + 1;
    }
    None
}

/// Whether `value` is one of `values`.
fn contains_string(values: &Vec<String>, value: &String) -> (res: bool)
    ensures
        res == string_views(values@).contains(value@),
{
    let mut i: usize = 0;
    while i < values.len()
        invariant
            i <= values.len(),
            forall|j: int| 0 <= j < i ==> values@[j]@ != value@,
        decreases values.len() - i,
    {
        if values[i] == *value {
            assert(string_views(values@)[i as int] == value@);
            return true;
        }
        i = i + 1;
    }
    assert forall|j: int| 0 <= j < string_views(values@).len() implies string_views(values@)[j]
        != value@ by {
        assert(string_views(values@)[j] == values@[j]@);
    }
    false
}

impl Expression {
    /// Whether the requirement holds of the labels.
    pub fn matches(&self, labels: &Vec<(String, String)>) -> (res: bool)
        ensures
            res == self@.matches(pair_views(labels@)),
    {
        match self {
            Expression::In(k, vs) => match find_value(labels, k) {
                Some(v) => contains_string(vs, v),
                None => false,
            },
            Expression::NotIn(k, vs) => match find_value(labels, k) {
                Some(v) => !contains_string(vs, v),
                None => true,
            },
            Expression::Equal(k, v) => match find_value(labels, k) {
                Some(found) => *found == *v,
                None => false,
            },
            Expression::NotEqual(k, v) => match find_value(labels, k) {
                Some(found) => !(*found == *v),
                None => true,
            },
            Expression::Exists(k) => find_value(labels, k).is_some(),
            Expression::DoesNotExist(k) => find_value(labels, k).is_none(),
        }
    }
}


/// The character classes of the selector syntax.
#[derive(Clone, Copy)]
pub enum CharClass {
    Space,
    Key,
    Value,
}

/// An ASCII letter or digit.
pub open spec fn is_alnum(c: char) -> bool {
    ('a' <= c && c <= 'z') || ('A' <= c && c <= 'Z') || ('0' <= c && c <= '9')
}

/// Whether `c` belongs to the class: blanks separate tokens; keys may hold a
/// prefix with `/`; values are letters, digits, `-`, `_` and `.`.
pub open spec fn in_class(c: char, cls: CharClass) -> bool {
    match cls {
        CharClass::Space => c == ' ' || c == '\t' || c == '\n' || c == '\r',
        CharClass::Key => is_alnum(c) || c == '-' || c == '_' || c == '.' || c == '/',
        CharClass::Value => is_alnum(c) || c == '-' || c == '_' || c == '.',
    }
}

/// The length of the longest prefix of `s` whose characters are in `cls`.
pub open spec fn run_len(s: Seq<char>, cls: CharClass) -> nat
    decreases s.len(),
{
    if s.len() > 0 && in_class(s[0], cls) {
        1 + run_len(s.drop_first(), cls)
    } else {
        0
    }
}

/// `s` without its leading blanks.
pub open spec fn skip_ws(s: Seq<char>) -> Seq<char> {
    s.skip(run_len(s, CharClass::Space) as int)
}

pub proof fn lemma_run_len_bound(s: Seq<char>, cls: CharClass)
    ensures
        run_len(s, cls) <= s.len(),
    decreases s.len(),
{
    if s.len() > 0 && in_class(s[0], cls) {
        lemma_run_len_bound(s.drop_first(), cls);
    }
}

/// Whether a word of length `n` at the start of `u` ends there: at the end
/// of the text, before a blank or before `(`.
pub open spec fn word_ends(u: Seq<char>, n: int) -> bool {
    u.len() == n || (u.len() > n && (in_class(u[n], CharClass::Space) || u[n] == '('))
}

/// `( v1, v2, ... )` after the opening parenthesis: the values and the text
/// after the closing parenthesis.
pub open spec fn parse_value_list(s: Seq<char>) -> Option<(Seq<Seq<char>>, Seq<char>)>
    decreases s.len(),
{
    let t = skip_ws(s);
    let n = run_len(t, CharClass::Value);
    let u = skip_ws(t.skip(n as int));
    proof {
        lemma_run_len_bound(s, CharClass::Space);
        lemma_run_len_bound(t, CharClass::Value);
        lemma_run_len_bound(t.skip(n as int), CharClass::Space);
    }
    if u.len() == 0 {
        None
    } else if u[0] == ')' {
        Some((seq![t.take(n as int)], u.drop_first()))
    } else if u[0] == ',' {
        match parse_value_list(u.drop_first()) {
            Some((vs, rest)) => Some((seq![t.take(n as int)] + vs, rest)),
            None => None,
        }
    } else {
        None
    }
}

/// A set-based requirement after its operator: `(values)`.
pub open spec fn parse_set(key: Seq<char>, negated: bool, s: Seq<char>) -> Option<(ExpressionView, Seq<char>)> {
    let w = skip_ws(s);
    if w.len() > 0 && w[0] == '(' {
        match parse_value_list(w.drop_first()) {
            Some((vs, rest)) => if negated {
                Some((ExpressionView::NotIn(key, vs), rest))
            } else {
                Some((ExpressionView::In(key, vs), rest))
            },
            None => None,
        }
    } else {
        None
    }
}

/// An equality-based requirement after its operator: the value.
pub open spec fn parse_exact(key: Seq<char>, negated: bool, s: Seq<char>) -> (ExpressionView, Seq<char>) {
    let w = skip_ws(s);
    let m = run_len(w, CharClass::Value);
    let value = w.take(m as int);
    if negated {
        (ExpressionView::NotEqual(key, value), w.skip(m as int))
    } else {
        (ExpressionView::Equal(key, value), w.skip(m as int))
    }
}

/// One requirement at the start of `s`, and the text after it:
/// `!key`, `key`, `key=value`, `key==value`, `key!=value`,
/// `key in (values)` or `key notin (values)`.
pub open spec fn parse_requirement(s: Seq<char>) -> Option<(ExpressionView, Seq<char>)> {
    let t = skip_ws(s);
    if t.len() > 0 && t[0] == '!' {
        let u = skip_ws(t.drop_first());
        let n = run_len(u, CharClass::Key);
        if n == 0 {
            None
        } else {
            Some((ExpressionView::DoesNotExist(u.take(n as int)), u.skip(n as int)))
        }
    } else {
        let n = run_len(t, CharClass::Key);
        if n == 0 {
            None
        } else {
            let key = t.take(n as int);
            let u = skip_ws(t.skip(n as int));
            if seq!['!', '='].is_prefix_of(u) {
                Some(parse_exact(key, true, u.skip(2)))
            } else if seq!['=', '='].is_prefix_of(u) {
                Some(parse_exact(key, false, u.skip(2)))
            } else if seq!['='].is_prefix_of(u) {
                Some(parse_exact(key, false, u.skip(1)))
            } else if seq!['n', 'o', 't', 'i', 'n'].is_prefix_of(u) && word_ends(u, 5) {
                parse_set(key, true, u.skip(5))
            } else if seq!['i', 'n'].is_prefix_of(u) && word_ends(u, 2) {
                parse_set(key, false, u.skip(2))
            } else {
                Some((ExpressionView::Exists(key), u))
            }
        }
    }
}

pub proof fn lemma_value_list_rest(s: Seq<char>)
    ensures
        parse_value_list(s) matches Some((_, rest)) ==> rest.len() < s.len(),
    decreases s.len(),
{
    let t = skip_ws(s);
    let n = run_len(t, CharClass::Value);
    let u = skip_ws(t.skip(n as int));
    lemma_run_len_bound(s, CharClass::Space);
    lemma_run_len_bound(t, CharClass::Value);
    lemma_run_len_bound(t.skip(n as int), CharClass::Space);
    if u.len() > 0 && u[0] == ',' {
        lemma_value_list_rest(u.drop_first());
    }
}

pub proof fn lemma_requirement_rest(s: Seq<char>)
    ensures
        parse_requirement(s) matches Some((_, rest)) ==> rest.len() < s.len(),
{
    let t = skip_ws(s);
    lemma_run_len_bound(s, CharClass::Space);
    if t.len() > 0 && t[0] == '!' {
        let u = skip_ws(t.drop_first());
        lemma_run_len_bound(t.drop_first(), CharClass::Space);
        lemma_run_len_bound(u, CharClass::Key);
    } else {
        let n = run_len(t, CharClass::Key);
        lemma_run_len_bound(t, CharClass::Key);
        if n > 0 {
            let u = skip_ws(t.skip(n as int));
            lemma_run_len_bound(t.skip(n as int), CharClass::Space);
            if u.len() >= 2 {
                let w = skip_ws(u.skip(2));
                lemma_run_len_bound(u.skip(2), CharClass::Space);
                lemma_run_len_bound(w, CharClass::Value);
            }
            if u.len() >= 1 {
                let w = skip_ws(u.skip(1));
                lemma_run_len_bound(u.skip(1), CharClass::Space);
                lemma_run_len_bound(w, CharClass::Value);
            }
            if u.len() >= 5 {
                let w = skip_ws(u.skip(5));
                lemma_run_len_bound(u.skip(5), CharClass::Space);
                if w.len() > 0 {
                    lemma_value_list_rest(w.drop_first());
                }
            }
            if u.len() >= 2 {
                let w = skip_ws(u.skip(2));
                if w.len() > 0 {
                    lemma_value_list_rest(w.drop_first());
                }
            }
        }
    }
}

/// Requirements separated by commas, up to the end of `s`.
pub open spec fn parse_requirements(s: Seq<char>) -> Option<Seq<ExpressionView>>
    decreases s.len(),
{
    match parse_requirement(s) {
        None => None,
        Some((e, rest)) => {
            let u = skip_ws(rest);
            proof {
                lemma_requirement_rest(s);
                lemma_run_len_bound(rest, CharClass::Space);
            }
            if u.len() == 0 {
                Some(seq![e])
            } else if u[0] == ',' {
                match parse_requirements(u.drop_first()) {
                    Some(es) => Some(seq![e] + es),
                    None => None,
                }
            } else {
                None
            }
        },
    }
}

/// The requirements that a selector text states; a blank text states none,
/// and selects everything.
pub open spec fn parse_selector(s: Seq<char>) -> Option<Seq<ExpressionView>> {
    if skip_ws(s).len() == 0 {
        Some(Seq::empty())
    } else {
        parse_requirements(s)
    }
}


fn char_in_class(c: char, cls: CharClass) -> (b: bool)
    ensures
        b == in_class(c, cls),
{
    let alnum = ('a' <= c && c <= 'z') || ('A' <= c && c <= 'Z') || ('0' <= c && c <= '9');
    match cls {
        CharClass::Space => c == ' ' || c == '\t' || c == '\n' || c == '\r',
        CharClass::Key => alnum || c == '-' || c == '_' || c == '.' || c == '/',
        CharClass::Value => alnum || c == '-' || c == '_' || c == '.',
    }
}

/// The end of the run of `cls` characters that starts at `i`.
fn run_end(c: &Vec<char>, i: usize, cls: CharClass) -> (j: usize)
    requires
        i <= c.len(),
    ensures
        i <= j <= c.len(),
        j - i == run_len(c@.skip(i as int), cls),
        c@.skip(j as int) == c@.skip(i as int).skip(j - i),
{
    let mut j = i;
    assert(c@.skip(i as int).skip(0) =~= c@.skip(i as int));
    while j < c.len() && char_in_class(c[j], cls)
        invariant
            i <= j <= c.len(),
            run_len(c@.skip(i as int), cls) == (j - i) + run_len(c@.skip(j as int), cls),
        decreases c.len() - j,
    {
        assert(c@.skip(j as int).drop_first() =~= c@.skip(j + 1));
        j = j + 1;
    }
    if j < c.len() {
        assert(c@.skip(j as int)[0] == c@[j as int]);
    }
    assert(c@.skip(j as int) =~= c@.skip(i as int).skip(j - i));
    j
}

/// The characters `c[a..b]` as a string.
fn string_of(c: &Vec<char>, a: usize, b: usize) -> (s: String)
    requires
        a <= b <= c.len(),
    ensures
        s@ == c@.subrange(a as int, b as int),
{
    let mut v: Vec<char> = Vec::new();
    let mut k = a;
    while k < b
        invariant
            a <= k <= b,
            b <= c.len(),
            v@ == c@.subrange(a as int, k as int),
        decreases b - k,
    {
        v.push(c[k]);
        k = k + 1;
        assert(v@ =~= c@.subrange(a as int, k as int));
    }
    string_from_chars(&v)
}

/// `parse_value_list` on the text from position `i`.
fn value_list_at(c: &Vec<char>, i: usize) -> (res: Option<(Vec<String>, usize)>)
    requires
        i <= c.len(),
    ensures
        match res {
            Some((vs, j)) => j <= c.len() && parse_value_list(c@.skip(i as int)) == Some(
                (string_views(vs@), c@.skip(j as int)),
            ),
            None => parse_value_list(c@.skip(i as int)) is None,
        },
    decreases c.len() - i,
{
    let t = run_end(c, i, CharClass::Space);
    let v_end = run_end(c, t, CharClass::Value);
    let u = run_end(c, v_end, CharClass::Space);
    let ghost ts = c@.skip(t as int);
    proof {
        assert(ts.take((v_end - t) as int) =~= c@.subrange(t as int, v_end as int));
    }
    if u == c.len() {
        None
    } else if c[u] == ')' {
        let v = string_of(c, t, v_end);
        assert(c@.skip(u as int).drop_first() =~= c@.skip(u + 1));
        let mut vs: Vec<String> = Vec::new();
        vs.push(v);
        assert(string_views(vs@) =~= seq![v@]);
        Some((vs, u + 1))
    } else if c[u] == ',' {
        assert(c@.skip(u as int).drop_first() =~= c@.skip(u + 1));
        match value_list_at(c, u + 1) {
            Some((mut vs, j)) => {
                let v = string_of(c, t, v_end);
                let ghost tail = string_views(vs@);
                vs.insert(0, v);
                assert(string_views(vs@) =~= seq![v@] + tail);
                Some((vs, j))
            },
            None => None,
        }
    } else {
        None
    }
}

/// `parse_set` on the text from position `i`.
fn set_at(c: &Vec<char>, key: String, negated: bool, i: usize) -> (res: Option<(Expression, usize)>)
    requires
        i <= c.len(),
    ensures
        match res {
            Some((e, j)) => j <= c.len() && parse_set(key@, negated, c@.skip(i as int)) == Some(
                (e@, c@.skip(j as int)),
            ),
            None => parse_set(key@, negated, c@.skip(i as int)) is None,
        },
{
    let w = run_end(c, i, CharClass::Space);
    if w < c.len() && c[w] == '(' {
        assert(c@.skip(w as int).drop_first() =~= c@.skip(w + 1));
        match value_list_at(c, w + 1) {
            Some((vs, j)) => if negated {
                Some((Expression::NotIn(key, vs), j))
            } else {
                Some((Expression::In(key, vs), j))
            },
            None => None,
        }
    } else {
        None
    }
}

/// `parse_exact` on the text from position `i`.
fn exact_at(c: &Vec<char>, key: String, negated: bool, i: usize) -> (res: (Expression, usize))
    requires
        i <= c.len(),
    ensures
        res.1 <= c.len(),
        parse_exact(key@, negated, c@.skip(i as int)) == (res.0@, c@.skip(res.1 as int)),
{
    let w = run_end(c, i, CharClass::Space);
    let m = run_end(c, w, CharClass::Value);
    let value = string_of(c, w, m);
    assert(c@.skip(w as int).take((m - w) as int) =~= c@.subrange(w as int, m as int));
    if negated {
        (Expression::NotEqual(key, value), m)
    } else {
        (Expression::Equal(key, value), m)
    }
}

/// Whether a word of length `n` at position `u` ends there.
fn word_ends_at(c: &Vec<char>, u: usize, n: usize) -> (b: bool)
    requires
        u <= c.len(),
    ensures
        b == word_ends(c@.skip(u as int), n as int),
{
    if n == c.len() - u {
        true
    } else if n < c.len() - u {
        assert(c@.skip(u as int)[n as int] == c@[u + n]);
        char_in_class(c[u + n], CharClass::Space) || c[u + n] == '('
    } else {
        false
    }
}

/// `parse_requirement` on the text from position `i`.
fn requirement_at(c: &Vec<char>, i: usize) -> (res: Option<(Expression, usize)>)
    requires
        i <= c.len(),
    ensures
        match res {
            Some((e, j)) => j <= c.len() && parse_requirement(c@.skip(i as int)) == Some(
                (e@, c@.skip(j as int)),
            ),
            None => parse_requirement(c@.skip(i as int)) is None,
        },
{
    let t = run_end(c, i, CharClass::Space);
    if t < c.len() && c[t] == '!' {
        assert(c@.skip(t as int).drop_first() =~= c@.skip(t + 1));
        let u = run_end(c, t + 1, CharClass::Space);
        let n = run_end(c, u, CharClass::Key);
        if n == u {
            None
        } else {
            let key = string_of(c, u, n);
            assert(c@.skip(u as int).take((n - u) as int) =~= c@.subrange(u as int, n as int));
            Some((Expression::DoesNotExist(key), n))
        }
    } else {
        let n = run_end(c, t, CharClass::Key);
        if n == t {
            None
        } else {
            let key = string_of(c, t, n);
            assert(c@.skip(t as int).take((n - t) as int) =~= c@.subrange(t as int, n as int));
            let u = run_end(c, n, CharClass::Space);
            let ghost us = c@.skip(u as int);
            if starts_with_at(c, u, &vec!['!', '=']) {
                assert(us.skip(2) =~= c@.skip(u + 2));
                Some(exact_at(c, key, true, u + 2))
            } else if starts_with_at(c, u, &vec!['=', '=']) {
                assert(us.skip(2) =~= c@.skip(u + 2));
                Some(exact_at(c, key, false, u + 2))
            } else if starts_with_at(c, u, &vec!['=']) {
                assert(us.skip(1) =~= c@.skip(u + 1));
                Some(exact_at(c, key, false, u + 1))
            } else if starts_with_at(c, u, &vec!['n', 'o', 't', 'i', 'n']) && word_ends_at(c, u, 5) {
                assert(us.skip(5) =~= c@.skip(u + 5));
                set_at(c, key, true, u + 5)
            } else if starts_with_at(c, u, &vec!['i', 'n']) && word_ends_at(c, u, 2) {
                assert(us.skip(2) =~= c@.skip(u + 2));
                set_at(c, key, false, u + 2)
            } else {
                Some((Expression::Exists(key), u))
            }
        }
    }
}

/// `parse_requirements` on the text from position `i`.
fn requirements_at(c: &Vec<char>, i: usize) -> (res: Option<Vec<Expression>>)
    requires
        i <= c.len(),
    ensures
        match res {
            Some(es) => parse_requirements(c@.skip(i as int)) == Some(expression_views(es@)),
            None => parse_requirements(c@.skip(i as int)) is None,
        },
    decreases c.len() - i,
{
    proof {
        lemma_requirement_rest(c@.skip(i as int));
    }
    match requirement_at(c, i) {
        None => None,
        Some((e, j)) => {
            let u = run_end(c, j, CharClass::Space);
            if u == c.len() {
                let mut es: Vec<Expression> = Vec::new();
                es.push(e);
                assert(expression_views(es@) =~= seq![es@[0]@]);
                Some(es)
            } else if c[u] == ',' {
                assert(c@.skip(u as int).drop_first() =~= c@.skip(u + 1));
                match requirements_at(c, u + 1) {
                    Some(mut es) => {
                        let ghost tail = expression_views(es@);
                        let ghost ev = e@;
                        es.insert(0, e);
                        assert(expression_views(es@) =~= seq![ev] + tail);
                        Some(es)
                    },
                    None => None,
                }
            } else {
                None
            }
        },
    }
}

/// The requirements that a selector text states, or `None` when it is not a
/// selector.
pub fn parse_expressions(s: &str) -> (res: Option<Vec<Expression>>)
    ensures
        match res {
            Some(es) => parse_selector(s@) == Some(expression_views(es@)),
            None => parse_selector(s@) is None,
        },
{
    let c = chars_of(s);
    assert(c@.skip(0) =~= c@);
    let t = run_end(&c, 0, CharClass::Space);
    if t == c.len() {
        let es: Vec<Expression> = Vec::new();
        assert(expression_views(es@) =~= Seq::<ExpressionView>::empty());
        Some(es)
    } else {
        requirements_at(&c, 0)
    }
}


/// Law: a selector holds exactly when each of its requirements holds: the
/// requirements of two selectors joined hold when both selectors hold, a
/// one-requirement selector is that requirement, and no requirement always
/// holds.
pub proof fn law_selector_is_conjunction(
    es: Seq<ExpressionView>,
    fs: Seq<ExpressionView>,
    e: ExpressionView,
    labels: Seq<(Seq<char>, Seq<char>)>,
)
    ensures
        all_match(es + fs, labels) == (all_match(es, labels) && all_match(fs, labels)),
        all_match(seq![e], labels) == e.matches(labels),
        all_match(Seq::empty(), labels),
{
    let j = es + fs;
    if all_match(j, labels) {
        assert forall|i: int| 0 <= i < es.len() implies #[trigger] es[i].matches(labels) by {
            assert(j[i] == es[i]);
        }
        assert forall|i: int| 0 <= i < fs.len() implies #[trigger] fs[i].matches(labels) by {
            assert(j[es.len() + i] == fs[i]);
        }
    }
    if all_match(es, labels) && all_match(fs, labels) {
        assert forall|i: int| 0 <= i < j.len() implies #[trigger] j[i].matches(labels) by {
            if i < es.len() {
                assert(j[i] == es[i]);
            } else {
                assert(j[i] == fs[i - es.len()]);
            }
        }
    }
    if e.matches(labels) {
        assert forall|i: int| 0 <= i < 1 implies #[trigger] seq![e][i].matches(labels) by {
            assert(seq![e][i] == e);
        }
    }
    if all_match(seq![e], labels) {
        assert(seq![e][0].matches(labels));
    }
}

/// Law: each negated requirement holds exactly when its positive form does
/// not.
pub proof fn law_negated_requirements(
    key: Seq<char>,
    value: Seq<char>,
    values: Seq<Seq<char>>,
    labels: Seq<(Seq<char>, Seq<char>)>,
)
    ensures
        ExpressionView::NotIn(key, values).matches(labels) == !ExpressionView::In(key, values).matches(labels),
        ExpressionView::NotEqual(key, value).matches(labels) == !ExpressionView::Equal(key, value).matches(labels),
        ExpressionView::DoesNotExist(key).matches(labels) == !ExpressionView::Exists(key).matches(labels),
{
}

/// Law: the value found for a key is that of the first pair with the key,
/// and none is found exactly when no pair has the key.
pub proof fn law_lookup_finds_first_pair(labels: Seq<(Seq<char>, Seq<char>)>, key: Seq<char>)
    ensures
        lookup(labels, key) is None <==> (forall|i: int| 0 <= i < labels.len() ==> #[trigger] labels[i].0 != key),
        lookup(labels, key) matches Some(v) ==> exists|i: int|
            0 <= i < labels.len() && #[trigger] labels[i] == (key, v) && (forall|j: int| 0 <= j < i ==> #[trigger] labels[j].0 != key),
    decreases labels.len(),
{
    if labels.len() > 0 {
        let rest = labels.drop_first();
        law_lookup_finds_first_pair(rest, key);
        assert forall|i: int| 0 <= i < rest.len() implies rest[i] == labels[i + 1] by {}
        if labels[0].0 == key {
            assert(labels[0] == (key, labels[0].1));
        } else {
            if lookup(rest, key) is None {
                assert forall|i: int| 0 <= i < labels.len() implies #[trigger] labels[i].0 != key by {
                    if i > 0 {
                        assert(labels[i] == rest[i - 1]);
                    }
                }
            } else {
                let v = lookup(rest, key)->0;
                let i = choose|i: int|
                    0 <= i < rest.len() && #[trigger] rest[i] == (key, v) && (forall|j: int| 0 <= j < i ==> #[trigger] rest[j].0 != key);
                assert(labels[i + 1] == (key, v));
                assert forall|j: int| 0 <= j < i + 1 implies #[trigger] labels[j].0 != key by {
                    if j > 0 {
                        assert(labels[j] == rest[j - 1]);
                    }
                }
                assert(rest[i].0 == key);
            }
        }
    }
}

/// A character that a Kubernetes label value may hold: an ASCII letter or
/// digit, `-`, `_` or `.`.
pub open spec fn is_label_char(c: char) -> bool {
    ('a' <= c && c <= 'z') || ('A' <= c && c <= 'Z') || ('0' <= c && c <= '9') || c == '-' || c
        == '_' || c == '.'
}

/// A text made of label characters only.
pub open spec fn is_label_text(s: Seq<char>) -> bool {
    forall|i: int| 0 <= i < s.len() ==> is_label_char(#[trigger] s[i])
}

/// Law: label characters are key and value characters, and keys may also
/// hold `/`; none of them is a blank.
pub proof fn law_label_chars_are_key_and_value_chars(c: char)
    ensures
        is_label_char(c) ==> in_class(c, CharClass::Key) && in_class(c, CharClass::Value) && !in_class(
            c,
            CharClass::Space,
        ),
        in_class('/', CharClass::Key),
{
}

proof fn lemma_run_len_exact(s: Seq<char>, n: int, cls: CharClass)
    requires
        0 <= n <= s.len(),
        forall|i: int| 0 <= i < n ==> in_class(#[trigger] s[i], cls),
        n == s.len() || !in_class(s[n], cls),
    ensures
        run_len(s, cls) == n,
    decreases n,
{
    if n > 0 {
        let t = s.drop_first();
        assert forall|i: int| 0 <= i < n - 1 implies in_class(#[trigger] t[i], cls) by {
            assert(t[i] == s[i + 1]);
        }
        if n < s.len() {
            assert(t[n - 1] == s[n]);
        }
        lemma_run_len_exact(t, n - 1, cls);
    }
}

proof fn lemma_skip_ws_noop(s: Seq<char>)
    requires
        s.len() == 0 || !in_class(s[0], CharClass::Space),
    ensures
        skip_ws(s) == s,
{
    lemma_run_len_exact(s, 0, CharClass::Space);
    assert(s.skip(0) =~= s);
}

proof fn lemma_label_run(v: Seq<char>, after: Seq<char>, cls: CharClass)
    requires
        is_label_text(v),
        after.len() == 0 || !in_class(after[0], cls),
        cls != CharClass::Space,
    ensures
        run_len(v + after, cls) == v.len(),
{
    let s = v + after;
    assert forall|i: int| 0 <= i < v.len() implies in_class(#[trigger] s[i], cls) by {
        assert(s[i] == v[i]);
        law_label_chars_are_key_and_value_chars(v[i]);
    }
    if after.len() > 0 {
        assert(s[v.len() as int] == after[0]);
    }
    lemma_run_len_exact(s, v.len() as int, cls);
}

/// The exact-match requirement at the start of `u`, the text after its key.
proof fn lemma_exact_tail(key: Seq<char>, op_len: int, u: Seq<char>, value: Seq<char>, negated: bool)
    requires
        0 <= op_len <= u.len(),
        u.skip(op_len) == value,
        is_label_text(value),
    ensures
        parse_exact(key, negated, u.skip(op_len)) == (if negated {
            (ExpressionView::NotEqual(key, value), Seq::<char>::empty())
        } else {
            (ExpressionView::Equal(key, value), Seq::<char>::empty())
        }),
{
    if value.len() > 0 {
        law_label_chars_are_key_and_value_chars(value[0]);
    }
    lemma_skip_ws_noop(value);
    lemma_label_run(value, Seq::empty(), CharClass::Value);
    assert(value + Seq::<char>::empty() =~= value);
    assert(value.take(value.len() as int) =~= value);
    assert(value.skip(value.len() as int) =~= Seq::<char>::empty());
}

/// After one requirement that ends the text, the selector is that requirement.
proof fn lemma_single_requirement(s: Seq<char>, e: ExpressionView)
    requires
        parse_requirement(s) == Some((e, Seq::<char>::empty())),
        skip_ws(s).len() > 0,
    ensures
        parse_selector(s) == Some(seq![e]),
{
    lemma_skip_ws_noop(Seq::<char>::empty());
}

/// Law: `key=value` and `key!=value`, with a non-empty key and a value made
/// of label characters (keys may also hold `/`), read as the one equality
/// or inequality requirement; a lone key reads as a presence requirement.
pub proof fn law_exact_match_syntax(key: Seq<char>, value: Seq<char>)
    requires
        key.len() > 0,
        forall|i: int| 0 <= i < key.len() ==> is_label_char(#[trigger] key[i]) || key[i] == '/',
        is_label_text(value),
    ensures
        parse_selector(key + seq!['='] + value) == Some(seq![ExpressionView::Equal(key, value)]),
        parse_selector(key + seq!['!', '='] + value) == Some(seq![ExpressionView::NotEqual(key, value)]),
        parse_selector(key) == Some(seq![ExpressionView::Exists(key)]),
{
    assert forall|i: int| 0 <= i < key.len() implies in_class(#[trigger] key[i], CharClass::Key) && !in_class(key[i], CharClass::Space) && key[i] != '!' by {
        law_label_chars_are_key_and_value_chars(key[i]);
    }
    let n = key.len() as int;
    // key=value
    {
        let tail = seq!['='] + value;
        let s = key + tail;
        assert(s =~= key + seq!['='] + value);
        assert(s[0] == key[0]);
        lemma_skip_ws_noop(s);
        assert forall|i: int| 0 <= i < n implies in_class(#[trigger] s[i], CharClass::Key) by {
            assert(s[i] == key[i]);
        }
        assert(s[n] == '=');
        lemma_run_len_exact(s, n, CharClass::Key);
        assert(s.take(n) =~= key);
        assert(s.skip(n) =~= tail);
        lemma_skip_ws_noop(tail);
        assert(!seq!['!', '='].is_prefix_of(tail));
        if value.len() > 0 {
            law_label_chars_are_key_and_value_chars(value[0]);
            assert(tail[1] == value[0]);
        }
        assert(!seq!['=', '='].is_prefix_of(tail));
        assert(seq!['='].is_prefix_of(tail)) by {
            assert(seq!['='] =~= tail.subrange(0, 1));
        }
        assert(tail.skip(1) =~= value);
        lemma_exact_tail(key, 1, tail, value, false);
        lemma_single_requirement(s, ExpressionView::Equal(key, value));
    }
    // key!=value
    {
        let tail = seq!['!', '='] + value;
        let s = key + tail;
        assert(s =~= key + seq!['!', '='] + value);
        assert(s[0] == key[0]);
        lemma_skip_ws_noop(s);
        assert forall|i: int| 0 <= i < n implies in_class(#[trigger] s[i], CharClass::Key) by {
            assert(s[i] == key[i]);
        }
        assert(s[n] == '!');
        lemma_run_len_exact(s, n, CharClass::Key);
        assert(s.take(n) =~= key);
        assert(s.skip(n) =~= tail);
        lemma_skip_ws_noop(tail);
        assert(seq!['!', '='].is_prefix_of(tail)) by {
            assert(seq!['!', '='] =~= tail.subrange(0, 2));
        }
        assert(tail.skip(2) =~= value);
        lemma_exact_tail(key, 2, tail, value, true);
        lemma_single_requirement(s, ExpressionView::NotEqual(key, value));
    }
    // key
    {
        lemma_skip_ws_noop(key);
        lemma_run_len_exact(key, n, CharClass::Key);
        assert(key.take(n) =~= key);
        assert(key.skip(n) =~= Seq::<char>::empty());
        lemma_skip_ws_noop(Seq::<char>::empty());
        lemma_single_requirement(key, ExpressionView::Exists(key));
    }
}

} // verus!
