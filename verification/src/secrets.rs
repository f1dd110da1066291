//! Secret values and their removal from collected representations.
use crate::text::{
    lemma_replace_absent_is_identity, lemma_replace_creates_no_occurrence,
    lemma_replace_removes_pattern, lines, occurs_at, occurs_in, replace, replace_all,
    shares_no_char, string_views, text_lines,
};
use vstd::prelude::*;

verus! {

#[verifier::external_type_specification]
#[verifier::external_body]
pub struct ExPathBuf(std::path::PathBuf);

/// The text that stands in place of a secret.
pub open spec fn mask() -> Seq<char> {
    seq!['x', 'x', 'x']
}

/// A collected object as it is written out: its serialized data.
#[derive(Clone, Debug, Default)]
pub struct Representation {
    data: String,
}

impl View for Representation {
    type V = Seq<char>;

    /// The representation's data.
    closed spec fn view(&self) -> Seq<char> {
        self.data@
    }
}

impl Representation {
    /// An empty representation.
    pub fn new() -> (r: Representation)
        ensures
            r@ == Seq::<char>::empty(),
    {
        Representation { data: String::new() }
    }

    /// The same representation with `data` as its data.
    pub fn with_data(self, data: &str) -> (r: Representation)
        ensures
            r@ == data@,
    {
        Representation { data: data.to_string() }
    }

    /// The data of the representation.
    pub fn data(&self) -> (d: &str)
        ensures
            d@ == self@,
    {
        self.data.as_str()
    }
}

/// Secret values that must not appear in collected artifacts.
#[derive(Clone, Debug, Default)]
pub struct Secrets(pub Vec<String>);

/// A file that lists one secret value per line.
#[derive(Default)]
pub struct SecretsFile(pub std::path::PathBuf);

impl View for Secrets {
    type V = Seq<Seq<char>>;

    open spec fn view(&self) -> Seq<Seq<char>> {
        string_views(self.0@)
    }
}

/// The data left after replacing the occurrences of each secret in turn, in
/// list order, by the mask.
pub open spec fn strip_all(data: Seq<char>, secrets: Seq<Seq<char>>) -> Seq<char>
    decreases secrets.len(),
{
    if secrets.len() == 0 {
        data
    } else {
        replace_all(strip_all(data, secrets.drop_last()), secrets.last(), mask())
    }
}

/// The non-empty values of `values`, in order.
pub open spec fn non_empty(values: Seq<Seq<char>>) -> Seq<Seq<char>>
    decreases values.len(),
{
    if values.len() == 0 {
        values
    } else if values.last().len() == 0 {
        non_empty(values.drop_last())
    } else {
        non_empty(values.drop_last()).push(values.last())
    }
}

impl Secrets {
    /// Replaces any secrets in representation data with xxx.
    pub fn strip(&self, repr: &Representation) -> (res: Representation)
        ensures
            res@ == strip_all(repr@, self@),
    {
        let mut data = repr.data().to_string();
        let mut i: usize = 0;
        proof {
            reveal_strlit("xxx");
            assert(self@.take(0) =~= Seq::<Seq<char>>::empty());
        }
        while i < self.0.len()
            invariant
                i <= self.0.len(),
                data@ == strip_all(repr@, self@.take(i as int)),
                "xxx"@ == mask(),
            decreases self.0.len() - i,
        {
            data = replace(data.as_str(), self.0[i].as_str(), "xxx");
            proof {
                assert(self@.take(i + 1).drop_last() =~= self@.take(i as int));
                assert(self@.take(i + 1).last() == self.0@[i as int]@);
            }
            i = i + 1;
        }
        proof {
            assert(self@.take(i as int) =~= self@);
        }
        repr.clone().with_data(data.as_str())
    }

    /// The secrets among already looked-up values: the empty values (unset
    /// variables) are left out, the others keep their order.
    pub fn from_values(values: Vec<String>) -> (res: Secrets)
        ensures
            res@ == non_empty(string_views(values@)),
    {
        let mut kept: Vec<String> = Vec::new();
        let mut i: usize = 0;
        proof {
            assert(string_views(values@).take(0) =~= Seq::<Seq<char>>::empty());
            assert(string_views(kept@) =~= Seq::<Seq<char>>::empty());
        }
        while i < values.len()
            invariant
                i <= values.len(),
                string_views(kept@) == non_empty(string_views(values@).take(i as int)),
            decreases values.len() - i,
        {
            let ghost prefix = string_views(values@).take(i + 1);
            proof {
                assert(prefix.drop_last() =~= string_views(values@).take(i as int));
                assert(prefix.last() == values@[i as int]@);
            }
            let value = &values[i];
            if value.as_str().unicode_len() > 0 {
                let ghost before = string_views(kept@);
                kept.push(value.clone());
                assert(string_views(kept@) =~= before.push(values@[i as int]@));
            }
            i = i + 1;
        }
        proof {
            assert(string_views(values@).take(i as int) =~= string_views(values@));
        }
        Secrets(kept)
    }

    /// The secrets listed in the contents of a secrets file, one per line.
    pub fn from_file_contents(contents: &str) -> (res: Secrets)
        ensures
            res@ == text_lines(contents@),
    {
        Secrets(lines(contents))
    }
}


/// Law: after stripping, no secret occurs in the data any more, provided
/// every secret is non-empty and holds no character of the mask.
pub proof fn law_strip_leaves_no_secret(data: Seq<char>, secrets: Seq<Seq<char>>)
    requires
        forall|k: int|
            0 <= k < secrets.len() ==> #[trigger] secrets[k].len() > 0 && shares_no_char(
                secrets[k],
                mask(),
            ),
    ensures
        forall|k: int, i: int|
            0 <= k < secrets.len() ==> !#[trigger] occurs_at(strip_all(data, secrets), secrets[k], i),
    decreases secrets.len(),
{
    if secrets.len() > 0 {
        let init = secrets.drop_last();
        let last = secrets.last();
        let before = strip_all(data, init);
        assert forall|k: int| 0 <= k < init.len() implies #[trigger] init[k].len() > 0
            && shares_no_char(init[k], mask()) by {
            assert(init[k] == secrets[k]);
        }
        law_strip_leaves_no_secret(data, init);
        assert(secrets[secrets.len() - 1] == last);
        assert forall|k: int, i: int| 0 <= k < secrets.len() implies !#[trigger] occurs_at(
            strip_all(data, secrets),
            secrets[k],
            i,
        ) by {
            if k == secrets.len() - 1 {
                lemma_replace_removes_pattern(before, last, mask(), i);
            } else {
                assert(secrets[k] == init[k]);
                if occurs_at(replace_all(before, last, mask()), secrets[k], i) {
                    lemma_replace_creates_no_occurrence(before, last, mask(), secrets[k], i);
                    let j = choose|j: int| occurs_at(before, secrets[k], j);
                    assert(!occurs_at(before, init[k], j));
                }
            }
        }
    }
}

/// Law: stripping secrets none of which occurs in the data leaves the data
/// as it is.
pub proof fn law_strip_absent_secrets_is_identity(data: Seq<char>, secrets: Seq<Seq<char>>)
    requires
        forall|k: int|
            0 <= k < secrets.len() ==> #[trigger] secrets[k].len() > 0 && !occurs_in(
                data,
                secrets[k],
            ),
    ensures
        strip_all(data, secrets) == data,
    decreases secrets.len(),
{
    if secrets.len() > 0 {
        let init = secrets.drop_last();
        assert forall|k: int| 0 <= k < init.len() implies #[trigger] init[k].len() > 0
            && !occurs_in(data, init[k]) by {
            assert(init[k] == secrets[k]);
        }
        law_strip_absent_secrets_is_identity(data, init);
        assert(secrets[secrets.len() - 1] == secrets.last());
        lemma_replace_absent_is_identity(data, secrets.last(), mask());
    }
}


/// Law: stripping twice is stripping once, for secrets that are non-empty
/// and hold no character of the mask.
pub proof fn law_strip_idempotent(data: Seq<char>, secrets: Seq<Seq<char>>)
    requires
        forall|k: int|
            0 <= k < secrets.len() ==> #[trigger] secrets[k].len() > 0 && shares_no_char(
                secrets[k],
                mask(),
            ),
    ensures
        strip_all(strip_all(data, secrets), secrets) == strip_all(data, secrets),
{
    let once = strip_all(data, secrets);
    law_strip_leaves_no_secret(data, secrets);
    assert forall|k: int| 0 <= k < secrets.len() implies #[trigger] secrets[k].len() > 0
        && !occurs_in(once, secrets[k]) by {
        if occurs_in(once, secrets[k]) {
            let i = choose|i: int| occurs_at(once, secrets[k], i);
            assert(!occurs_at(once, secrets[k], i));
        }
    }
    law_strip_absent_secrets_is_identity(once, secrets);
}


/// Law: each secret in the list is masked in the data left by the secrets
/// before it, whatever those secrets hold.
pub proof fn law_strip_masks_each_secret_in_turn(data: Seq<char>, secrets: Seq<Seq<char>>, next: Seq<char>)
    ensures
        strip_all(data, secrets.push(next)) == replace_all(strip_all(data, secrets), next, mask()),
        strip_all(data, Seq::empty()) == data,
{
    assert(secrets.push(next).drop_last() =~= secrets);
    assert(secrets.push(next).last() == next);
}

/// Law: a non-empty secret that holds no character of the mask does not
/// occur in the stripped data, whatever the other secrets of the list hold.
pub proof fn law_strip_hides_each_plain_secret(data: Seq<char>, secrets: Seq<Seq<char>>, k: int)
    requires
        0 <= k < secrets.len(),
        secrets[k].len() > 0,
        shares_no_char(secrets[k], mask()),
    ensures
        !occurs_in(strip_all(data, secrets), secrets[k]),
    decreases secrets.len(),
{
    let init = secrets.drop_last();
    let last = secrets.last();
    let before = strip_all(data, init);
    let p = secrets[k];
    if occurs_in(strip_all(data, secrets), p) {
        let i = choose|i: int| occurs_at(strip_all(data, secrets), p, i);
        assert(strip_all(data, secrets) == replace_all(before, last, mask()));
        if k == secrets.len() - 1 {
            lemma_replace_removes_pattern(before, p, mask(), i);
        } else {
            assert(init[k] == p);
            law_strip_hides_each_plain_secret(data, init, k);
            lemma_replace_creates_no_occurrence(before, last, mask(), p, i);
        }
    }
}

/// Law: the secrets kept from looked-up values are exactly the non-empty
/// ones, in order: keeping distributes over concatenation, keeps a
/// non-empty value and drops an empty one.
pub proof fn law_non_empty_keeps_exactly_the_set_values(a: Seq<Seq<char>>, b: Seq<Seq<char>>, v: Seq<char>)
    ensures
        non_empty(a + b) == non_empty(a) + non_empty(b),
        non_empty(Seq::<Seq<char>>::empty()) == Seq::<Seq<char>>::empty(),
        v.len() > 0 ==> non_empty(seq![v]) == seq![v],
        v.len() == 0 ==> non_empty(seq![v]) == Seq::<Seq<char>>::empty(),
    decreases b.len(),
{
    let e = seq![v];
    let none = Seq::<Seq<char>>::empty();
    assert(non_empty(none) == none);
    assert(e.drop_last() =~= none);
    assert(e.last() == v);
    assert(non_empty(e.drop_last()) == none);
    if v.len() > 0 {
        assert(none.push(v) =~= e);
        assert(non_empty(e) == non_empty(e.drop_last()).push(v));
    } else {
        assert(non_empty(e) == non_empty(e.drop_last()));
    }
    if b.len() == 0 {
        assert(a + b =~= a);
        assert(non_empty(a) + non_empty(b) =~= non_empty(a));
    } else {
        law_non_empty_keeps_exactly_the_set_values(a, b.drop_last(), v);
        assert((a + b).drop_last() =~= a + b.drop_last());
        assert((a + b).last() == b.last());
        if b.last().len() > 0 {
            assert(non_empty(a) + non_empty(b.drop_last()).push(b.last()) =~= (non_empty(a)
                + non_empty(b.drop_last())).push(b.last()));
        }
    }
}

/// Law: every non-empty value is among the kept secrets.
pub proof fn law_non_empty_keeps_every_set_value(values: Seq<Seq<char>>, k: int)
    requires
        0 <= k < values.len(),
        values[k].len() > 0,
    ensures
        non_empty(values).contains(values[k]),
{
    let a = values.take(k);
    let b = values.skip(k + 1);
    assert(values =~= a + seq![values[k]] + b);
    law_non_empty_keeps_exactly_the_set_values(a, seq![values[k]], values[k]);
    law_non_empty_keeps_exactly_the_set_values(a + seq![values[k]], b, values[k]);
    let whole = non_empty(a) + seq![values[k]] + non_empty(b);
    assert(whole[non_empty(a).len() as int] == values[k]);
}

} // verus!
