//! A structural model of JSON values, as handed over by the surrounding
//! tooling. Numbers are carried as their literal text, so that a value is
//! reproduced exactly on the way back out.

use vstd::prelude::*;

verus! {

broadcast use
    vstd::std_specs::vec::group_vec_axioms,
    vstd::seq::axiom_seq_index_decreases,
    vstd::seq::axiom_seq_subrange_decreases;


/// One JSON value. An object is a list of key/value entries, in the order
/// the surrounding tooling handed them over.
#[derive(Debug, PartialEq, Eq)]
pub enum Json {
    Null,
    Bool(bool),
    /// A number, held as its decimal source text.
    Num(String),
    Str(String),
    Arr(Vec<Json>),
    Obj(Vec<(String, Json)>),
}

/// The mathematical shape of a `Json` value.
pub enum JsonV {
    Null,
    Bool(bool),
    Num(Seq<char>),
    Str(Seq<char>),
    Arr(Seq<JsonV>),
    Obj(Seq<(Seq<char>, JsonV)>),
}

/// The shape of a JSON value.
pub open spec fn json_view(j: Json) -> JsonV
    decreases j,
{
    match j {
        Json::Null => JsonV::Null,
        Json::Bool(b) => JsonV::Bool(b),
        Json::Num(s) => JsonV::Num(s@),
        Json::Str(s) => JsonV::Str(s@),
        Json::Arr(items) => JsonV::Arr(json_view_seq(items@)),
        Json::Obj(entries) => JsonV::Obj(json_view_entries(entries@)),
    }
}

/// The shapes of the elements of a JSON array.
pub open spec fn json_view_seq(items: Seq<Json>) -> Seq<JsonV>
    decreases items,
{
    if items.len() == 0 {
        Seq::empty()
    } else {
        seq![json_view(items.first())] + json_view_seq(items.drop_first())
    }
}

/// The shapes of the entries of a JSON object.
pub open spec fn json_view_entries(entries: Seq<(String, Json)>) -> Seq<(Seq<char>, JsonV)>
    decreases entries,
{
    if entries.len() == 0 {
        Seq::empty()
    } else {
        seq![(entries.first().0@, json_view(entries.first().1))]
            + json_view_entries(entries.drop_first())
    }
}

impl View for Json {
    type V = JsonV;

    open spec fn view(&self) -> JsonV {
        json_view(*self)
    }
}

/// `json_view_seq` maps `json_view` over the elements, index by index.
pub proof fn lemma_json_view_seq(items: Seq<Json>)
    ensures
        json_view_seq(items).len() == items.len(),
        forall|i: int|
            0 <= i < items.len() ==> json_view_seq(items)[i] == json_view(#[trigger] items[i]),
    decreases items.len(),
{
    if items.len() > 0 {
        lemma_json_view_seq(items.drop_first());
        assert forall|i: int|
            0 <= i < items.len() implies json_view_seq(items)[i] == json_view(
            #[trigger] items[i],
        ) by {
            if i > 0 {
                assert(items.drop_first()[i - 1] == items[i]);
            }
        }
    }
}

/// `json_view_entries` maps the key view and `json_view` over the entries,
/// index by index.
pub proof fn lemma_json_view_entries(entries: Seq<(String, Json)>)
    ensures
        json_view_entries(entries).len() == entries.len(),
        forall|i: int|
            0 <= i < entries.len() ==> json_view_entries(entries)[i] == (
            (#[trigger] entries[i]).0@,
            json_view(entries[i].1),
            ),
    decreases entries.len(),
{
    if entries.len() > 0 {
        lemma_json_view_entries(entries.drop_first());
        assert forall|i: int|
            0 <= i < entries.len() implies json_view_entries(entries)[i] == (
            (#[trigger] entries[i]).0@,
            json_view(entries[i].1),
        ) by {
            if i > 0 {
                assert(entries.drop_first()[i - 1] == entries[i]);
            }
        }
    }
}

/// The value of the first entry named `k`, if any.
pub open spec fn entries_get(entries: Seq<(Seq<char>, JsonV)>, k: Seq<char>) -> Option<JsonV>
    decreases entries.len(),
{
    if entries.len() == 0 {
        None
    } else if entries.first().0 == k {
        Some(entries.first().1)
    } else {
        entries_get(entries.drop_first(), k)
    }
}

/// `entries_get` reads the first match: the entry at `i`, when nothing
/// before `i` is named `k`.
pub proof fn lemma_entries_get_at(entries: Seq<(Seq<char>, JsonV)>, k: Seq<char>, i: int)
    requires
        0 <= i <= entries.len(),
        forall|m: int| 0 <= m < i ==> (#[trigger] entries[m]).0 != k,
        i == entries.len() || entries[i].0 == k,
    ensures
        entries_get(entries, k) == (if i == entries.len() {
            None
        } else {
            Some(entries[i].1)
        }),
    decreases i,
{
    if i > 0 {
        let rest = entries.drop_first();
        assert(entries.first() == entries[0]);
        assert forall|m: int| 0 <= m < i - 1 implies (#[trigger] rest[m]).0 != k by {
            assert(rest[m] == entries[m + 1]);
        }
        if i < entries.len() {
            assert(rest[i - 1] == entries[i]);
        }
        lemma_entries_get_at(rest, k, i - 1);
    }
}

/// A found value sits below its entry list in the well-founded order that
/// recursion descends.
pub proof fn lemma_entries_get_decreases(entries: Seq<(Seq<char>, JsonV)>, k: Seq<char>)
    requires
        entries_get(entries, k) is Some,
    ensures
        decreases_to!(entries => entries_get(entries, k)->Some_0),
    decreases entries.len(),
{
    if entries.first().0 == k {
        assert(entries.first() == entries[0]);
        assert(decreases_to!(entries => entries[0]));
        assert(decreases_to!(entries[0] => entries[0].1));
    } else {
        let rest = entries.drop_first();
        assert(rest =~= entries.subrange(1, entries.len() as int));
        lemma_entries_get_decreases(rest, k);
        assert(decreases_to!(entries => rest));
    }
}

/// Looking up a key past a prefix that does not carry it reads the suffix.
pub proof fn lemma_entries_get_concat(
    pre: Seq<(Seq<char>, JsonV)>,
    post: Seq<(Seq<char>, JsonV)>,
    k: Seq<char>,
)
    requires
        forall|m: int| 0 <= m < pre.len() ==> (#[trigger] pre[m]).0 != k,
    ensures
        entries_get(pre + post, k) == entries_get(post, k),
    decreases pre.len(),
{
    if pre.len() == 0 {
        assert(pre + post =~= post);
    } else {
        assert((pre + post).first() == pre[0]);
        assert((pre + post).drop_first() =~= pre.drop_first() + post);
        assert forall|m: int| 0 <= m < pre.drop_first().len() implies (#[trigger] pre.drop_first()[m]).0
            != k by {
            assert(pre.drop_first()[m] == pre[m + 1]);
        }
        lemma_entries_get_concat(pre.drop_first(), post, k);
    }
}

/// The shape of a concatenation of entry lists is the concatenation of their
/// shapes.
pub proof fn lemma_json_view_entries_concat(a: Seq<(String, Json)>, b: Seq<(String, Json)>)
    ensures
        json_view_entries(a + b) == json_view_entries(a) + json_view_entries(b),
    decreases a.len(),
{
    if a.len() == 0 {
        assert(a + b =~= b);
        assert(json_view_entries(a) + json_view_entries(b) =~= json_view_entries(b));
    } else {
        assert((a + b).first() == a.first());
        assert((a + b).drop_first() =~= a.drop_first() + b);
        lemma_json_view_entries_concat(a.drop_first(), b);
        assert(json_view_entries(a + b) =~= json_view_entries(a) + json_view_entries(b));
    }
}

/// Borrow the value of the first entry named `key`, if any.
pub fn obj_get<'a>(entries: &'a Vec<(String, Json)>, key: &String) -> (r: Option<&'a Json>)
    ensures
        match r {
            Some(v) => entries_get(json_view_entries(entries@), key@) == Some(json_view(*v)),
            None => entries_get(json_view_entries(entries@), key@) is None,
        },
        r matches Some(v) ==> exists|i: int|
            0 <= i < entries@.len() && *v == (#[trigger] entries@[i]).1,
{
    let ghost ev = json_view_entries(entries@);
    proof {
        lemma_json_view_entries(entries@);
    }
    let n = entries.len();
    let mut i: usize = 0;
    while i < n
        invariant
            i <= n == entries@.len(),
            ev == json_view_entries(entries@),
            forall|m: int| 0 <= m < i ==> (#[trigger] ev[m]).0 != key@,
        decreases n - i,
    {
        proof {
            lemma_json_view_entries(entries@);
        }
        if entries[i].0 == *key {
            let r = &entries[i].1;
            proof {
                lemma_entries_get_at(ev, key@, i as int);
                assert(0 <= i < entries@.len() && *r == entries@[i as int].1);
            }
            return Some(r);
        }
        i = i + 1;
    }
    proof {
        lemma_entries_get_at(ev, key@, n as int);
    }
    None
}

/// A structurally identical copy of an entry list.
pub fn copy_entries(entries: &Vec<(String, Json)>) -> (r: Vec<(String, Json)>)
    ensures
        json_view_entries(r@) == json_view_entries(entries@),
{
    let n = entries.len();
    let mut out: Vec<(String, Json)> = Vec::new();
    let mut i: usize = 0;
    while i < n
        invariant
            i <= n == entries@.len(),
            out@.len() == i,
            forall|m: int|
                0 <= m < i ==> (#[trigger] out@[m]).0@ == entries@[m].0@ && json_view(out@[m].1)
                    == json_view(entries@[m].1),
        decreases n - i,
    {
        let e = &entries[i];
        let c = (e.0.clone(), e.1.deep_copy());
        out.push(c);
        i = i + 1;
    }
    proof {
        lemma_json_view_entries(entries@);
        lemma_json_view_entries(out@);
        assert forall|k: int| 0 <= k < n implies json_view_entries(out@)[k] == json_view_entries(
            entries@,
        )[k] by {
            assert(out@[k].0@ == entries@[k].0@);
            assert(json_view(out@[k].1) == json_view(entries@[k].1));
        }
        assert(json_view_entries(out@) =~= json_view_entries(entries@));
    }
    out
}

impl Json {
    /// A structurally identical copy.
    pub fn deep_copy(&self) -> (r: Json)
        ensures
            r@ == self@,
        decreases *self,
    {
        match self {
            Json::Null => Json::Null,
            Json::Bool(b) => Json::Bool(*b),
            Json::Num(s) => Json::Num(s.clone()),
            Json::Str(s) => Json::Str(s.clone()),
            Json::Arr(items) => {
                proof {
                    assert(decreases_to!(*self => *items));
                }
                let n = items.len();
                let mut out: Vec<Json> = Vec::new();
                let mut i: usize = 0;
                while i < n
                    invariant
                        i <= n == items@.len(),
                        decreases_to!(*self => *items),
                        out@.len() == i,
                        forall|m: int|
                            0 <= m < i ==> json_view(#[trigger] out@[m]) == json_view(items@[m]),
                    decreases n - i,
                {
                    proof {
                        assert(decreases_to!(*items => items@[i as int]));
                    }
                    let c = items[i].deep_copy();
                    out.push(c);
                    i = i + 1;
                }
                proof {
                    lemma_json_view_seq(items@);
                    lemma_json_view_seq(out@);
                    assert forall|k: int| 0 <= k < n implies json_view_seq(out@)[k]
                        == json_view_seq(items@)[k] by {
                        assert(json_view(out@[k]) == json_view(items@[k]));
                    }
                    assert(json_view_seq(out@) =~= json_view_seq(items@));
                }
                Json::Arr(out)
            },
            Json::Obj(entries) => {
                proof {
                    assert(decreases_to!(*self => *entries));
                }
                let n = entries.len();
                let mut out: Vec<(String, Json)> = Vec::new();
                let mut i: usize = 0;
                while i < n
                    invariant
                        i <= n == entries@.len(),
                        decreases_to!(*self => *entries),
                        out@.len() == i,
                        forall|m: int|
                            0 <= m < i ==> (#[trigger] out@[m]).0@ == entries@[m].0@ && json_view(
                                out@[m].1,
                            ) == json_view(entries@[m].1),
                    decreases n - i,
                {
                    proof {
                        assert(decreases_to!(*entries => entries@[i as int]));
                        assert(decreases_to!(entries@[i as int] => entries@[i as int].1));
                    }
                    let e = &entries[i];
                    let c = (e.0.clone(), e.1.deep_copy());
                    out.push(c);
                    i = i + 1;
                }
                proof {
                    lemma_json_view_entries(entries@);
                    lemma_json_view_entries(out@);
                    assert forall|k: int| 0 <= k < n implies json_view_entries(out@)[k]
                        == json_view_entries(entries@)[k] by {
                        assert(out@[k].0@ == entries@[k].0@);
                        assert(json_view(out@[k].1) == json_view(entries@[k].1));
                    }
                    assert(json_view_entries(out@) =~= json_view_entries(entries@));
                }
                Json::Obj(out)
            },
        }
    }
}

} // verus!
