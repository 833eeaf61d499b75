//! The values that are sent to the service, and putting one on top of
//! another.
//!
//! An object is a list of entries. Putting an object on top of another keeps
//! the entries of the lower one in their places, so the order of the entries
//! says nothing about the object.

use crate::resolve::{first_index, lemma_first_index, lemma_first_index_in_range, pos};
use crate::text::same;
use vstd::prelude::*;

verus! {

/// A value of a payload.
#[derive(Debug, PartialEq, Eq)]
pub enum Json {
    Null,
    Bool(bool),
    Int(i64),
    /// A count that may be greater than any `Int`.
    Count(u64),
    /// A number that is no whole number, as its decimal text.
    Decimal(String),
    Text(String),
    List(Vec<Json>),
    /// The entries of an object.
    Object(Vec<(String, Json)>),
}

/// A value of a payload as texts.
pub enum JsonView {
    Null,
    Bool(bool),
    Int(i64),
    Count(u64),
    Decimal(Seq<char>),
    Text(Seq<char>),
    List(Seq<JsonView>),
    Object(Seq<(Seq<char>, JsonView)>),
}

impl Json {
    pub open spec fn view(self) -> JsonView
        decreases self,
    {
        match self {
            Json::Null => JsonView::Null,
            Json::Bool(b) => JsonView::Bool(b),
            Json::Int(i) => JsonView::Int(i),
            Json::Count(c) => JsonView::Count(c),
            Json::Decimal(d) => JsonView::Decimal(d@),
            Json::Text(t) => JsonView::Text(t@),
            Json::List(items) => JsonView::List(
                Seq::new(
                    items@.len(),
                    |i: int|
                        if 0 <= i < items@.len() {
                            items@[i].view()
                        } else {
                            JsonView::Null
                        },
                ),
            ),
            Json::Object(entries) => JsonView::Object(
                Seq::new(
                    entries@.len(),
                    |i: int|
                        if 0 <= i < entries@.len() {
                            (entries@[i].0@, entries@[i].1.view())
                        } else {
                            (Seq::empty(), JsonView::Null)
                        },
                ),
            ),
        }
    }
}

/// The items of a list as texts.
pub open spec fn items_view(items: Seq<Json>) -> Seq<JsonView> {
    items.map_values(|j: Json| j.view())
}

/// The entries of an object as texts.
pub open spec fn entries_view(entries: Seq<(String, Json)>) -> Seq<(Seq<char>, JsonView)> {
    entries.map_values(|e: (String, Json)| (e.0@, e.1.view()))
}

/// The view of a list is the list of the views of its items.
pub proof fn lemma_list_view(items: Vec<Json>)
    ensures
        Json::List(items).view() == JsonView::List(items_view(items@)),
{
    assert(Json::List(items).view()->List_0 =~= items_view(items@));
}

/// The view of an object is the list of the views of its entries.
pub proof fn lemma_object_view(entries: Vec<(String, Json)>)
    ensures
        Json::Object(entries).view() == JsonView::Object(entries_view(entries@)),
{
    assert(Json::Object(entries).view()->Object_0 =~= entries_view(entries@));
}

/// The position of the entry with the key.
pub open spec fn key_index(entries: Seq<(Seq<char>, JsonView)>, key: Seq<char>) -> Option<int> {
    first_index(entries, |e: (Seq<char>, JsonView)| e.0 == key)
}

/// `b` put on top of `a`. Where both are objects, every entry of `b` is put on
/// top of the entry of `a` with its key, or of nothing where `a` has no such
/// entry; the entries of `a` keep their places and new entries come last.
/// Anything else gives way to `b`.
pub open spec fn merged(a: JsonView, b: JsonView) -> JsonView
    decreases b, 0nat,
{
    match (a, b) {
        (JsonView::Object(ea), JsonView::Object(eb)) => JsonView::Object(
            merged_entries(ea, eb, eb.len()),
        ),
        _ => b,
    }
}

/// The entries `ea` with the first `upto` entries of `eb` put on top.
pub open spec fn merged_entries(
    ea: Seq<(Seq<char>, JsonView)>,
    eb: Seq<(Seq<char>, JsonView)>,
    upto: nat,
) -> Seq<(Seq<char>, JsonView)>
    decreases eb, upto,
{
    if upto == 0 || upto > eb.len() {
        ea
    } else {
        let before = merged_entries(ea, eb, (upto - 1) as nat);
        let entry = eb[upto - 1];
        match key_index(before, entry.0) {
            Some(i) => before.update(i, (entry.0, merged(before[i].1, entry.1))),
            None => before.push((entry.0, merged(JsonView::Null, entry.1))),
        }
    }
}

/// No two entries have the same key.
pub open spec fn distinct_keys(entries: Seq<(Seq<char>, JsonView)>) -> bool {
    forall|i: int, j: int|
        0 <= i < j < entries.len() ==> (#[trigger] entries[i]).0 != (#[trigger] entries[j]).0
}

/// Putting entries on top of entries with distinct keys gives entries with
/// distinct keys: an entry with a known key goes into its place, and only an
/// entry with a new key is added.
pub proof fn lemma_merged_keys_distinct(
    ea: Seq<(Seq<char>, JsonView)>,
    eb: Seq<(Seq<char>, JsonView)>,
    upto: nat,
)
    requires
        distinct_keys(ea),
    ensures
        distinct_keys(merged_entries(ea, eb, upto)),
        merged_entries(ea, eb, upto).len() >= ea.len(),
        forall|i: int|
            0 <= i < ea.len() ==> (#[trigger] merged_entries(ea, eb, upto)[i]).0 == ea[i].0,
    decreases upto,
{
    if upto == 0 || upto > eb.len() {
    } else {
        lemma_merged_keys_distinct(ea, eb, (upto - 1) as nat);
        let before = merged_entries(ea, eb, (upto - 1) as nat);
        let after = merged_entries(ea, eb, upto);
        let entry = eb[upto - 1];
        let p = |e: (Seq<char>, JsonView)| e.0 == entry.0;
        lemma_first_index_in_range(before, p);
        match key_index(before, entry.0) {
            Some(i) => {
                assert forall|a: int, b: int| 0 <= a < b < after.len() implies (
                #[trigger] after[a]).0 != (#[trigger] after[b]).0 by {
                    assert(after[a].0 == before[a].0);
                    assert(after[b].0 == before[b].0);
                }
                assert forall|k: int| 0 <= k < ea.len() implies (#[trigger] after[k]).0
                    == ea[k].0 by {
                    assert(after[k].0 == before[k].0);
                }
            },
            None => {
                assert forall|a: int, b: int| 0 <= a < b < after.len() implies (
                #[trigger] after[a]).0 != (#[trigger] after[b]).0 by {
                    assert(after[a] == before[a]);
                    if b < before.len() {
                        assert(after[b] == before[b]);
                    } else {
                        assert(!p(before[a]));
                    }
                }
                assert forall|k: int| 0 <= k < ea.len() implies (#[trigger] after[k]).0
                    == ea[k].0 by {
                    assert(after[k] == before[k]);
                }
            },
        }
    }
}

fn find_key(entries: &Vec<(String, Json)>, key: &str) -> (r: Option<usize>)
    ensures
        pos(r) == key_index(entries_view(entries@), key@),
        r is Some ==> r->0 < entries.len(),
{
    let ghost ev = entries_view(entries@);
    let ghost p = |e: (Seq<char>, JsonView)| e.0 == key@;
    let mut i: usize = 0;
    while i < entries.len()
        invariant
            i <= entries.len(),
            ev == entries_view(entries@),
            forall|j: int| 0 <= j < i ==> !p(#[trigger] ev[j]),
            p == (|e: (Seq<char>, JsonView)| e.0 == key@),
        decreases entries.len() - i,
    {
        assert(ev[i as int] == (entries@[i as int].0@, entries@[i as int].1.view()));
        if same(entries[i].0.as_str(), key) {
            proof {
                lemma_first_index(ev, p, Some(i as int));
            }
            return Some(i);
        }
        i += 1;
    }
    proof {
        lemma_first_index(ev, p, None);
    }
    None
}

impl Json {
    /// A copy of the value.
    #[verifier::loop_isolation(false)]
    pub fn copy(&self) -> (r: Json)
        ensures
            r.view() == self.view(),
        decreases self,
    {
        match self {
            Json::Null => Json::Null,
            Json::Bool(b) => Json::Bool(*b),
            Json::Int(i) => Json::Int(*i),
            Json::Count(c) => Json::Count(*c),
            Json::Decimal(d) => Json::Decimal(d.clone()),
            Json::Text(t) => Json::Text(t.clone()),
            Json::List(items) => {
                let mut out: Vec<Json> = Vec::new();
                let mut i: usize = 0;
                while i < items.len()
                    invariant
                        i <= items.len(),
                        out@.len() == i,
                        forall|j: int| 0 <= j < i ==> (#[trigger] out@[j]).view() == items@[j].view(),
                    decreases items.len() - i,
                {
                    out.push(items[i].copy());
                    i += 1;
                }
                proof {
                    lemma_list_view(out);
                    lemma_list_view(*items);
                    assert(items_view(out@) =~= items_view(items@));
                }
                Json::List(out)
            },
            Json::Object(entries) => {
                let mut out: Vec<(String, Json)> = Vec::new();
                let mut i: usize = 0;
                while i < entries.len()
                    invariant
                        i <= entries.len(),
                        out@.len() == i,
                        forall|j: int|
                            0 <= j < i ==> (#[trigger] out@[j]).0@ == entries@[j].0@
                                && out@[j].1.view() == entries@[j].1.view(),
                    decreases entries.len() - i,
                {
                    out.push((entries[i].0.clone(), entries[i].1.copy()));
                    i += 1;
                }
                proof {
                    lemma_object_view(out);
                    lemma_object_view(*entries);
                    assert(entries_view(out@) =~= entries_view(entries@));
                }
                Json::Object(out)
            },
        }
    }
}

impl Clone for Json {
    fn clone(&self) -> (r: Json)
        ensures
            r.view() == self.view(),
    {
        self.copy()
    }
}

/// `b` put on top of `a`.
#[verifier::loop_isolation(false)]
pub fn merge_onto(a: Json, b: &Json) -> (r: Json)
    ensures
        r.view() == merged(a.view(), b.view()),
    decreases b,
{
    match b {
        Json::Object(eb) => {
            match a {
                Json::Object(ea) => {
                    let ghost start = entries_view(ea@);
                    let ghost top = entries_view(eb@);
                    let mut ea = ea;
                    let mut k: usize = 0;
                    proof {
                        lemma_object_view(ea);
                        lemma_object_view(*eb);
                    }
                    while k < eb.len()
                        invariant
                            k <= eb.len(),
                            top == entries_view(eb@),
                            entries_view(ea@) == merged_entries(start, top, k as nat),
                        decreases eb.len() - k,
                    {
                        assert(top[k as int] == (eb@[k as int].0@, eb@[k as int].1.view()));
                        let ghost before = entries_view(ea@);
                        match find_key(&ea, eb[k].0.as_str()) {
                            Some(i) => {
                                assert(before[i as int] == (ea@[i as int].0@, ea@[i as int].1.view()));
                                let old_entry = ea.remove(i);
                                let value = merge_onto(old_entry.1, &eb[k].1);
                                ea.insert(i, (eb[k].0.clone(), value));
                                assert(entries_view(ea@) =~= before.update(
                                    i as int,
                                    (top[k as int].0, merged(before[i as int].1, top[k as int].1)),
                                ));
                            },
                            None => {
                                let value = merge_onto(Json::Null, &eb[k].1);
                                ea.push((eb[k].0.clone(), value));
                                assert(entries_view(ea@) =~= before.push(
                                    (top[k as int].0, merged(JsonView::Null, top[k as int].1)),
                                ));
                            },
                        }
                        k += 1;
                    }
                    proof {
                        lemma_object_view(ea);
                    }
                    Json::Object(ea)
                },
                _ => b.copy(),
            }
        },
        _ => b.copy(),
    }
}

/// Puts `b` on top of `a`.
pub fn merge(a: &mut Json, b: &Json)
    ensures
        final(a).view() == merged(old(a).view(), b.view()),
{
    let mut under = Json::Null;
    std::mem::swap(a, &mut under);
    *a = merge_onto(under, b);
}

/// The object made of the entries.
pub fn object(entries: Vec<(String, Json)>) -> (r: Json)
    ensures
        r.view() == JsonView::Object(entries_view(entries@)),
{
    proof {
        lemma_object_view(entries);
    }
    Json::Object(entries)
}

/// The object with one entry.
pub fn single(key: &str, value: Json) -> (r: Json)
    ensures
        r.view() == JsonView::Object(seq![(key@, value.view())]),
{
    let mut entries: Vec<(String, Json)> = Vec::new();
    entries.push((key.to_owned(), value));
    assert(entries_view(entries@) =~= seq![(key@, value.view())]);
    object(entries)
}

/// The list of the texts.
pub open spec fn text_list(items: Seq<Seq<char>>) -> JsonView {
    JsonView::List(items.map_values(|t: Seq<char>| JsonView::Text(t)))
}

/// The list of the texts.
pub fn list_of_texts(items: &Vec<String>) -> (r: Json)
    ensures
        r.view() == text_list(crate::entities::texts(items@)),
{
    let mut out: Vec<Json> = Vec::new();
    let mut i: usize = 0;
    while i < items.len()
        invariant
            i <= items.len(),
            out@.len() == i,
            forall|j: int| 0 <= j < i ==> (#[trigger] out@[j]).view() == JsonView::Text(items@[j]@),
        decreases items.len() - i,
    {
        out.push(Json::Text(items[i].clone()));
        i += 1;
    }
    proof {
        lemma_list_view(out);
        assert(items_view(out@) =~= crate::entities::texts(items@).map_values(
            |t: Seq<char>| JsonView::Text(t),
        ));
    }
    Json::List(out)
}

/// The text, or nothing where there is none.
pub open spec fn text_or_null(o: Option<Seq<char>>) -> JsonView {
    match o {
        Some(t) => JsonView::Text(t),
        None => JsonView::Null,
    }
}

/// The text, or nothing where there is none.
pub fn optional_text(o: &Option<String>) -> (r: Json)
    ensures
        r.view() == text_or_null(crate::entities::opt_text(*o)),
{
    match o {
        Some(t) => Json::Text(t.clone()),
        None => Json::Null,
    }
}

/// The value with one more entry on top where there is a text for it.
pub open spec fn with_optional(base: JsonView, key: Seq<char>, o: Option<Seq<char>>) -> JsonView {
    match o {
        Some(t) => merged(base, JsonView::Object(seq![(key, JsonView::Text(t))])),
        None => base,
    }
}

/// Puts an entry on top of a payload where there is a text for it.
pub fn put_optional(payload: &mut Json, key: &str, o: &Option<String>)
    ensures
        final(payload).view() == with_optional(
            old(payload).view(),
            key@,
            crate::entities::opt_text(*o),
        ),
{
    match o {
        Some(t) => {
            let top = single(key, Json::Text(t.clone()));
            merge(payload, &top);
        },
        None => {},
    }
}

} // verus!
