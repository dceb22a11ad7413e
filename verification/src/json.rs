//! JSON values as the library handles them: the payloads it reads from Zotero and writes
//! for its callers.
//!
//! A number is held as its canonical decimal text; an object holds its members with
//! distinct keys in ascending key order, as `serde_json`'s map keeps them.

use vstd::prelude::*;

use crate::text::{chars_of, lemma_seq_lt_asymmetric, lemma_seq_lt_total, lemma_seq_lt_transitive, nat_decimal, parse_i64, parse_i64_spec, push_char, push_str, seq_lt, str_eq, str_lt, string_from_chars, u64_decimal};

verus! {

/// A JSON value.
#[derive(Debug, PartialEq)]
pub enum Json {
    Null,
    Bool(bool),
    Number(String),
    Str(String),
    Array(Vec<Json>),
    Object(Vec<(String, Json)>),
}

/// The mathematical value of a JSON value.
#[verifier::ext_equal]
pub enum JsonV {
    Null,
    Bool(bool),
    Number(Seq<char>),
    Str(Seq<char>),
    Array(Seq<JsonV>),
    Object(Seq<(Seq<char>, JsonV)>),
}

/// View of a value.
pub open spec fn json_view(j: Json) -> JsonV
    decreases j, 0int,
{
    match j {
        Json::Null => JsonV::Null,
        Json::Bool(b) => JsonV::Bool(b),
        Json::Number(t) => JsonV::Number(t@),
        Json::Str(s) => JsonV::Str(s@),
        Json::Array(a) => JsonV::Array(jsons_view(a@)),
        Json::Object(m) => JsonV::Object(entries_view(m@)),
    }
}

/// View of a sequence of values.
pub open spec fn jsons_view(s: Seq<Json>) -> Seq<JsonV>
    decreases s, 1int,
{
    if s.len() == 0 {
        Seq::empty()
    } else {
        jsons_view(s.drop_last()).push(json_view(s.last()))
    }
}

/// View of object members.
pub open spec fn entries_view(s: Seq<(String, Json)>) -> Seq<(Seq<char>, JsonV)>
    decreases s, 1int,
{
    if s.len() == 0 {
        Seq::empty()
    } else {
        entries_view(s.drop_last()).push((s.last().0@, json_view(s.last().1)))
    }
}

impl View for Json {
    type V = JsonV;

    open spec fn view(&self) -> JsonV {
        json_view(*self)
    }
}

/// `jsons_view` is pointwise.
pub proof fn lemma_jsons_view(s: Seq<Json>)
    ensures
        jsons_view(s).len() == s.len(),
        forall|i: int| 0 <= i < s.len() ==> #[trigger] jsons_view(s)[i] == json_view(s[i]),
    decreases s.len(),
{
    if s.len() > 0 {
        lemma_jsons_view(s.drop_last());
    }
}

/// `entries_view` is pointwise.
pub proof fn lemma_entries_view(s: Seq<(String, Json)>)
    ensures
        entries_view(s).len() == s.len(),
        forall|i: int|
            0 <= i < s.len() ==> #[trigger] entries_view(s)[i] == (s[i].0@, json_view(s[i].1)),
    decreases s.len(),
{
    if s.len() > 0 {
        lemma_entries_view(s.drop_last());
    }
}

/// Viewing concatenated values.
pub proof fn lemma_jsons_view_append(a: Seq<Json>, b: Seq<Json>)
    ensures
        jsons_view(a + b) == jsons_view(a) + jsons_view(b),
{
    lemma_jsons_view(a + b);
    lemma_jsons_view(a);
    lemma_jsons_view(b);
    assert(jsons_view(a + b) =~= jsons_view(a) + jsons_view(b));
}

/// Viewing pushed values.
pub proof fn lemma_jsons_view_push(s: Seq<Json>, j: Json)
    ensures
        jsons_view(s.push(j)) == jsons_view(s).push(json_view(j)),
{
    assert(s.push(j).drop_last() =~= s);
}

/// Viewing pushed members.
pub proof fn lemma_entries_view_push(s: Seq<(String, Json)>, e: (String, Json))
    ensures
        entries_view(s.push(e)) == entries_view(s).push((e.0@, json_view(e.1))),
{
    assert(s.push(e).drop_last() =~= s);
}

/// The member of `key` among `entries` (the first with that key).
pub open spec fn member(entries: Seq<(Seq<char>, JsonV)>, key: Seq<char>) -> Option<JsonV>
    decreases entries.len(),
{
    if entries.len() == 0 {
        None
    } else if entries[0].0 == key {
        Some(entries[0].1)
    } else {
        member(entries.drop_first(), key)
    }
}

/// `value.get(key)`: the member of an object, nothing for any other value.
pub open spec fn get_spec(v: JsonV, key: Seq<char>) -> Option<JsonV> {
    match v {
        JsonV::Object(es) => member(es, key),
        _ => None,
    }
}

/// Whether `v` is `Bool(b)`.
pub open spec fn is_bool(v: Option<JsonV>, b: bool) -> bool {
    v == Some(JsonV::Bool(b))
}

/// The text of a string value.
pub open spec fn as_str_spec(v: Option<JsonV>) -> Option<Seq<char>> {
    match v {
        Some(JsonV::Str(s)) => Some(s),
        _ => None,
    }
}

/// Keys ascend strictly.
pub open spec fn keys_ascending(es: Seq<(Seq<char>, JsonV)>) -> bool {
    forall|i: int, j: int| 0 <= i < j < es.len() ==> seq_lt(#[trigger] es[i].0, #[trigger] es[j].0)
}

/// Where `map.insert(key, _)` puts a key: the first member whose key does not sort before it.
pub open spec fn insert_position(es: Seq<(Seq<char>, JsonV)>, key: Seq<char>) -> int
    decreases es.len(),
{
    if es.len() == 0 {
        0
    } else if !seq_lt(es[0].0, key) {
        0
    } else {
        1 + insert_position(es.drop_first(), key)
    }
}

/// Members after `map.insert(key, value)`: the member of that key replaced when present
/// there, else a new member at its place in key order.
pub open spec fn insert_spec(es: Seq<(Seq<char>, JsonV)>, key: Seq<char>, value: JsonV) -> Seq<(Seq<char>, JsonV)> {
    let p = insert_position(es, key);
    if p < es.len() && es[p].0 == key {
        es.update(p, (key, value))
    } else {
        es.insert(p, (key, value))
    }
}

proof fn lemma_insert_position_bounds(es: Seq<(Seq<char>, JsonV)>, key: Seq<char>)
    ensures
        0 <= insert_position(es, key) <= es.len(),
        forall|i: int| 0 <= i < insert_position(es, key) ==> seq_lt(#[trigger] es[i].0, key),
        insert_position(es, key) < es.len() ==> !seq_lt(es[insert_position(es, key)].0, key),
    decreases es.len(),
{
    if es.len() > 0 && seq_lt(es[0].0, key) {
        lemma_insert_position_bounds(es.drop_first(), key);
        assert forall|i: int| 0 <= i < insert_position(es, key) implies seq_lt(#[trigger] es[i].0, key) by {
            if i > 0 {
                assert(es[i] == es.drop_first()[i - 1]);
            }
        }
    }
}

proof fn lemma_member_at(es: Seq<(Seq<char>, JsonV)>, i: int, k: Seq<char>)
    requires
        0 <= i < es.len(),
        es[i].0 == k,
        forall|j: int| 0 <= j < i ==> #[trigger] es[j].0 != k,
    ensures
        member(es, k) == Some(es[i].1),
    decreases i,
{
    if i > 0 {
        assert forall|j: int| 0 <= j < i - 1 implies #[trigger] es.drop_first()[j].0 != k by {
            assert(es.drop_first()[j] == es[j + 1]);
        }
        lemma_member_at(es.drop_first(), i - 1, k);
    }
}

proof fn lemma_member_none(es: Seq<(Seq<char>, JsonV)>, k: Seq<char>)
    requires
        forall|j: int| 0 <= j < es.len() ==> #[trigger] es[j].0 != k,
    ensures
        member(es, k) is None,
    decreases es.len(),
{
    if es.len() > 0 {
        assert(es[0].0 != k);
        assert forall|j: int| 0 <= j < es.drop_first().len() implies #[trigger] es.drop_first()[j].0 != k by {
            assert(es.drop_first()[j] == es[j + 1]);
        }
        lemma_member_none(es.drop_first(), k);
    }
}

/// In members with ascending keys, the member of a key is the one entry with that key.
pub proof fn lemma_member_ascending(es: Seq<(Seq<char>, JsonV)>, k: Seq<char>)
    requires
        keys_ascending(es),
    ensures
        forall|i: int| 0 <= i < es.len() && #[trigger] es[i].0 == k ==> member(es, k) == Some(es[i].1),
        (forall|i: int| 0 <= i < es.len() ==> #[trigger] es[i].0 != k) ==> member(es, k) is None,
{
    assert forall|i: int| 0 <= i < es.len() && #[trigger] es[i].0 == k implies member(es, k) == Some(es[i].1) by {
        assert forall|j: int| 0 <= j < i implies #[trigger] es[j].0 != k by {
            assert(seq_lt(es[j].0, es[i].0));
            lemma_seq_lt_asymmetric(es[j].0, es[i].0);
        }
        lemma_member_at(es, i, k);
    }
    if forall|i: int| 0 <= i < es.len() ==> #[trigger] es[i].0 != k {
        lemma_member_none(es, k);
    }
}

/// Inserting into members with ascending keys keeps them ascending; afterwards the key
/// holds the inserted value and every other key what it held before.
pub proof fn lemma_insert(es: Seq<(Seq<char>, JsonV)>, key: Seq<char>, value: JsonV)
    requires
        keys_ascending(es),
    ensures
        keys_ascending(insert_spec(es, key, value)),
        forall|k: Seq<char>|
            #[trigger] member(insert_spec(es, key, value), k) == if k == key {
                Some(value)
            } else {
                member(es, k)
            },
{
    lemma_insert_position_bounds(es, key);
    let p = insert_position(es, key);
    let r = insert_spec(es, key, value);
    if p < es.len() && es[p].0 == key {
        assert(r == es.update(p, (key, value)));
        assert(keys_ascending(r)) by {
            assert forall|i: int, j: int| 0 <= i < j < r.len() implies seq_lt(#[trigger] r[i].0, #[trigger] r[j].0) by {
                assert(seq_lt(es[i].0, es[j].0));
            }
        }
    } else {
        assert(r == es.insert(p, (key, value)));
        if p < es.len() {
            lemma_seq_lt_total(es[p].0, key);
        }
        assert(keys_ascending(r)) by {
            assert forall|i: int, j: int| 0 <= i < j < r.len() implies seq_lt(#[trigger] r[i].0, #[trigger] r[j].0) by {
                if j < p {
                    assert(seq_lt(es[i].0, es[j].0));
                } else if j == p {
                    assert(seq_lt(es[i].0, key));
                } else if i == p {
                    assert(r[j] == es[j - 1]);
                    if j - 1 > p {
                        assert(seq_lt(es[p].0, es[j - 1].0));
                        lemma_seq_lt_transitive(key, es[p].0, es[j - 1].0);
                    }
                } else if i < p {
                    assert(r[j] == es[j - 1]);
                    if j - 1 >= p {
                        assert(seq_lt(es[i].0, key));
                        if j - 1 > p {
                            assert(seq_lt(es[p].0, es[j - 1].0));
                            lemma_seq_lt_transitive(key, es[p].0, es[j - 1].0);
                        }
                        lemma_seq_lt_transitive(es[i].0, key, es[j - 1].0);
                    } else {
                        assert(seq_lt(es[i].0, es[j - 1].0));
                    }
                } else {
                    assert(r[i] == es[i - 1]);
                    assert(r[j] == es[j - 1]);
                    assert(seq_lt(es[i - 1].0, es[j - 1].0));
                }
            }
        }
    }
    lemma_member_ascending(r, key);
    assert(exists|i: int| 0 <= i < r.len() && r[i] == (key, value) && #[trigger] r[i].0 == key) by {
        assert(r[p] == (key, value));
    }
    assert forall|k: Seq<char>| #[trigger] member(r, k) == if k == key {
        Some(value)
    } else {
        member(es, k)
    } by {
        lemma_member_ascending(r, k);
        lemma_member_ascending(es, k);
        if k == key {
            assert(r[p].0 == k);
        } else {
            if exists|i: int| 0 <= i < es.len() && #[trigger] es[i].0 == k {
                let i = choose|i: int| 0 <= i < es.len() && #[trigger] es[i].0 == k;
                let ri = if p < es.len() && es[p].0 == key {
                    i
                } else if i < p {
                    i
                } else {
                    i + 1
                };
                assert(r[ri] == es[i]);
            } else {
                assert forall|i: int| 0 <= i < r.len() implies #[trigger] r[i].0 != k by {
                    if i != p {
                        let ei = if p < es.len() && es[p].0 == key {
                            i
                        } else if i < p {
                            i
                        } else {
                            i - 1
                        };
                        assert(r[i] == es[ei]);
                    }
                }
            }
        }
    }
}

/// View of an optional reference to a value.
pub open spec fn opt_view(o: Option<&Json>) -> Option<JsonV> {
    match o {
        Some(j) => Some(j@),
        None => None,
    }
}

/// `map.get(key)` on object members.
#[verifier::loop_isolation(false)]
pub fn member_get<'a>(entries: &'a Vec<(String, Json)>, key: &str) -> (r: Option<&'a Json>)
    ensures
        opt_view(r) == member(entries_view(entries@), key@),
{
    let ghost ev = entries_view(entries@);
    proof {
        lemma_entries_view(entries@);
        assert(ev.subrange(0, ev.len() as int) =~= ev);
    }
    let mut i: usize = 0;
    while i < entries.len()
        invariant
            i <= entries@.len(),
            member(ev, key@) == member(ev.subrange(i as int, ev.len() as int), key@),
        decreases entries.len() - i,
    {
        let ghost rest = ev.subrange(i as int, ev.len() as int);
        proof {
            assert(rest.drop_first() =~= ev.subrange(i + 1, ev.len() as int));
            assert(rest[0] == ev[i as int]);
        }
        if str_eq(entries[i].0.as_str(), key) {
            return Some(&entries[i].1);
        }
        i = i + 1;
    }
    None
}

impl Json {
    /// `value.get(key)`.
    pub fn get(&self, key: &str) -> (r: Option<&Json>)
        ensures
            opt_view(r) == get_spec(self@, key@),
    {
        match self {
            Json::Object(entries) => member_get(entries, key),
            _ => None,
        }
    }

    /// `value.as_str()`.
    pub fn as_str(&self) -> (r: Option<&str>)
        ensures
            match r {
                Some(s) => self@ == JsonV::Str(s@),
                None => !(self@ is Str),
            },
    {
        match self {
            Json::Str(s) => Some(s.as_str()),
            _ => None,
        }
    }

    /// `value.as_bool()`.
    pub fn as_bool(&self) -> (r: Option<bool>)
        ensures
            match r {
                Some(b) => self@ == JsonV::Bool(b),
                None => !(self@ is Bool),
            },
    {
        match self {
            Json::Bool(b) => Some(*b),
            _ => None,
        }
    }

    /// `value.is_null()`.
    pub fn is_null(&self) -> (r: bool)
        ensures
            r == (self@ is Null),
    {
        match self {
            Json::Null => true,
            _ => false,
        }
    }

    /// `value.as_array()`.
    pub fn as_array(&self) -> (r: Option<&Vec<Json>>)
        ensures
            match r {
                Some(a) => self@ == JsonV::Array(jsons_view(a@)),
                None => !(self@ is Array),
            },
    {
        match self {
            Json::Array(a) => Some(a),
            _ => None,
        }
    }

    /// `value.as_object()`.
    pub fn as_object(&self) -> (r: Option<&Vec<(String, Json)>>)
        ensures
            match r {
                Some(m) => self@ == JsonV::Object(entries_view(m@)),
                None => !(self@ is Object),
            },
    {
        match self {
            Json::Object(m) => Some(m),
            _ => None,
        }
    }

    /// `value.as_i64()`: an integer number that fits in an `i64`.
    pub fn as_i64(&self) -> (r: Option<i64>)
        ensures
            r == match self@ {
                JsonV::Number(t) => parse_i64_spec(t),
                _ => None,
            },
    {
        match self {
            Json::Number(t) => parse_i64(t.as_str()),
            _ => None,
        }
    }

    /// A copy of the whole value.
    #[verifier::loop_isolation(false)]
    pub fn deep_clone(&self) -> (r: Json)
        ensures
            r@ == self@,
        decreases self,
    {
        match self {
            Json::Null => Json::Null,
            Json::Bool(b) => Json::Bool(*b),
            Json::Number(t) => Json::Number(t.clone()),
            Json::Str(s) => Json::Str(s.clone()),
            Json::Array(a) => {
                proof {
                    lemma_jsons_view(a@);
                }
                let mut out: Vec<Json> = Vec::new();
                let mut i: usize = 0;
                while i < a.len()
                    invariant
                        i <= a@.len(),
                        jsons_view(out@) == jsons_view(a@).subrange(0, i as int),
                        jsons_view(a@).len() == a@.len(),
                        forall|k: int| 0 <= k < a@.len() ==> #[trigger] jsons_view(a@)[k] == json_view(a@[k]),
                    decreases a.len() - i,
                {
                    assert(decreases_to!(self => a));
                    let c = a[i].deep_clone();
                    let ghost before = out@;
                    out.push(c);
                    proof {
                        lemma_jsons_view_push(before, c);
                        assert(jsons_view(out@) =~= jsons_view(a@).subrange(0, i + 1));
                    }
                    i = i + 1;
                }
                proof {
                    assert(jsons_view(a@).subrange(0, a@.len() as int) =~= jsons_view(a@));
                }
                Json::Array(out)
            },
            Json::Object(m) => {
                proof {
                    lemma_entries_view(m@);
                }
                let mut out: Vec<(String, Json)> = Vec::new();
                let mut i: usize = 0;
                while i < m.len()
                    invariant
                        i <= m@.len(),
                        entries_view(out@) == entries_view(m@).subrange(0, i as int),
                        entries_view(m@).len() == m@.len(),
                        forall|k: int|
                            0 <= k < m@.len() ==> #[trigger] entries_view(m@)[k] == (m@[k].0@, json_view(m@[k].1)),
                    decreases m.len() - i,
                {
                    assert(decreases_to!(self => m));
                    let k = m[i].0.clone();
                    let c = m[i].1.deep_clone();
                    let ghost before = out@;
                    out.push((k, c));
                    proof {
                        lemma_entries_view_push(before, (k, c));
                        assert(entries_view(out@) =~= entries_view(m@).subrange(0, i + 1));
                    }
                    i = i + 1;
                }
                proof {
                    assert(entries_view(m@).subrange(0, m@.len() as int) =~= entries_view(m@));
                }
                Json::Object(out)
            },
        }
    }
}

/// Whether two values are equal.
#[verifier::loop_isolation(false)]
pub fn json_equal(a: &Json, b: &Json) -> (r: bool)
    ensures
        r == (a@ == b@),
    decreases a,
{
    match (a, b) {
        (Json::Null, Json::Null) => true,
        (Json::Bool(x), Json::Bool(y)) => *x == *y,
        (Json::Number(x), Json::Number(y)) => str_eq(x.as_str(), y.as_str()),
        (Json::Str(x), Json::Str(y)) => str_eq(x.as_str(), y.as_str()),
        (Json::Array(x), Json::Array(y)) => {
            proof {
                lemma_jsons_view(x@);
                lemma_jsons_view(y@);
            }
            if x.len() != y.len() {
                return false;
            }
            let mut i: usize = 0;
            while i < x.len()
                invariant
                    i <= x@.len(),
                    x@.len() == y@.len(),
                    jsons_view(x@).len() == x@.len(),
                    jsons_view(y@).len() == y@.len(),
                    forall|k: int| 0 <= k < x@.len() ==> #[trigger] jsons_view(x@)[k] == json_view(x@[k]),
                    forall|k: int| 0 <= k < y@.len() ==> #[trigger] jsons_view(y@)[k] == json_view(y@[k]),
                    forall|k: int| 0 <= k < i ==> jsons_view(x@)[k] == jsons_view(y@)[k],
                decreases x.len() - i,
            {
                assert(decreases_to!(a => x));
                if !json_equal(&x[i], &y[i]) {
                    proof {
                        assert(jsons_view(x@)[i as int] != jsons_view(y@)[i as int]);
                        assert(jsons_view(x@) != jsons_view(y@));
                    }
                    return false;
                }
                i = i + 1;
            }
            proof {
                assert(jsons_view(x@) =~= jsons_view(y@));
            }
            true
        },
        (Json::Object(x), Json::Object(y)) => {
            proof {
                lemma_entries_view(x@);
                lemma_entries_view(y@);
            }
            if x.len() != y.len() {
                return false;
            }
            let mut i: usize = 0;
            while i < x.len()
                invariant
                    i <= x@.len(),
                    x@.len() == y@.len(),
                    entries_view(x@).len() == x@.len(),
                    entries_view(y@).len() == y@.len(),
                    forall|k: int|
                        0 <= k < x@.len() ==> #[trigger] entries_view(x@)[k] == (x@[k].0@, json_view(x@[k].1)),
                    forall|k: int|
                        0 <= k < y@.len() ==> #[trigger] entries_view(y@)[k] == (y@[k].0@, json_view(y@[k].1)),
                    forall|k: int| 0 <= k < i ==> entries_view(x@)[k] == entries_view(y@)[k],
                decreases x.len() - i,
            {
                assert(decreases_to!(a => x));
                if !str_eq(x[i].0.as_str(), y[i].0.as_str()) || !json_equal(&x[i].1, &y[i].1) {
                    proof {
                        assert(entries_view(x@)[i as int] != entries_view(y@)[i as int]);
                        assert(entries_view(x@) != entries_view(y@));
                    }
                    return false;
                }
                i = i + 1;
            }
            proof {
                assert(entries_view(x@) =~= entries_view(y@));
            }
            true
        },
        _ => false,
    }
}

/// Appends a member.
pub fn push_member(m: &mut Vec<(String, Json)>, key: &str, value: Json)
    ensures
        entries_view(final(m)@) == entries_view(old(m)@).push((key@, value@)),
{
    let ghost before = m@;
    let e = (key.to_owned(), value);
    m.push(e);
    proof {
        lemma_entries_view_push(before, e);
    }
}

/// A copy of each member.
pub fn clone_members(m: &Vec<(String, Json)>) -> (r: Vec<(String, Json)>)
    ensures
        entries_view(r@) == entries_view(m@),
{
    proof {
        lemma_entries_view(m@);
    }
    let mut out: Vec<(String, Json)> = Vec::new();
    let mut i: usize = 0;
    proof {
        lemma_entries_view(out@);
    }
    while i < m.len()
        invariant
            i <= m@.len(),
            entries_view(m@).len() == m@.len(),
            forall|k: int| 0 <= k < m@.len() ==> #[trigger] entries_view(m@)[k] == (m@[k].0@, json_view(m@[k].1)),
            entries_view(out@) == entries_view(m@).subrange(0, i as int),
        decreases m.len() - i,
    {
        let k = m[i].0.clone();
        let v = m[i].1.deep_clone();
        let ghost before = out@;
        out.push((k, v));
        proof {
            lemma_entries_view_push(before, (k, v));
            assert(entries_view(out@) =~= entries_view(m@).subrange(0, i + 1));
        }
        i = i + 1;
    }
    proof {
        assert(entries_view(m@).subrange(0, m@.len() as int) =~= entries_view(m@));
    }
    out
}

/// A copy of each value.
pub fn clone_jsons(v: &Vec<Json>) -> (r: Vec<Json>)
    ensures
        jsons_view(r@) == jsons_view(v@),
{
    proof {
        lemma_jsons_view(v@);
    }
    let mut out: Vec<Json> = Vec::new();
    let mut i: usize = 0;
    while i < v.len()
        invariant
            i <= v@.len(),
            jsons_view(v@).len() == v@.len(),
            forall|k: int| 0 <= k < v@.len() ==> #[trigger] jsons_view(v@)[k] == v@[k]@,
            jsons_view(out@) == jsons_view(v@).subrange(0, i as int),
        decreases v.len() - i,
    {
        let c = v[i].deep_clone();
        let ghost before = out@;
        out.push(c);
        proof {
            lemma_jsons_view_push(before, c);
            assert(jsons_view(out@) =~= jsons_view(v@).subrange(0, i + 1));
        }
        i = i + 1;
    }
    proof {
        assert(jsons_view(v@).subrange(0, v@.len() as int) =~= jsons_view(v@));
    }
    out
}

/// The JSON number for a count.
pub fn json_count(n: usize) -> (r: Json)
    ensures
        r@ == JsonV::Number(nat_decimal(n as nat)),
{
    let digits = u64_decimal(n as u64);
    Json::Number(string_from_chars(&digits))
}

/// `map.insert(key, value)` on object members kept in key order.
pub fn obj_insert(entries: &mut Vec<(String, Json)>, key: String, value: Json)
    ensures
        entries_view(final(entries)@) == insert_spec(entries_view(old(entries)@), key@, value@),
{
    let ghost ev = entries_view(entries@);
    proof {
        lemma_entries_view(entries@);
        lemma_insert_position_bounds(ev, key@);
        assert(ev.subrange(0, ev.len() as int) =~= ev);
    }
    let mut i: usize = 0;
    while i < entries.len() && str_lt(entries[i].0.as_str(), key.as_str())
        invariant
            i <= entries@.len(),
            ev == entries_view(entries@),
            ev.len() == entries@.len(),
            forall|k: int| 0 <= k < entries@.len() ==> #[trigger] ev[k] == (entries@[k].0@, json_view(entries@[k].1)),
            insert_position(ev, key@) == i + insert_position(ev.subrange(i as int, ev.len() as int), key@),
        decreases entries.len() - i,
    {
        proof {
            let rest = ev.subrange(i as int, ev.len() as int);
            assert(rest.drop_first() =~= ev.subrange(i + 1, ev.len() as int));
            assert(rest[0] == ev[i as int]);
        }
        i = i + 1;
    }
    proof {
        let rest = ev.subrange(i as int, ev.len() as int);
        if i < ev.len() {
            assert(rest[0] == ev[i as int]);
        }
        assert(insert_position(ev, key@) == i);
    }
    if i < entries.len() && str_eq(entries[i].0.as_str(), key.as_str()) {
        let ghost kv = (key@, value@);
        entries.set(i, (key, value));
        proof {
            lemma_entries_view(entries@);
            assert(entries_view(entries@) =~= ev.update(i as int, kv));
        }
    } else {
        let ghost kv = (key@, value@);
        entries.insert(i, (key, value));
        proof {
            lemma_entries_view(entries@);
            assert(entries_view(entries@) =~= ev.insert(i as int, kv));
        }
    }
}


/// Lower-case hexadecimal digit of a value below 16.
pub open spec fn hex_lower(n: int) -> char {
    if n < 10 {
        (48 + n) as char
    } else {
        (87 + n) as char
    }
}

/// How a character appears inside a JSON string literal: `"` and `\` and the control
/// characters escaped (`\b \f \n \r \t` by name, others as `\u00xx`), everything else as
/// itself.
pub open spec fn escape_char(c: char) -> Seq<char> {
    if c == '"' {
        seq!['\\', '"']
    } else if c == '\\' {
        seq!['\\', '\\']
    } else if c == '\u{8}' {
        seq!['\\', 'b']
    } else if c == '\u{c}' {
        seq!['\\', 'f']
    } else if c == '\n' {
        seq!['\\', 'n']
    } else if c == '\r' {
        seq!['\\', 'r']
    } else if c == '\t' {
        seq!['\\', 't']
    } else if (c as u32) < 0x20 {
        seq!['\\', 'u', '0', '0', hex_lower(((c as u32) / 16) as int), hex_lower(((c as u32) % 16) as int)]
    } else {
        seq![c]
    }
}

/// The escaped characters of `s`.
pub open spec fn escaped(s: Seq<char>) -> Seq<char>
    decreases s.len(),
{
    if s.len() == 0 {
        Seq::empty()
    } else {
        escaped(s.drop_last()) + escape_char(s.last())
    }
}

/// A JSON string literal with the text `s`.
pub open spec fn quoted(s: Seq<char>) -> Seq<char> {
    seq!['"'] + escaped(s) + seq!['"']
}

/// The compact JSON text of a value (no whitespace; members in their order).
pub open spec fn json_text(v: JsonV) -> Seq<char>
    decreases v, 0int,
{
    match v {
        JsonV::Null => "null"@,
        JsonV::Bool(b) => if b {
            "true"@
        } else {
            "false"@
        },
        JsonV::Number(t) => t,
        JsonV::Str(s) => quoted(s),
        JsonV::Array(xs) => seq!['['] + items_text(xs) + seq![']'],
        JsonV::Object(es) => seq!['{'] + members_text(es) + seq!['}'],
    }
}

/// Array elements, comma-separated.
pub open spec fn items_text(xs: Seq<JsonV>) -> Seq<char>
    decreases xs, 1int,
{
    if xs.len() == 0 {
        Seq::empty()
    } else if xs.len() == 1 {
        json_text(xs[0])
    } else {
        items_text(xs.drop_last()) + seq![','] + json_text(xs.last())
    }
}

/// Object members as `"key":value`, comma-separated.
pub open spec fn members_text(es: Seq<(Seq<char>, JsonV)>) -> Seq<char>
    decreases es, 1int,
{
    if es.len() == 0 {
        Seq::empty()
    } else if es.len() == 1 {
        quoted(es[0].0) + seq![':'] + json_text(es[0].1)
    } else {
        members_text(es.drop_last()) + seq![','] + quoted(es.last().0) + seq![':'] + json_text(es.last().1)
    }
}

fn hex_lower_exec(n: u32) -> (c: char)
    requires
        n < 16,
    ensures
        c == hex_lower(n as int),
{
    if n == 0 { '0' } else if n == 1 { '1' } else if n == 2 { '2' } else if n == 3 { '3' }
    else if n == 4 { '4' } else if n == 5 { '5' } else if n == 6 { '6' } else if n == 7 { '7' }
    else if n == 8 { '8' } else if n == 9 { '9' } else if n == 10 { 'a' } else if n == 11 { 'b' }
    else if n == 12 { 'c' } else if n == 13 { 'd' } else if n == 14 { 'e' } else { 'f' }
}

/// Appends the JSON string literal of `s` to `out`.
pub fn write_quoted(s: &str, out: &mut String)
    ensures
        final(out)@ == old(out)@ + quoted(s@),
{
    let v = chars_of(s);
    let ghost start = out@;
    push_char(out, '"');
    let mut i: usize = 0;
    while i < v.len()
        invariant
            i <= v@.len(),
            v@ == s@,
            out@ == start + seq!['"'] + escaped(s@.subrange(0, i as int)),
        decreases v.len() - i,
    {
        let c = v[i];
        let ghost before = out@;
        if c == '"' {
            push_char(out, '\\');
            push_char(out, '"');
        } else if c == '\\' {
            push_char(out, '\\');
            push_char(out, '\\');
        } else if c == '\u{8}' {
            push_char(out, '\\');
            push_char(out, 'b');
        } else if c == '\u{c}' {
            push_char(out, '\\');
            push_char(out, 'f');
        } else if c == '\n' {
            push_char(out, '\\');
            push_char(out, 'n');
        } else if c == '\r' {
            push_char(out, '\\');
            push_char(out, 'r');
        } else if c == '\t' {
            push_char(out, '\\');
            push_char(out, 't');
        } else if (c as u32) < 0x20 {
            push_char(out, '\\');
            push_char(out, 'u');
            push_char(out, '0');
            push_char(out, '0');
            push_char(out, hex_lower_exec((c as u32) / 16));
            push_char(out, hex_lower_exec((c as u32) % 16));
        } else {
            push_char(out, c);
        }
        proof {
            assert(s@.subrange(0, i + 1).drop_last() =~= s@.subrange(0, i as int));
            assert(s@.subrange(0, i + 1).last() == c);
            assert(out@ =~= before + escape_char(c));
        }
        i = i + 1;
    }
    push_char(out, '"');
    proof {
        assert(s@.subrange(0, v@.len() as int) =~= s@);
        assert(out@ =~= start + quoted(s@));
    }
}

/// Appends the compact JSON text of `v` to `out`.
pub fn write_json(v: &Json, out: &mut String)
    ensures
        final(out)@ == old(out)@ + json_text(v@),
    decreases v, 0int,
{
    match v {
        Json::Null => {
            push_str(out, "null");
            proof {
                reveal_strlit("null");
            }
        },
        Json::Bool(b) => if *b {
            push_str(out, "true");
            proof {
                reveal_strlit("true");
            }
        } else {
            push_str(out, "false");
            proof {
                reveal_strlit("false");
            }
        },
        Json::Number(t) => push_str(out, t.as_str()),
        Json::Str(s) => write_quoted(s.as_str(), out),
        Json::Array(a) => {
            let ghost start = out@;
            push_char(out, '[');
            assert(decreases_to!(v => a));
            write_items(a, out);
            push_char(out, ']');
            proof {
                assert(out@ =~= start + json_text(v@));
            }
        },
        Json::Object(m) => {
            let ghost start = out@;
            push_char(out, '{');
            assert(decreases_to!(v => m));
            write_members(m, out);
            push_char(out, '}');
            proof {
                assert(out@ =~= start + json_text(v@));
            }
        },
    }
}

/// Appends the array elements of `a`, comma-separated.
pub fn write_items(a: &Vec<Json>, out: &mut String)
    ensures
        final(out)@ == old(out)@ + items_text(jsons_view(a@)),
    decreases a, 1int,
{
    proof {
        lemma_jsons_view(a@);
    }
    let ghost xs = jsons_view(a@);
    let ghost start = out@;
    let mut i: usize = 0;
    while i < a.len()
        invariant
            i <= a@.len(),
            xs == jsons_view(a@),
            xs.len() == a@.len(),
            forall|k: int| 0 <= k < a@.len() ==> #[trigger] xs[k] == json_view(a@[k]),
            out@ == start + items_text(xs.subrange(0, i as int)),
        decreases a.len() - i,
    {
        let ghost before = out@;
        if i > 0 {
            push_char(out, ',');
        }
        assert(decreases_to!(a => a@));
        assert(decreases_to!(a@ => a@[i as int]));
        write_json(&a[i], out);
        proof {
            let p = xs.subrange(0, i + 1);
            assert(p.drop_last() =~= xs.subrange(0, i as int));
            assert(p.last() == json_view(a@[i as int]));
            if i == 0 {
                assert(out@ =~= before + json_text(p[0]));
            } else {
                assert(out@ =~= before + seq![','] + json_text(p.last()));
            }
        }
        i = i + 1;
    }
    proof {
        assert(xs.subrange(0, xs.len() as int) =~= xs);
    }
}

/// Appends the members of `m` as `"key":value`, comma-separated.
pub fn write_members(m: &Vec<(String, Json)>, out: &mut String)
    ensures
        final(out)@ == old(out)@ + members_text(entries_view(m@)),
    decreases m, 1int,
{
    proof {
        lemma_entries_view(m@);
    }
    let ghost es = entries_view(m@);
    let ghost start = out@;
    let mut i: usize = 0;
    while i < m.len()
        invariant
            i <= m@.len(),
            es == entries_view(m@),
            es.len() == m@.len(),
            forall|k: int| 0 <= k < m@.len() ==> #[trigger] es[k] == (m@[k].0@, json_view(m@[k].1)),
            out@ == start + members_text(es.subrange(0, i as int)),
        decreases m.len() - i,
    {
        let ghost before = out@;
        if i > 0 {
            push_char(out, ',');
        }
        write_quoted(m[i].0.as_str(), out);
        push_char(out, ':');
        assert(decreases_to!(m => m@));
        assert(decreases_to!(m@ => m@[i as int]));
        assert(decreases_to!(m@[i as int] => m@[i as int].1));
        write_json(&m[i].1, out);
        proof {
            let p = es.subrange(0, i + 1);
            assert(p.drop_last() =~= es.subrange(0, i as int));
            assert(p.last() == (m@[i as int].0@, json_view(m@[i as int].1)));
            if i == 0 {
                assert(out@ =~= before + quoted(p[0].0) + seq![':'] + json_text(p[0].1));
            } else {
                assert(out@ =~= before + seq![','] + quoted(p.last().0) + seq![':'] + json_text(p.last().1));
            }
        }
        i = i + 1;
    }
    proof {
        assert(es.subrange(0, es.len() as int) =~= es);
    }
}

/// The compact JSON text of `v` (`serde_json::to_string`).
pub fn to_json_string(v: &Json) -> (r: String)
    ensures
        r@ == json_text(v@),
{
    let mut out = String::new();
    write_json(v, &mut out);
    proof {
        assert(out@ =~= json_text(v@));
    }
    out
}

/// The JSON text of `v` in the layout of Python's `json.dumps`.
pub open spec fn py_text(v: JsonV) -> Seq<char>
    decreases v, 0int,
{
    match v {
        JsonV::Null => "null"@,
        JsonV::Bool(b) => if b {
            "true"@
        } else {
            "false"@
        },
        JsonV::Number(t) => t,
        JsonV::Str(s) => quoted(s),
        JsonV::Array(xs) => seq!['['] + py_items_text(xs) + seq![']'],
        JsonV::Object(es) => seq!['{'] + py_members_text(es) + seq!['}'],
    }
}

/// Array elements, separated by `, `.
pub open spec fn py_items_text(xs: Seq<JsonV>) -> Seq<char>
    decreases xs, 1int,
{
    if xs.len() == 0 {
        Seq::empty()
    } else if xs.len() == 1 {
        py_text(xs[0])
    } else {
        py_items_text(xs.drop_last()) + seq![',', ' '] + py_text(xs.last())
    }
}

/// Object members as `"key": value`, separated by `, `.
pub open spec fn py_members_text(es: Seq<(Seq<char>, JsonV)>) -> Seq<char>
    decreases es, 1int,
{
    if es.len() == 0 {
        Seq::empty()
    } else if es.len() == 1 {
        quoted(es[0].0) + seq![':', ' '] + py_text(es[0].1)
    } else {
        py_members_text(es.drop_last()) + seq![',', ' '] + quoted(es.last().0) + seq![':', ' '] + py_text(es.last().1)
    }
}

/// Appends the Python-layout JSON text of `v` to `out`.
pub fn write_py(v: &Json, out: &mut String)
    ensures
        final(out)@ == old(out)@ + py_text(v@),
    decreases v, 0int,
{
    match v {
        Json::Null => {
            push_str(out, "null");
            proof {
                reveal_strlit("null");
            }
        },
        Json::Bool(b) => if *b {
            push_str(out, "true");
            proof {
                reveal_strlit("true");
            }
        } else {
            push_str(out, "false");
            proof {
                reveal_strlit("false");
            }
        },
        Json::Number(t) => push_str(out, t.as_str()),
        Json::Str(s) => write_quoted(s.as_str(), out),
        Json::Array(a) => {
            let ghost start = out@;
            push_char(out, '[');
            assert(decreases_to!(v => a));
            write_py_items(a, out);
            push_char(out, ']');
            proof {
                assert(out@ =~= start + py_text(v@));
            }
        },
        Json::Object(m) => {
            let ghost start = out@;
            push_char(out, '{');
            assert(decreases_to!(v => m));
            write_py_members(m, out);
            push_char(out, '}');
            proof {
                assert(out@ =~= start + py_text(v@));
            }
        },
    }
}

/// Appends the array elements of `a`, separated by `, `.
pub fn write_py_items(a: &Vec<Json>, out: &mut String)
    ensures
        final(out)@ == old(out)@ + py_items_text(jsons_view(a@)),
    decreases a, 1int,
{
    proof {
        lemma_jsons_view(a@);
    }
    let ghost xs = jsons_view(a@);
    let ghost start = out@;
    let mut i: usize = 0;
    while i < a.len()
        invariant
            i <= a@.len(),
            xs == jsons_view(a@),
            xs.len() == a@.len(),
            forall|k: int| 0 <= k < a@.len() ==> #[trigger] xs[k] == json_view(a@[k]),
            out@ == start + py_items_text(xs.subrange(0, i as int)),
        decreases a.len() - i,
    {
        let ghost before = out@;
        if i > 0 {
            push_char(out, ',');
            push_char(out, ' ');
        }
        assert(decreases_to!(a => a@));
        assert(decreases_to!(a@ => a@[i as int]));
        write_py(&a[i], out);
        proof {
            let p = xs.subrange(0, i + 1);
            assert(p.drop_last() =~= xs.subrange(0, i as int));
            assert(p.last() == json_view(a@[i as int]));
            if i == 0 {
                assert(out@ =~= before + py_text(p[0]));
            } else {
                assert(out@ =~= before + seq![',', ' '] + py_text(p.last()));
            }
        }
        i = i + 1;
    }
    proof {
        assert(xs.subrange(0, xs.len() as int) =~= xs);
    }
}

/// Appends the members of `m` as `"key": value`, separated by `, `.
pub fn write_py_members(m: &Vec<(String, Json)>, out: &mut String)
    ensures
        final(out)@ == old(out)@ + py_members_text(entries_view(m@)),
    decreases m, 1int,
{
    proof {
        lemma_entries_view(m@);
    }
    let ghost es = entries_view(m@);
    let ghost start = out@;
    let mut i: usize = 0;
    while i < m.len()
        invariant
            i <= m@.len(),
            es == entries_view(m@),
            es.len() == m@.len(),
            forall|k: int| 0 <= k < m@.len() ==> #[trigger] es[k] == (m@[k].0@, json_view(m@[k].1)),
            out@ == start + py_members_text(es.subrange(0, i as int)),
        decreases m.len() - i,
    {
        let ghost before = out@;
        if i > 0 {
            push_char(out, ',');
            push_char(out, ' ');
        }
        write_quoted(m[i].0.as_str(), out);
        push_char(out, ':');
        push_char(out, ' ');
        assert(decreases_to!(m => m@));
        assert(decreases_to!(m@ => m@[i as int]));
        assert(decreases_to!(m@[i as int] => m@[i as int].1));
        write_py(&m[i].1, out);
        proof {
            let p = es.subrange(0, i + 1);
            assert(p.drop_last() =~= es.subrange(0, i as int));
            assert(p.last() == (m@[i as int].0@, json_view(m@[i as int].1)));
            if i == 0 {
                assert(out@ =~= before + quoted(p[0].0) + seq![':', ' '] + py_text(p[0].1));
            } else {
                assert(out@ =~= before + seq![',', ' '] + quoted(p.last().0) + seq![':', ' '] + py_text(p.last().1));
            }
        }
        i = i + 1;
    }
    proof {
        assert(es.subrange(0, es.len() as int) =~= es);
    }
}

/// The JSON text of `v` as Python's `json.dumps` writes it: `, ` between elements and members,
/// `: ` after keys, scalars as in compact JSON.
pub fn python_json_text(v: &Json) -> (r: String)
    ensures
        r@ == py_text(v@),
{
    let mut out = String::new();
    write_py(v, &mut out);
    proof {
        assert(out@ =~= py_text(v@));
    }
    out
}

} // verus!
