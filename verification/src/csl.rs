//! CSL-JSON items converted to Zotero connector items.

use vstd::prelude::*;

use crate::json::{
    entries_view, get_spec, json_text, jsons_view, keys_ascending, lemma_insert, lemma_jsons_view,
    member, member_get, obj_insert, insert_spec, opt_view, to_json_string, Json, JsonV,
};
use crate::text::{
    join_spec, join_strings, lowercase, str_is_empty, nat_decimal, push_str, str_eq, string_from_chars,
    strings_view, to_lowercase, u64_decimal,
};

verus! {

/// Number texts that denote zero.
pub open spec fn is_zero_text(t: Seq<char>) -> bool {
    t == "0"@ || t == "0.0"@ || t == "-0.0"@
}

/// Python truthiness of an optional value: absent, null, `false`, zero, and empty strings,
/// arrays and objects are false.
pub open spec fn truthy(v: Option<JsonV>) -> bool {
    match v {
        None => false,
        Some(JsonV::Null) => false,
        Some(JsonV::Bool(b)) => b,
        Some(JsonV::Number(t)) => !is_zero_text(t),
        Some(JsonV::Str(s)) => s.len() != 0,
        Some(JsonV::Array(a)) => a.len() != 0,
        Some(JsonV::Object(o)) => o.len() != 0,
    }
}

/// Whether an optional value is truthy.
pub fn is_truthy(value: Option<&Json>) -> (b: bool)
    ensures
        b == truthy(opt_view(value)),
{
    proof {
        reveal_strlit("0");
        reveal_strlit("0.0");
        reveal_strlit("-0.0");
    }
    match value {
        None => false,
        Some(Json::Null) => false,
        Some(Json::Bool(b)) => *b,
        Some(Json::Number(t)) => !(str_eq(t.as_str(), "0") || str_eq(t.as_str(), "0.0") || str_eq(
            t.as_str(),
            "-0.0",
        )),
        Some(Json::Str(s)) => !str_is_empty(s.as_str()),
        Some(Json::Array(a)) => {
            proof {
                lemma_jsons_view(a@);
            }
            a.len() != 0
        },
        Some(Json::Object(o)) => {
            proof {
                crate::json::lemma_entries_view(o@);
            }
            o.len() != 0
        },
    }
}

/// The first truthy of two optional values.
pub open spec fn first_truthy_spec(a: Option<JsonV>, b: Option<JsonV>) -> Option<JsonV> {
    if truthy(a) {
        a
    } else if truthy(b) {
        b
    } else {
        None
    }
}

fn first_truthy<'a>(a: Option<&'a Json>, b: Option<&'a Json>) -> (r: Option<&'a Json>)
    ensures
        opt_view(r) == first_truthy_spec(opt_view(a), opt_view(b)),
{
    if is_truthy(a) {
        a
    } else if is_truthy(b) {
        b
    } else {
        None
    }
}

/// How Python's `str()` shows a value: a string as itself, a number by its text, `True`,
/// `False`, `None`, and anything else as compact JSON.
pub open spec fn py_string(v: JsonV) -> Seq<char> {
    match v {
        JsonV::Str(s) => s,
        JsonV::Number(t) => t,
        JsonV::Bool(b) => if b {
            "True"@
        } else {
            "False"@
        },
        JsonV::Null => "None"@,
        _ => json_text(v),
    }
}

/// Python's `str()` of a value.
pub fn value_to_python_string(value: &Json) -> (r: String)
    ensures
        r@ == py_string(value@),
{
    match value {
        Json::Str(s) => s.clone(),
        Json::Number(t) => t.clone(),
        Json::Bool(b) => if *b {
            "True".to_owned()
        } else {
            "False".to_owned()
        },
        Json::Null => "None".to_owned(),
        _ => to_json_string(value),
    }
}

/// The Zotero item type of a lower-cased CSL type (`journalArticle` for any other).
pub open spec fn csl_type_for(key: Seq<char>) -> Seq<char> {
    if key == "article-journal"@ {
        "journalArticle"@
    } else if key == "article-magazine"@ {
        "magazineArticle"@
    } else if key == "article-newspaper"@ {
        "newspaperArticle"@
    } else if key == "article"@ {
        "journalArticle"@
    } else if key == "book"@ {
        "book"@
    } else if key == "chapter"@ {
        "bookSection"@
    } else if key == "paper-conference"@ {
        "conferencePaper"@
    } else if key == "thesis"@ {
        "thesis"@
    } else if key == "report"@ {
        "report"@
    } else if key == "webpage"@ {
        "webpage"@
    } else if key == "post-weblog"@ {
        "blogPost"@
    } else if key == "post"@ {
        "forumPost"@
    } else if key == "manuscript"@ {
        "manuscript"@
    } else if key == "dataset"@ {
        "document"@
    } else if key == "software"@ {
        "computerProgram"@
    } else if key == "patent"@ {
        "patent"@
    } else if key == "bill"@ {
        "bill"@
    } else if key == "map"@ {
        "map"@
    } else if key == "motion_picture"@ {
        "film"@
    } else if key == "song"@ {
        "audioRecording"@
    } else if key == "speech"@ {
        "presentation"@
    } else if key == "entry-encyclopedia"@ {
        "encyclopediaArticle"@
    } else if key == "entry-dictionary"@ {
        "dictionaryEntry"@
    } else {
        "journalArticle"@
    }
}

fn csl_type_for_exec(key: &str) -> (r: &'static str)
    ensures
        r@ == csl_type_for(key@),
{
    if str_eq(key, "article-journal") {
        "journalArticle"
    } else if str_eq(key, "article-magazine") {
        "magazineArticle"
    } else if str_eq(key, "article-newspaper") {
        "newspaperArticle"
    } else if str_eq(key, "article") {
        "journalArticle"
    } else if str_eq(key, "book") {
        "book"
    } else if str_eq(key, "chapter") {
        "bookSection"
    } else if str_eq(key, "paper-conference") {
        "conferencePaper"
    } else if str_eq(key, "thesis") {
        "thesis"
    } else if str_eq(key, "report") {
        "report"
    } else if str_eq(key, "webpage") {
        "webpage"
    } else if str_eq(key, "post-weblog") {
        "blogPost"
    } else if str_eq(key, "post") {
        "forumPost"
    } else if str_eq(key, "manuscript") {
        "manuscript"
    } else if str_eq(key, "dataset") {
        "document"
    } else if str_eq(key, "software") {
        "computerProgram"
    } else if str_eq(key, "patent") {
        "patent"
    } else if str_eq(key, "bill") {
        "bill"
    } else if str_eq(key, "map") {
        "map"
    } else if str_eq(key, "motion_picture") {
        "film"
    } else if str_eq(key, "song") {
        "audioRecording"
    } else if str_eq(key, "speech") {
        "presentation"
    } else if str_eq(key, "entry-encyclopedia") {
        "encyclopediaArticle"
    } else if str_eq(key, "entry-dictionary") {
        "dictionaryEntry"
    } else {
        "journalArticle"
    }
}

/// The Zotero item type of a CSL `type` value (its text lower-cased; empty when it is
/// not a string).
pub open spec fn csl_type_spec(v: Option<JsonV>) -> Seq<char> {
    csl_type_for(
        lowercase(
            match v {
                Some(JsonV::Str(s)) => s,
                _ => Seq::empty(),
            },
        ),
    )
}

fn csl_type(value: Option<&Json>) -> (r: &'static str)
    ensures
        r@ == csl_type_spec(opt_view(value)),
{
    let text = match value {
        Some(Json::Str(s)) => s.as_str(),
        _ => "",
    };
    proof {
        reveal_strlit("");
        assert(""@ =~= Seq::<char>::empty());
    }
    let key = to_lowercase(text);
    csl_type_for_exec(key.as_str())
}

/// The Python strings of the non-null values of `s`, in order.
pub open spec fn non_null_strings(s: Seq<JsonV>) -> Seq<Seq<char>>
    decreases s.len(),
{
    if s.len() == 0 {
        Seq::empty()
    } else if s.last() is Null {
        non_null_strings(s.drop_last())
    } else {
        non_null_strings(s.drop_last()).push(py_string(s.last()))
    }
}

/// The Python strings of all values of `s`, in order.
pub open spec fn all_strings(s: Seq<JsonV>) -> Seq<Seq<char>>
    decreases s.len(),
{
    if s.len() == 0 {
        Seq::empty()
    } else {
        all_strings(s.drop_last()).push(py_string(s.last()))
    }
}

fn python_strings(values: &Vec<Json>, skip_null: bool) -> (r: Vec<String>)
    ensures
        strings_view(r@) == if skip_null {
            non_null_strings(jsons_view(values@))
        } else {
            all_strings(jsons_view(values@))
        },
{
    proof {
        lemma_jsons_view(values@);
    }
    let ghost xs = jsons_view(values@);
    let mut out: Vec<String> = Vec::new();
    let mut i: usize = 0;
    while i < values.len()
        invariant
            i <= values@.len(),
            xs == jsons_view(values@),
            xs.len() == values@.len(),
            forall|k: int| 0 <= k < values@.len() ==> #[trigger] xs[k] == values@[k]@,
            strings_view(out@) == if skip_null {
                non_null_strings(xs.subrange(0, i as int))
            } else {
                all_strings(xs.subrange(0, i as int))
            },
        decreases values.len() - i,
    {
        proof {
            assert(xs.subrange(0, i + 1).drop_last() =~= xs.subrange(0, i as int));
            assert(xs.subrange(0, i + 1).last() == values@[i as int]@);
        }
        if !(skip_null && values[i].is_null()) {
            let t = value_to_python_string(&values[i]);
            let ghost before = out@;
            out.push(t);
            proof {
                assert(strings_view(out@) =~= strings_view(before).push(t@));
            }
        }
        i = i + 1;
    }
    proof {
        assert(xs.subrange(0, xs.len() as int) =~= xs);
    }
    out
}

/// The date of a CSL `issued` value: the first truthy of `date-parts` and `raw`; a string
/// as it is; else the non-null parts of the first date, joined by `-`.
pub open spec fn issued_date_spec(issued: Option<JsonV>) -> Seq<char> {
    match issued {
        Some(JsonV::Object(o)) => match first_truthy_spec(member(o, "date-parts"@), member(o, "raw"@)) {
            Some(JsonV::Str(raw)) => raw,
            Some(JsonV::Array(xs)) => if xs.len() > 0 && xs[0] is Array {
                join_spec(non_null_strings(xs[0]->Array_0), "-"@)
            } else {
                Seq::empty()
            },
            _ => Seq::empty(),
        },
        _ => Seq::empty(),
    }
}

/// The date text of a CSL `issued` value.
pub fn issued_to_date(issued: Option<&Json>) -> (r: String)
    ensures
        r@ == issued_date_spec(opt_view(issued)),
{
    let obj = match issued {
        Some(Json::Object(o)) => o,
        _ => return String::new(),
    };
    let parts = match first_truthy(member_get(obj, "date-parts"), member_get(obj, "raw")) {
        Some(p) => p,
        None => return String::new(),
    };
    match parts {
        Json::Str(raw) => raw.clone(),
        Json::Array(xs) => {
            proof {
                lemma_jsons_view(xs@);
            }
            if xs.len() == 0 {
                return String::new();
            }
            match &xs[0] {
                Json::Array(first) => {
                    let strings = python_strings(first, true);
                    join_strings(&strings, "-")
                },
                _ => String::new(),
            }
        },
        _ => String::new(),
    }
}

/// The connector creator of one CSL name object: a literal name as `name`, else its
/// truthy `given` and `family` parts as first and last name.
pub open spec fn creator_for(o: Seq<(Seq<char>, JsonV)>) -> JsonV {
    if truthy(member(o, "literal"@)) {
        JsonV::Object(
            seq![("creatorType"@, JsonV::Str("author"@)), ("name"@, JsonV::Str(py_string(member(o, "literal"@).unwrap())))],
        )
    } else {
        JsonV::Object(
            seq![
                ("creatorType"@, JsonV::Str("author"@)),
                ("firstName"@, JsonV::Str(if truthy(member(o, "given"@)) { py_string(member(o, "given"@).unwrap()) } else { Seq::empty() })),
                ("lastName"@, JsonV::Str(if truthy(member(o, "family"@)) { py_string(member(o, "family"@).unwrap()) } else { Seq::empty() })),
            ],
        )
    }
}

/// The creators of the name objects among `xs`, in order (other values are skipped).
pub open spec fn creators_of(xs: Seq<JsonV>) -> Seq<JsonV>
    decreases xs.len(),
{
    if xs.len() == 0 {
        Seq::empty()
    } else {
        match xs.last() {
            JsonV::Object(o) => creators_of(xs.drop_last()).push(creator_for(o)),
            _ => creators_of(xs.drop_last()),
        }
    }
}

/// The creators of a CSL name list (none unless it is an array).
pub open spec fn creators_spec(authors: Option<JsonV>) -> Seq<JsonV> {
    match authors {
        Some(JsonV::Array(xs)) => creators_of(xs),
        _ => Seq::empty(),
    }
}

fn string_or_empty(v: Option<&Json>) -> (r: String)
    ensures
        r@ == if truthy(opt_view(v)) {
            py_string(opt_view(v).unwrap())
        } else {
            Seq::empty()
        },
{
    if is_truthy(v) {
        match v {
            Some(j) => value_to_python_string(j),
            None => String::new(),
        }
    } else {
        String::new()
    }
}

fn creator_from(o: &Vec<(String, Json)>) -> (r: Json)
    ensures
        r@ == creator_for(entries_view(o@)),
{
    let literal = member_get(o, "literal");
    if is_truthy(literal) {
        let name = string_or_empty(literal);
        let mut m: Vec<(String, Json)> = Vec::new();
        m.push(("creatorType".to_owned(), Json::Str("author".to_owned())));
        m.push(("name".to_owned(), Json::Str(name)));
        proof {
            assert(entries_view(m@) =~= seq![("creatorType"@, JsonV::Str("author"@)), ("name"@, JsonV::Str(name@))]) by {
                reveal_with_fuel(entries_view, 3);
            }
        }
        Json::Object(m)
    } else {
        let first = string_or_empty(member_get(o, "given"));
        let last = string_or_empty(member_get(o, "family"));
        let mut m: Vec<(String, Json)> = Vec::new();
        m.push(("creatorType".to_owned(), Json::Str("author".to_owned())));
        m.push(("firstName".to_owned(), Json::Str(first)));
        m.push(("lastName".to_owned(), Json::Str(last)));
        proof {
            assert(entries_view(m@) =~= seq![
                ("creatorType"@, JsonV::Str("author"@)),
                ("firstName"@, JsonV::Str(first@)),
                ("lastName"@, JsonV::Str(last@)),
            ]) by {
                reveal_with_fuel(entries_view, 4);
            }
        }
        Json::Object(m)
    }
}

fn authors_to_creators(authors: Option<&Json>) -> (r: Vec<Json>)
    ensures
        jsons_view(r@) == creators_spec(opt_view(authors)),
{
    let xs = match authors {
        Some(Json::Array(xs)) => xs,
        _ => return Vec::new(),
    };
    proof {
        lemma_jsons_view(xs@);
    }
    let ghost xv = jsons_view(xs@);
    let mut out: Vec<Json> = Vec::new();
    let mut i: usize = 0;
    while i < xs.len()
        invariant
            i <= xs@.len(),
            xv == jsons_view(xs@),
            xv.len() == xs@.len(),
            forall|k: int| 0 <= k < xs@.len() ==> #[trigger] xv[k] == xs@[k]@,
            jsons_view(out@) == creators_of(xv.subrange(0, i as int)),
        decreases xs.len() - i,
    {
        proof {
            assert(xv.subrange(0, i + 1).drop_last() =~= xv.subrange(0, i as int));
            assert(xv.subrange(0, i + 1).last() == xs@[i as int]@);
        }
        match &xs[i] {
            Json::Object(o) => {
                let c = creator_from(o);
                let ghost before = out@;
                out.push(c);
                proof {
                    crate::json::lemma_jsons_view_push(before, c);
                }
            },
            _ => {},
        }
        i = i + 1;
    }
    proof {
        assert(xv.subrange(0, xv.len() as int) =~= xv);
    }
    out
}

/// An `ISSN`/`ISBN` value as text: a string as it is, an array's Python strings joined by
/// commas, anything else as its Python string.
pub open spec fn identifier_list_spec(v: JsonV) -> Seq<char> {
    match v {
        JsonV::Str(s) => s,
        JsonV::Array(xs) => join_spec(all_strings(xs), ","@),
        _ => py_string(v),
    }
}

fn identifier_list(value: &Json) -> (r: String)
    ensures
        r@ == identifier_list_spec(value@),
{
    match value {
        Json::Str(s) => s.clone(),
        Json::Array(xs) => {
            let strings = python_strings(xs, false);
            join_strings(&strings, ",")
        },
        _ => value_to_python_string(value),
    }
}

/// Tag objects for the string values among `xs`, in order.
pub open spec fn tags_of(xs: Seq<JsonV>) -> Seq<JsonV>
    decreases xs.len(),
{
    if xs.len() == 0 {
        Seq::empty()
    } else {
        match xs.last() {
            JsonV::Str(s) => tags_of(xs.drop_last()).push(JsonV::Object(seq![("tag"@, JsonV::Str(s))])),
            _ => tags_of(xs.drop_last()),
        }
    }
}

/// The tags of a CSL item: the string values of the first truthy of `keyword` and
/// `categories`, when that is an array.
pub open spec fn tags_spec(item: Seq<(Seq<char>, JsonV)>) -> Seq<JsonV> {
    match first_truthy_spec(member(item, "keyword"@), member(item, "categories"@)) {
        Some(JsonV::Array(xs)) => tags_of(xs),
        _ => Seq::empty(),
    }
}

fn csl_tags(item: &Vec<(String, Json)>) -> (r: Vec<Json>)
    ensures
        jsons_view(r@) == tags_spec(entries_view(item@)),
{
    let xs = match first_truthy(member_get(item, "keyword"), member_get(item, "categories")) {
        Some(Json::Array(xs)) => xs,
        _ => return Vec::new(),
    };
    proof {
        lemma_jsons_view(xs@);
    }
    let ghost xv = jsons_view(xs@);
    let mut out: Vec<Json> = Vec::new();
    let mut i: usize = 0;
    while i < xs.len()
        invariant
            i <= xs@.len(),
            xv == jsons_view(xs@),
            xv.len() == xs@.len(),
            forall|k: int| 0 <= k < xs@.len() ==> #[trigger] xv[k] == xs@[k]@,
            jsons_view(out@) == tags_of(xv.subrange(0, i as int)),
        decreases xs.len() - i,
    {
        proof {
            assert(xv.subrange(0, i + 1).drop_last() =~= xv.subrange(0, i as int));
            assert(xv.subrange(0, i + 1).last() == xs@[i as int]@);
        }
        match &xs[i] {
            Json::Str(s) => {
                let mut m: Vec<(String, Json)> = Vec::new();
                m.push(("tag".to_owned(), Json::Str(s.clone())));
                let t = Json::Object(m);
                proof {
                    assert(entries_view(m@) =~= seq![("tag"@, JsonV::Str(s@))]) by {
                        reveal_with_fuel(entries_view, 2);
                    }
                }
                let ghost before = out@;
                out.push(t);
                proof {
                    crate::json::lemma_jsons_view_push(before, t);
                }
            },
            _ => {},
        }
        i = i + 1;
    }
    proof {
        assert(xv.subrange(0, xv.len() as int) =~= xv);
    }
    out
}

/// A member copied as a string field: present when the value is truthy, as its Python
/// string.
pub open spec fn string_field(v: Option<JsonV>) -> Option<JsonV> {
    if truthy(v) {
        Some(JsonV::Str(py_string(v.unwrap())))
    } else {
        None
    }
}

/// The member `k` of the connector item made from the CSL item `item` (the `index`th of
/// its batch).
pub open spec fn connector_member(item: Seq<(Seq<char>, JsonV)>, index: nat, k: Seq<char>) -> Option<JsonV> {
    if k == "itemType"@ {
        Some(JsonV::Str(csl_type_spec(member(item, "type"@))))
    } else if k == "title"@ {
        Some(
            JsonV::Str(
                match first_truthy_spec(member(item, "title"@), member(item, "container-title"@)) {
                    Some(v) => py_string(v),
                    None => "Untitled"@,
                },
            ),
        )
    } else if k == "id"@ {
        Some(JsonV::Str("cli-anything-csl-"@ + nat_decimal(index)))
    } else if k == "DOI"@ {
        string_field(first_truthy_spec(member(item, "DOI"@), member(item, "doi"@)))
    } else if k == "url"@ {
        string_field(first_truthy_spec(member(item, "URL"@), member(item, "url"@)))
    } else if k == "abstractNote"@ {
        if truthy(member(item, "abstract"@)) {
            member(item, "abstract"@)
        } else {
            None
        }
    } else if k == "publicationTitle"@ {
        string_field(member(item, "container-title"@))
    } else if k == "volume"@ {
        string_field(member(item, "volume"@))
    } else if k == "issue"@ {
        string_field(member(item, "issue"@))
    } else if k == "pages"@ {
        string_field(member(item, "page"@))
    } else if k == "publisher"@ {
        string_field(member(item, "publisher"@))
    } else if k == "language"@ {
        string_field(member(item, "language"@))
    } else if k == "ISSN"@ || k == "ISBN"@ {
        if truthy(member(item, k)) {
            Some(JsonV::Str(identifier_list_spec(member(item, k).unwrap())))
        } else {
            None
        }
    } else if k == "date"@ {
        let d = issued_date_spec(member(item, "issued"@));
        if d.len() != 0 {
            Some(JsonV::Str(d))
        } else {
            None
        }
    } else if k == "creators"@ {
        let c = creators_spec(first_truthy_spec(member(item, "author"@), member(item, "editor"@)));
        if c.len() != 0 {
            Some(JsonV::Array(c))
        } else {
            None
        }
    } else if k == "tags"@ {
        let t = tags_spec(item);
        if t.len() != 0 {
            Some(JsonV::Array(t))
        } else {
            None
        }
    } else {
        None
    }
}

/// The order in which the connector item's members are filled in.
pub open spec fn key_rank(k: Seq<char>) -> int {
    if k == "itemType"@ {
        0
    } else if k == "title"@ {
        1
    } else if k == "id"@ {
        2
    } else if k == "DOI"@ {
        3
    } else if k == "url"@ {
        4
    } else if k == "abstractNote"@ {
        5
    } else if k == "publicationTitle"@ {
        6
    } else if k == "volume"@ {
        7
    } else if k == "issue"@ {
        8
    } else if k == "pages"@ {
        9
    } else if k == "publisher"@ {
        10
    } else if k == "language"@ {
        11
    } else if k == "ISSN"@ {
        12
    } else if k == "ISBN"@ {
        13
    } else if k == "date"@ {
        14
    } else if k == "creators"@ {
        15
    } else if k == "tags"@ {
        16
    } else {
        17
    }
}

/// The members of the connector item filled in by the first `j` steps.
pub open spec fn connector_prefix(item: Seq<(Seq<char>, JsonV)>, index: nat, k: Seq<char>, j: int) -> Option<JsonV> {
    if key_rank(k) < j {
        connector_member(item, index, k)
    } else {
        None
    }
}

proof fn lemma_key_ranks()
    ensures
        key_rank("itemType"@) == 0,
        key_rank("title"@) == 1,
        key_rank("id"@) == 2,
        key_rank("DOI"@) == 3,
        key_rank("url"@) == 4,
        key_rank("abstractNote"@) == 5,
        key_rank("publicationTitle"@) == 6,
        key_rank("volume"@) == 7,
        key_rank("issue"@) == 8,
        key_rank("pages"@) == 9,
        key_rank("publisher"@) == 10,
        key_rank("language"@) == 11,
        key_rank("ISSN"@) == 12,
        key_rank("ISBN"@) == 13,
        key_rank("date"@) == 14,
        key_rank("creators"@) == 15,
        key_rank("tags"@) == 16,
{
    reveal_strlit("itemType");
    reveal_strlit("title");
    reveal_strlit("id");
    reveal_strlit("DOI");
    reveal_strlit("url");
    reveal_strlit("abstractNote");
    reveal_strlit("publicationTitle");
    reveal_strlit("volume");
    reveal_strlit("issue");
    reveal_strlit("pages");
    reveal_strlit("publisher");
    reveal_strlit("language");
    reveal_strlit("ISSN");
    reveal_strlit("ISBN");
    reveal_strlit("date");
    reveal_strlit("creators");
    reveal_strlit("tags");
    assert("itemType"@.len() == 8);
    assert("title"@.len() == 5);
    assert("id"@.len() == 2);
    assert("DOI"@.len() == 3);
    assert("url"@.len() == 3);
    assert("abstractNote"@.len() == 12);
    assert("publicationTitle"@.len() == 16);
    assert("volume"@.len() == 6);
    assert("issue"@.len() == 5);
    assert("pages"@.len() == 5);
    assert("publisher"@.len() == 9);
    assert("language"@.len() == 8);
    assert("ISSN"@.len() == 4);
    assert("ISBN"@.len() == 4);
    assert("date"@.len() == 4);
    assert("creators"@.len() == 8);
    assert("tags"@.len() == 4);
    assert("itemType"@[0] == 'i' && "itemType"@[1] == 't' && "itemType"@[2] == 'e');
    assert("title"@[0] == 't' && "title"@[1] == 'i' && "title"@[2] == 't');
    assert("id"@[0] == 'i' && "id"@[1] == 'd');
    assert("DOI"@[0] == 'D' && "DOI"@[1] == 'O' && "DOI"@[2] == 'I');
    assert("url"@[0] == 'u' && "url"@[1] == 'r' && "url"@[2] == 'l');
    assert("abstractNote"@[0] == 'a' && "abstractNote"@[1] == 'b' && "abstractNote"@[2] == 's');
    assert("publicationTitle"@[0] == 'p' && "publicationTitle"@[1] == 'u' && "publicationTitle"@[2] == 'b');
    assert("volume"@[0] == 'v' && "volume"@[1] == 'o' && "volume"@[2] == 'l');
    assert("issue"@[0] == 'i' && "issue"@[1] == 's' && "issue"@[2] == 's');
    assert("pages"@[0] == 'p' && "pages"@[1] == 'a' && "pages"@[2] == 'g');
    assert("publisher"@[0] == 'p' && "publisher"@[1] == 'u' && "publisher"@[2] == 'b');
    assert("language"@[0] == 'l' && "language"@[1] == 'a' && "language"@[2] == 'n');
    assert("ISSN"@[0] == 'I' && "ISSN"@[1] == 'S' && "ISSN"@[2] == 'S');
    assert("ISBN"@[0] == 'I' && "ISBN"@[1] == 'S' && "ISBN"@[2] == 'B');
    assert("date"@[0] == 'd' && "date"@[1] == 'a' && "date"@[2] == 't');
    assert("creators"@[0] == 'c' && "creators"@[1] == 'r' && "creators"@[2] == 'e');
    assert("tags"@[0] == 't' && "tags"@[1] == 'a' && "tags"@[2] == 'g');
}

/// Inserts `key` when `value` is present.
fn insert_opt(out: &mut Vec<(String, Json)>, key: &str, value: Option<Json>)
    requires
        keys_ascending(entries_view(old(out)@)),
    ensures
        keys_ascending(entries_view(final(out)@)),
        forall|k: Seq<char>|
            #[trigger] member(entries_view(final(out)@), k) == if k == key@ && value is Some {
                Some(value.unwrap()@)
            } else {
                member(entries_view(old(out)@), k)
            },
{
    match value {
        Some(v) => {
            proof {
                lemma_insert(entries_view(out@), key@, v@);
            }
            obj_insert(out, key.to_owned(), v);
        },
        None => {},
    }
}

fn string_field_exec(v: Option<&Json>) -> (r: Option<Json>)
    ensures
        match r {
            Some(j) => string_field(opt_view(v)) == Some(j@),
            None => string_field(opt_view(v)) is None,
        },
{
    if is_truthy(v) {
        match v {
            Some(j) => Some(Json::Str(value_to_python_string(j))),
            None => None,
        }
    } else {
        None
    }
}

/// Converts the `index`th CSL-JSON item of a batch to a Zotero connector item.
#[verifier::rlimit(60)]
pub fn csl_item_to_connector(item: &Vec<(String, Json)>, index: usize) -> (r: Vec<(String, Json)>)
    ensures
        keys_ascending(entries_view(r@)),
        forall|k: Seq<char>| #[trigger] member(entries_view(r@), k) == connector_member(entries_view(item@), index as nat, k),
{
    let ghost iv = entries_view(item@);
    let mut out: Vec<(String, Json)> = Vec::new();
    proof {
        assert(entries_view(out@) =~= Seq::<(Seq<char>, JsonV)>::empty());
        reveal_strlit("itemType");
        reveal_strlit("title");
        reveal_strlit("id");
        reveal_strlit("DOI");
        reveal_strlit("url");
        reveal_strlit("abstractNote");
        reveal_strlit("publicationTitle");
        reveal_strlit("volume");
        reveal_strlit("issue");
        reveal_strlit("pages");
        reveal_strlit("publisher");
        reveal_strlit("language");
        reveal_strlit("ISSN");
        reveal_strlit("ISBN");
        reveal_strlit("date");
        reveal_strlit("creators");
        reveal_strlit("tags");
        reveal_strlit("cli-anything-csl-");
        reveal_strlit("Untitled");
        assert forall|k: Seq<char>| #[trigger] member(entries_view(out@), k) == connector_prefix(iv, index as nat, k, 0) by {}
        lemma_key_ranks();
    }
    let item_type = csl_type(member_get(item, "type"));
    let ghost prev0 = out@;
    insert_opt(&mut out, "itemType", Some(Json::Str(item_type.to_owned())));
    proof {
        assert forall|k: Seq<char>| #[trigger] member(entries_view(out@), k) == connector_prefix(iv, index as nat, k, 1) by {
            assert(connector_prefix(iv, index as nat, k, 0) == member(entries_view(prev0), k));
        }
    }
    let title = match first_truthy(member_get(item, "title"), member_get(item, "container-title")) {
        Some(v) => value_to_python_string(v),
        None => "Untitled".to_owned(),
    };
    proof {
        assert(title@ == match first_truthy_spec(member(iv, "title"@), member(iv, "container-title"@)) {
            Some(v) => py_string(v),
            None => "Untitled"@,
        });
    }
    let ghost prev1 = out@;
    let ghost title_view = title@;
    insert_opt(&mut out, "title", Some(Json::Str(title)));
    proof {
        assert forall|k: Seq<char>| #[trigger] member(entries_view(out@), k) == connector_prefix(iv, index as nat, k, 2) by {
            assert(connector_prefix(iv, index as nat, k, 1) == member(entries_view(prev1), k));
        }
    }
    let digits = u64_decimal(index as u64);
    let mut id = "cli-anything-csl-".to_owned();
    let index_text = string_from_chars(&digits);
    push_str(&mut id, index_text.as_str());
    proof {
        assert(id@ == "cli-anything-csl-"@ + nat_decimal(index as nat));
    }
    let ghost prev2 = out@;
    insert_opt(&mut out, "id", Some(Json::Str(id)));
    proof {
        assert forall|k: Seq<char>| #[trigger] member(entries_view(out@), k) == connector_prefix(iv, index as nat, k, 3) by {
            assert(connector_prefix(iv, index as nat, k, 2) == member(entries_view(prev2), k));
        }
    }
    let ghost prev3 = out@;
    insert_opt(&mut out, "DOI", string_field_exec(first_truthy(member_get(item, "DOI"), member_get(item, "doi"))));
    proof {
        assert forall|k: Seq<char>| #[trigger] member(entries_view(out@), k) == connector_prefix(iv, index as nat, k, 4) by {
            assert(connector_prefix(iv, index as nat, k, 3) == member(entries_view(prev3), k));
        }
    }
    let ghost prev4 = out@;
    insert_opt(&mut out, "url", string_field_exec(first_truthy(member_get(item, "URL"), member_get(item, "url"))));
    proof {
        assert forall|k: Seq<char>| #[trigger] member(entries_view(out@), k) == connector_prefix(iv, index as nat, k, 5) by {
            assert(connector_prefix(iv, index as nat, k, 4) == member(entries_view(prev4), k));
        }
    }
    let abstract_value = member_get(item, "abstract");
    let abstract_note = if is_truthy(abstract_value) {
        match abstract_value {
            Some(a) => Some(a.deep_clone()),
            None => None,
        }
    } else {
        None
    };
    let ghost prev5 = out@;
    insert_opt(&mut out, "abstractNote", abstract_note);
    proof {
        assert forall|k: Seq<char>| #[trigger] member(entries_view(out@), k) == connector_prefix(iv, index as nat, k, 6) by {
            assert(connector_prefix(iv, index as nat, k, 5) == member(entries_view(prev5), k));
        }
    }
    let ghost prev6 = out@;
    insert_opt(&mut out, "publicationTitle", string_field_exec(member_get(item, "container-title")));
    proof {
        assert forall|k: Seq<char>| #[trigger] member(entries_view(out@), k) == connector_prefix(iv, index as nat, k, 7) by {
            assert(connector_prefix(iv, index as nat, k, 6) == member(entries_view(prev6), k));
        }
    }
    let ghost prev7 = out@;
    insert_opt(&mut out, "volume", string_field_exec(member_get(item, "volume")));
    proof {
        assert forall|k: Seq<char>| #[trigger] member(entries_view(out@), k) == connector_prefix(iv, index as nat, k, 8) by {
            assert(connector_prefix(iv, index as nat, k, 7) == member(entries_view(prev7), k));
        }
    }
    let ghost prev8 = out@;
    insert_opt(&mut out, "issue", string_field_exec(member_get(item, "issue")));
    proof {
        assert forall|k: Seq<char>| #[trigger] member(entries_view(out@), k) == connector_prefix(iv, index as nat, k, 9) by {
            assert(connector_prefix(iv, index as nat, k, 8) == member(entries_view(prev8), k));
        }
    }
    let ghost prev9 = out@;
    insert_opt(&mut out, "pages", string_field_exec(member_get(item, "page")));
    proof {
        assert forall|k: Seq<char>| #[trigger] member(entries_view(out@), k) == connector_prefix(iv, index as nat, k, 10) by {
            assert(connector_prefix(iv, index as nat, k, 9) == member(entries_view(prev9), k));
        }
    }
    let ghost prev10 = out@;
    insert_opt(&mut out, "publisher", string_field_exec(member_get(item, "publisher")));
    proof {
        assert forall|k: Seq<char>| #[trigger] member(entries_view(out@), k) == connector_prefix(iv, index as nat, k, 11) by {
            assert(connector_prefix(iv, index as nat, k, 10) == member(entries_view(prev10), k));
        }
    }
    let ghost prev11 = out@;
    insert_opt(&mut out, "language", string_field_exec(member_get(item, "language")));
    proof {
        assert forall|k: Seq<char>| #[trigger] member(entries_view(out@), k) == connector_prefix(iv, index as nat, k, 12) by {
            assert(connector_prefix(iv, index as nat, k, 11) == member(entries_view(prev11), k));
        }
    }
    let issn = member_get(item, "ISSN");
    let issn_value = if is_truthy(issn) {
        match issn {
            Some(v) => Some(Json::Str(identifier_list(v))),
            None => None,
        }
    } else {
        None
    };
    let ghost prev12 = out@;
    insert_opt(&mut out, "ISSN", issn_value);
    proof {
        assert forall|k: Seq<char>| #[trigger] member(entries_view(out@), k) == connector_prefix(iv, index as nat, k, 13) by {
            assert(connector_prefix(iv, index as nat, k, 12) == member(entries_view(prev12), k));
        }
    }
    let isbn = member_get(item, "ISBN");
    let isbn_value = if is_truthy(isbn) {
        match isbn {
            Some(v) => Some(Json::Str(identifier_list(v))),
            None => None,
        }
    } else {
        None
    };
    let ghost prev13 = out@;
    insert_opt(&mut out, "ISBN", isbn_value);
    proof {
        assert forall|k: Seq<char>| #[trigger] member(entries_view(out@), k) == connector_prefix(iv, index as nat, k, 14) by {
            assert(connector_prefix(iv, index as nat, k, 13) == member(entries_view(prev13), k));
        }
    }
    let date = issued_to_date(member_get(item, "issued"));
    let date_value = if !str_is_empty(date.as_str()) {
        Some(Json::Str(date))
    } else {
        None
    };
    let ghost prev14 = out@;
    insert_opt(&mut out, "date", date_value);
    proof {
        assert forall|k: Seq<char>| #[trigger] member(entries_view(out@), k) == connector_prefix(iv, index as nat, k, 15) by {
            assert(connector_prefix(iv, index as nat, k, 14) == member(entries_view(prev14), k));
        }
    }
    let creators = authors_to_creators(first_truthy(member_get(item, "author"), member_get(item, "editor")));
    let creators_value = if creators.len() != 0 {
        Some(Json::Array(creators))
    } else {
        None
    };
    let ghost prev15 = out@;
    insert_opt(&mut out, "creators", creators_value);
    proof {
        assert forall|k: Seq<char>| #[trigger] member(entries_view(out@), k) == connector_prefix(iv, index as nat, k, 16) by {
            assert(connector_prefix(iv, index as nat, k, 15) == member(entries_view(prev15), k));
        }
    }
    let tags = csl_tags(item);
    let tags_value = if tags.len() != 0 {
        Some(Json::Array(tags))
    } else {
        None
    };
    let ghost prev16 = out@;
    insert_opt(&mut out, "tags", tags_value);
    proof {
        assert forall|k: Seq<char>| #[trigger] member(entries_view(out@), k) == connector_prefix(iv, index as nat, k, 17) by {
            assert(connector_prefix(iv, index as nat, k, 16) == member(entries_view(prev16), k));
        }
    }
    proof {
        lemma_jsons_view(creators@);
        lemma_jsons_view(tags@);
        assert forall|k: Seq<char>| #[trigger] member(entries_view(out@), k) == connector_member(iv, index as nat, k) by {
            assert(member(entries_view(out@), k) == connector_prefix(iv, index as nat, k, 17));
        }
    }
    out
}

/// Whether an object looks like a CSL-JSON item rather than a Zotero item: not a Zotero
/// item (a truthy `itemType` with `creators` or `title`), with an identifying field and a
/// CSL-specific field.
pub open spec fn looks_like_csl_spec(v: JsonV) -> bool {
    match v {
        JsonV::Object(o) => {
            let has = |k: Seq<char>| member(o, k) is Some;
            let zotero_item = truthy(member(o, "itemType"@)) && (has("creators"@) || has("title"@));
            let has_identifier = truthy(member(o, "type"@)) || truthy(member(o, "DOI"@)) || truthy(
                member(o, "title"@),
            );
            let has_csl_signal = has("author"@) || has("issued"@) || has("container-title"@) || has(
                "id"@,
            ) || has("DOI"@);
            !zotero_item && has_identifier && has_csl_signal
        },
        _ => false,
    }
}

/// Whether `obj` looks like a CSL-JSON item.
pub fn looks_like_csl_item(obj: &Json) -> (b: bool)
    ensures
        b == looks_like_csl_spec(obj@),
{
    let o = match obj {
        Json::Object(o) => o,
        _ => return false,
    };
    if is_truthy(member_get(o, "itemType")) && (member_get(o, "creators").is_some() || member_get(
        o,
        "title",
    ).is_some()) {
        return false;
    }
    let has_identifier = is_truthy(member_get(o, "type")) || is_truthy(member_get(o, "DOI"))
        || is_truthy(member_get(o, "title"));
    let has_csl_signal = member_get(o, "author").is_some() || member_get(o, "issued").is_some()
        || member_get(o, "container-title").is_some() || member_get(o, "id").is_some()
        || member_get(o, "DOI").is_some();
    has_identifier && has_csl_signal
}

} // verus!
