//! Converting a placeholder document into a working document: the checks before a
//! conversion, the items by key, the package relationships of the note-citation links, and
//! the conversion's report.

use vstd::prelude::*;

use crate::clock::TokenCounter;
use crate::docx_body::{edit_first_body, insert_bibliography_placeholder, placeholder_para};
use crate::docx_working::{count_at, is_token, issued, replace_placeholders_with_note_links, replaced};
use crate::error::DomainError;
use crate::json::{entries_view, get_spec, insert_spec, json_count, jsons_view, obj_insert, push_member, Json, JsonV};
use crate::text::{chars_of, concat_str, nat_decimal, str_eq};
use crate::docx_body::{insert_static_bibliography, static_paras};
use crate::docx_inspect::unique_in_order;
use crate::docx_render::{
    all_keys, bibliography_of, build_bibliography_entries, entries_of, items_view, placeholders_view,
    replace_elem, replace_placeholders_in_element, BibliographyEntry, PlaceholderV, RenderedPlaceholder,
};
use crate::static_render::RenderedItem;
use crate::text::strings_view;
use crate::xml::{XElem, XNode, XmlElement};

verus! {

/// Whether a bibliography mode is one of `auto`, `none`.
pub open spec fn bibliography_mode_ok(mode: Seq<char>) -> bool {
    mode == "auto"@ || mode == "none"@
}

/// Refuses a bibliography mode other than `auto` or `none`.
pub fn check_bibliography_mode(mode: &str) -> (r: Result<(), DomainError>)
    ensures
        r is Ok <==> bibliography_mode_ok(mode@),
        r matches Err(e) ==> e.0@ == "Bibliography mode must be one of: auto, none."@,
{
    if str_eq(mode, "auto") || str_eq(mode, "none") {
        Ok(())
    } else {
        Err(DomainError::new("Bibliography mode must be one of: auto, none."))
    }
}

/// Whether a JSON number's text is a positive whole number.
pub open spec fn positive_count(v: Option<JsonV>) -> bool {
    match v {
        Some(JsonV::Number(t)) => t.len() > 0 && (forall|i: int| 0 <= i < t.len() ==> '0' <= #[trigger] t[i] <= '9')
            && exists|i: int| 0 <= i < t.len() && #[trigger] t[i] != '0',
        _ => false,
    }
}

/// The message for a validation that is not ready for `purpose`.
pub open spec fn not_ready_message(purpose: Seq<char>) -> Seq<char> {
    "DOCX placeholders are not ready for "@ + purpose + "."@
}

/// The message for a document without placeholders.
pub open spec fn no_placeholders_message() -> Seq<char> {
    "No Zotero placeholders were found. Use {{zotero:ITEMKEY}} or {{zotero:KEY1,KEY2}}."@
}

/// The validated items of a placeholder validation report, or why it cannot be converted:
/// it is not `ok`, or its `placeholder_count` is not a positive number.
pub open spec fn ready_items_spec(validation: JsonV, purpose: Seq<char>) -> Result<Seq<JsonV>, Seq<char>> {
    if get_spec(validation, "ok"@) != Some(JsonV::Bool(true)) {
        Err(not_ready_message(purpose))
    } else if !positive_count(get_spec(validation, "placeholder_count"@)) {
        Err(no_placeholders_message())
    } else {
        match get_spec(validation, "items"@) {
            Some(JsonV::Array(a)) => Ok(a),
            _ => Ok(Seq::empty()),
        }
    }
}

#[verifier::loop_isolation(false)]
fn positive_count_exec(v: Option<&Json>) -> (b: bool)
    ensures
        b == positive_count(crate::json::opt_view(v)),
{
    match v {
        Some(Json::Number(t)) => {
            let cs = chars_of(t.as_str());
            if cs.len() == 0 {
                return false;
            }
            let mut nonzero = false;
            let mut i: usize = 0;
            while i < cs.len()
                invariant
                    i <= cs@.len(),
                    cs@ == t@,
                    forall|j: int| 0 <= j < i ==> '0' <= #[trigger] cs@[j] <= '9',
                    nonzero == exists|j: int| 0 <= j < i && #[trigger] cs@[j] != '0',
                decreases cs.len() - i,
            {
                if !('0' <= cs[i] && cs[i] <= '9') {
                    proof {
                        assert(!('0' <= t@[i as int] <= '9'));
                    }
                    return false;
                }
                if cs[i] != '0' {
                    nonzero = true;
                }
                i = i + 1;
            }
            proof {
                assert(i == cs@.len());
                assert(crate::json::opt_view(v) == Some(JsonV::Number(t@)));
                assert(t@.len() > 0);
                assert(forall|j: int| 0 <= j < t@.len() ==> '0' <= #[trigger] t@[j] <= '9');
                if nonzero {
                    let j = choose|j: int| 0 <= j < cs@.len() && #[trigger] cs@[j] != '0';
                    assert(t@[j] != '0');
                } else {
                    assert(!exists|j: int| 0 <= j < t@.len() && #[trigger] t@[j] != '0');
                }
                assert(nonzero == positive_count(Some(JsonV::Number(t@))));
            }
            nonzero
        },
        _ => false,
    }
}

/// The validated items of a placeholder validation report, when it is ready for `purpose`.
pub fn ready_items(validation: &Json, purpose: &str) -> (r: Result<Vec<Json>, DomainError>)
    ensures
        match ready_items_spec(validation@, purpose@) {
            Ok(items) => r matches Ok(v) && jsons_view(v@) == items,
            Err(m) => r matches Err(e) && e.0@ == m,
        },
{
    let ok = match validation.get("ok") {
        Some(v) => v.as_bool() == Some(true),
        None => false,
    };
    if !ok {
        let msg = concat_str("DOCX placeholders are not ready for ", purpose);
        return Err(DomainError::from_string(concat_str(msg.as_str(), ".")));
    }
    if !positive_count_exec(validation.get("placeholder_count")) {
        return Err(DomainError::new("No Zotero placeholders were found. Use {{zotero:ITEMKEY}} or {{zotero:KEY1,KEY2}}."));
    }
    let empty: Vec<Json> = Vec::new();
    proof {
        assert(jsons_view(empty@) =~= Seq::<JsonV>::empty());
    }
    match validation.get("items") {
        Some(j) => match j.deep_clone() {
            Json::Array(v) => Ok(v),
            _ => Ok(empty),
        },
        _ => {
            proof {
                assert(jsons_view(Seq::<Json>::empty()) =~= Seq::<JsonV>::empty());
            }
            Ok(Vec::new())
        },
    }
}


/// The items by their `key` (a later item replaces an earlier one with the same key); items
/// without a string key are left out.
pub open spec fn keyed_items(items: Seq<JsonV>) -> Seq<(Seq<char>, JsonV)>
    decreases items.len(),
{
    if items.len() == 0 {
        Seq::empty()
    } else {
        let acc = keyed_items(items.drop_last());
        match get_spec(items.last(), "key"@) {
            Some(JsonV::Str(k)) => insert_spec(acc, k, items.last()),
            _ => acc,
        }
    }
}

/// The items by their `key`.
pub fn items_by_key(items: &Vec<Json>) -> (r: Vec<(String, Json)>)
    ensures
        entries_view(r@) == keyed_items(jsons_view(items@)),
{
    let ghost iv = jsons_view(items@);
    proof {
        crate::json::lemma_jsons_view(items@);
        assert(iv.subrange(0, 0) =~= Seq::<JsonV>::empty());
        assert(entries_view(Seq::<(String, Json)>::empty()) =~= Seq::<(Seq<char>, JsonV)>::empty());
    }
    let mut out: Vec<(String, Json)> = Vec::new();
    let mut i: usize = 0;
    while i < items.len()
        invariant
            i <= items@.len(),
            iv == jsons_view(items@),
            iv.len() == items@.len(),
            forall|k: int| 0 <= k < items@.len() ==> #[trigger] iv[k] == items@[k]@,
            entries_view(out@) == keyed_items(iv.subrange(0, i as int)),
        decreases items.len() - i,
    {
        proof {
            assert(iv.subrange(0, i + 1).drop_last() =~= iv.subrange(0, i as int));
            assert(iv.subrange(0, i + 1).last() == items@[i as int]@);
        }
        let item = &items[i];
        match item.get("key") {
            Some(Json::Str(k)) => {
                obj_insert(&mut out, k.clone(), item.deep_clone());
            },
            _ => {},
        }
        i = i + 1;
    }
    proof {
        assert(iv.subrange(0, iv.len() as int) =~= iv);
    }
    out
}

/// View of an optional element.
pub open spec fn opt_elem(o: Option<XmlElement>) -> Option<XElem> {
    match o {
        Some(e) => Some(e@),
        None => None,
    }
}

/// The relationship type of a hyperlink.
pub open spec fn hyperlink_rel_type() -> Seq<char> {
    "http://schemas.openxmlformats.org/officeDocument/2006/relationships/hyperlink"@
}

/// The package relationships namespace.
pub open spec fn package_rel_ns() -> Seq<char> {
    "http://schemas.openxmlformats.org/package/2006/relationships"@
}

/// A string member, or empty.
pub open spec fn str_or_empty(v: JsonV, key: Seq<char>) -> Seq<char> {
    match get_spec(v, key) {
        Some(JsonV::Str(s)) => s,
        _ => Seq::empty(),
    }
}

/// The relationship of a placeholder link: an external hyperlink, under the entry's
/// `relationship_id`, to `https://www.zotero.org/?` and its `placeholder_id`.
pub open spec fn relationship_elem(entry: JsonV) -> XElem {
    XElem {
        name: "Relationship"@,
        attrs: seq![
            ("Id"@, str_or_empty(entry, "relationship_id"@)),
            ("Type"@, hyperlink_rel_type()),
            ("Target"@, "https://www.zotero.org/?"@ + str_or_empty(entry, "placeholder_id"@)),
            ("TargetMode"@, "External"@),
        ],
        children: Seq::empty(),
    }
}

/// The relationships part `base` (a fresh `Relationships` element when there is none) with a
/// relationship appended for each entry.
pub open spec fn relationships_spec(base: Option<XElem>, entries: Seq<JsonV>) -> XElem {
    let b = match base {
        Some(r) => r,
        None => XElem { name: "Relationships"@, attrs: seq![("xmlns"@, package_rel_ns())], children: Seq::empty() },
    };
    XElem { children: b.children + entries.map_values(|e: JsonV| XNode::Element(relationship_elem(e))), ..b }
}

fn str_member_or_empty(v: &Json, key: &str) -> (r: String)
    ensures
        r@ == str_or_empty(v@, key@),
{
    match v.get(key) {
        Some(Json::Str(s)) => s.clone(),
        _ => String::new(),
    }
}

/// The relationships part with a hyperlink relationship for each placeholder entry.
pub fn add_relationships(base: Option<XmlElement>, entries: &Vec<Json>) -> (r: XmlElement)
    ensures
        r@ == relationships_spec(opt_elem(base), jsons_view(entries@)),
{
    let mut root = match base {
        Some(b) => b,
        None => {
            let mut attrs: Vec<(String, String)> = Vec::new();
            attrs.push(("xmlns".to_owned(), "http://schemas.openxmlformats.org/package/2006/relationships".to_owned()));
            let e = XmlElement::with_attributes("Relationships", attrs);
            proof {
                assert(e@.attrs =~= seq![("xmlns"@, package_rel_ns())]);
            }
            e
        },
    };
    let ghost r0 = root@;
    let ghost ev = jsons_view(entries@);
    proof {
        crate::json::lemma_jsons_view(entries@);
        assert(r0.children + ev.subrange(0, 0).map_values(|e: JsonV| XNode::Element(relationship_elem(e))) =~= r0.children);
    }
    let mut i: usize = 0;
    while i < entries.len()
        invariant
            i <= entries@.len(),
            ev == jsons_view(entries@),
            ev.len() == entries@.len(),
            forall|k: int| 0 <= k < entries@.len() ==> #[trigger] ev[k] == entries@[k]@,
            root@ == (XElem { children: r0.children + ev.subrange(0, i as int).map_values(|e: JsonV| XNode::Element(relationship_elem(e))), ..r0 }),
        decreases entries.len() - i,
    {
        let rid = str_member_or_empty(&entries[i], "relationship_id");
        let pid = str_member_or_empty(&entries[i], "placeholder_id");
        let target = concat_str("https://www.zotero.org/?", pid.as_str());
        let mut attrs: Vec<(String, String)> = Vec::new();
        attrs.push(("Id".to_owned(), rid));
        attrs.push(("Type".to_owned(), "http://schemas.openxmlformats.org/officeDocument/2006/relationships/hyperlink".to_owned()));
        attrs.push(("Target".to_owned(), target));
        attrs.push(("TargetMode".to_owned(), "External".to_owned()));
        let rel = XmlElement::with_attributes("Relationship", attrs);
        proof {
            assert(rel@ =~= relationship_elem(ev[i as int]));
        }
        root.add_element(rel);
        proof {
            assert(ev.subrange(0, i + 1).map_values(|e: JsonV| XNode::Element(relationship_elem(e)))
                =~= ev.subrange(0, i as int).map_values(|e: JsonV| XNode::Element(relationship_elem(e))).push(XNode::Element(relationship_elem(ev[i as int]))));
            assert(root@.children =~= r0.children + ev.subrange(0, i + 1).map_values(|e: JsonV| XNode::Element(relationship_elem(e))));
        }
        i = i + 1;
    }
    proof {
        assert(ev.subrange(0, ev.len() as int) =~= ev);
    }
    root
}


/// The number of keys cited by the placeholder records.
pub open spec fn citation_count(ps: Seq<JsonV>) -> nat
    decreases ps.len(),
{
    if ps.len() == 0 {
        0
    } else {
        citation_count(ps.drop_last()) + match get_spec(ps.last(), "keys"@) {
            Some(JsonV::Array(a)) => a.len(),
            _ => 0,
        }
    }
}

fn citation_count_exec(ps: &Vec<Json>) -> (r: Json)
    ensures
        r@ == JsonV::Number(nat_decimal(citation_count(jsons_view(ps@)))),
{
    let ghost pv = jsons_view(ps@);
    proof {
        crate::json::lemma_jsons_view(ps@);
        assert(pv.subrange(0, 0) =~= Seq::<JsonV>::empty());
    }
    let mut total: u128 = 0;
    let mut i: usize = 0;
    while i < ps.len()
        invariant
            i <= ps@.len(),
            pv == jsons_view(ps@),
            pv.len() == ps@.len(),
            forall|k: int| 0 <= k < ps@.len() ==> #[trigger] pv[k] == ps@[k]@,
            total == citation_count(pv.subrange(0, i as int)),
            total <= i * 0xFFFF_FFFF_FFFF_FFFFu128,
        decreases ps.len() - i,
    {
        proof {
            assert(pv.subrange(0, i + 1).drop_last() =~= pv.subrange(0, i as int));
            assert(pv.subrange(0, i + 1).last() == ps@[i as int]@);
        }
        let n: usize = match ps[i].get("keys") {
            Some(j) => match j.as_array() {
                Some(a) => {
                    proof {
                        crate::json::lemma_jsons_view(a@);
                    }
                    a.len()
                },
                None => 0,
            },
            None => 0,
        };
        proof {
            assert(n <= 0xFFFF_FFFF_FFFF_FFFFu128);
            assert(i * 0xFFFF_FFFF_FFFF_FFFFu128 + 0xFFFF_FFFF_FFFF_FFFFu128 == (i + 1) * 0xFFFF_FFFF_FFFF_FFFFu128) by (nonlinear_arith);
            assert((i + 1) * 0xFFFF_FFFF_FFFF_FFFFu128 <= 0x1_0000_0000_0000_0000 * 0xFFFF_FFFF_FFFF_FFFFu128) by (nonlinear_arith)
                requires
                    i < 0x1_0000_0000_0000_0000;
        }
        total = total + n as u128;
        i = i + 1;
    }
    proof {
        assert(pv.subrange(0, pv.len() as int) =~= pv);
    }
    Json::Number(crate::text::string_from_chars(&crate::text::u128_decimal(total)))
}

/// The report of a bibliography placeholder.
pub open spec fn bib_placeholder_json(placeholder_id: Seq<char>, relationship_id: Seq<char>, placement: Seq<char>) -> JsonV {
    JsonV::Object(seq![
        ("placeholder_id"@, JsonV::Str(placeholder_id)),
        ("placement"@, JsonV::Str(placement)),
        ("relationship_id"@, JsonV::Str(relationship_id)),
    ])
}

/// The report of a working-document conversion.
pub open spec fn working_report(
    path: Seq<char>,
    output: Seq<char>,
    ps: Seq<JsonV>,
    bibliography: Seq<char>,
    bib: Option<JsonV>,
    items: Seq<JsonV>,
) -> JsonV {
    JsonV::Object(seq![
        ("bibliography"@, JsonV::Str(bibliography)),
        ("bibliography_placeholder"@, match bib {
            Some(b) => b,
            None => JsonV::Null,
        }),
        ("citation_count"@, JsonV::Number(nat_decimal(citation_count(ps)))),
        ("items"@, JsonV::Array(items)),
        ("ok"@, JsonV::Bool(true)),
        ("output"@, JsonV::Str(output)),
        ("path"@, JsonV::Str(path)),
        ("placeholder_count"@, JsonV::Number(nat_decimal(ps.len()))),
        ("placeholders"@, JsonV::Array(ps)),
    ])
}


/// View of an optional value.
pub open spec fn opt_json(o: Option<Json>) -> Option<JsonV> {
    match o {
        Some(j) => Some(j@),
        None => None,
    }
}

fn bib_json(b: crate::docx_body::BibliographyPlaceholder) -> (r: Json)
    ensures
        r@ == bib_placeholder_json(b.placeholder_id@, b.relationship_id@, b.placement@),
{
    let mut m: Vec<(String, Json)> = Vec::new();
    m.push(("placeholder_id".to_owned(), Json::Str(b.placeholder_id)));
    m.push(("placement".to_owned(), Json::Str(b.placement)));
    m.push(("relationship_id".to_owned(), Json::Str(b.relationship_id)));
    proof {
        reveal_with_fuel(entries_view, 4);
        assert(entries_view(m@) =~= seq![
            ("placeholder_id"@, JsonV::Str(b.placeholder_id@)),
            ("placement"@, JsonV::Str(b.placement@)),
            ("relationship_id"@, JsonV::Str(b.relationship_id@)),
        ]);
    }
    Json::Object(m)
}

fn rel_entries(placeholders: &Vec<Json>, bib: &Option<Json>) -> (r: Vec<Json>)
    ensures
        jsons_view(r@) == match opt_json(*bib) {
            Some(bj) => jsons_view(placeholders@).push(bj),
            None => jsons_view(placeholders@),
        },
{
    let mut entries = crate::json::clone_jsons(placeholders);
    match bib {
        Some(bj) => {
            let c = bj.deep_clone();
            let ghost before = entries@;
            entries.push(c);
            proof {
                crate::json::lemma_jsons_view_push(before, c);
            }
        },
        None => {},
    }
    entries
}

#[verifier::rlimit(60)]
fn working_report_exec(
    path: &str,
    output: &str,
    placeholders: Vec<Json>,
    bibliography: &str,
    bib: Option<Json>,
    items: Vec<Json>,
) -> (r: Json)
    ensures
        r@ == working_report(path@, output@, jsons_view(placeholders@), bibliography@, opt_json(bib), jsons_view(items@)),
{
    let bib_report = match bib {
        Some(bj) => bj,
        None => Json::Null,
    };
    let count = citation_count_exec(&placeholders);
    let n = placeholders.len();
    proof {
        crate::json::lemma_jsons_view(placeholders@);
    }
    let mut report: Vec<(String, Json)> = Vec::new();
    report.push(("bibliography".to_owned(), Json::Str(bibliography.to_owned())));
    report.push(("bibliography_placeholder".to_owned(), bib_report));
    report.push(("citation_count".to_owned(), count));
    report.push(("items".to_owned(), Json::Array(items)));
    report.push(("ok".to_owned(), Json::Bool(true)));
    report.push(("output".to_owned(), Json::Str(output.to_owned())));
    report.push(("path".to_owned(), Json::Str(path.to_owned())));
    report.push(("placeholder_count".to_owned(), json_count(n)));
    report.push(("placeholders".to_owned(), Json::Array(placeholders)));
    proof {
        reveal_with_fuel(entries_view, 10);
        let w = working_report(path@, output@, jsons_view(placeholders@), bibliography@, opt_json(bib), jsons_view(items@));
        assert(entries_view(report@) =~= w->Object_0);
    }
    Json::Object(report)
}

/// What converting the document `root` gives with the tokens `ts`: the placeholders take the
/// tokens from the front, and in `auto` mode the bibliography placeholder takes the next
/// one. The result is the document, its relationships part and the report; or the error.
pub open spec fn working_outcome(
    root: XElem,
    items: Seq<JsonV>,
    rels: Option<XElem>,
    path: Seq<char>,
    output: Seq<char>,
    bibliography: Seq<char>,
    ts: Seq<Seq<char>>,
) -> Result<(XElem, XElem, JsonV), Seq<char>> {
    if !bibliography_mode_ok(bibliography) {
        Err("Bibliography mode must be one of: auto, none."@)
    } else {
        match crate::docx_working::work_elem(root, ts, keyed_items(items)) {
            Err(m) => Err(m),
            Ok((r1, ps, u)) => {
                let placed: Result<(XElem, Option<JsonV>), Seq<char>> = if bibliography == "auto"@ {
                    let t = ts[u as int];
                    let pid = "ZOTERO_CLI_BIBLIOGRAPHY_"@ + t;
                    let rid = "rIdZoteroCliBib"@ + t.subrange(0, 16);
                    match edit_first_body(r1, seq![XNode::Element(placeholder_para(rid, pid))]) {
                        Some((r2, h)) => Ok((r2, Some(bib_placeholder_json(pid, rid, if h {
                            "after-existing-heading"@
                        } else {
                            "appended-heading"@
                        })))),
                        None => Err("DOCX document.xml has no w:body element."@),
                    }
                } else {
                    Ok((r1, None))
                };
                match placed {
                    Err(m) => Err(m),
                    Ok((r2, b)) => Ok((
                        r2,
                        relationships_spec(rels, match b {
                            Some(bj) => ps.push(bj),
                            None => ps,
                        }),
                        working_report(path, output, ps, bibliography, b, items),
                    )),
                }
            },
        }
    }
}

/// The number of tokens a successful conversion takes: one per placeholder, and one more
/// for the bibliography placeholder in `auto` mode.
pub open spec fn working_tokens(root: XElem, items: Seq<JsonV>, bibliography: Seq<char>, ts: Seq<Seq<char>>) -> nat {
    match crate::docx_working::work_elem(root, ts, keyed_items(items)) {
        Ok((_, _, u)) => if bibliography == "auto"@ {
            u + 1
        } else {
            u
        },
        Err(_) => 0,
    }
}

/// Converts the placeholder document `root` (whose validated `items` came from a placeholder
/// validation) into a working document: its placeholders become note-citation links (see
/// `replace_placeholders_with_note_links`), in `auto` mode a bibliography placeholder is
/// added, and the relationships part `rels` (a fresh one when the package has none) gets a
/// hyperlink relationship for each link. Returns the relationships part and the report.
#[verifier::rlimit(60)]
pub fn build_working_docx(
    items: Vec<Json>,
    root: &mut XmlElement,
    rels: Option<XmlElement>,
    path: &str,
    output: &str,
    bibliography: &str,
    counter: &mut TokenCounter,
) -> (r: Result<(XmlElement, Json), DomainError>)
    ensures
        exists|ts: Seq<Seq<char>>|
            #[trigger] issued(ts, old(counter).next)
            && final(counter).next as nat == count_at(old(counter).next, ts.len() as int)
            && match r {
                Ok((rels2, report)) => ts.len() == working_tokens(old(root)@, jsons_view(items@), bibliography@, ts)
                    && working_outcome(old(root)@, jsons_view(items@), opt_elem(rels), path@, output@, bibliography@, ts) == Ok::<(XElem, XElem, JsonV), Seq<char>>((final(root)@, rels2@, report@)),
                Err(e) => working_outcome(old(root)@, jsons_view(items@), opt_elem(rels), path@, output@, bibliography@, ts) == Err::<(XElem, XElem, JsonV), Seq<char>>(e.0@),
            },
{
    let ghost root0 = root@;
    let ghost c0 = counter.next;
    let ghost iv = jsons_view(items@);
    if let Err(e) = check_bibliography_mode(bibliography) {
        proof {
            let ts = Seq::<Seq<char>>::empty();
            crate::docx_working::lemma_count_zero(c0);
            assert(issued(ts, c0));
        }
        return Err(e);
    }
    let keyed = items_by_key(&items);
    let ghost kv = entries_view(keyed@);
    let res = replace_placeholders_with_note_links(root, &keyed, counter);
    let ghost ts1 = choose|ts: Seq<Seq<char>>|
        #[trigger] issued(ts, c0)
            && counter.next as nat == count_at(c0, ts.len() as int)
            && match res {
                Ok(ps) => replaced(root0, ts, kv, Ok((root@, jsons_view(ps@)))),
                Err(e) => replaced(root0, ts, kv, Err(e.0@)),
            };
    let placeholders = match res {
        Ok(ps) => ps,
        Err(e) => {
            return Err(e);
        },
    };
    let ghost r1 = root@;
    let ghost psv = jsons_view(placeholders@);
    let ghost cmid = counter.next;
    let mut bib: Option<Json> = None;
    let ghost mut ts = ts1;
    if str_eq(bibliography, "auto") {
        proof {
            crate::docx_working::lemma_count_zero(cmid);
        }
        let token = counter.next_token();
        proof {
            assert(is_token(token@, cmid as nat));
            crate::docx_working::lemma_token_len(token@, cmid as nat);
            crate::docx_working::lemma_count_step(c0, ts1.len() as int, cmid);
            assert(issued(seq![token@], cmid)) by {
                assert(seq![token@][0] == token@);
            }
            crate::docx_working::lemma_issued_append(ts1, seq![token@], c0);
            ts = ts1 + seq![token@];
            assert(ts.subrange(0, ts1.len() as int) =~= ts1);
            assert(ts1.subrange(0, ts1.len() as int) =~= ts1);
            crate::docx_working::lemma_work_elem_ext(root0, ts1, ts, kv);
            assert(ts[ts1.len() as int] == token@);
        }
        let placed = insert_bibliography_placeholder(root, token.as_str());
        match placed {
            Ok(b) => {
                bib = Some(bib_json(b));
            },
            Err(e) => {
                return Err(e);
            },
        }
    }
    let entries = rel_entries(&placeholders, &bib);
    let rels2 = add_relationships(rels, &entries);
    let report = working_report_exec(path, output, placeholders, bibliography, bib, items);
    Ok((rels2, report))
}


/// The message when the Local API cannot render citations.
pub open spec fn local_api_missing_message() -> Seq<char> {
    "Zotero Local API is not available after launching Zotero. Open Zotero, enable the Local API, then rerun this command."@
}

/// The validated items for static rendering, or why the document cannot be rendered.
pub open spec fn static_ready_spec(validation: JsonV, local_api_available: bool) -> Result<Seq<JsonV>, Seq<char>> {
    match ready_items_spec(validation, "static citation rendering"@) {
        Err(m) => Err(m),
        Ok(items) => if local_api_available {
            Ok(items)
        } else {
            Err(local_api_missing_message())
        },
    }
}

/// The validated items of a placeholder validation report, when its document can be rendered
/// statically through the Local API.
pub fn static_ready(validation: &Json, local_api_available: bool) -> (r: Result<Vec<Json>, DomainError>)
    ensures
        match static_ready_spec(validation@, local_api_available) {
            Ok(items) => r matches Ok(v) && jsons_view(v@) == items,
            Err(m) => r matches Err(e) && e.0@ == m,
        },
{
    let items = match ready_items(validation, "static citation rendering") {
        Ok(v) => v,
        Err(e) => return Err(e),
    };
    if !local_api_available {
        return Err(DomainError::new(
            "Zotero Local API is not available after launching Zotero. Open Zotero, enable the Local API, then rerun this command.",
        ));
    }
    Ok(items)
}

/// A field of a Local API payload: the object's string member, or the first element's; empty
/// otherwise.
pub open spec fn field_text(payload: JsonV, field: Seq<char>) -> Seq<char> {
    match get_spec(payload, field) {
        Some(JsonV::Str(s)) => s,
        _ => match payload {
            JsonV::Array(a) => if a.len() > 0 {
                str_or_empty(a[0], field)
            } else {
                Seq::empty()
            },
            _ => Seq::empty(),
        },
    }
}

/// The text of `field` in a Local API payload.
pub fn extract_field_text(payload: &Json, field: &str) -> (r: String)
    ensures
        r@ == field_text(payload@, field@),
{
    match payload.get(field) {
        Some(Json::Str(s)) => return s.clone(),
        _ => {},
    }
    match payload.as_array() {
        Some(a) => {
            proof {
                crate::json::lemma_jsons_view(a@);
            }
            if a.len() > 0 {
                str_member_or_empty(&a[0], field)
            } else {
                String::new()
            }
        },
        None => String::new(),
    }
}

/// An item rendered through the Local API: the plain text of its `citation` and `bib`.
pub fn rendered_item(citation_payload: &Json, bib_payload: &Json) -> (r: crate::static_render::RenderedItem)
    ensures
        r.citation@ == crate::static_render::plain_text_spec(field_text(citation_payload@, "citation"@)),
        r.bibliography@ == crate::static_render::plain_text_spec(field_text(bib_payload@, "bib"@)),
{
    let raw_citation = extract_field_text(citation_payload, "citation");
    let raw_bib = extract_field_text(bib_payload, "bib");
    crate::static_render::RenderedItem {
        citation: crate::static_render::plain_text(raw_citation.as_str()),
        bibliography: crate::static_render::plain_text(raw_bib.as_str()),
    }
}


/// What rendering the placeholders of `root` statically gives: the document, the rendered
/// placeholders, and (in `auto` mode) the bibliography entries added to it; or the error.
pub open spec fn static_outcome(
    root: XElem,
    items: Seq<(Seq<char>, Seq<char>, Seq<char>)>,
    bibliography: Seq<char>,
) -> Result<(XElem, Seq<PlaceholderV>, Seq<(Seq<char>, Seq<char>)>), Seq<char>> {
    if !bibliography_mode_ok(bibliography) {
        Err("Bibliography mode must be one of: auto, none."@)
    } else {
        match replace_elem(root, items) {
            Err(m) => Err(m),
            Ok((r1, ps)) => if bibliography == "auto"@ {
                let es = bibliography_of(unique_in_order(all_keys(ps)), items);
                if es.len() == 0 {
                    Ok((r1, ps, es))
                } else {
                    match edit_first_body(r1, static_paras(es)) {
                        Some((r2, _)) => Ok((r2, ps, es)),
                        None => Err("DOCX document.xml has no w:body element."@),
                    }
                }
            } else {
                Ok((r1, ps, Seq::empty()))
            },
        }
    }
}

/// Renders the placeholders of `root` as static citation text (`rendered_items` by item
/// key), and in `auto` mode adds a bibliography of the cited items in order of first
/// citation. Returns the rendered placeholders and the bibliography entries.
pub fn render_static_citations(
    root: &mut XmlElement,
    rendered_items: &Vec<(String, RenderedItem)>,
    bibliography: &str,
) -> (r: Result<(Vec<RenderedPlaceholder>, Vec<BibliographyEntry>), DomainError>)
    ensures
        match static_outcome(old(root)@, items_view(rendered_items@), bibliography@) {
            Ok((x, ps, es)) => r matches Ok(v) && final(root)@ == x && placeholders_view(v.0@) == ps && entries_of(v.1@) == es,
            Err(m) => r matches Err(e) && e.0@ == m,
        },
{
    if let Err(e) = check_bibliography_mode(bibliography) {
        return Err(e);
    }
    let mut placeholders: Vec<RenderedPlaceholder> = Vec::new();
    proof {
        assert(placeholders_view(placeholders@) =~= Seq::<PlaceholderV>::empty());
    }
    if let Err(e) = replace_placeholders_in_element(root, rendered_items, &mut placeholders) {
        return Err(e);
    }
    proof {
        assert(Seq::<PlaceholderV>::empty() + placeholders_view(placeholders@) =~= placeholders_view(placeholders@));
    }
    let mut entries: Vec<BibliographyEntry> = Vec::new();
    if str_eq(bibliography, "auto") {
        entries = build_bibliography_entries(rendered_items, &placeholders);
        if let Err(e) = insert_static_bibliography(root, &entries) {
            return Err(e);
        }
    } else {
        proof {
            assert(entries_of(entries@) =~= Seq::<(Seq<char>, Seq<char>)>::empty());
        }
    }
    Ok((placeholders, entries))
}

/// The report of a rendered placeholder: `citation`, `keys`, `raw`.
pub open spec fn placeholder_json(p: PlaceholderV) -> JsonV {
    JsonV::Object(seq![
        ("citation"@, JsonV::Str(p.2)),
        ("keys"@, JsonV::Array(p.1.map_values(|k: Seq<char>| JsonV::Str(k)))),
        ("raw"@, JsonV::Str(p.0)),
    ])
}

/// The reports of rendered placeholders.
pub fn placeholders_json(ps: &Vec<RenderedPlaceholder>) -> (r: Vec<Json>)
    ensures
        jsons_view(r@) == placeholders_view(ps@).map_values(|p: PlaceholderV| placeholder_json(p)),
{
    let ghost pv = placeholders_view(ps@);
    let mut out: Vec<Json> = Vec::new();
    let mut i: usize = 0;
    proof {
        assert(jsons_view(out@) =~= pv.subrange(0, 0).map_values(|p: PlaceholderV| placeholder_json(p)));
    }
    while i < ps.len()
        invariant
            i <= ps@.len(),
            pv == placeholders_view(ps@),
            jsons_view(out@) == pv.subrange(0, i as int).map_values(|p: PlaceholderV| placeholder_json(p)),
        decreases ps.len() - i,
    {
        let p = &ps[i];
        let mut keys: Vec<Json> = Vec::new();
        let mut j: usize = 0;
        let ghost kv = strings_view(p.keys@);
        proof {
            assert(jsons_view(keys@) =~= kv.subrange(0, 0).map_values(|k: Seq<char>| JsonV::Str(k)));
        }
        while j < p.keys.len()
            invariant
                j <= p.keys@.len(),
                kv == strings_view(p.keys@),
                jsons_view(keys@) == kv.subrange(0, j as int).map_values(|k: Seq<char>| JsonV::Str(k)),
            decreases p.keys.len() - j,
        {
            let ks = Json::Str(p.keys[j].clone());
            let ghost before = keys@;
            keys.push(ks);
            proof {
                crate::json::lemma_jsons_view_push(before, ks);
                assert(jsons_view(keys@) =~= kv.subrange(0, j + 1).map_values(|k: Seq<char>| JsonV::Str(k)));
            }
            j = j + 1;
        }
        proof {
            assert(kv.subrange(0, kv.len() as int) =~= kv);
        }
        let mut m: Vec<(String, Json)> = Vec::new();
        m.push(("citation".to_owned(), Json::Str(p.citation.clone())));
        m.push(("keys".to_owned(), Json::Array(keys)));
        m.push(("raw".to_owned(), Json::Str(p.raw.clone())));
        let pj = Json::Object(m);
        proof {
            reveal_with_fuel(entries_view, 4);
            assert(pv[i as int] == (p.raw@, kv, p.citation@));
            assert(entries_view(m@) =~= placeholder_json(pv[i as int])->Object_0);
        }
        let ghost before = out@;
        out.push(pj);
        proof {
            crate::json::lemma_jsons_view_push(before, pj);
            assert(jsons_view(out@) =~= pv.subrange(0, i + 1).map_values(|p: PlaceholderV| placeholder_json(p)));
        }
        i = i + 1;
    }
    proof {
        assert(pv.subrange(0, pv.len() as int) =~= pv);
    }
    out
}


/// A member of a report, or null.
pub open spec fn member_or_null(v: JsonV, key: Seq<char>) -> JsonV {
    match get_spec(v, key) {
        Some(x) => x,
        None => JsonV::Null,
    }
}

/// The parts of an inspection of the rendered document that a static rendering reports.
pub open spec fn inspection_summary(inspection: JsonV) -> JsonV {
    JsonV::Object(seq![
        ("field_count"@, member_or_null(inspection, "field_count"@)),
        ("field_counts"@, member_or_null(inspection, "field_counts"@)),
        ("static_citation_count"@, member_or_null(inspection, "static_citation_count"@)),
        ("systems"@, member_or_null(inspection, "systems"@)),
    ])
}

/// How Zotero was found for a static rendering: already running, with its Local API.
pub open spec fn startup_report() -> JsonV {
    JsonV::Object(seq![
        ("attempted"@, JsonV::Bool(false)),
        ("local_api_ready"@, JsonV::Bool(true)),
        ("ok"@, JsonV::Bool(true)),
        ("reason"@, JsonV::Str("local API already available"@)),
    ])
}

/// The notes of a static rendering.
pub open spec fn static_notes() -> JsonV {
    JsonV::Array(seq![
        JsonV::Str("Static citations were rendered as ordinary DOCX text."@),
        JsonV::Str("The output cannot be refreshed by the Zotero word processor plugin; rerender from the placeholder DOCX if citation data changes."@),
    ])
}

/// The report of a static rendering.
pub open spec fn static_report(
    input: Seq<char>,
    output: Seq<char>,
    style: Seq<char>,
    locale: Seq<char>,
    bibliography: Seq<char>,
    ps: Seq<PlaceholderV>,
    bibliography_count: nat,
    items: Seq<JsonV>,
    inspection: JsonV,
) -> JsonV {
    let pj = ps.map_values(|p: PlaceholderV| placeholder_json(p));
    JsonV::Object(seq![
        ("bibliography"@, JsonV::Str(bibliography)),
        ("bibliography_count"@, JsonV::Number(nat_decimal(bibliography_count))),
        ("citation_count"@, JsonV::Number(nat_decimal(citation_count(pj)))),
        ("input"@, JsonV::Str(input)),
        ("inspection"@, inspection_summary(inspection)),
        ("items"@, JsonV::Array(items)),
        ("locale"@, JsonV::Str(locale)),
        ("mode"@, JsonV::Str("static"@)),
        ("notes"@, static_notes()),
        ("ok"@, JsonV::Bool(true)),
        ("output"@, JsonV::Str(output)),
        ("placeholder_count"@, JsonV::Number(nat_decimal(ps.len()))),
        ("rendered_placeholders"@, JsonV::Array(pj)),
        ("style"@, JsonV::Str(style)),
        ("zotero_startup"@, startup_report()),
    ])
}

fn member_or_null_exec(v: &Json, key: &str) -> (r: Json)
    ensures
        r@ == member_or_null(v@, key@),
{
    match v.get(key) {
        Some(x) => x.deep_clone(),
        None => Json::Null,
    }
}

fn strs2(a: &str, b: &str) -> (r: Json)
    ensures
        r@ == JsonV::Array(seq![JsonV::Str(a@), JsonV::Str(b@)]),
{
    let mut v: Vec<Json> = Vec::new();
    v.push(Json::Str(a.to_owned()));
    v.push(Json::Str(b.to_owned()));
    proof {
        reveal_with_fuel(jsons_view, 3);
        assert(jsons_view(v@) =~= seq![JsonV::Str(a@), JsonV::Str(b@)]);
    }
    Json::Array(v)
}

fn inspection_summary_exec(inspection: &Json) -> (r: Json)
    ensures
        r@ == inspection_summary(inspection@),
{
    let mut m: Vec<(String, Json)> = Vec::new();
    m.push(("field_count".to_owned(), member_or_null_exec(inspection, "field_count")));
    m.push(("field_counts".to_owned(), member_or_null_exec(inspection, "field_counts")));
    m.push(("static_citation_count".to_owned(), member_or_null_exec(inspection, "static_citation_count")));
    m.push(("systems".to_owned(), member_or_null_exec(inspection, "systems")));
    proof {
        reveal_with_fuel(entries_view, 5);
        assert(entries_view(m@) =~= inspection_summary(inspection@)->Object_0);
    }
    Json::Object(m)
}

fn startup_report_exec() -> (r: Json)
    ensures
        r@ == startup_report(),
{
    let mut m: Vec<(String, Json)> = Vec::new();
    m.push(("attempted".to_owned(), Json::Bool(false)));
    m.push(("local_api_ready".to_owned(), Json::Bool(true)));
    m.push(("ok".to_owned(), Json::Bool(true)));
    m.push(("reason".to_owned(), Json::Str("local API already available".to_owned())));
    proof {
        reveal_with_fuel(entries_view, 5);
        assert(entries_view(m@) =~= startup_report()->Object_0);
    }
    Json::Object(m)
}

/// The report of a static rendering of `input` into `output`, with the validated `items`
/// and the `inspection` of the written output.
#[verifier::rlimit(60)]
pub fn static_citations_report(
    input: &str,
    output: &str,
    style: &str,
    locale: &str,
    bibliography: &str,
    placeholders: &Vec<RenderedPlaceholder>,
    bibliography_count: usize,
    items: Vec<Json>,
    inspection: &Json,
) -> (r: Json)
    ensures
        r@ == static_report(input@, output@, style@, locale@, bibliography@, placeholders_view(placeholders@),
            bibliography_count as nat, jsons_view(items@), inspection@),
{
    let pj = placeholders_json(placeholders);
    let count = citation_count_exec(&pj);
    let n = placeholders.len();
    proof {
        assert(placeholders_view(placeholders@).len() == placeholders@.len());
    }
    let mut m: Vec<(String, Json)> = Vec::new();
    proof {
        assert(entries_view(m@) =~= Seq::<(Seq<char>, JsonV)>::empty());
    }
    push_member(&mut m, "bibliography", Json::Str(bibliography.to_owned()));
    push_member(&mut m, "bibliography_count", json_count(bibliography_count));
    push_member(&mut m, "citation_count", count);
    push_member(&mut m, "input", Json::Str(input.to_owned()));
    push_member(&mut m, "inspection", inspection_summary_exec(inspection));
    push_member(&mut m, "items", Json::Array(items));
    push_member(&mut m, "locale", Json::Str(locale.to_owned()));
    push_member(&mut m, "mode", Json::Str("static".to_owned()));
    push_member(&mut m, "notes", strs2(
        "Static citations were rendered as ordinary DOCX text.",
        "The output cannot be refreshed by the Zotero word processor plugin; rerender from the placeholder DOCX if citation data changes.",
    ));
    push_member(&mut m, "ok", Json::Bool(true));
    push_member(&mut m, "output", Json::Str(output.to_owned()));
    push_member(&mut m, "placeholder_count", json_count(n));
    push_member(&mut m, "rendered_placeholders", Json::Array(pj));
    push_member(&mut m, "style", Json::Str(style.to_owned()));
    push_member(&mut m, "zotero_startup", startup_report_exec());
    proof {
        let w = static_report(input@, output@, style@, locale@, bibliography@, placeholders_view(placeholders@),
            bibliography_count as nat, jsons_view(items@), inspection@);
        assert(entries_view(m@) =~= w->Object_0);
    }
    Json::Object(m)
}

} // verus!
