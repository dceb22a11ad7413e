//! Context for a language model about one item, and the reading of the model's answer.
//!
//! The prompt context lists an item's header, creators, fields, links, attachments, notes
//! and exports, one line each; the answer is taken from a chat-completions reply, a
//! responses reply, or the text parts of its output, in that order.

use vstd::prelude::*;

use crate::db::{Creator, Item};
use crate::error::DomainError;
use crate::json::{
    as_str_spec, entries_view, get_spec, insert_spec, json_text, member, obj_insert, to_json_string,
    Json, JsonV,
};
use crate::text::{
    i64_to_string, int_decimal, join_spec, join_strings, nat_decimal, push_str, str_is_empty,
    strings_view, trim,
    trim_str,
};

verus! {

/// The parts of a creator's name that are present and non-empty, first name first.
pub open spec fn name_parts(c: Creator) -> Seq<Seq<char>> {
    let first = match c.first_name {
        Some(f) => if f@.len() > 0 {
            seq![f@]
        } else {
            Seq::empty()
        },
        None => Seq::empty(),
    };
    let last = match c.last_name {
        Some(l) => if l@.len() > 0 {
            seq![l@]
        } else {
            Seq::empty()
        },
        None => Seq::empty(),
    };
    first + last
}

/// A creator's display name: its name parts joined by a space, else its id in decimal.
pub open spec fn creator_name(c: Creator) -> Seq<char> {
    if name_parts(c).len() > 0 {
        join_spec(name_parts(c), " "@)
    } else {
        int_decimal(c.creator_id as int)
    }
}

/// The display names of creators, in order.
pub open spec fn creator_names(cs: Seq<Creator>) -> Seq<Seq<char>> {
    cs.map_values(|c: Creator| creator_name(c))
}

fn creator_display(c: &Creator) -> (r: String)
    ensures
        r@ == creator_name(*c),
{
    let mut parts: Vec<String> = Vec::new();
    match &c.first_name {
        Some(f) => if !str_is_empty(f.as_str()) {
            parts.push(f.clone());
        },
        None => {},
    }
    match &c.last_name {
        Some(l) => if !str_is_empty(l.as_str()) {
            parts.push(l.clone());
        },
        None => {},
    }
    proof {
        assert(strings_view(parts@) =~= name_parts(*c));
    }
    if parts.len() > 0 {
        join_strings(&parts, " ")
    } else {
        i64_to_string(c.creator_id)
    }
}

/// The creators of an item as one line: display names joined by a comma and a space
/// (empty without creators).
pub fn creator_line(creators: &Vec<Creator>) -> (r: String)
    ensures
        r@ == join_spec(creator_names(creators@), ", "@),
{
    let mut names: Vec<String> = Vec::new();
    let mut i: usize = 0;
    while i < creators.len()
        invariant
            i <= creators@.len(),
            strings_view(names@) == creator_names(creators@).subrange(0, i as int),
        decreases creators.len() - i,
    {
        let n = creator_display(&creators[i]);
        let ghost before = names@;
        names.push(n);
        proof {
            assert(strings_view(names@) =~= strings_view(before).push(n@));
            assert(creator_names(creators@)[i as int] == creator_name(creators@[i as int]));
            assert(strings_view(names@) =~= creator_names(creators@).subrange(0, i + 1));
        }
        i = i + 1;
    }
    proof {
        assert(creator_names(creators@).subrange(0, creators@.len() as int) =~= creator_names(creators@));
    }
    join_strings(&names, ", ")
}

/// The field values of an item as a map: each field inserted in turn, a later one of the
/// same name replacing an earlier.
pub open spec fn fields_map(fs: Seq<(String, String)>) -> Seq<(Seq<char>, JsonV)>
    decreases fs.len(),
{
    if fs.len() == 0 {
        Seq::empty()
    } else {
        insert_spec(fields_map(fs.drop_last()), fs.last().0@, JsonV::Str(fs.last().1@))
    }
}

/// The item's fields as object members in key order.
pub fn fields_object(fields: &Vec<(String, String)>) -> (r: Vec<(String, Json)>)
    ensures
        entries_view(r@) == fields_map(fields@),
{
    let mut out: Vec<(String, Json)> = Vec::new();
    let mut i: usize = 0;
    proof {
        assert(entries_view(out@) =~= Seq::<(Seq<char>, JsonV)>::empty());
        assert(fields@.subrange(0, 0) =~= Seq::<(String, String)>::empty());
    }
    while i < fields.len()
        invariant
            i <= fields@.len(),
            entries_view(out@) == fields_map(fields@.subrange(0, i as int)),
        decreases fields.len() - i,
    {
        proof {
            assert(fields@.subrange(0, i + 1).drop_last() =~= fields@.subrange(0, i as int));
            assert(fields@.subrange(0, i + 1).last() == fields@[i as int]);
        }
        obj_insert(&mut out, fields[i].0.clone(), Json::Str(fields[i].1.clone()));
        i = i + 1;
    }
    proof {
        assert(fields@.subrange(0, fields@.len() as int) =~= fields@);
    }
    out
}

/// A field's value by name, as the map holds it.
pub open spec fn field_value(fs: Seq<(String, String)>, key: Seq<char>) -> Option<JsonV> {
    member(fields_map(fs), key)
}

/// The string a field holds when it is a non-empty string.
pub open spec fn nonempty_str(v: Option<JsonV>) -> Option<Seq<char>> {
    match v {
        Some(JsonV::Str(s)) => if s.len() > 0 {
            Some(s)
        } else {
            None
        },
        _ => None,
    }
}

/// The DOI of an item: the `DOI` field when present, else the `doi` field, when that is a
/// non-empty string.
pub open spec fn item_doi(fs: Seq<(String, String)>) -> Option<Seq<char>> {
    match field_value(fs, "DOI"@) {
        Some(v) => nonempty_str(Some(v)),
        None => nonempty_str(field_value(fs, "doi"@)),
    }
}

/// The links of an item: its `url` when non-empty, and its DOI with the resolver URL built
/// from it.
pub open spec fn links_spec(fs: Seq<(String, String)>) -> Seq<(Seq<char>, JsonV)> {
    let with_url = match nonempty_str(field_value(fs, "url"@)) {
        Some(u) => insert_spec(Seq::empty(), "url"@, JsonV::Str(u)),
        None => Seq::empty(),
    };
    match item_doi(fs) {
        Some(d) => insert_spec(
            insert_spec(with_url, "doi"@, JsonV::Str(d)),
            "doi_url"@,
            JsonV::Str("https://doi.org/"@ + d),
        ),
        None => with_url,
    }
}

fn nonempty_member(m: &Vec<(String, Json)>, key: &str) -> (r: Option<String>)
    ensures
        match r {
            Some(s) => nonempty_str(member(entries_view(m@), key@)) == Some(s@),
            None => nonempty_str(member(entries_view(m@), key@)) is None,
        },
{
    match crate::json::member_get(m, key) {
        Some(Json::Str(s)) => if !str_is_empty(s.as_str()) {
            Some(s.clone())
        } else {
            None
        },
        _ => None,
    }
}

/// The links of an item (`url`, `doi`, `doi_url`) as object members in key order.
pub fn link_payload(item: &Item) -> (r: Vec<(String, Json)>)
    ensures
        entries_view(r@) == links_spec(item.fields@),
{
    let fields = fields_object(&item.fields);
    let mut links: Vec<(String, Json)> = Vec::new();
    proof {
        assert(entries_view(links@) =~= Seq::<(Seq<char>, JsonV)>::empty());
    }
    match nonempty_member(&fields, "url") {
        Some(u) => obj_insert(&mut links, "url".to_owned(), Json::Str(u)),
        None => {},
    }
    let doi = match crate::json::member_get(&fields, "DOI") {
        Some(_) => nonempty_member(&fields, "DOI"),
        None => nonempty_member(&fields, "doi"),
    };
    match doi {
        Some(d) => {
            let url = crate::text::concat_str("https://doi.org/", d.as_str());
            obj_insert(&mut links, "doi".to_owned(), Json::Str(d));
            obj_insert(&mut links, "doi_url".to_owned(), Json::Str(url));
        },
        None => {},
    }
    links
}

/// An attachment item with the path its file resolves to, when it does.
#[derive(Debug, Clone)]
pub struct ItemWithResolvedPath {
    pub item: Item,
    pub resolved_path: Option<String>,
}

/// The header lines: title, key, type, and the creators when there are any.
pub open spec fn header_lines(item: Item) -> Seq<Seq<char>> {
    let c = join_spec(creator_names(item.creators@), ", "@);
    seq!["Title: "@ + item.title@, "Item Key: "@ + item.key@, "Item Type: "@ + item.type_label@]
        + if c.len() > 0 {
        seq!["Creators: "@ + c]
    } else {
        Seq::empty()
    }
}

/// How a field's value is shown: nothing for null or an empty string, a string as it is,
/// anything else as its JSON text.
pub open spec fn field_text(v: JsonV) -> Option<Seq<char>> {
    match v {
        JsonV::Null => None,
        JsonV::Str(s) => if s.len() == 0 {
            None
        } else {
            Some(s)
        },
        _ => Some(json_text(v)),
    }
}

/// One line per shown field other than the title, in key order.
pub open spec fn field_lines(es: Seq<(Seq<char>, JsonV)>) -> Seq<Seq<char>>
    decreases es.len(),
{
    if es.len() == 0 {
        Seq::empty()
    } else {
        let k = es.last().0;
        field_lines(es.drop_last()) + if k == "title"@ {
            Seq::empty()
        } else {
            match field_text(es.last().1) {
                Some(t) => seq![k + ": "@ + t],
                None => Seq::empty(),
            }
        }
    }
}

/// A string value's text, else nothing.
pub open spec fn str_or_empty(v: JsonV) -> Seq<char> {
    match v {
        JsonV::Str(s) => s,
        _ => Seq::empty(),
    }
}

/// The line of a link.
pub open spec fn link_line(p: (Seq<char>, JsonV)) -> Seq<char> {
    "- "@ + p.0 + ": "@ + str_or_empty(p.1)
}

/// The links section: a heading and one line per link, or nothing without links.
pub open spec fn link_lines(es: Seq<(Seq<char>, JsonV)>) -> Seq<Seq<char>> {
    if es.len() == 0 {
        Seq::empty()
    } else {
        seq!["Links:"@] + es.map_values(|p: (Seq<char>, JsonV)| link_line(p))
    }
}

/// An item's title, or its key when the title is empty.
pub open spec fn title_or_key(i: Item) -> Seq<char> {
    if i.title@.len() > 0 {
        i.title@
    } else {
        i.key@
    }
}

/// Where an attachment's file is: its resolved path, else its stored path, else a marker.
pub open spec fn attachment_path_text(a: ItemWithResolvedPath) -> Seq<char> {
    match a.resolved_path {
        Some(p) => p@,
        None => match a.item.attachment_path {
            Some(p) => p@,
            None => "<missing>"@,
        },
    }
}

/// The line of an attachment.
pub open spec fn attachment_line(a: ItemWithResolvedPath) -> Seq<char> {
    "- "@ + title_or_key(a.item) + ": "@ + attachment_path_text(a)
}

/// The attachments section.
pub open spec fn attachment_lines(atts: Seq<ItemWithResolvedPath>) -> Seq<Seq<char>> {
    if atts.len() == 0 {
        Seq::empty()
    } else {
        seq!["Attachments:"@] + atts.map_values(|a: ItemWithResolvedPath| attachment_line(a))
    }
}

/// A note's text, or its preview when the text is empty.
pub open spec fn note_body(n: Item) -> Seq<char> {
    if n.note_text@.len() > 0 {
        n.note_text@
    } else {
        n.note_preview@
    }
}

/// The line of a note.
pub open spec fn note_line(n: Item) -> Seq<char> {
    "- "@ + title_or_key(n) + ": "@ + note_body(n)
}

/// The notes section.
pub open spec fn note_lines(notes: Seq<Item>) -> Seq<Seq<char>> {
    if notes.len() == 0 {
        Seq::empty()
    } else {
        seq!["Notes:"@] + notes.map_values(|n: Item| note_line(n))
    }
}

/// Each export: its format in brackets, then its content when that is a string.
pub open spec fn export_body(es: Seq<(Seq<char>, JsonV)>) -> Seq<Seq<char>>
    decreases es.len(),
{
    if es.len() == 0 {
        Seq::empty()
    } else {
        export_body(es.drop_last()) + seq![seq!['['] + es.last().0 + seq![']']] + match es.last().1 {
            JsonV::Str(c) => seq![c],
            _ => Seq::empty(),
        }
    }
}

/// The exports section.
pub open spec fn export_lines(es: Seq<(Seq<char>, JsonV)>) -> Seq<Seq<char>> {
    if es.len() == 0 {
        Seq::empty()
    } else {
        seq!["Exports:"@] + export_body(es)
    }
}

/// All lines of the prompt context, section by section.
pub open spec fn prompt_lines(
    item: Item,
    links: Seq<(Seq<char>, JsonV)>,
    atts: Seq<ItemWithResolvedPath>,
    notes: Seq<Item>,
    exports: Seq<(Seq<char>, JsonV)>,
) -> Seq<Seq<char>> {
    header_lines(item) + field_lines(fields_map(item.fields@)) + link_lines(links) + attachment_lines(atts)
        + note_lines(notes) + export_lines(exports)
}

fn push_line(lines: &mut Vec<String>, s: String)
    ensures
        strings_view(final(lines)@) == strings_view(old(lines)@).push(s@),
{
    lines.push(s);
    proof {
        assert(strings_view(lines@) =~= strings_view(old(lines)@).push(s@));
    }
}

fn line4(a: &str, b: &str, c: &str, d: &str) -> (r: String)
    ensures
        r@ == a@ + b@ + c@ + d@,
{
    let mut r = crate::text::concat3(a, b, c);
    push_str(&mut r, d);
    r
}

fn push_field_lines(lines: &mut Vec<String>, es: &Vec<(String, Json)>)
    ensures
        strings_view(final(lines)@) == strings_view(old(lines)@) + field_lines(entries_view(es@)),
{
    let ghost start = strings_view(lines@);
    let ghost ev = entries_view(es@);
    proof {
        crate::json::lemma_entries_view(es@);
        assert(ev.subrange(0, 0) =~= Seq::<(Seq<char>, JsonV)>::empty());
        assert(start + field_lines(ev.subrange(0, 0)) =~= start);
    }
    let mut i: usize = 0;
    while i < es.len()
        invariant
            i <= es@.len(),
            ev == entries_view(es@),
            ev.len() == es@.len(),
            forall|k: int| 0 <= k < es@.len() ==> #[trigger] ev[k] == (es@[k].0@, crate::json::json_view(es@[k].1)),
            strings_view(lines@) == start + field_lines(ev.subrange(0, i as int)),
        decreases es.len() - i,
    {
        proof {
            assert(ev.subrange(0, i + 1).drop_last() =~= ev.subrange(0, i as int));
            assert(ev.subrange(0, i + 1).last() == ev[i as int]);
        }
        let ghost before = strings_view(lines@);
        let k = es[i].0.as_str();
        if !crate::text::str_eq(k, "title") {
            let shown: Option<String> = match &es[i].1 {
                Json::Null => None,
                Json::Str(t) => if str_is_empty(t.as_str()) {
                    None
                } else {
                    Some(t.clone())
                },
                other => Some(to_json_string(other)),
            };
            match shown {
                Some(t) => push_line(lines, crate::text::concat3(k, ": ", t.as_str())),
                None => {},
            }
        }
        proof {
            assert(strings_view(lines@) =~= start + field_lines(ev.subrange(0, i + 1)));
        }
        i = i + 1;
    }
    proof {
        assert(ev.subrange(0, ev.len() as int) =~= ev);
    }
}

fn push_link_lines(lines: &mut Vec<String>, es: &Vec<(String, Json)>)
    ensures
        strings_view(final(lines)@) == strings_view(old(lines)@) + link_lines(entries_view(es@)),
{
    let ghost start = strings_view(lines@);
    let ghost ev = entries_view(es@);
    proof {
        crate::json::lemma_entries_view(es@);
    }
    if es.len() == 0 {
        proof {
            assert(start + link_lines(ev) =~= start);
        }
        return;
    }
    push_line(lines, "Links:".to_owned());
    let ghost head = strings_view(lines@);
    proof {
        assert(ev.subrange(0, 0).map_values(|p: (Seq<char>, JsonV)| link_line(p)) =~= Seq::<Seq<char>>::empty());
    }
    let mut i: usize = 0;
    while i < es.len()
        invariant
            i <= es@.len(),
            ev == entries_view(es@),
            ev.len() == es@.len(),
            forall|k: int| 0 <= k < es@.len() ==> #[trigger] ev[k] == (es@[k].0@, crate::json::json_view(es@[k].1)),
            strings_view(lines@) == head + ev.subrange(0, i as int).map_values(|p: (Seq<char>, JsonV)| link_line(p)),
        decreases es.len() - i,
    {
        let v: &str = match &es[i].1 {
            Json::Str(t) => t.as_str(),
            _ => "",
        };
        proof {
            assert(v@ == str_or_empty(ev[i as int].1)) by {
                reveal_strlit("");
            }
        }
        push_line(lines, line4("- ", es[i].0.as_str(), ": ", v));
        proof {
            assert(ev.subrange(0, i + 1).map_values(|p: (Seq<char>, JsonV)| link_line(p))
                =~= ev.subrange(0, i as int).map_values(|p: (Seq<char>, JsonV)| link_line(p)).push(link_line(ev[i as int])));
        }
        i = i + 1;
    }
    proof {
        assert(ev.subrange(0, ev.len() as int) =~= ev);
        assert(strings_view(lines@) =~= start + link_lines(ev));
    }
}

fn item_title_or_key(i: &Item) -> (r: &str)
    ensures
        r@ == title_or_key(*i),
{
    if str_is_empty(i.title.as_str()) {
        i.key.as_str()
    } else {
        i.title.as_str()
    }
}

fn push_attachment_lines(lines: &mut Vec<String>, atts: &Vec<ItemWithResolvedPath>)
    ensures
        strings_view(final(lines)@) == strings_view(old(lines)@) + attachment_lines(atts@),
{
    let ghost start = strings_view(lines@);
    if atts.len() == 0 {
        proof {
            assert(start + attachment_lines(atts@) =~= start);
        }
        return;
    }
    push_line(lines, "Attachments:".to_owned());
    let ghost head = strings_view(lines@);
    proof {
        assert(atts@.subrange(0, 0).map_values(|a: ItemWithResolvedPath| attachment_line(a)) =~= Seq::<Seq<char>>::empty());
    }
    let mut i: usize = 0;
    while i < atts.len()
        invariant
            i <= atts@.len(),
            strings_view(lines@) == head + atts@.subrange(0, i as int).map_values(|a: ItemWithResolvedPath| attachment_line(a)),
        decreases atts.len() - i,
    {
        let a = &atts[i];
        let path: &str = match &a.resolved_path {
            Some(p) => p.as_str(),
            None => match &a.item.attachment_path {
                Some(p) => p.as_str(),
                None => "<missing>",
            },
        };
        push_line(lines, line4("- ", item_title_or_key(&a.item), ": ", path));
        proof {
            assert(atts@.subrange(0, i + 1).map_values(|a: ItemWithResolvedPath| attachment_line(a))
                =~= atts@.subrange(0, i as int).map_values(|a: ItemWithResolvedPath| attachment_line(a)).push(attachment_line(atts@[i as int])));
        }
        i = i + 1;
    }
    proof {
        assert(atts@.subrange(0, atts@.len() as int) =~= atts@);
        assert(strings_view(lines@) =~= start + attachment_lines(atts@));
    }
}

fn push_note_lines(lines: &mut Vec<String>, notes: &Vec<Item>)
    ensures
        strings_view(final(lines)@) == strings_view(old(lines)@) + note_lines(notes@),
{
    let ghost start = strings_view(lines@);
    if notes.len() == 0 {
        proof {
            assert(start + note_lines(notes@) =~= start);
        }
        return;
    }
    push_line(lines, "Notes:".to_owned());
    let ghost head = strings_view(lines@);
    proof {
        assert(notes@.subrange(0, 0).map_values(|n: Item| note_line(n)) =~= Seq::<Seq<char>>::empty());
    }
    let mut i: usize = 0;
    while i < notes.len()
        invariant
            i <= notes@.len(),
            strings_view(lines@) == head + notes@.subrange(0, i as int).map_values(|n: Item| note_line(n)),
        decreases notes.len() - i,
    {
        let n = &notes[i];
        let body: &str = if str_is_empty(n.note_text.as_str()) {
            n.note_preview.as_str()
        } else {
            n.note_text.as_str()
        };
        push_line(lines, line4("- ", item_title_or_key(n), ": ", body));
        proof {
            assert(notes@.subrange(0, i + 1).map_values(|n: Item| note_line(n))
                =~= notes@.subrange(0, i as int).map_values(|n: Item| note_line(n)).push(note_line(notes@[i as int])));
        }
        i = i + 1;
    }
    proof {
        assert(notes@.subrange(0, notes@.len() as int) =~= notes@);
        assert(strings_view(lines@) =~= start + note_lines(notes@));
    }
}

fn push_export_lines(lines: &mut Vec<String>, es: &Vec<(String, Json)>)
    ensures
        strings_view(final(lines)@) == strings_view(old(lines)@) + export_lines(entries_view(es@)),
{
    let ghost start = strings_view(lines@);
    let ghost ev = entries_view(es@);
    proof {
        crate::json::lemma_entries_view(es@);
    }
    if es.len() == 0 {
        proof {
            assert(start + export_lines(ev) =~= start);
        }
        return;
    }
    push_line(lines, "Exports:".to_owned());
    let ghost head = strings_view(lines@);
    proof {
        assert(ev.subrange(0, 0) =~= Seq::<(Seq<char>, JsonV)>::empty());
        assert(head + export_body(ev.subrange(0, 0)) =~= head);
    }
    let mut i: usize = 0;
    while i < es.len()
        invariant
            i <= es@.len(),
            ev == entries_view(es@),
            ev.len() == es@.len(),
            forall|k: int| 0 <= k < es@.len() ==> #[trigger] ev[k] == (es@[k].0@, crate::json::json_view(es@[k].1)),
            strings_view(lines@) == head + export_body(ev.subrange(0, i as int)),
        decreases es.len() - i,
    {
        proof {
            assert(ev.subrange(0, i + 1).drop_last() =~= ev.subrange(0, i as int));
            assert(ev.subrange(0, i + 1).last() == ev[i as int]);
        }
        let ghost before = strings_view(lines@);
        let tag = crate::text::concat3("[", es[i].0.as_str(), "]");
        proof {
            reveal_strlit("[");
            reveal_strlit("]");
            assert(tag@ =~= seq!['['] + ev[i as int].0 + seq![']']);
        }
        push_line(lines, tag);
        match &es[i].1 {
            Json::Str(c) => push_line(lines, c.clone()),
            _ => {},
        }
        proof {
            let extra = match ev[i as int].1 {
                JsonV::Str(c) => seq![c],
                _ => Seq::<Seq<char>>::empty(),
            };
            assert(strings_view(lines@) =~= before + seq![tag@] + extra);
            assert(export_body(ev.subrange(0, i + 1)) == export_body(ev.subrange(0, i as int)) + seq![tag@] + extra);
            assert(strings_view(lines@) =~= head + export_body(ev.subrange(0, i + 1)));
        }
        i = i + 1;
    }
    proof {
        assert(ev.subrange(0, ev.len() as int) =~= ev);
        assert(strings_view(lines@) =~= start + export_lines(ev));
    }
}

/// The prompt context of an item: its lines joined by newlines, with surrounding
/// whitespace trimmed.
pub fn build_prompt_context(
    item: &Item,
    links: &Vec<(String, Json)>,
    attachments: &Vec<ItemWithResolvedPath>,
    notes: &Vec<Item>,
    exports: &Vec<(String, Json)>,
) -> (r: String)
    ensures
        r@ == trim(join_spec(prompt_lines(*item, entries_view(links@), attachments@, notes@, entries_view(exports@)), "\n"@)),
{
    let mut lines: Vec<String> = Vec::new();
    push_line(&mut lines, crate::text::concat_str("Title: ", item.title.as_str()));
    push_line(&mut lines, crate::text::concat_str("Item Key: ", item.key.as_str()));
    push_line(&mut lines, crate::text::concat_str("Item Type: ", item.type_label.as_str()));
    let creators = creator_line(&item.creators);
    if !str_is_empty(creators.as_str()) {
        push_line(&mut lines, crate::text::concat_str("Creators: ", creators.as_str()));
    }
    proof {
        assert(strings_view(lines@) =~= header_lines(*item));
    }
    let fields = fields_object(&item.fields);
    push_field_lines(&mut lines, &fields);
    push_link_lines(&mut lines, links);
    push_attachment_lines(&mut lines, attachments);
    push_note_lines(&mut lines, notes);
    push_export_lines(&mut lines, exports);
    proof {
        assert(strings_view(lines@) =~= prompt_lines(*item, entries_view(links@), attachments@, notes@, entries_view(exports@)));
    }
    let joined = join_strings(&lines, "\n");
    trim_str(joined.as_str())
}

/// A string trimmed, when something is left.
pub open spec fn trimmed_nonempty(s: Seq<char>) -> Option<Seq<char>> {
    if trim(s).len() > 0 {
        Some(trim(s))
    } else {
        None
    }
}

/// The text of the first choice's message in a chat-completions reply.
pub open spec fn choice_text(v: JsonV) -> Option<Seq<char>> {
    match get_spec(v, "choices"@) {
        Some(JsonV::Array(xs)) => if xs.len() > 0 {
            match get_spec(xs[0], "message"@) {
                Some(m) => match as_str_spec(get_spec(m, "content"@)) {
                    Some(c) => trimmed_nonempty(c),
                    None => None,
                },
                None => None,
            }
        } else {
            None
        },
        _ => None,
    }
}

/// The non-empty trimmed `text` strings of content parts, in order.
pub open spec fn content_parts(cs: Seq<JsonV>) -> Seq<Seq<char>>
    decreases cs.len(),
{
    if cs.len() == 0 {
        Seq::empty()
    } else {
        content_parts(cs.drop_last()) + match as_str_spec(get_spec(cs.last(), "text"@)) {
            Some(t) => match trimmed_nonempty(t) {
                Some(x) => seq![x],
                None => Seq::empty(),
            },
            None => Seq::empty(),
        }
    }
}

/// The text parts of every output entry's `content` array, in order.
pub open spec fn output_parts(items: Seq<JsonV>) -> Seq<Seq<char>>
    decreases items.len(),
{
    if items.len() == 0 {
        Seq::empty()
    } else {
        output_parts(items.drop_last()) + match get_spec(items.last(), "content"@) {
            Some(JsonV::Array(cs)) => content_parts(cs),
            _ => Seq::empty(),
        }
    }
}

/// The text of a model's reply: the first choice's message, else `output_text`, else the
/// output's text parts joined by blank lines; each trimmed, and only when not empty.
pub open spec fn extract_text_spec(v: JsonV) -> Option<Seq<char>> {
    match choice_text(v) {
        Some(t) => Some(t),
        None => match match as_str_spec(get_spec(v, "output_text"@)) {
            Some(t) => trimmed_nonempty(t),
            None => None,
        } {
            Some(t) => Some(t),
            None => match get_spec(v, "output"@) {
                Some(JsonV::Array(items)) => if output_parts(items).len() > 0 {
                    trimmed_nonempty(join_spec(output_parts(items), "\n\n"@))
                } else {
                    None
                },
                _ => None,
            },
        },
    }
}

fn trimmed_opt(s: &str) -> (r: Option<String>)
    ensures
        match r {
            Some(x) => trimmed_nonempty(s@) == Some(x@),
            None => trimmed_nonempty(s@) is None,
        },
{
    let t = trim_str(s);
    if str_is_empty(t.as_str()) {
        None
    } else {
        Some(t)
    }
}

fn choice_text_exec(v: &Json) -> (r: Option<String>)
    ensures
        match r {
            Some(x) => choice_text(v@) == Some(x@),
            None => choice_text(v@) is None,
        },
{
    match v.get("choices") {
        Some(Json::Array(xs)) => {
            if xs.len() == 0 {
                return None;
            }
            proof {
                crate::json::lemma_jsons_view(xs@);
            }
            match xs[0].get("message") {
                Some(m) => match m.get("content") {
                    Some(Json::Str(c)) => trimmed_opt(c.as_str()),
                    _ => None,
                },
                None => None,
            }
        },
        _ => None,
    }
}

fn push_content_parts(parts: &mut Vec<String>, cs: &Vec<Json>)
    ensures
        strings_view(final(parts)@) == strings_view(old(parts)@) + content_parts(crate::json::jsons_view(cs@)),
{
    let ghost start = strings_view(parts@);
    let ghost cv = crate::json::jsons_view(cs@);
    proof {
        crate::json::lemma_jsons_view(cs@);
        assert(cv.subrange(0, 0) =~= Seq::<JsonV>::empty());
        assert(start + content_parts(cv.subrange(0, 0)) =~= start);
    }
    let mut i: usize = 0;
    while i < cs.len()
        invariant
            i <= cs@.len(),
            cv == crate::json::jsons_view(cs@),
            cv.len() == cs@.len(),
            forall|k: int| 0 <= k < cs@.len() ==> #[trigger] cv[k] == crate::json::json_view(cs@[k]),
            strings_view(parts@) == start + content_parts(cv.subrange(0, i as int)),
        decreases cs.len() - i,
    {
        proof {
            assert(cv.subrange(0, i + 1).drop_last() =~= cv.subrange(0, i as int));
            assert(cv.subrange(0, i + 1).last() == cv[i as int]);
        }
        let ghost before = strings_view(parts@);
        match cs[i].get("text") {
            Some(Json::Str(t)) => match trimmed_opt(t.as_str()) {
                Some(x) => {
                    let ghost xv = x@;
                    parts.push(x);
                    proof {
                        assert(strings_view(parts@) =~= before.push(xv));
                    }
                },
                None => {},
            },
            _ => {},
        }
        proof {
            assert(strings_view(parts@) =~= start + content_parts(cv.subrange(0, i + 1)));
        }
        i = i + 1;
    }
    proof {
        assert(cv.subrange(0, cv.len() as int) =~= cv);
    }
}

fn output_parts_exec(items: &Vec<Json>) -> (r: Vec<String>)
    ensures
        strings_view(r@) == output_parts(crate::json::jsons_view(items@)),
{
    let ghost iv = crate::json::jsons_view(items@);
    let mut parts: Vec<String> = Vec::new();
    proof {
        crate::json::lemma_jsons_view(items@);
        assert(iv.subrange(0, 0) =~= Seq::<JsonV>::empty());
        assert(strings_view(parts@) =~= Seq::<Seq<char>>::empty());
    }
    let mut i: usize = 0;
    while i < items.len()
        invariant
            i <= items@.len(),
            iv == crate::json::jsons_view(items@),
            iv.len() == items@.len(),
            forall|k: int| 0 <= k < items@.len() ==> #[trigger] iv[k] == crate::json::json_view(items@[k]),
            strings_view(parts@) == output_parts(iv.subrange(0, i as int)),
        decreases items.len() - i,
    {
        proof {
            assert(iv.subrange(0, i + 1).drop_last() =~= iv.subrange(0, i as int));
            assert(iv.subrange(0, i + 1).last() == iv[i as int]);
        }
        let ghost before = strings_view(parts@);
        match items[i].get("content") {
            Some(Json::Array(cs)) => push_content_parts(&mut parts, cs),
            _ => {},
        }
        proof {
            assert(strings_view(parts@) =~= output_parts(iv.subrange(0, i + 1)));
        }
        i = i + 1;
    }
    proof {
        assert(iv.subrange(0, iv.len() as int) =~= iv);
    }
    parts
}

/// The text of a model's reply (chat completions, responses, or output parts).
pub fn extract_text(response_payload: &Json) -> (r: Option<String>)
    ensures
        match r {
            Some(x) => extract_text_spec(response_payload@) == Some(x@),
            None => extract_text_spec(response_payload@) is None,
        },
{
    match choice_text_exec(response_payload) {
        Some(t) => return Some(t),
        None => {},
    }
    match response_payload.get("output_text") {
        Some(Json::Str(t)) => match trimmed_opt(t.as_str()) {
            Some(x) => return Some(x),
            None => {},
        },
        _ => {},
    }
    match response_payload.get("output") {
        Some(Json::Array(items)) => {
            let parts = output_parts_exec(items);
            if parts.len() > 0 {
                let joined = join_strings(&parts, "\n\n");
                trimmed_opt(joined.as_str())
            } else {
                None
            }
        },
        _ => None,
    }
}

/// A chat message object: its content and role, members in key order.
pub open spec fn message_spec(role: Seq<char>, content: Seq<char>) -> JsonV {
    JsonV::Object(seq![("content"@, JsonV::Str(content)), ("role"@, JsonV::Str(role))])
}

/// The chat-completions request: the model, and a system message with the instructions
/// followed by a user message with the input.
pub open spec fn chat_request_spec(model: Seq<char>, instructions: Seq<char>, input: Seq<char>) -> JsonV {
    JsonV::Object(seq![
        ("messages"@, JsonV::Array(seq![message_spec("system"@, instructions), message_spec("user"@, input)])),
        ("model"@, JsonV::Str(model)),
    ])
}

fn message(role: &str, content: &str) -> (r: Json)
    ensures
        r@ == message_spec(role@, content@),
{
    let mut m: Vec<(String, Json)> = Vec::new();
    crate::json::push_member(&mut m, "content", Json::Str(content.to_owned()));
    crate::json::push_member(&mut m, "role", Json::Str(role.to_owned()));
    proof {
        assert(entries_view(m@) =~= seq![("content"@, JsonV::Str(content@)), ("role"@, JsonV::Str(role@))]);
    }
    Json::Object(m)
}

/// The body of a chat-completions request.
pub fn chat_request_payload(model: &str, instructions: &str, input_text: &str) -> (r: Json)
    ensures
        r@ == chat_request_spec(model@, instructions@, input_text@),
{
    let mut msgs: Vec<Json> = Vec::new();
    msgs.push(message("system", instructions));
    msgs.push(message("user", input_text));
    proof {
        crate::json::lemma_jsons_view(msgs@);
        assert(crate::json::jsons_view(msgs@) =~= seq![message_spec("system"@, instructions@), message_spec("user"@, input_text@)]);
    }
    let mut m: Vec<(String, Json)> = Vec::new();
    crate::json::push_member(&mut m, "messages", Json::Array(msgs));
    crate::json::push_member(&mut m, "model", Json::Str(model.to_owned()));
    proof {
        assert(entries_view(m@) =~= seq![
            ("messages"@, JsonV::Array(seq![message_spec("system"@, instructions@), message_spec("user"@, input_text@)])),
            ("model"@, JsonV::Str(model@)),
        ]);
    }
    Json::Object(m)
}

/// The answer of a model and the id of its reply.
#[derive(Debug, Clone)]
pub struct OpenAiResponse {
    pub response_id: Option<String>,
    pub answer: String,
}

/// How an HTTP reply reads: the error for a status outside 200 to 299 (with the body), the
/// parse error for a body that is not JSON, the error for a reply without text, else the
/// answer with the reply's `id` when it is a string.
pub open spec fn reply_outcome(status: u16, body: Seq<char>, parsed: Result<JsonV, Seq<char>>) -> Result<(Option<Seq<char>>, Seq<char>), Seq<char>> {
    if !(200 <= status < 300) {
        Err("OpenAI API returned HTTP "@ + nat_decimal(status as nat) + ": "@ + body)
    } else {
        match parsed {
            Err(e) => Err("OpenAI API request failed: "@ + e),
            Ok(v) => match extract_text_spec(v) {
                None => Err("OpenAI API returned no text output"@),
                Some(a) => Ok((as_str_spec(get_spec(v, "id"@)), a)),
            },
        }
    }
}

/// Reads a chat-completions reply from its status, its body, and the body parsed as JSON
/// (or the parser's message).
pub fn read_chat_reply(status: u16, body: &str, parsed: Result<Json, String>) -> (r: Result<OpenAiResponse, DomainError>)
    ensures
        match reply_outcome(status, body@, match parsed {
            Ok(v) => Ok(v@),
            Err(e) => Err(e@),
        }) {
            Ok((id, a)) => r matches Ok(x) && x.answer@ == a && match x.response_id {
                Some(i) => id == Some(i@),
                None => id is None,
            },
            Err(m) => r matches Err(e) && e.0@ == m,
        },
{
    if !(200 <= status && status < 300) {
        let digits = crate::text::string_from_chars(&crate::text::u64_decimal(status as u64));
        let mut msg = crate::text::concat3("OpenAI API returned HTTP ", digits.as_str(), ": ");
        push_str(&mut msg, body);
        return Err(DomainError::from_string(msg));
    }
    match parsed {
        Err(e) => Err(DomainError::from_string(crate::text::concat_str("OpenAI API request failed: ", e.as_str()))),
        Ok(v) => match extract_text(&v) {
            None => Err(DomainError::new("OpenAI API returned no text output")),
            Some(answer) => {
                let response_id = match v.get("id") {
                    Some(Json::Str(i)) => Some(i.clone()),
                    _ => None,
                };
                Ok(OpenAiResponse { response_id, answer })
            },
        },
    }
}

/// The instructions given to the model with every question about an item.
pub fn analysis_instructions() -> (r: &'static str)
    ensures
        r@ == "You are analyzing a Zotero bibliographic record. Stay grounded in the provided context. If the context is missing an answer, say so explicitly."@,
{
    "You are analyzing a Zotero bibliographic record. Stay grounded in the provided context. If the context is missing an answer, say so explicitly."
}

/// The model's input: the question (trimmed) and the item's context under fixed headings.
pub fn analysis_input(question: &str, prompt_context: &str) -> (r: String)
    ensures
        r@ == "Use the Zotero item context below to answer the user's question.\n\nQuestion:\n"@ + trim(question@)
            + "\n\nContext:\n"@ + prompt_context@,
{
    let q = trim_str(question);
    let mut r = crate::text::concat3(
        "Use the Zotero item context below to answer the user's question.\n\nQuestion:\n",
        q.as_str(),
        "\n\nContext:\n",
    );
    push_str(&mut r, prompt_context);
    r
}

/// The API key from the environment, trimmed; an error when it is missing or blank.
pub fn require_api_key(raw: Option<String>) -> (r: Result<String, DomainError>)
    ensures
        match raw {
            Some(k) if trim(k@).len() > 0 => r matches Ok(x) && x@ == trim(k@),
            _ => r matches Err(e) && e.0@
                == "OPENAI_API_KEY is not set. Use `item context` for model-independent output or configure the API key."@,
        },
{
    let key = match raw {
        Some(k) => trim_str(k.as_str()),
        None => String::new(),
    };
    if str_is_empty(key.as_str()) {
        Err(DomainError::new(
            "OPENAI_API_KEY is not set. Use `item context` for model-independent output or configure the API key.",
        ))
    } else {
        Ok(key)
    }
}

/// An item with everything gathered about it for a model, and the prompt built from it.
#[derive(Debug)]
pub struct ItemContextPayload {
    pub item: Item,
    pub attachments: Vec<ItemWithResolvedPath>,
    pub notes: Vec<Item>,
    pub exports: Vec<(String, Json)>,
    pub links: Vec<(String, Json)>,
    pub prompt_context: String,
}

/// Assembles an item's context: its links when asked for, and the prompt built from all
/// of it.
pub fn item_context(
    item: Item,
    attachments: Vec<ItemWithResolvedPath>,
    notes: Vec<Item>,
    exports: Vec<(String, Json)>,
    include_links: bool,
) -> (r: ItemContextPayload)
    ensures
        r.item == item,
        r.attachments@ == attachments@,
        r.notes@ == notes@,
        r.exports@ == exports@,
        entries_view(r.links@) == if include_links {
            links_spec(item.fields@)
        } else {
            Seq::empty()
        },
        r.prompt_context@ == trim(join_spec(prompt_lines(item, entries_view(r.links@), attachments@, notes@, entries_view(exports@)), "\n"@)),
{
    let links: Vec<(String, Json)> = if include_links {
        link_payload(&item)
    } else {
        Vec::new()
    };
    proof {
        if !include_links {
            assert(entries_view(links@) =~= Seq::<(Seq<char>, JsonV)>::empty());
        }
    }
    let prompt_context = build_prompt_context(&item, &links, &attachments, &notes, &exports);
    ItemContextPayload { item, attachments, notes, exports, links, prompt_context }
}

/// The outcome of asking a model about an item.
#[derive(Debug)]
pub struct AnalyzeResult {
    pub item_key: String,
    pub model: String,
    pub question: String,
    pub answer: String,
    pub response_id: Option<String>,
    pub context: ItemContextPayload,
}

/// The result of an analysis: the item's key, the model and question as given, and the
/// model's answer and reply id.
pub fn analyze_result(context: ItemContextPayload, model: &str, question: &str, reply: OpenAiResponse) -> (r: AnalyzeResult)
    ensures
        r.item_key@ == context.item.key@,
        r.model@ == model@,
        r.question@ == question@,
        r.answer == reply.answer,
        r.response_id == reply.response_id,
        r.context == context,
{
    AnalyzeResult {
        item_key: context.item.key.clone(),
        model: model.to_owned(),
        question: question.to_owned(),
        answer: reply.answer,
        response_id: reply.response_id,
        context,
    }
}

} // verus!
