//! The citation report of a Word document: its citation fields (field instructions and
//! Zotero bookmarks, whose codes live in chunked custom properties), how many belong to each
//! citation system, the static citation-like text, and advice.

use vstd::prelude::*;

use crate::docx_inspect::{
    bookmark_names_spec, classify_instruction, classify_instruction_spec, field_instructions,
    field_instructions_spec, static_citation_matches, static_citation_spec, zotero_bookmark_names,
};
use crate::docx_report::{count_in, key_set, sorted_keys, str_array, strings_json};
use crate::json::{entries_view, jsons_view, push_member, Json, JsonV};
use crate::pattern::{regex_capture, regex_capture_result};
use crate::text::{nat_decimal, parse_i64, parse_i64_spec, push_str, str_is_empty, strings_view};
use crate::xml::{
    elem_refs_view, find_all_in, get_attr_spec, normalize_space, normalize_space_spec, text_in,
    truncate, truncate_spec, visible_text, visible_text_spec, XElem, XmlElement,
};

verus! {

/// The name of a chunk of a Zotero bookmark's code: the bookmark's name and the chunk's
/// number.
pub open spec fn chunk_pattern() -> Seq<char> {
    "^(ZOTERO_BREF_.+)_(\\d+)$"@
}

/// A chunk of custom-property text: the bookmark it belongs to, its number, its text.
pub type ChunkV = (Seq<char>, i64, Seq<char>);

/// The chunk a custom property holds, when its name is that of a chunk: the number is the
/// digits read as an integer (0 when they do not fit).
pub open spec fn chunk_of(p: XElem) -> Option<ChunkV> {
    let name = match get_attr_spec(p.attrs, "name"@) {
        Some(n) => n,
        None => Seq::empty(),
    };
    match regex_capture_result(chunk_pattern(), name, 1) {
        Some(Some(base)) => {
            let idx = match regex_capture_result(chunk_pattern(), name, 2) {
                Some(Some(d)) => match parse_i64_spec(d) {
                    Some(n) => n,
                    None => 0,
                },
                _ => 0,
            };
            Some((base, idx, text_in(p)))
        },
        _ => None,
    }
}

/// The chunks among the first `n` properties, in document order.
pub open spec fn chunks_upto(ps: Seq<XElem>, n: int) -> Seq<ChunkV>
    decreases n,
{
    if n <= 0 {
        Seq::empty()
    } else {
        chunks_upto(ps, n - 1) + match chunk_of(ps[n - 1]) {
            Some(c) => seq![c],
            None => Seq::empty(),
        }
    }
}

/// The chunks of a custom-properties document (its `property` elements, in order).
pub open spec fn chunks_spec(root: XElem) -> Seq<ChunkV> {
    let ps = find_all_in(root, "property"@);
    chunks_upto(ps, ps.len() as int)
}

/// Where a chunk numbered `k` goes among chunks sorted by number: after every chunk whose
/// number is not greater (so equal numbers keep their order).
pub open spec fn sorted_position(s: Seq<(i64, Seq<char>)>, k: i64) -> int
    decreases s.len(),
{
    if s.len() == 0 {
        0
    } else if s[0].0 > k {
        0
    } else {
        1 + sorted_position(s.drop_first(), k)
    }
}

/// Chunks stably sorted by number.
pub open spec fn sort_chunks(s: Seq<(i64, Seq<char>)>) -> Seq<(i64, Seq<char>)>
    decreases s.len(),
{
    if s.len() == 0 {
        Seq::empty()
    } else {
        let sorted = sort_chunks(s.drop_last());
        sorted.insert(sorted_position(sorted, s.last().0), s.last())
    }
}

/// The chunks of bookmark `name`, in document order.
pub open spec fn chunks_of(cs: Seq<ChunkV>, name: Seq<char>) -> Seq<(i64, Seq<char>)>
    decreases cs.len(),
{
    if cs.len() == 0 {
        Seq::empty()
    } else {
        chunks_of(cs.drop_last(), name) + if cs.last().0 == name {
            seq![(cs.last().1, cs.last().2)]
        } else {
            Seq::empty()
        }
    }
}

/// The texts of chunks, concatenated.
pub open spec fn chunk_texts(s: Seq<(i64, Seq<char>)>) -> Seq<char>
    decreases s.len(),
{
    if s.len() == 0 {
        Seq::empty()
    } else {
        chunk_texts(s.drop_last()) + s.last().1
    }
}

/// The code stored for bookmark `name`: its chunks' texts in order of their numbers.
pub open spec fn bookmark_code(cs: Seq<ChunkV>, name: Seq<char>) -> Seq<char> {
    chunk_texts(sort_chunks(chunks_of(cs, name)))
}

/// A bookmark's chunk in the library's own form.
#[derive(Debug)]
pub struct PropertyChunk {
    pub base: String,
    pub index: i64,
    pub text: String,
}

/// View of chunks.
pub open spec fn chunks_view(s: Seq<PropertyChunk>) -> Seq<ChunkV> {
    s.map_values(|c: PropertyChunk| (c.base@, c.index, c.text@))
}

/// The chunks of Zotero bookmark codes in a custom-properties document, in document order.
pub fn property_chunks(root: &XmlElement) -> (r: Vec<PropertyChunk>)
    ensures
        chunks_view(r@) == chunks_spec(root@),
{
    let ps = root.find_all("property");
    let ghost pv = elem_refs_view(ps@);
    let mut out: Vec<PropertyChunk> = Vec::new();
    let mut i: usize = 0;
    proof {
        assert(chunks_view(out@) =~= Seq::<ChunkV>::empty());
    }
    while i < ps.len()
        invariant
            i <= ps@.len(),
            pv == elem_refs_view(ps@),
            pv == find_all_in(root@, "property"@),
            chunks_view(out@) == chunks_upto(pv, i as int),
        decreases ps.len() - i,
    {
        proof {
            assert(pv[i as int] == ps@[i as int]@);
        }
        let p = ps[i];
        let name: &str = match p.get_attr("name") {
            Some(n) => n,
            None => "",
        };
        proof {
            reveal_strlit("");
            assert(name@ == match get_attr_spec(pv[i as int].attrs, "name"@) {
                Some(n) => n,
                None => Seq::<char>::empty(),
            });
        }
        let pattern = "^(ZOTERO_BREF_.+)_(\\d+)$";
        assert(pattern@ == chunk_pattern());
        let ghost before = out@;
        match regex_capture(pattern, name, 1) {
            Some(Some(base)) => {
                let index: i64 = match regex_capture(pattern, name, 2) {
                    Some(Some(d)) => match parse_i64(d.as_str()) {
                        Some(n) => n,
                        None => 0,
                    },
                    _ => 0,
                };
                let c = PropertyChunk { base, index, text: p.iter_text() };
                let ghost cv = (c.base@, c.index, c.text@);
                out.push(c);
                proof {
                    assert(chunks_view(out@) =~= chunks_view(before).push(cv));
                    assert(chunk_of(pv[i as int]) == Some(cv));
                }
            },
            _ => {},
        }
        proof {
            assert(chunks_view(out@) =~= chunks_upto(pv, i + 1));
        }
        i = i + 1;
    }
    out
}

/// The code of bookmark `name`: its chunks' texts, ordered by chunk number.
pub fn bookmark_code_exec(chunks: &Vec<PropertyChunk>, name: &str) -> (r: String)
    ensures
        r@ == bookmark_code(chunks_view(chunks@), name@),
{
    let ghost cv = chunks_view(chunks@);
    let mut sorted: Vec<(i64, String)> = Vec::new();
    let mut i: usize = 0;
    proof {
        assert(cv.subrange(0, 0) =~= Seq::<ChunkV>::empty());
        assert(sorted@.map_values(|e: (i64, String)| (e.0, e.1@)) =~= sort_chunks(chunks_of(cv.subrange(0, 0), name@)));
    }
    while i < chunks.len()
        invariant
            i <= chunks@.len(),
            cv == chunks_view(chunks@),
            sorted@.map_values(|e: (i64, String)| (e.0, e.1@)) == sort_chunks(chunks_of(cv.subrange(0, i as int), name@)),
        decreases chunks.len() - i,
    {
        let ghost sv = sorted@.map_values(|e: (i64, String)| (e.0, e.1@));
        proof {
            assert(cv.subrange(0, i + 1).drop_last() =~= cv.subrange(0, i as int));
            assert(cv.subrange(0, i + 1).last() == cv[i as int]);
        }
        if crate::text::str_eq(chunks[i].base.as_str(), name) {
            let k = chunks[i].index;
            let mut j: usize = 0;
            assert(sv.subrange(0, sv.len() as int) =~= sv);
            while j < sorted.len() && sorted[j].0 <= k
                invariant
                    j <= sorted@.len(),
                    sv == sorted@.map_values(|e: (i64, String)| (e.0, e.1@)),
                    sorted_position(sv, k) == j + sorted_position(sv.subrange(j as int, sv.len() as int), k),
                decreases sorted.len() - j,
            {
                proof {
                    let rest = sv.subrange(j as int, sv.len() as int);
                    assert(rest.drop_first() =~= sv.subrange(j + 1, sv.len() as int));
                    assert(rest[0] == sv[j as int]);
                }
                j = j + 1;
            }
            proof {
                let rest = sv.subrange(j as int, sv.len() as int);
                if j < sv.len() {
                    assert(rest[0] == sv[j as int]);
                } else {
                    assert(rest.len() == 0);
                }
                assert(sorted_position(sv, k) == j);
            }
            let entry = (k, chunks[i].text.clone());
            sorted.insert(j, entry);
            proof {
                let s = chunks_of(cv.subrange(0, i + 1), name@);
                assert(s.drop_last() =~= chunks_of(cv.subrange(0, i as int), name@));
                assert(sorted@.map_values(|e: (i64, String)| (e.0, e.1@)) =~= sv.insert(j as int, (k, chunks@[i as int].text@)));
            }
        } else {
            proof {
                assert(chunks_of(cv.subrange(0, i + 1), name@) =~= chunks_of(cv.subrange(0, i as int), name@));
            }
        }
        i = i + 1;
    }
    proof {
        assert(cv.subrange(0, cv.len() as int) =~= cv);
    }
    let ghost fv = sorted@.map_values(|e: (i64, String)| (e.0, e.1@));
    let mut out = String::new();
    let mut j: usize = 0;
    proof {
        assert(fv.subrange(0, 0) =~= Seq::<(i64, Seq<char>)>::empty());
    }
    while j < sorted.len()
        invariant
            j <= sorted@.len(),
            fv == sorted@.map_values(|e: (i64, String)| (e.0, e.1@)),
            out@ == chunk_texts(fv.subrange(0, j as int)),
        decreases sorted.len() - j,
    {
        proof {
            assert(fv.subrange(0, j + 1).drop_last() =~= fv.subrange(0, j as int));
            assert(fv.subrange(0, j + 1).last() == fv[j as int]);
        }
        push_str(&mut out, sorted[j].1.as_str());
        j = j + 1;
    }
    proof {
        assert(fv.subrange(0, fv.len() as int) =~= fv);
    }
    out
}

/// The report of a field instruction: its citation system and its text, cut to 240
/// characters.
pub open spec fn field_report_spec(inst: Seq<char>) -> JsonV {
    JsonV::Object(seq![
        ("instruction"@, JsonV::Str(truncate_spec(inst, 240))),
        ("system"@, JsonV::Str(classify_instruction_spec(inst))),
    ])
}

/// The instruction shown for a Zotero bookmark: its stored code, or a note that it has none.
pub open spec fn bookmark_instruction(cs: Seq<ChunkV>, name: Seq<char>) -> Seq<char> {
    let code = bookmark_code(cs, name);
    if code.len() > 0 {
        code
    } else {
        name + " bookmark without custom property data"@
    }
}

/// The report of a Zotero bookmark.
pub open spec fn bookmark_report_spec(cs: Seq<ChunkV>, name: Seq<char>) -> JsonV {
    JsonV::Object(seq![
        ("bookmark"@, JsonV::Str(name)),
        ("field_type"@, JsonV::Str("bookmark"@)),
        ("instruction"@, JsonV::Str(truncate_spec(normalize_space_spec(bookmark_instruction(cs, name)), 240))),
        ("system"@, JsonV::Str("zotero"@)),
    ])
}

/// Every citation field of a document: its field instructions, then its Zotero bookmarks.
pub open spec fn fields_spec(root: XElem, cs: Seq<ChunkV>) -> Seq<JsonV> {
    field_instructions_spec(root).map_values(|i: Seq<char>| field_report_spec(i))
        + bookmark_names_spec(root).map_values(|n: Seq<char>| bookmark_report_spec(cs, n))
}

/// The citation system of every field, in the same order.
pub open spec fn systems_of(root: XElem) -> Seq<Seq<char>> {
    field_instructions_spec(root).map_values(|i: Seq<char>| classify_instruction_spec(i))
        + bookmark_names_spec(root).map_values(|n: Seq<char>| "zotero"@)
}

/// How many fields each system has, by system in key order.
pub open spec fn system_counts(systems: Seq<Seq<char>>) -> Seq<(Seq<char>, JsonV)> {
    key_set(systems).map_values(|e: (Seq<char>, JsonV)| (e.0, JsonV::Number(nat_decimal(count_in(systems, e.0)))))
}

/// The advice notes of a citation inspection.
pub open spec fn citation_notes_spec(systems: Seq<Seq<char>>, has_static: bool) -> Seq<Seq<char>> {
    (if count_in(systems, "endnote"@) > 0 {
        seq!["EndNote fields are present; Zotero cannot refresh these as Zotero citations."@]
    } else {
        Seq::empty()
    }) + (if count_in(systems, "zotero"@) > 0 {
        seq!["Zotero citation fields are present and should be managed with the Zotero word processor plugin."@]
    } else {
        Seq::empty()
    }) + (if count_in(systems, "csl"@) > 0 || count_in(systems, "mendeley"@) > 0 {
        seq!["CSL/Mendeley-like fields are present; verify which word processor plugin created them before editing."@]
    } else {
        Seq::empty()
    }) + (if has_static {
        seq!["Static citation-looking text is present; these citations may not be refreshable fields."@]
    } else {
        Seq::empty()
    }) + (if systems.len() == 0 && !has_static {
        seq!["No citation fields or common static citation patterns were detected."@]
    } else {
        Seq::empty()
    })
}

/// The first `limit` strings (all when there are fewer).
pub open spec fn take_strings(v: Seq<Seq<char>>, limit: int) -> Seq<Seq<char>> {
    if limit < v.len() {
        v.subrange(0, limit)
    } else {
        v
    }
}

/// The citation report of a document: its fields (a sample of them), the count per system,
/// the systems present (sorted, then static text when there is any), the static
/// citation-like text (a sample) and advice.
pub open spec fn citation_report_spec(path: Seq<char>, root: XElem, cs: Seq<ChunkV>, limit: int) -> JsonV {
    let fields = fields_spec(root, cs);
    let systems = systems_of(root);
    let statics = static_citation_spec(visible_text_spec(root));
    let listed = sorted_keys(systems) + if statics.len() > 0 {
        seq!["static-text"@]
    } else {
        Seq::empty()
    };
    JsonV::Object(seq![
        ("field_count"@, JsonV::Number(nat_decimal(fields.len()))),
        ("field_counts"@, JsonV::Object(system_counts(systems))),
        ("fields"@, JsonV::Array(crate::docx_report::sample(fields, limit))),
        ("has_fields"@, JsonV::Bool(fields.len() > 0)),
        ("notes"@, str_array(citation_notes_spec(systems, statics.len() > 0))),
        ("path"@, JsonV::Str(path)),
        ("static_citation_count"@, JsonV::Number(nat_decimal(statics.len()))),
        ("static_citation_samples"@, str_array(take_strings(statics, limit))),
        ("systems"@, str_array(listed)),
    ])
}

fn push_json(v: &mut Vec<Json>, x: Json)
    ensures
        jsons_view(final(v)@) == jsons_view(old(v)@).push(x@),
{
    let ghost before = v@;
    let ghost xg = x;
    v.push(x);
    proof {
        assert(v@ =~= before + seq![xg]);
        crate::json::lemma_jsons_view_append(before, seq![xg]);
        crate::json::lemma_jsons_view(seq![xg]);
    }
}

/// The report of a field instruction.
pub fn field_report(instruction: &str) -> (r: Json)
    ensures
        r@ == field_report_spec(instruction@),
{
    let mut m: Vec<(String, Json)> = Vec::new();
    push_member(&mut m, "instruction", Json::Str(truncate(instruction, 240)));
    push_member(&mut m, "system", Json::Str(classify_instruction(instruction).to_owned()));
    proof {
        assert(entries_view(m@) =~= seq![
            ("instruction"@, JsonV::Str(truncate_spec(instruction@, 240))),
            ("system"@, JsonV::Str(classify_instruction_spec(instruction@))),
        ]);
    }
    Json::Object(m)
}

/// The report of a Zotero bookmark, with its code from the custom-property chunks.
pub fn bookmark_report(chunks: &Vec<PropertyChunk>, name: &str) -> (r: Json)
    ensures
        r@ == bookmark_report_spec(chunks_view(chunks@), name@),
{
    let code = bookmark_code_exec(chunks, name);
    let instruction = if !str_is_empty(code.as_str()) {
        code
    } else {
        crate::text::concat_str(name, " bookmark without custom property data")
    };
    let mut m: Vec<(String, Json)> = Vec::new();
    push_member(&mut m, "bookmark", Json::Str(name.to_owned()));
    push_member(&mut m, "field_type", Json::Str("bookmark".to_owned()));
    let normalized = normalize_space(instruction.as_str());
    push_member(&mut m, "instruction", Json::Str(truncate(normalized.as_str(), 240)));
    push_member(&mut m, "system", Json::Str("zotero".to_owned()));
    proof {
        assert(entries_view(m@) =~= match bookmark_report_spec(chunks_view(chunks@), name@) {
            JsonV::Object(es) => es,
            _ => Seq::empty(),
        });
    }
    Json::Object(m)
}

/// The citation report of the document at `path` with element tree `root`, given the chunks
/// of its custom properties.
#[verifier::rlimit(60)]
pub fn citation_report(path: &str, root: &XmlElement, chunks: &Vec<PropertyChunk>, sample_limit: usize) -> (r: Json)
    ensures
        r@ == citation_report_spec(path@, root@, chunks_view(chunks@), sample_limit as int),
{
    let ghost cs = chunks_view(chunks@);
    let instructions = field_instructions(root);
    let names = zotero_bookmark_names(root);
    let ghost iv = strings_view(instructions@);
    let ghost nv = strings_view(names@);
    let mut fields: Vec<Json> = Vec::new();
    let mut systems: Vec<String> = Vec::new();
    proof {
        assert(jsons_view(fields@) =~= Seq::<JsonV>::empty());
        assert(strings_view(systems@) =~= Seq::<Seq<char>>::empty());
    }
    let mut i: usize = 0;
    while i < instructions.len()
        invariant
            i <= instructions@.len(),
            iv == strings_view(instructions@),
            jsons_view(fields@) == iv.subrange(0, i as int).map_values(|x: Seq<char>| field_report_spec(x)),
            strings_view(systems@) == iv.subrange(0, i as int).map_values(|x: Seq<char>| classify_instruction_spec(x)),
        decreases instructions.len() - i,
    {
        let ghost sb = systems@;
        push_json(&mut fields, field_report(instructions[i].as_str()));
        let sys = classify_instruction(instructions[i].as_str()).to_owned();
        systems.push(sys);
        proof {
            assert(strings_view(systems@) =~= strings_view(sb).push(classify_instruction_spec(iv[i as int])));
            assert(iv.subrange(0, i + 1).map_values(|x: Seq<char>| field_report_spec(x))
                =~= iv.subrange(0, i as int).map_values(|x: Seq<char>| field_report_spec(x)).push(field_report_spec(iv[i as int])));
            assert(iv.subrange(0, i + 1).map_values(|x: Seq<char>| classify_instruction_spec(x))
                =~= iv.subrange(0, i as int).map_values(|x: Seq<char>| classify_instruction_spec(x)).push(classify_instruction_spec(iv[i as int])));
        }
        i = i + 1;
    }
    proof {
        assert(iv.subrange(0, iv.len() as int) =~= iv);
    }
    let ghost f0 = jsons_view(fields@);
    let ghost s0 = strings_view(systems@);
    let mut j: usize = 0;
    proof {
        assert(f0 + nv.subrange(0, 0).map_values(|n: Seq<char>| bookmark_report_spec(cs, n)) =~= f0);
        assert(s0 + nv.subrange(0, 0).map_values(|n: Seq<char>| "zotero"@) =~= s0);
    }
    while j < names.len()
        invariant
            j <= names@.len(),
            nv == strings_view(names@),
            cs == chunks_view(chunks@),
            jsons_view(fields@) == f0 + nv.subrange(0, j as int).map_values(|n: Seq<char>| bookmark_report_spec(cs, n)),
            strings_view(systems@) == s0 + nv.subrange(0, j as int).map_values(|n: Seq<char>| "zotero"@),
        decreases names.len() - j,
    {
        let ghost sb = systems@;
        push_json(&mut fields, bookmark_report(chunks, names[j].as_str()));
        systems.push("zotero".to_owned());
        proof {
            assert(strings_view(systems@) =~= strings_view(sb).push("zotero"@));
            assert(nv.subrange(0, j + 1).map_values(|n: Seq<char>| bookmark_report_spec(cs, n))
                =~= nv.subrange(0, j as int).map_values(|n: Seq<char>| bookmark_report_spec(cs, n)).push(bookmark_report_spec(cs, nv[j as int])));
            assert(nv.subrange(0, j + 1).map_values(|n: Seq<char>| "zotero"@)
                =~= nv.subrange(0, j as int).map_values(|n: Seq<char>| "zotero"@).push("zotero"@));
        }
        j = j + 1;
    }
    proof {
        assert(nv.subrange(0, nv.len() as int) =~= nv);
        assert(jsons_view(fields@) =~= fields_spec(root@, cs));
        assert(strings_view(systems@) =~= systems_of(root@));
    }
    let sys_sorted = crate::docx_report::sorted_unique_keys(&systems);
    let counts = system_counts_exec(&sys_sorted, &systems);
    let text = visible_text(root);
    let statics = static_citation_matches(text.as_str());
    let mut listed = crate::docx_report::sorted_unique_keys(&systems);
    let ghost l0 = strings_view(listed@);
    if statics.len() > 0 {
        listed.push("static-text".to_owned());
    }
    proof {
        assert(strings_view(listed@) =~= l0 + if statics@.len() > 0 {
            seq!["static-text"@]
        } else {
            Seq::<Seq<char>>::empty()
        });
    }
    let notes = citation_notes(&systems, statics.len() > 0);
    let mut samples: Vec<String> = Vec::new();
    let n = if sample_limit < statics.len() {
        sample_limit
    } else {
        statics.len()
    };
    let mut k: usize = 0;
    while k < n
        invariant
            k <= n <= statics@.len(),
            strings_view(samples@) == strings_view(statics@).subrange(0, k as int),
        decreases n - k,
    {
        let ghost before = samples@;
        samples.push(statics[k].clone());
        proof {
            assert(strings_view(samples@) =~= strings_view(before).push(statics@[k as int]@));
            assert(strings_view(samples@) =~= strings_view(statics@).subrange(0, k + 1));
        }
        k = k + 1;
    }
    proof {
        assert(strings_view(samples@) =~= take_strings(strings_view(statics@), sample_limit as int));
        crate::json::lemma_jsons_view(fields@);
    }
    let mut m: Vec<(String, Json)> = Vec::new();
    push_member(&mut m, "field_count", crate::json::json_count(fields.len()));
    push_member(&mut m, "field_counts", Json::Object(counts));
    push_member(&mut m, "fields", crate::docx_report::sample_json(&fields, sample_limit));
    push_member(&mut m, "has_fields", Json::Bool(fields.len() > 0));
    push_member(&mut m, "notes", strings_json(&notes));
    push_member(&mut m, "path", Json::Str(path.to_owned()));
    push_member(&mut m, "static_citation_count", crate::json::json_count(statics.len()));
    push_member(&mut m, "static_citation_samples", strings_json(&samples));
    push_member(&mut m, "systems", strings_json(&listed));
    proof {
        assert(entries_view(m@) =~= match citation_report_spec(path@, root@, cs, sample_limit as int) {
            JsonV::Object(es) => es,
            _ => Seq::empty(),
        });
    }
    Json::Object(m)
}

fn system_counts_exec(sorted: &Vec<String>, systems: &Vec<String>) -> (r: Vec<(String, Json)>)
    requires
        strings_view(sorted@) == sorted_keys(strings_view(systems@)),
    ensures
        entries_view(r@) == system_counts(strings_view(systems@)),
{
    let ghost ks = key_set(strings_view(systems@));
    proof {
        assert(strings_view(sorted@).len() == sorted@.len());
        assert(ks.map_values(|e: (Seq<char>, JsonV)| e.0).len() == ks.len());
    }
    let mut out: Vec<(String, Json)> = Vec::new();
    let mut i: usize = 0;
    proof {
        assert(entries_view(out@) =~= Seq::<(Seq<char>, JsonV)>::empty());
    }
    while i < sorted.len()
        invariant
            i <= sorted@.len(),
            strings_view(sorted@) == ks.map_values(|e: (Seq<char>, JsonV)| e.0),
            ks.len() == sorted@.len(),
            entries_view(out@) == ks.subrange(0, i as int).map_values(|e: (Seq<char>, JsonV)| (e.0, JsonV::Number(nat_decimal(count_in(strings_view(systems@), e.0))))),
        decreases sorted.len() - i,
    {
        proof {
            assert(strings_view(sorted@)[i as int] == sorted@[i as int]@);
            assert(ks.map_values(|e: (Seq<char>, JsonV)| e.0)[i as int] == ks[i as int].0);
        }
        let c = crate::docx_report::count_key_pub(systems, sorted[i].as_str());
        push_member(&mut out, sorted[i].as_str(), crate::json::json_count(c));
        proof {
            assert(entries_view(out@) =~= ks.subrange(0, i + 1).map_values(|e: (Seq<char>, JsonV)| (e.0, JsonV::Number(nat_decimal(count_in(strings_view(systems@), e.0))))));
        }
        i = i + 1;
    }
    proof {
        assert(ks.subrange(0, ks.len() as int) =~= ks);
    }
    out
}

fn citation_notes(systems: &Vec<String>, has_static: bool) -> (r: Vec<String>)
    ensures
        strings_view(r@) == citation_notes_spec(strings_view(systems@), has_static),
{
    let mut notes: Vec<String> = Vec::new();
    let ghost sv = strings_view(systems@);
    let ghost n0 = strings_view(notes@);
    if crate::docx_report::count_key_pub(systems, "endnote") > 0 {
        notes.push("EndNote fields are present; Zotero cannot refresh these as Zotero citations.".to_owned());
    }
    let ghost n1 = strings_view(notes@);
    if crate::docx_report::count_key_pub(systems, "zotero") > 0 {
        notes.push("Zotero citation fields are present and should be managed with the Zotero word processor plugin.".to_owned());
    }
    let ghost n2 = strings_view(notes@);
    if crate::docx_report::count_key_pub(systems, "csl") > 0 || crate::docx_report::count_key_pub(systems, "mendeley") > 0 {
        notes.push("CSL/Mendeley-like fields are present; verify which word processor plugin created them before editing.".to_owned());
    }
    let ghost n3 = strings_view(notes@);
    if has_static {
        notes.push("Static citation-looking text is present; these citations may not be refreshable fields.".to_owned());
    }
    let ghost n4 = strings_view(notes@);
    if systems.len() == 0 && !has_static {
        notes.push("No citation fields or common static citation patterns were detected.".to_owned());
    }
    proof {
        assert(n1 =~= n0 + (if count_in(sv, "endnote"@) > 0 {
            seq!["EndNote fields are present; Zotero cannot refresh these as Zotero citations."@]
        } else {
            Seq::empty()
        }));
        assert(n2 =~= n1 + (if count_in(sv, "zotero"@) > 0 {
            seq!["Zotero citation fields are present and should be managed with the Zotero word processor plugin."@]
        } else {
            Seq::empty()
        }));
        assert(n3 =~= n2 + (if count_in(sv, "csl"@) > 0 || count_in(sv, "mendeley"@) > 0 {
            seq!["CSL/Mendeley-like fields are present; verify which word processor plugin created them before editing."@]
        } else {
            Seq::empty()
        }));
        assert(n4 =~= n3 + (if has_static {
            seq!["Static citation-looking text is present; these citations may not be refreshable fields."@]
        } else {
            Seq::empty()
        }));
        assert(strings_view(notes@) =~= n4 + (if sv.len() == 0 && !has_static {
            seq!["No citation fields or common static citation patterns were detected."@]
        } else {
            Seq::empty()
        }));
        assert(n0 =~= Seq::<Seq<char>>::empty());
    }
    notes
}

} // verus!
