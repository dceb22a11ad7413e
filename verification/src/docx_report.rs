//! The reports of a Word document's citations and placeholders, built from the document's
//! visible text and element tree.

use vstd::prelude::*;

use crate::docx_inspect::parse_placeholder_keys;
use crate::docx_render::{keys_text, placeholder_pattern, placeholder_pattern_exec, piece_at, raw_keys};
use crate::json::{entries_view, insert_spec, jsons_view, push_member, Json, JsonV};
use crate::pattern::{regex_capture, regex_matches, regex_matches_result, regex_split, regex_split_result};
use crate::text::{chars_of, push_str, string_from_range, strings_view, trim, trim_str};
use crate::xml::{normalize_space, normalize_space_spec};

verus! {

/// How much text around a placeholder its context shows, in characters on each side.
pub const CONTEXT_RADIUS: usize = 80;

/// The context of the characters `start..end` of `t`: up to `radius` characters on each
/// side, `...` where the text goes on, spaces normalized.
pub open spec fn context_spec(t: Seq<char>, start: int, end: int, radius: int) -> Seq<char> {
    let ps = if start >= radius {
        start - radius
    } else {
        0
    };
    let se = if end + radius < t.len() {
        end + radius
    } else {
        t.len() as int
    };
    let mid = t.subrange(ps, se);
    let with_prefix = if ps > 0 {
        "..."@ + mid
    } else {
        mid
    };
    let whole = if se < t.len() {
        with_prefix + "..."@
    } else {
        with_prefix
    };
    normalize_space_spec(whole)
}

/// The context around characters `start..end` of `text`.
pub fn extract_context(text: &Vec<char>, start: usize, end: usize, radius: usize) -> (r: String)
    requires
        start <= end <= text@.len(),
    ensures
        r@ == context_spec(text@, start as int, end as int, radius as int),
{
    let ps: usize = if start >= radius {
        start - radius
    } else {
        0
    };
    let se: usize = if end < text.len() && radius < text.len() - end {
        end + radius
    } else {
        text.len()
    };
    let mid = string_from_range(text, ps, se);
    let mut ctx = String::new();
    if ps > 0 {
        push_str(&mut ctx, "...");
    }
    push_str(&mut ctx, mid.as_str());
    if se < text.len() {
        push_str(&mut ctx, "...");
    }
    proof {
        reveal_strlit("...");
        assert(ctx@ =~= {
            let with_prefix = if ps > 0 {
                "..."@ + text@.subrange(ps as int, se as int)
            } else {
                text@.subrange(ps as int, se as int)
            };
            if se < text@.len() {
                with_prefix + "..."@
            } else {
                with_prefix
            }
        });
    }
    normalize_space(ctx.as_str())
}

/// `a + b`, but at most `cap`.
pub open spec fn capped(a: int, b: int, cap: int) -> int {
    if a + b < cap {
        a + b
    } else {
        cap
    }
}

/// Where the `i`th placeholder match ends in the text, counting the pieces between matches
/// and the matches before it (kept within the text).
pub open spec fn match_end(pieces: Seq<Seq<char>>, ms: Seq<Seq<char>>, len: int, i: int) -> int
    decreases i + 1, 1int,
{
    if i < 0 {
        0
    } else {
        capped(match_start(pieces, ms, len, i), ms[i].len() as int, len)
    }
}

/// Where the `i`th placeholder match starts in the text.
pub open spec fn match_start(pieces: Seq<Seq<char>>, ms: Seq<Seq<char>>, len: int, i: int) -> int
    decreases i + 1, 0int,
{
    if i < 0 {
        0
    } else {
        capped(match_end(pieces, ms, len, i - 1), piece_at(pieces, i).len() as int, len)
    }
}

/// The placeholder matches of a text.
pub open spec fn placeholder_matches(text: Seq<char>) -> Seq<Seq<char>> {
    match regex_matches_result(placeholder_pattern(), text) {
        Some(ms) => ms,
        None => Seq::empty(),
    }
}

/// The pieces of a text between its placeholder matches.
pub open spec fn placeholder_pieces(text: Seq<char>) -> Seq<Seq<char>> {
    match regex_split_result(placeholder_pattern(), text) {
        Some(ps) => ps,
        None => seq![text],
    }
}

/// The context of the `i`th placeholder of a text.
pub open spec fn match_context(text: Seq<char>, i: int) -> Seq<char> {
    let ms = placeholder_matches(text);
    let ps = placeholder_pieces(text);
    context_spec(text, match_start(ps, ms, text.len() as int, i), match_end(ps, ms, text.len() as int, i), 80)
}

/// Strings as a JSON array.
pub open spec fn str_array(v: Seq<Seq<char>>) -> JsonV {
    JsonV::Array(v.map_values(|s: Seq<char>| JsonV::Str(s)))
}

/// The report entry of a placeholder: its context, its keys and its text.
pub open spec fn placeholder_entry(raw: Seq<char>, ctx: Seq<char>) -> JsonV {
    JsonV::Object(seq![
        ("context"@, JsonV::Str(ctx)),
        ("keys"@, str_array(raw_keys(raw).0)),
        ("raw"@, JsonV::Str(raw)),
    ])
}

/// Whether a placeholder is malformed: an invalid part, or no key at all.
pub open spec fn placeholder_invalid(raw: Seq<char>) -> bool {
    raw_keys(raw).1.len() > 0 || raw_keys(raw).0.len() == 0
}

/// The report entry of a malformed placeholder: its entry with the offending parts (or its
/// whole key text, trimmed) and the reason.
pub open spec fn invalid_entry(raw: Seq<char>, ctx: Seq<char>) -> JsonV {
    let parts = if raw_keys(raw).1.len() > 0 {
        raw_keys(raw).1
    } else {
        seq![trim(keys_text(raw))]
    };
    JsonV::Object(seq![
        ("context"@, JsonV::Str(ctx)),
        ("invalid_parts"@, str_array(parts)),
        ("keys"@, str_array(raw_keys(raw).0)),
        ("raw"@, JsonV::Str(raw)),
        ("reason"@, JsonV::Str("Expected comma-separated 8-character Zotero item keys."@)),
    ])
}

/// The entries of the first `n` placeholders of a text.
pub open spec fn placeholder_entries(text: Seq<char>, n: int) -> Seq<JsonV>
    decreases n,
{
    if n <= 0 {
        Seq::empty()
    } else {
        placeholder_entries(text, n - 1).push(placeholder_entry(placeholder_matches(text)[n - 1], match_context(text, n - 1)))
    }
}

/// The entries of the malformed ones among the first `n` placeholders.
pub open spec fn invalid_entries(text: Seq<char>, n: int) -> Seq<JsonV>
    decreases n,
{
    if n <= 0 {
        Seq::empty()
    } else {
        let raw = placeholder_matches(text)[n - 1];
        invalid_entries(text, n - 1) + if placeholder_invalid(raw) {
            seq![invalid_entry(raw, match_context(text, n - 1))]
        } else {
            Seq::empty()
        }
    }
}

/// Every key cited by the first `n` placeholders, in order, repeats included.
pub open spec fn key_occurrences(ms: Seq<Seq<char>>, n: int) -> Seq<Seq<char>>
    decreases n,
{
    if n <= 0 {
        Seq::empty()
    } else {
        key_occurrences(ms, n - 1) + raw_keys(ms[n - 1]).0
    }
}

/// Strings as a JSON array.
pub fn strings_json(v: &Vec<String>) -> (r: Json)
    ensures
        r@ == str_array(strings_view(v@)),
{
    let mut out: Vec<Json> = Vec::new();
    let mut i: usize = 0;
    while i < v.len()
        invariant
            i <= v@.len(),
            jsons_view(out@) == strings_view(v@).subrange(0, i as int).map_values(|s: Seq<char>| JsonV::Str(s)),
        decreases v.len() - i,
    {
        let ghost before = out@;
        let x = Json::Str(v[i].clone());
        let ghost xg = x;
        out.push(x);
        proof {
            assert(out@ =~= before + seq![xg]);
            crate::json::lemma_jsons_view_append(before, seq![xg]);
            crate::json::lemma_jsons_view(seq![xg]);
            assert(jsons_view(seq![xg]) =~= seq![JsonV::Str(v@[i as int]@)]);
            assert(jsons_view(out@) =~= strings_view(v@).subrange(0, i + 1).map_values(|s: Seq<char>| JsonV::Str(s)));
        }
        i = i + 1;
    }
    proof {
        assert(strings_view(v@).subrange(0, v@.len() as int) =~= strings_view(v@));
    }
    Json::Array(out)
}

/// The entries, malformed entries and cited keys of a text's placeholders.
pub struct PlaceholderScan {
    pub entries: Vec<Json>,
    pub invalid: Vec<Json>,
    pub keys: Vec<String>,
}

/// Scans the placeholders of a text in order.
#[verifier::rlimit(40)]
pub fn scan_placeholders(text: &str) -> (r: PlaceholderScan)
    ensures
        jsons_view(r.entries@) == placeholder_entries(text@, placeholder_matches(text@).len() as int),
        jsons_view(r.invalid@) == invalid_entries(text@, placeholder_matches(text@).len() as int),
        strings_view(r.keys@) == key_occurrences(placeholder_matches(text@), placeholder_matches(text@).len() as int),
{
    let ms = match regex_matches(placeholder_pattern_exec(), text) {
        Some(ms) => ms,
        None => Vec::new(),
    };
    let pieces = match regex_split(placeholder_pattern_exec(), text) {
        Some(ps) => ps,
        None => vec![text.to_owned()],
    };
    let ghost msv = strings_view(ms@);
    let ghost pv = strings_view(pieces@);
    proof {
        assert(msv == placeholder_matches(text@));
        assert(pv =~= placeholder_pieces(text@));
    }
    let chars = chars_of(text);
    let len = chars.len();
    let mut entries: Vec<Json> = Vec::new();
    let mut invalid: Vec<Json> = Vec::new();
    let mut keys: Vec<String> = Vec::new();
    let mut prev_end: usize = 0;
    let mut i: usize = 0;
    proof {
        assert(jsons_view(entries@) =~= Seq::<JsonV>::empty());
        assert(jsons_view(invalid@) =~= Seq::<JsonV>::empty());
        assert(strings_view(keys@) =~= Seq::<Seq<char>>::empty());
    }
    while i < ms.len()
        invariant
            i <= ms@.len(),
            msv == strings_view(ms@),
            msv == placeholder_matches(text@),
            pv == strings_view(pieces@),
            pv == placeholder_pieces(text@),
            chars@ == text@,
            len == text@.len(),
            prev_end <= len,
            prev_end == match_end(pv, msv, len as int, i - 1),
            jsons_view(entries@) == placeholder_entries(text@, i as int),
            jsons_view(invalid@) == invalid_entries(text@, i as int),
            strings_view(keys@) == key_occurrences(msv, i as int),
        decreases ms.len() - i,
    {
        let raw = ms[i].as_str();
        let piece_len: usize = if i < pieces.len() {
            pieces[i].as_str().unicode_len()
        } else {
            0
        };
        proof {
            assert(piece_len == piece_at(pv, i as int).len());
            assert(raw@ == msv[i as int]);
        }
        let start: usize = if piece_len < len - prev_end {
            prev_end + piece_len
        } else {
            len
        };
        let raw_len = raw.unicode_len();
        let end: usize = if raw_len < len - start {
            start + raw_len
        } else {
            len
        };
        proof {
            assert(start == match_start(pv, msv, len as int, i as int));
            assert(end == match_end(pv, msv, len as int, i as int));
        }
        let ctx = extract_context(&chars, start, end, CONTEXT_RADIUS);
        proof {
            assert(ctx@ == match_context(text@, i as int));
        }
        let group = match regex_capture(placeholder_pattern_exec(), raw, 1) {
            Some(Some(g)) => g,
            _ => String::new(),
        };
        proof {
            assert(group@ == keys_text(raw@));
        }
        let (ks, inv) = parse_placeholder_keys(group.as_str());
        proof {
            assert((strings_view(ks@), strings_view(inv@)) == raw_keys(raw@));
        }
        let mut m: Vec<(String, Json)> = Vec::new();
        push_member(&mut m, "context", Json::Str(ctx.clone()));
        push_member(&mut m, "keys", strings_json(&ks));
        push_member(&mut m, "raw", Json::Str(raw.to_owned()));
        proof {
            assert(entries_view(m@) =~= seq![
                ("context"@, JsonV::Str(ctx@)),
                ("keys"@, str_array(raw_keys(raw@).0)),
                ("raw"@, JsonV::Str(raw@)),
            ]);
        }
        let entry = Json::Object(m);
        let ghost eg = entry;
        let ghost before_e = entries@;
        entries.push(entry);
        proof {
            assert(entries@ =~= before_e + seq![eg]);
            crate::json::lemma_jsons_view_append(before_e, seq![eg]);
            crate::json::lemma_jsons_view(seq![eg]);
            assert(jsons_view(entries@) =~= placeholder_entries(text@, i + 1));
        }
        let ghost before_i = invalid@;
        if inv.len() > 0 || ks.len() == 0 {
            let parts: Vec<String> = if inv.len() > 0 {
                inv
            } else {
                vec![trim_str(group.as_str())]
            };
            proof {
                assert(strings_view(parts@) =~= if raw_keys(raw@).1.len() > 0 {
                    raw_keys(raw@).1
                } else {
                    seq![trim(keys_text(raw@))]
                });
            }
            let mut im: Vec<(String, Json)> = Vec::new();
            push_member(&mut im, "context", Json::Str(ctx));
            push_member(&mut im, "invalid_parts", strings_json(&parts));
            push_member(&mut im, "keys", strings_json(&ks));
            push_member(&mut im, "raw", Json::Str(raw.to_owned()));
            push_member(&mut im, "reason", Json::Str("Expected comma-separated 8-character Zotero item keys.".to_owned()));
            let ghost ctxv = match_context(text@, i as int);
            proof {
                assert(entries_view(im@) =~= seq![
                    ("context"@, JsonV::Str(ctxv)),
                    ("invalid_parts"@, str_array(strings_view(parts@))),
                    ("keys"@, str_array(raw_keys(raw@).0)),
                    ("raw"@, JsonV::Str(raw@)),
                    ("reason"@, JsonV::Str("Expected comma-separated 8-character Zotero item keys."@)),
                ]);
            }
            let ie = Json::Object(im);
            let ghost ig = ie;
            invalid.push(ie);
            proof {
                assert(invalid@ =~= before_i + seq![ig]);
                crate::json::lemma_jsons_view_append(before_i, seq![ig]);
                crate::json::lemma_jsons_view(seq![ig]);
            }
        }
        proof {
            assert(jsons_view(invalid@) =~= invalid_entries(text@, i + 1));
        }
        let ghost before_k = strings_view(keys@);
        let mut j: usize = 0;
        while j < ks.len()
            invariant
                j <= ks@.len(),
                strings_view(keys@) == before_k + strings_view(ks@).subrange(0, j as int),
            decreases ks.len() - j,
        {
            let ghost bk = keys@;
            keys.push(ks[j].clone());
            proof {
                assert(strings_view(keys@) =~= strings_view(bk).push(ks@[j as int]@));
                assert(strings_view(ks@).subrange(0, j + 1) =~= strings_view(ks@).subrange(0, j as int).push(ks@[j as int]@));
            }
            j = j + 1;
        }
        proof {
            assert(strings_view(ks@).subrange(0, ks@.len() as int) =~= strings_view(ks@));
            assert(strings_view(keys@) =~= key_occurrences(msv, i + 1));
        }
        prev_end = end;
        i = i + 1;
    }
    PlaceholderScan { entries, invalid, keys }
}

/// The distinct keys of `ks`, sorted.
pub open spec fn sorted_keys(ks: Seq<Seq<char>>) -> Seq<Seq<char>> {
    key_set(ks).map_values(|e: (Seq<char>, JsonV)| e.0)
}

/// The keys of `ks` as the members of a map, each key once, in key order.
pub open spec fn key_set(ks: Seq<Seq<char>>) -> Seq<(Seq<char>, JsonV)>
    decreases ks.len(),
{
    if ks.len() == 0 {
        Seq::empty()
    } else {
        insert_spec(key_set(ks.drop_last()), ks.last(), JsonV::Null)
    }
}

/// How often `k` occurs in `ks`.
pub open spec fn count_in(ks: Seq<Seq<char>>, k: Seq<char>) -> nat
    decreases ks.len(),
{
    if ks.len() == 0 {
        0
    } else {
        count_in(ks.drop_last(), k) + if ks.last() == k {
            1nat
        } else {
            0nat
        }
    }
}

/// Those of `us` that occur more than once in `ks`, in the order of `us`.
pub open spec fn repeated(us: Seq<Seq<char>>, ks: Seq<Seq<char>>) -> Seq<Seq<char>>
    decreases us.len(),
{
    if us.len() == 0 {
        Seq::empty()
    } else {
        repeated(us.drop_last(), ks) + if count_in(ks, us.last()) > 1 {
            seq![us.last()]
        } else {
            Seq::empty()
        }
    }
}

/// The distinct keys, sorted.
pub fn sorted_unique_keys(ks: &Vec<String>) -> (r: Vec<String>)
    ensures
        strings_view(r@) == sorted_keys(strings_view(ks@)),
{
    let ghost kv = strings_view(ks@);
    let mut set: Vec<(String, Json)> = Vec::new();
    let mut i: usize = 0;
    proof {
        assert(kv.subrange(0, 0) =~= Seq::<Seq<char>>::empty());
        assert(entries_view(set@) =~= Seq::<(Seq<char>, JsonV)>::empty());
    }
    while i < ks.len()
        invariant
            i <= ks@.len(),
            kv == strings_view(ks@),
            entries_view(set@) == key_set(kv.subrange(0, i as int)),
        decreases ks.len() - i,
    {
        proof {
            assert(kv.subrange(0, i + 1).drop_last() =~= kv.subrange(0, i as int));
            assert(kv.subrange(0, i + 1).last() == ks@[i as int]@);
        }
        crate::json::obj_insert(&mut set, ks[i].clone(), Json::Null);
        i = i + 1;
    }
    proof {
        assert(kv.subrange(0, kv.len() as int) =~= kv);
        crate::json::lemma_entries_view(set@);
    }
    let ghost ev = entries_view(set@);
    let mut out: Vec<String> = Vec::new();
    let mut j: usize = 0;
    while j < set.len()
        invariant
            j <= set@.len(),
            ev == entries_view(set@),
            ev.len() == set@.len(),
            forall|k: int| 0 <= k < set@.len() ==> #[trigger] ev[k] == (set@[k].0@, crate::json::json_view(set@[k].1)),
            strings_view(out@) == ev.subrange(0, j as int).map_values(|e: (Seq<char>, JsonV)| e.0),
        decreases set.len() - j,
    {
        let ghost before = out@;
        let kc = set[j].0.clone();
        out.push(kc);
        proof {
            assert(strings_view(out@) =~= strings_view(before).push(kc@));
            assert(ev[j as int].0 == kc@);
            assert(strings_view(out@) =~= ev.subrange(0, j + 1).map_values(|e: (Seq<char>, JsonV)| e.0));
        }
        j = j + 1;
    }
    proof {
        assert(ev.subrange(0, ev.len() as int) =~= ev);
    }
    out
}

/// How often `k` occurs among `ks`.
pub fn count_key_pub(ks: &Vec<String>, k: &str) -> (n: usize)
    ensures
        n == count_in(strings_view(ks@), k@),
{
    let ghost kv = strings_view(ks@);
    let mut n: usize = 0;
    let mut i: usize = 0;
    proof {
        assert(kv.subrange(0, 0) =~= Seq::<Seq<char>>::empty());
    }
    while i < ks.len()
        invariant
            i <= ks@.len(),
            kv == strings_view(ks@),
            n == count_in(kv.subrange(0, i as int), k@),
            n <= i,
        decreases ks.len() - i,
    {
        proof {
            assert(kv.subrange(0, i + 1).drop_last() =~= kv.subrange(0, i as int));
            assert(kv.subrange(0, i + 1).last() == ks@[i as int]@);
        }
        if crate::text::str_eq(ks[i].as_str(), k) {
            n = n + 1;
        }
        i = i + 1;
    }
    proof {
        assert(kv.subrange(0, kv.len() as int) =~= kv);
    }
    n
}

/// Those of `unique` that occur more than once among `ks`, in order.
pub fn repeated_keys(unique: &Vec<String>, ks: &Vec<String>) -> (r: Vec<String>)
    ensures
        strings_view(r@) == repeated(strings_view(unique@), strings_view(ks@)),
{
    let ghost uv = strings_view(unique@);
    let mut out: Vec<String> = Vec::new();
    let mut i: usize = 0;
    proof {
        assert(uv.subrange(0, 0) =~= Seq::<Seq<char>>::empty());
        assert(strings_view(out@) =~= Seq::<Seq<char>>::empty());
    }
    while i < unique.len()
        invariant
            i <= unique@.len(),
            uv == strings_view(unique@),
            strings_view(out@) == repeated(uv.subrange(0, i as int), strings_view(ks@)),
        decreases unique.len() - i,
    {
        proof {
            assert(uv.subrange(0, i + 1).drop_last() =~= uv.subrange(0, i as int));
            assert(uv.subrange(0, i + 1).last() == unique@[i as int]@);
        }
        let ghost before = out@;
        if count_key_pub(ks, unique[i].as_str()) > 1 {
            out.push(unique[i].clone());
            proof {
                assert(strings_view(out@) =~= strings_view(before).push(unique@[i as int]@));
            }
        }
        i = i + 1;
    }
    proof {
        assert(uv.subrange(0, uv.len() as int) =~= uv);
    }
    out
}

/// The first `limit` entries (all of them when there are fewer).
pub open spec fn sample(v: Seq<JsonV>, limit: int) -> Seq<JsonV> {
    if limit < v.len() {
        v.subrange(0, limit)
    } else {
        v
    }
}

/// The first `limit` values as a JSON array.
pub fn sample_json(v: &Vec<Json>, limit: usize) -> (r: Json)
    ensures
        r@ == JsonV::Array(sample(jsons_view(v@), limit as int)),
{
    let n = if limit < v.len() {
        limit
    } else {
        v.len()
    };
    let mut out: Vec<Json> = Vec::new();
    let mut i: usize = 0;
    proof {
        crate::json::lemma_jsons_view(v@);
        assert(jsons_view(out@) =~= Seq::<JsonV>::empty());
    }
    while i < n
        invariant
            i <= n <= v@.len(),
            jsons_view(v@).len() == v@.len(),
            forall|k: int| 0 <= k < v@.len() ==> #[trigger] jsons_view(v@)[k] == crate::json::json_view(v@[k]),
            jsons_view(out@) == jsons_view(v@).subrange(0, i as int),
        decreases n - i,
    {
        let x = v[i].deep_clone();
        let ghost xg = x;
        let ghost before = out@;
        out.push(x);
        proof {
            assert(out@ =~= before + seq![xg]);
            crate::json::lemma_jsons_view_append(before, seq![xg]);
            crate::json::lemma_jsons_view(seq![xg]);
            assert(jsons_view(out@) =~= jsons_view(v@).subrange(0, i + 1));
        }
        i = i + 1;
    }
    proof {
        assert(jsons_view(v@).subrange(0, jsons_view(v@).len() as int) =~= jsons_view(v@));
    }
    Json::Array(out)
}

/// The placeholder report of a document: how many placeholders and citations it holds,
/// its distinct and repeated keys (sorted), samples of its placeholders and of the
/// malformed ones, and advice.
pub open spec fn placeholder_report_spec(path: Seq<char>, text: Seq<char>, limit: int) -> JsonV {
    let n = placeholder_matches(text).len() as int;
    let entries = placeholder_entries(text, n);
    let invalid = invalid_entries(text, n);
    let keys = key_occurrences(placeholder_matches(text), n);
    let unique = sorted_keys(keys);
    JsonV::Object(seq![
        ("citation_count"@, JsonV::Number(crate::text::nat_decimal(keys.len()))),
        ("duplicate_keys"@, str_array(repeated(unique, keys))),
        ("invalid_placeholders"@, JsonV::Array(sample(invalid, limit))),
        ("notes"@, str_array(crate::docx_inspect::placeholder_notes_spec(entries.len() > 0, invalid.len() > 0))),
        ("path"@, JsonV::Str(path)),
        ("placeholder_count"@, JsonV::Number(crate::text::nat_decimal(entries.len()))),
        ("placeholders"@, JsonV::Array(sample(entries, limit))),
        ("unique_keys"@, str_array(unique)),
    ])
}

/// The placeholder report of the document at `path` whose visible text is `text`.
pub fn placeholder_report(path: &str, text: &str, sample_limit: usize) -> (r: Json)
    ensures
        r@ == placeholder_report_spec(path@, text@, sample_limit as int),
{
    let scan = scan_placeholders(text);
    let unique = sorted_unique_keys(&scan.keys);
    let dups = repeated_keys(&unique, &scan.keys);
    let notes = crate::docx_inspect::build_placeholder_notes(scan.entries.len() > 0, scan.invalid.len() > 0);
    proof {
        crate::json::lemma_jsons_view(scan.entries@);
        crate::json::lemma_jsons_view(scan.invalid@);
    }
    let mut m: Vec<(String, Json)> = Vec::new();
    push_member(&mut m, "citation_count", crate::json::json_count(scan.keys.len()));
    push_member(&mut m, "duplicate_keys", strings_json(&dups));
    push_member(&mut m, "invalid_placeholders", sample_json(&scan.invalid, sample_limit));
    push_member(&mut m, "notes", strings_json(&notes));
    push_member(&mut m, "path", Json::Str(path.to_owned()));
    push_member(&mut m, "placeholder_count", crate::json::json_count(scan.entries.len()));
    push_member(&mut m, "placeholders", sample_json(&scan.entries, sample_limit));
    push_member(&mut m, "unique_keys", strings_json(&unique));
    proof {
        assert(entries_view(m@) =~= match placeholder_report_spec(path@, text@, sample_limit as int) {
            JsonV::Object(es) => es,
            _ => Seq::empty(),
        });
    }
    Json::Object(m)
}

} // verus!
