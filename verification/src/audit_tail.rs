//! Reading back the audit log: the lines of its tail that hold records, and the record each
//! line reads as.

use vstd::prelude::*;

use crate::json::{entries_view, insert_spec, obj_insert, Json, JsonV};
use crate::text::{strings_view, trim, trim_str};

verus! {

/// What `str::lines` gives: the lines of a text, without their `\n` or `\r\n` endings.
pub uninterp spec fn lines_result(s: Seq<char>) -> Seq<Seq<char>>;

/// Calls `str::lines`.
#[verifier::external_body]
fn str_lines(s: &str) -> (r: Vec<String>)
    ensures
        strings_view(r@) == lines_result(s@),
{
    s.lines().map(|l| l.to_string()).collect()
}

/// The lines of `ls`, trimmed, that are not blank, in order.
pub open spec fn nonblank_trimmed(ls: Seq<Seq<char>>) -> Seq<Seq<char>>
    decreases ls.len(),
{
    if ls.len() == 0 {
        Seq::empty()
    } else {
        let rest = nonblank_trimmed(ls.drop_last());
        let t = trim(ls.last());
        if t.len() > 0 {
            rest.push(t)
        } else {
            rest
        }
    }
}

/// The records the log's tail reads: of the last `limit` lines (at least one), those that are
/// not blank, trimmed.
pub open spec fn tail_lines_spec(content: Seq<char>, limit: nat) -> Seq<Seq<char>> {
    let ls = lines_result(content);
    let take: nat = if limit < 1 {
        1
    } else {
        limit
    };
    let start = if ls.len() > take {
        ls.len() - take
    } else {
        0
    };
    nonblank_trimmed(ls.subrange(start, ls.len() as int))
}

/// The lines of the log's text that its tail reads as records.
pub fn tail_lines(content: &str, limit: usize) -> (r: Vec<String>)
    ensures
        strings_view(r@) == tail_lines_spec(content@, limit as nat),
{
    let ls = str_lines(content);
    let ghost lv = strings_view(ls@);
    let take: usize = if limit < 1 {
        1
    } else {
        limit
    };
    let start: usize = if ls.len() > take {
        ls.len() - take
    } else {
        0
    };
    let mut out: Vec<String> = Vec::new();
    let mut k: usize = start;
    proof {
        assert(lv.subrange(start as int, start as int) =~= Seq::<Seq<char>>::empty());
        assert(strings_view(out@) =~= Seq::<Seq<char>>::empty());
    }
    while k < ls.len()
        invariant
            start <= k <= ls@.len(),
            lv == strings_view(ls@),
            lv.len() == ls@.len(),
            strings_view(out@) == nonblank_trimmed(lv.subrange(start as int, k as int)),
        decreases ls.len() - k,
    {
        let t = trim_str(ls[k].as_str());
        proof {
            assert(lv.subrange(start as int, k + 1).drop_last() =~= lv.subrange(start as int, k as int));
            assert(lv[k as int] == ls@[k as int]@);
        }
        if !crate::text::str_is_empty(t.as_str()) {
            let ghost before = out@;
            let ghost tv = t@;
            out.push(t);
            proof {
                assert(strings_view(out@) =~= strings_view(before).push(tv));
            }
        }
        k = k + 1;
    }
    out
}

/// The record a line of the log reads as: its JSON value, or (when it is not JSON) an error
/// record holding the line.
pub open spec fn tail_record_spec(line: Seq<char>, parsed: Result<JsonV, Seq<char>>) -> JsonV {
    match parsed {
        Ok(v) => v,
        Err(_) => JsonV::Object(insert_spec(insert_spec(insert_spec(Seq::empty(), "raw"@, JsonV::Str(line)), "ok"@,
            JsonV::Bool(false)), "error"@, JsonV::Str("invalid json line"@))),
    }
}

/// The record a line of the log reads as, given what parsing it as JSON gave.
pub fn tail_record(line: &str, parsed: Result<Json, String>) -> (r: Json)
    ensures
        r@ == tail_record_spec(line@, match parsed {
            Ok(v) => Ok(v@),
            Err(e) => Err(e@),
        }),
{
    match parsed {
        Ok(v) => v,
        Err(_) => {
            let mut m: Vec<(String, Json)> = Vec::new();
            proof {
                assert(entries_view(m@) =~= Seq::<(Seq<char>, JsonV)>::empty());
            }
            obj_insert(&mut m, "raw".to_owned(), Json::Str(line.to_owned()));
            obj_insert(&mut m, "ok".to_owned(), Json::Bool(false));
            obj_insert(&mut m, "error".to_owned(), Json::Str("invalid json line".to_owned()));
            Json::Object(m)
        },
    }
}

} // verus!
