//! Small decisions shared by the command handlers: flag pairs, membership arrays, reference
//! lists and library ids.

use vstd::prelude::*;

use crate::error::DomainError;
use crate::text::{
    chars_of, concat3, i64_to_string, int_decimal, split_char, split_char_spec, str_eq, strings_contains,
    strings_view, trim, trim_str,
};

verus! {

/// Resolves a `--flag/--no-flag` pair: an explicit flag wins over `default`.
pub fn resolve_bool_flag(positive: bool, negative: bool, default: bool) -> (b: bool)
    ensures
        b == if positive {
            true
        } else if negative {
            false
        } else {
            default
        },
{
    if positive {
        true
    } else if negative {
        false
    } else {
        default
    }
}

/// `list` followed by each of `add` not yet present, in order (a full-array replacement
/// that adds memberships).
pub open spec fn union_spec(list: Seq<Seq<char>>, add: Seq<Seq<char>>) -> Seq<Seq<char>>
    decreases add.len(),
{
    if add.len() == 0 {
        list
    } else {
        let prefix = union_spec(list, add.drop_last());
        if prefix.contains(add.last()) {
            prefix
        } else {
            prefix.push(add.last())
        }
    }
}

/// `list` without any of `remove` (a full-array replacement that drops memberships).
pub open spec fn difference_spec(list: Seq<Seq<char>>, remove: Seq<Seq<char>>) -> Seq<Seq<char>> {
    list.filter(|x: Seq<char>| !remove.contains(x))
}

fn copy_strings(v: &Vec<String>) -> (r: Vec<String>)
    ensures
        strings_view(r@) == strings_view(v@),
{
    let mut out: Vec<String> = Vec::new();
    let mut i: usize = 0;
    while i < v.len()
        invariant
            i <= v@.len(),
            strings_view(out@) == strings_view(v@).subrange(0, i as int),
        decreases v.len() - i,
    {
        let c = v[i].clone();
        let ghost before = out@;
        out.push(c);
        proof {
            assert(c@ == v@[i as int]@);
            assert(strings_view(out@) =~= strings_view(before).push(c@));
            assert(strings_view(out@) =~= strings_view(v@).subrange(0, i + 1));
        }
        i = i + 1;
    }
    proof {
        assert(strings_view(v@).subrange(0, v@.len() as int) =~= strings_view(v@));
    }
    out
}

/// Adds each of `add` to `list` unless already there.
pub fn union_replace(list: &Vec<String>, add: &Vec<String>) -> (r: Vec<String>)
    ensures
        strings_view(r@) == union_spec(strings_view(list@), strings_view(add@)),
{
    let mut out = copy_strings(list);
    let mut i: usize = 0;
    while i < add.len()
        invariant
            i <= add@.len(),
            strings_view(out@) == union_spec(strings_view(list@), strings_view(add@).subrange(0, i as int)),
        decreases add.len() - i,
    {
        proof {
            assert(strings_view(add@).subrange(0, i + 1).drop_last() =~= strings_view(add@).subrange(0, i as int));
            assert(strings_view(add@).subrange(0, i + 1).last() == add@[i as int]@);
        }
        if !strings_contains(&out, add[i].as_str()) {
            out.push(add[i].clone());
            proof {
                assert(strings_view(out@) =~= strings_view(out@).drop_last().push(add@[i as int]@));
            }
        }
        i = i + 1;
    }
    proof {
        assert(strings_view(add@).subrange(0, add@.len() as int) =~= strings_view(add@));
    }
    out
}

/// Drops every member of `remove` from `list`.
pub fn difference_replace(list: &Vec<String>, remove: &Vec<String>) -> (r: Vec<String>)
    ensures
        strings_view(r@) == difference_spec(strings_view(list@), strings_view(remove@)),
{
    let ghost rv = strings_view(remove@);
    let mut out: Vec<String> = Vec::new();
    let mut i: usize = 0;
    while i < list.len()
        invariant
            i <= list@.len(),
            rv == strings_view(remove@),
            strings_view(out@) == strings_view(list@).subrange(0, i as int).filter(|x: Seq<char>| !rv.contains(x)),
        decreases list.len() - i,
    {
        proof {
            reveal(Seq::filter);
            assert(strings_view(list@).subrange(0, i + 1).drop_last() =~= strings_view(list@).subrange(0, i as int));
            assert(strings_view(list@).subrange(0, i + 1).last() == list@[i as int]@);
        }
        if !strings_contains(remove, list[i].as_str()) {
            out.push(list[i].clone());
            proof {
                assert(strings_view(out@) =~= strings_view(out@).drop_last().push(list@[i as int]@));
            }
        }
        i = i + 1;
    }
    proof {
        assert(strings_view(list@).subrange(0, list@.len() as int) =~= strings_view(list@));
    }
    out
}

/// The collections of an item moved to `target`: only `target` when every other membership
/// goes; else `target` added, then the named sources dropped (and `target` re-added if it
/// was one of them).
pub open spec fn move_set_spec(
    current: Seq<Seq<char>>,
    target: Seq<char>,
    from: Seq<Seq<char>>,
    all_other: bool,
) -> Seq<Seq<char>> {
    if all_other {
        seq![target]
    } else if from.len() == 0 {
        union_spec(current, seq![target])
    } else {
        let d = difference_spec(union_spec(current, seq![target]), from);
        if d.contains(target) {
            d
        } else {
            d.push(target)
        }
    }
}

/// The full replacement `collections` array for moving an item to `target`.
pub fn compute_move_to_collection_set(
    current: &Vec<String>,
    target: &str,
    from_keys: &Vec<String>,
    all_other_collections: bool,
) -> (r: Vec<String>)
    ensures
        strings_view(r@) == move_set_spec(strings_view(current@), target@, strings_view(from_keys@), all_other_collections),
{
    if all_other_collections {
        let mut r: Vec<String> = Vec::new();
        r.push(target.to_owned());
        proof {
            assert(strings_view(r@) =~= seq![target@]);
        }
        return r;
    }
    let mut t: Vec<String> = Vec::new();
    t.push(target.to_owned());
    proof {
        assert(strings_view(t@) =~= seq![target@]);
    }
    if from_keys.len() == 0 {
        return union_replace(current, &t);
    }
    let replaced = union_replace(current, &t);
    let mut replaced = difference_replace(&replaced, from_keys);
    if !strings_contains(&replaced, target) {
        let ghost before = replaced@;
        replaced.push(target.to_owned());
        proof {
            assert(strings_view(replaced@) =~= strings_view(before).push(target@));
        }
    }
    replaced
}

/// The references of `--items`: the comma-separated parts, trimmed, empty ones dropped.
pub open spec fn export_refs_spec(items: Seq<char>) -> Seq<Seq<char>> {
    split_char_spec(items, ',').map_values(|p: Seq<char>| trim(p)).filter(|p: Seq<char>| p.len() != 0)
}

/// Splits `--items` into item references; at least one is required.
pub fn split_export_refs(items: &str) -> (r: Result<Vec<String>, DomainError>)
    ensures
        export_refs_spec(items@).len() == 0 ==> (r matches Err(e) && e.0@
            == "--items must contain at least one item key or ID."@),
        export_refs_spec(items@).len() != 0 ==> (r matches Ok(v) && strings_view(v@) == export_refs_spec(items@)),
{
    let parts = split_char(items, ',');
    let ghost pv = strings_view(parts@);
    let ghost tv = pv.map_values(|p: Seq<char>| trim(p));
    let mut out: Vec<String> = Vec::new();
    let mut i: usize = 0;
    while i < parts.len()
        invariant
            i <= parts@.len(),
            pv == strings_view(parts@),
            pv == split_char_spec(items@, ','),
            tv == pv.map_values(|p: Seq<char>| trim(p)),
            strings_view(out@) == tv.subrange(0, i as int).filter(|p: Seq<char>| p.len() != 0),
        decreases parts.len() - i,
    {
        proof {
            reveal(Seq::filter);
            assert(tv.subrange(0, i + 1).drop_last() =~= tv.subrange(0, i as int));
            assert(tv.subrange(0, i + 1).last() == trim(parts@[i as int]@));
        }
        let t = trim_str(parts[i].as_str());
        let tc = chars_of(t.as_str());
        if tc.len() != 0 {
            let ghost before = out@;
            out.push(t);
            proof {
                assert(strings_view(out@) =~= strings_view(before).push(trim(parts@[i as int]@)));
            }
        }
        i = i + 1;
    }
    proof {
        assert(tv.subrange(0, tv.len() as int) =~= tv);
    }
    if out.len() == 0 {
        return Err(DomainError::new("--items must contain at least one item key or ID."));
    }
    Ok(out)
}

/// Narrows a library id to the `u32` the Bridge takes.
pub fn library_id_u32(library_id: i64) -> (r: Result<u32, DomainError>)
    ensures
        0 <= library_id <= u32::MAX ==> r == Ok::<u32, DomainError>(library_id as u32),
        !(0 <= library_id <= u32::MAX) ==> (r matches Err(e) && e.0@ == "library id "@ + int_decimal(
            library_id as int,
        ) + " is out of range for the JS Bridge"@),
{
    if 0 <= library_id && library_id <= 4294967295 {
        return Ok(library_id as u32);
    }
    let id = i64_to_string(library_id);
    Err(DomainError::from_string(concat3("library id ", id.as_str(), " is out of range for the JS Bridge")))
}

} // verus!
