//! Library hygiene: duplicate detection by normalized DOI or title.

use vstd::prelude::*;

use crate::cli::DuplicatesBy;
use crate::db::Item;
use crate::pattern::{regex_replace_all, regex_replace_all_result};
use crate::text::{
    chars_of, lit, occurs_at, occurs_at_exec, skip_ws_forward, starts_with, starts_with_exec,
    seq_lt, str_eq, str_lt, strings_contains, strings_view, string_from_range, to_lowercase, lowercase, trim,
    trim_start, trim_str,
};

verus! {

/// The punctuation that trailing trimming removes from a DOI, besides whitespace.
pub open spec fn doi_trailing() -> Seq<char> {
    seq!['.', ')', ',', ';']
}

/// A character that trailing trimming removes from a DOI: whitespace, `.`, `)`, `,` or `;`.
pub open spec fn is_doi_trailing(c: char) -> bool {
    crate::text::is_ws(c) || doi_trailing().contains(c)
}

/// `s` without its trailing run of whitespace, `.`, `)`, `,` and `;`.
pub open spec fn trim_doi_end(s: Seq<char>) -> Seq<char>
    decreases s.len(),
{
    if s.len() > 0 && is_doi_trailing(s.last()) {
        trim_doi_end(s.drop_last())
    } else {
        s
    }
}

/// End index of `trim_doi_end(v[lo..hi])`.
fn trim_doi_end_exec(v: &Vec<char>, lo: usize, hi: usize, set: &Vec<char>) -> (j: usize)
    requires
        lo <= hi <= v@.len(),
        set@ == doi_trailing(),
    ensures
        lo <= j <= hi,
        trim_doi_end(v@.subrange(lo as int, hi as int)) == v@.subrange(lo as int, j as int),
{
    let mut j = hi;
    while j > lo && (crate::text::char_is_ws(v[j - 1]) || crate::text::vec_contains_char(set, v[j - 1]))
        invariant
            lo <= j <= hi <= v@.len(),
            set@ == doi_trailing(),
            trim_doi_end(v@.subrange(lo as int, hi as int)) == trim_doi_end(v@.subrange(lo as int, j as int)),
        decreases j,
    {
        assert(v@.subrange(lo as int, j as int).drop_last() =~= v@.subrange(lo as int, j - 1));
        j = j - 1;
    }
    j
}

/// `t` with a leading `https://doi.org/`, `http://doi.org/`, `https://dx.doi.org/` or
/// `http://dx.doi.org/` removed (at most one; they exclude each other).
pub open spec fn strip_doi_url(t: Seq<char>) -> Seq<char> {
    if starts_with(t, "https://doi.org/"@) {
        t.subrange("https://doi.org/"@.len() as int, t.len() as int)
    } else if starts_with(t, "http://doi.org/"@) {
        t.subrange("http://doi.org/"@.len() as int, t.len() as int)
    } else if starts_with(t, "https://dx.doi.org/"@) {
        t.subrange("https://dx.doi.org/"@.len() as int, t.len() as int)
    } else if starts_with(t, "http://dx.doi.org/"@) {
        t.subrange("http://dx.doi.org/"@.len() as int, t.len() as int)
    } else {
        t
    }
}

/// The normalized DOI: lowercased and trimmed, without a resolver URL prefix or a `doi:`
/// label (and the whitespace after it), without trailing whitespace, `.`, `)`, `,` and `;`.
pub open spec fn norm_doi_spec(value: Seq<char>) -> Seq<char> {
    let t = strip_doi_url(lowercase(trim(value)));
    let t2 = if starts_with(t, "doi:"@) {
        trim_start(t.subrange(4, t.len() as int))
    } else {
        t
    };
    trim_doi_end(t2)
}

/// Normalizes a DOI for comparison.
pub fn norm_doi(value: &str) -> (r: String)
    ensures
        r@ == norm_doi_spec(value@),
{
    let trimmed = trim_str(value);
    let lower = to_lowercase(trimmed.as_str());
    let v = chars_of(lower.as_str());
    let ghost low = v@;
    let p1 = lit("https://doi.org/");
    let p2 = lit("http://doi.org/");
    let p3 = lit("https://dx.doi.org/");
    let p4 = lit("http://dx.doi.org/");
    let mut lo: usize = 0;
    if starts_with_exec(&v, &p1) {
        lo = p1.len();
    } else if starts_with_exec(&v, &p2) {
        lo = p2.len();
    } else if starts_with_exec(&v, &p3) {
        lo = p3.len();
    } else if starts_with_exec(&v, &p4) {
        lo = p4.len();
    }
    assert(strip_doi_url(low) == low.subrange(lo as int, low.len() as int)) by {
        if lo == 0 {
            assert(low.subrange(0, low.len() as int) =~= low);
        }
    }
    let doi = lit("doi:");
    proof {
        reveal_strlit("doi:");
        assert(doi@.len() == 4);
    }
    let ghost t = low.subrange(lo as int, low.len() as int);
    let n = v.len();
    if occurs_at_exec(&v, &doi, lo) {
        assert(lo + doi@.len() <= n);
        proof {
            assert(t.subrange(0, 4) =~= low.subrange(lo as int, lo + 4));
            assert(t.subrange(4, t.len() as int) =~= low.subrange(lo + 4, low.len() as int));
        }
        lo = skip_ws_forward(&v, lo + doi.len());
    } else {
        proof {
            if starts_with(t, "doi:"@) {
                assert(t.subrange(0, 4) =~= low.subrange(lo as int, lo + 4));
            }
        }
    }
    let set = lit(".),;");
    proof {
        reveal_strlit(".),;");
        assert(set@ =~= doi_trailing());
    }
    let hi = trim_doi_end_exec(&v, lo, v.len(), &set);
    string_from_range(&v, lo, hi)
}

/// The normalized title: lowercased and trimmed, whitespace runs collapsed to one space
/// (`\s+`), then every character that is neither a word character nor whitespace removed
/// (`[^\w\s]`). A pattern that fails to compile leaves its step's input unchanged.
pub open spec fn norm_title_spec(value: Seq<char>) -> Seq<char> {
    let t = lowercase(trim(value));
    let a = match regex_replace_all_result("\\s+"@, t, " "@) {
        Some(x) => x,
        None => t,
    };
    match regex_replace_all_result("[^\\w\\s]"@, a, ""@) {
        Some(x) => x,
        None => a,
    }
}

/// Normalizes a title for comparison.
pub fn norm_title(value: &str) -> (r: String)
    ensures
        r@ == norm_title_spec(value@),
{
    let trimmed = trim_str(value);
    let t = to_lowercase(trimmed.as_str());
    let a = match regex_replace_all("\\s+", t.as_str(), " ") {
        Some(x) => x,
        None => t,
    };
    match regex_replace_all("[^\\w\\s]", a.as_str(), "") {
        Some(x) => x,
        None => a,
    }
}


/// Single duplicate member within a duplicate group.
#[derive(Debug, Clone)]
pub struct DuplicateItemMember {
    pub key: String,
    pub title: String,
    pub doi: String,
    pub date: String,
    pub has_pdf: bool,
}

/// A group of items sharing a normalized DOI or title.
#[derive(Debug, Clone)]
pub struct DuplicateGroup {
    pub match_key: String,
    pub count: usize,
    pub keep_suggestion: String,
    pub items: Vec<DuplicateItemMember>,
}

/// The duplicate report envelope.
#[derive(Debug, Clone)]
pub struct DuplicatePayload {
    pub action: String,
    pub ok: bool,
    pub status: String,
    pub code: String,
    pub by: String,
    pub group_count: usize,
    pub groups: Vec<DuplicateGroup>,
}

/// The value of a duplicate member.
pub struct MemberView {
    pub key: Seq<char>,
    pub title: Seq<char>,
    pub doi: Seq<char>,
    pub date: Seq<char>,
    pub has_pdf: bool,
}

/// The value of a duplicate group.
pub struct GroupView {
    pub match_key: Seq<char>,
    pub count: nat,
    pub keep_suggestion: Seq<char>,
    pub items: Seq<MemberView>,
}

impl View for DuplicateItemMember {
    type V = MemberView;

    open spec fn view(&self) -> MemberView {
        MemberView { key: self.key@, title: self.title@, doi: self.doi@, date: self.date@, has_pdf: self.has_pdf }
    }
}

impl View for DuplicateGroup {
    type V = GroupView;

    open spec fn view(&self) -> GroupView {
        GroupView {
            match_key: self.match_key@,
            count: self.count as nat,
            keep_suggestion: self.keep_suggestion@,
            items: members_view(self.items@),
        }
    }
}

/// Views of a list of members.
pub open spec fn members_view(s: Seq<DuplicateItemMember>) -> Seq<MemberView> {
    s.map_values(|m: DuplicateItemMember| m@)
}

/// Views of a list of groups.
pub open spec fn groups_view(s: Seq<DuplicateGroup>) -> Seq<GroupView> {
    s.map_values(|g: DuplicateGroup| g@)
}

/// The grouping key of an item: its normalized DOI (non-empty) or normalized title (at
/// least 8 characters); attachments, notes and annotations have none.
pub open spec fn item_match_key(item: Item, by: DuplicatesBy) -> Option<Seq<char>> {
    if item.is_attachment || item.is_note || item.is_annotation {
        None
    } else {
        match by {
            DuplicatesBy::Doi => {
                let k = norm_doi_spec(item.doi@);
                if k.len() == 0 {
                    None
                } else {
                    Some(k)
                }
            },
            DuplicatesBy::Title => {
                let k = norm_title_spec(item.title@);
                if k.len() < 8 {
                    None
                } else {
                    Some(k)
                }
            },
            DuplicatesBy::Zotero => None,
        }
    }
}

/// The member record of an item (a missing date reads as empty).
pub open spec fn item_member(item: Item) -> MemberView {
    MemberView {
        key: item.key@,
        title: item.title@,
        doi: item.doi@,
        date: match item.date {
            Some(d) => d@,
            None => Seq::empty(),
        },
        has_pdf: item.has_pdf,
    }
}

/// The distinct grouping keys of `items`, in order of first occurrence.
pub open spec fn first_seen_keys(items: Seq<Item>, by: DuplicatesBy) -> Seq<Seq<char>>
    decreases items.len(),
{
    if items.len() == 0 {
        Seq::empty()
    } else {
        let ks = first_seen_keys(items.drop_last(), by);
        match item_match_key(items.last(), by) {
            Some(k) => if ks.contains(k) {
                ks
            } else {
                ks.push(k)
            },
            None => ks,
        }
    }
}

/// The members of `items` whose grouping key is `k`, in order.
pub open spec fn key_members(items: Seq<Item>, by: DuplicatesBy, k: Seq<char>) -> Seq<MemberView>
    decreases items.len(),
{
    if items.len() == 0 {
        Seq::empty()
    } else {
        let m = key_members(items.drop_last(), by, k);
        if item_match_key(items.last(), by) == Some(k) {
            m.push(item_member(items.last()))
        } else {
            m
        }
    }
}

/// `a` sorts strictly after `b`: members with a PDF come first, then by date ascending.
pub open spec fn member_after(a: MemberView, b: MemberView) -> bool {
    (!a.has_pdf && b.has_pdf) || (a.has_pdf == b.has_pdf && seq_lt(b.date, a.date))
}

/// Inserts `x` into `s` after every member that does not sort after it.
pub open spec fn insert_member(s: Seq<MemberView>, x: MemberView) -> Seq<MemberView>
    decreases s.len(),
{
    if s.len() == 0 {
        seq![x]
    } else if member_after(s.last(), x) {
        insert_member(s.drop_last(), x).push(s.last())
    } else {
        s.push(x)
    }
}

/// The stable sort of `s` by (PDF first, date ascending).
pub open spec fn sort_members(s: Seq<MemberView>) -> Seq<MemberView>
    decreases s.len(),
{
    if s.len() == 0 {
        s
    } else {
        insert_member(sort_members(s.drop_last()), s.last())
    }
}

/// The group for key `k`: its members sorted, counted, and the first one's key suggested
/// for keeping.
pub open spec fn group_of(items: Seq<Item>, by: DuplicatesBy, k: Seq<char>) -> GroupView {
    let m = sort_members(key_members(items, by, k));
    GroupView { match_key: k, count: m.len(), keep_suggestion: m[0].key, items: m }
}

/// The groups, in key order, of the keys in `keys` that have at least two members.
pub open spec fn qualifying_groups(items: Seq<Item>, by: DuplicatesBy, keys: Seq<Seq<char>>) -> Seq<GroupView>
    decreases keys.len(),
{
    if keys.len() == 0 {
        Seq::empty()
    } else {
        let g = qualifying_groups(items, by, keys.drop_last());
        if key_members(items, by, keys.last()).len() >= 2 {
            g.push(group_of(items, by, keys.last()))
        } else {
            g
        }
    }
}

/// `a` sorts strictly after `b` when `b` has more members.
pub open spec fn group_after(a: GroupView, b: GroupView) -> bool {
    b.count > a.count
}

/// Inserts `x` into `s` after every group that does not sort after it.
pub open spec fn insert_group(s: Seq<GroupView>, x: GroupView) -> Seq<GroupView>
    decreases s.len(),
{
    if s.len() == 0 {
        seq![x]
    } else if group_after(s.last(), x) {
        insert_group(s.drop_last(), x).push(s.last())
    } else {
        s.push(x)
    }
}

/// The stable sort of `s` by member count, largest first.
pub open spec fn sort_groups(s: Seq<GroupView>) -> Seq<GroupView>
    decreases s.len(),
{
    if s.len() == 0 {
        s
    } else {
        insert_group(sort_groups(s.drop_last()), s.last())
    }
}

/// The reported groups: the first `max(limit, 1)` qualifying groups in first-seen key
/// order, then stably sorted by member count, largest first.
pub open spec fn duplicate_groups_spec(items: Seq<Item>, by: DuplicatesBy, limit: nat) -> Seq<GroupView> {
    let q = qualifying_groups(items, by, first_seen_keys(items, by));
    let cap: nat = if limit == 0 {
        1
    } else {
        limit
    };
    sort_groups(
        if q.len() <= cap {
            q
        } else {
            q.subrange(0, cap as int)
        },
    )
}


/// The grouping key of one item.
fn item_match_key_exec(item: &Item, by: DuplicatesBy) -> (r: Option<String>)
    ensures
        match r {
            Some(k) => item_match_key(*item, by) == Some(k@),
            None => item_match_key(*item, by) is None,
        },
{
    if item.is_attachment || item.is_note || item.is_annotation {
        return None;
    }
    match by {
        DuplicatesBy::Doi => {
            let k = norm_doi(item.doi.as_str());
            if k.as_str().unicode_len() == 0 {
                None
            } else {
                Some(k)
            }
        },
        DuplicatesBy::Title => {
            let k = norm_title(item.title.as_str());
            if k.as_str().unicode_len() < 8 {
                None
            } else {
                Some(k)
            }
        },
        DuplicatesBy::Zotero => None,
    }
}

/// The member record of one item.
fn item_member_exec(item: &Item) -> (m: DuplicateItemMember)
    ensures
        m@ == item_member(*item),
{
    let date = match &item.date {
        Some(d) => d.clone(),
        None => String::new(),
    };
    DuplicateItemMember {
        key: item.key.clone(),
        title: item.title.clone(),
        doi: item.doi.clone(),
        date,
        has_pdf: item.has_pdf,
    }
}

fn member_after_exec(a: &DuplicateItemMember, b: &DuplicateItemMember) -> (r: bool)
    ensures
        r == member_after(a@, b@),
{
    (!a.has_pdf && b.has_pdf) || (a.has_pdf == b.has_pdf && str_lt(b.date.as_str(), a.date.as_str()))
}

/// Inserting at the position found by scanning back over members that sort after `x`.
proof fn lemma_insert_member_at(s: Seq<MemberView>, x: MemberView, p: int)
    requires
        0 <= p <= s.len(),
        forall|k: int| p <= k < s.len() ==> member_after(#[trigger] s[k], x),
        p == 0 || !member_after(s[p - 1], x),
    ensures
        insert_member(s, x) == s.insert(p, x),
    decreases s.len(),
{
    if s.len() == 0 {
        assert(s.insert(p, x) =~= seq![x]);
    } else if p == s.len() {
        assert(s.insert(p, x) =~= s.push(x));
    } else {
        lemma_insert_member_at(s.drop_last(), x, p);
        assert(s.insert(p, x) =~= s.drop_last().insert(p, x).push(s.last()));
    }
}

/// Stable insertion of `x` into the sorted list `s`.
fn insert_member_exec(s: &mut Vec<DuplicateItemMember>, x: DuplicateItemMember)
    ensures
        members_view(final(s)@) == insert_member(members_view(old(s)@), x@),
{
    let mut p = s.len();
    while p > 0 && member_after_exec(&s[p - 1], &x)
        invariant
            p <= s@.len(),
            *s == *old(s),
            forall|k: int| p <= k < s@.len() ==> member_after(#[trigger] s@[k]@, x@),
        decreases p,
    {
        p = p - 1;
    }
    let ghost sv = members_view(s@);
    proof {
        assert forall|k: int| p <= k < sv.len() implies member_after(#[trigger] sv[k], x@) by {
            assert(sv[k] == s@[k]@);
        }
        if p > 0 {
            assert(sv[p - 1] == s@[p - 1]@);
        }
        lemma_insert_member_at(sv, x@, p as int);
    }
    let ghost xv = x@;
    s.insert(p, x);
    proof {
        assert(members_view(s@) =~= sv.insert(p as int, xv));
    }
}

/// Stable sort of a member list.
fn sort_members_exec(v: Vec<DuplicateItemMember>) -> (r: Vec<DuplicateItemMember>)
    ensures
        members_view(r@) == sort_members(members_view(v@)),
{
    let mut out: Vec<DuplicateItemMember> = Vec::new();
    let ghost all = members_view(v@);
    let mut i: usize = 0;
    let n = v.len();
    let mut src = v;
    proof {
        assert(members_view(out@) =~= sort_members(all.subrange(0, 0)));
    }
    while i < n
        invariant
            n == all.len(),
            i <= n,
            src@.len() == n - i,
            members_view(src@) == all.subrange(i as int, n as int),
            members_view(out@) == sort_members(all.subrange(0, i as int)),
        decreases n - i,
    {
        let ghost before = src@;
        let x = src.remove(0);
        proof {
            assert(members_view(before)[0] == x@);
            assert(src@ =~= before.subrange(1, before.len() as int));
            assert forall|k: int| 0 <= k < src@.len() implies #[trigger] members_view(src@)[k] == all.subrange(i + 1, n as int)[k] by {
                assert(members_view(src@)[k] == src@[k]@);
                assert(src@[k] == before[k + 1]);
                assert(members_view(before)[k + 1] == before[k + 1]@);
            }
            assert(members_view(src@) =~= all.subrange(i + 1, n as int));
            assert(all.subrange(0, i + 1).drop_last() =~= all.subrange(0, i as int));
            assert(all.subrange(0, i + 1).last() == x@);
        }
        insert_member_exec(&mut out, x);
        i = i + 1;
    }
    proof {
        assert(all.subrange(0, n as int) =~= all);
    }
    out
}


fn group_after_exec(a: &DuplicateGroup, b: &DuplicateGroup) -> (r: bool)
    ensures
        r == group_after(a@, b@),
{
    b.count > a.count
}

proof fn lemma_insert_group_at(s: Seq<GroupView>, x: GroupView, p: int)
    requires
        0 <= p <= s.len(),
        forall|k: int| p <= k < s.len() ==> group_after(#[trigger] s[k], x),
        p == 0 || !group_after(s[p - 1], x),
    ensures
        insert_group(s, x) == s.insert(p, x),
    decreases s.len(),
{
    if s.len() == 0 {
        assert(s.insert(p, x) =~= seq![x]);
    } else if p == s.len() {
        assert(s.insert(p, x) =~= s.push(x));
    } else {
        lemma_insert_group_at(s.drop_last(), x, p);
        assert(s.insert(p, x) =~= s.drop_last().insert(p, x).push(s.last()));
    }
}

fn insert_group_exec(s: &mut Vec<DuplicateGroup>, x: DuplicateGroup)
    ensures
        groups_view(final(s)@) == insert_group(groups_view(old(s)@), x@),
{
    let mut p = s.len();
    while p > 0 && group_after_exec(&s[p - 1], &x)
        invariant
            p <= s@.len(),
            *s == *old(s),
            forall|k: int| p <= k < s@.len() ==> group_after(#[trigger] s@[k]@, x@),
        decreases p,
    {
        p = p - 1;
    }
    let ghost sv = groups_view(s@);
    proof {
        assert forall|k: int| p <= k < sv.len() implies group_after(#[trigger] sv[k], x@) by {
            assert(sv[k] == s@[k]@);
        }
        if p > 0 {
            assert(sv[p - 1] == s@[p - 1]@);
        }
        lemma_insert_group_at(sv, x@, p as int);
    }
    let ghost xv = x@;
    s.insert(p, x);
    proof {
        assert(groups_view(s@) =~= sv.insert(p as int, xv));
    }
}

fn sort_groups_exec(v: Vec<DuplicateGroup>) -> (r: Vec<DuplicateGroup>)
    ensures
        groups_view(r@) == sort_groups(groups_view(v@)),
{
    let mut out: Vec<DuplicateGroup> = Vec::new();
    let ghost all = groups_view(v@);
    let mut i: usize = 0;
    let n = v.len();
    let mut src = v;
    proof {
        assert(groups_view(out@) =~= sort_groups(all.subrange(0, 0)));
    }
    while i < n
        invariant
            n == all.len(),
            i <= n,
            src@.len() == n - i,
            groups_view(src@) == all.subrange(i as int, n as int),
            groups_view(out@) == sort_groups(all.subrange(0, i as int)),
        decreases n - i,
    {
        let ghost before = src@;
        let x = src.remove(0);
        proof {
            assert(groups_view(before)[0] == x@);
            assert(src@ =~= before.subrange(1, before.len() as int));
            assert forall|k: int| 0 <= k < src@.len() implies #[trigger] groups_view(src@)[k] == all.subrange(i + 1, n as int)[k] by {
                assert(groups_view(src@)[k] == src@[k]@);
                assert(src@[k] == before[k + 1]);
                assert(groups_view(before)[k + 1] == before[k + 1]@);
            }
            assert(groups_view(src@) =~= all.subrange(i + 1, n as int));
            assert(all.subrange(0, i + 1).drop_last() =~= all.subrange(0, i as int));
            assert(all.subrange(0, i + 1).last() == x@);
        }
        insert_group_exec(&mut out, x);
        i = i + 1;
    }
    proof {
        assert(all.subrange(0, n as int) =~= all);
    }
    out
}

/// Optional string by view.
pub open spec fn opt_str_view(o: Option<String>) -> Option<Seq<char>> {
    match o {
        Some(s) => Some(s@),
        None => None,
    }
}

/// The qualifying groups of a prefix of the keys are a prefix of all qualifying groups.
proof fn lemma_qualifying_prefix(items: Seq<Item>, by: DuplicatesBy, keys: Seq<Seq<char>>, g: int)
    requires
        0 <= g <= keys.len(),
    ensures
        qualifying_groups(items, by, keys.subrange(0, g)).len() <= qualifying_groups(items, by, keys).len(),
        qualifying_groups(items, by, keys.subrange(0, g)) == qualifying_groups(items, by, keys).subrange(
            0,
            qualifying_groups(items, by, keys.subrange(0, g)).len() as int,
        ),
    decreases keys.len() - g,
{
    if g == keys.len() {
        assert(keys.subrange(0, g) =~= keys);
        let q = qualifying_groups(items, by, keys);
        assert(q.subrange(0, q.len() as int) =~= q);
    } else {
        lemma_qualifying_prefix(items, by, keys, g + 1);
        assert(keys.subrange(0, g + 1).drop_last() =~= keys.subrange(0, g));
        let a = qualifying_groups(items, by, keys.subrange(0, g));
        let b = qualifying_groups(items, by, keys.subrange(0, g + 1));
        let q = qualifying_groups(items, by, keys);
        assert(b == q.subrange(0, b.len() as int));
        assert(a == b || a == b.drop_last());
        assert(a =~= q.subrange(0, a.len() as int));
    }
}

/// Finds duplicate groups among `items` (as read from the database, in fetch order).
///
/// Groups are formed in first-seen key order; those with fewer than two members are
/// skipped; collection stops once the number of groups reaches `limit` (at least one group
/// is kept); the kept groups are then stably sorted by size, largest first.
pub fn find_duplicates(items: &Vec<Item>, by: DuplicatesBy, limit: usize) -> (r: DuplicatePayload)
    requires
        by != DuplicatesBy::Zotero,
    ensures
        groups_view(r.groups@) == duplicate_groups_spec(items@, by, limit as nat),
        r.group_count == r.groups@.len(),
        r.action@ == "item_duplicates"@,
        r.ok,
        r.status@ == "success"@,
        r.code@ == "OK"@,
        r.by@ == match by {
            DuplicatesBy::Doi => "doi"@,
            DuplicatesBy::Title => "title"@,
            DuplicatesBy::Zotero => "zotero"@,
        },
{
    let n = items.len();
    // the grouping key of every item
    let mut ikeys: Vec<Option<String>> = Vec::new();
    let mut i: usize = 0;
    while i < n
        invariant
            n == items@.len(),
            i <= n,
            ikeys@.len() == i,
            forall|k: int| 0 <= k < i ==> #[trigger] opt_str_view(ikeys@[k]) == item_match_key(items@[k], by),
        decreases n - i,
    {
        ikeys.push(item_match_key_exec(&items[i], by));
        i = i + 1;
    }
    // distinct keys in first-seen order
    let mut keys: Vec<String> = Vec::new();
    let mut i: usize = 0;
    while i < n
        invariant
            n == items@.len(),
            i <= n,
            ikeys@.len() == n,
            forall|k: int| 0 <= k < n ==> #[trigger] opt_str_view(ikeys@[k]) == item_match_key(items@[k], by),
            strings_view(keys@) == first_seen_keys(items@.subrange(0, i as int), by),
        decreases n - i,
    {
        proof {
            assert(items@.subrange(0, i + 1).drop_last() =~= items@.subrange(0, i as int));
            assert(items@.subrange(0, i + 1).last() == items@[i as int]);
            assert(opt_str_view(ikeys@[i as int]) == item_match_key(items@[i as int], by));
        }
        match &ikeys[i] {
            Some(k) => {
                if !strings_contains(&keys, k.as_str()) {
                    let ghost before = keys@;
                    keys.push(k.clone());
                    proof {
                        assert(strings_view(keys@) =~= strings_view(before).push(k@));
                    }
                }
            },
            None => {},
        }
        i = i + 1;
    }
    proof {
        assert(items@.subrange(0, n as int) =~= items@);
    }
    let ghost kv = strings_view(keys@);
    let ghost cap: nat = if limit == 0 {
        1
    } else {
        limit as nat
    };
    let nk = keys.len();
    let mut groups: Vec<DuplicateGroup> = Vec::new();
    let mut done = false;
    let mut g: usize = 0;
    while g < nk && !done
        invariant
            n == items@.len(),
            ikeys@.len() == n,
            forall|k: int| 0 <= k < n ==> #[trigger] opt_str_view(ikeys@[k]) == item_match_key(items@[k], by),
            nk == keys@.len(),
            kv == strings_view(keys@),
            kv == first_seen_keys(items@, by),
            g <= nk,
            cap == (if limit == 0 { 1 } else { limit as nat }),
            groups_view(groups@) == qualifying_groups(items@, by, kv.subrange(0, g as int)),
            !done ==> groups@.len() < cap,
            done ==> groups@.len() == cap,
        decreases nk - g,
    {
        let k = &keys[g];
        let mut members: Vec<DuplicateItemMember> = Vec::new();
        let mut j: usize = 0;
        while j < n
            invariant
                n == items@.len(),
                ikeys@.len() == n,
                forall|m: int| 0 <= m < n ==> #[trigger] opt_str_view(ikeys@[m]) == item_match_key(items@[m], by),
                j <= n,
                members_view(members@) == key_members(items@.subrange(0, j as int), by, k@),
            decreases n - j,
        {
            proof {
                assert(items@.subrange(0, j + 1).drop_last() =~= items@.subrange(0, j as int));
                assert(items@.subrange(0, j + 1).last() == items@[j as int]);
                assert(opt_str_view(ikeys@[j as int]) == item_match_key(items@[j as int], by));
            }
            let same = match &ikeys[j] {
                Some(kj) => str_eq(kj.as_str(), k.as_str()),
                None => false,
            };
            if same {
                let ghost before = members@;
                let m = item_member_exec(&items[j]);
                members.push(m);
                proof {
                    assert(members_view(members@) =~= members_view(before).push(item_member(items@[j as int])));
                }
            }
            j = j + 1;
        }
        proof {
            assert(items@.subrange(0, n as int) =~= items@);
            assert(kv.subrange(0, g + 1).drop_last() =~= kv.subrange(0, g as int));
            assert(kv.subrange(0, g + 1).last() == k@);
        }
        if members.len() >= 2 {
            let sorted = sort_members_exec(members);
            proof {
                assert(members_view(sorted@).len() == sorted@.len());
                assert(members_view(sorted@)[0] == sorted@[0]@);
            }
            let keep = sorted[0].key.clone();
            let count = sorted.len();
            let group = DuplicateGroup { match_key: k.clone(), count, keep_suggestion: keep, items: sorted };
            let ghost before = groups@;
            groups.push(group);
            proof {
                assert(groups_view(groups@) =~= groups_view(before).push(group_of(items@, by, k@)));
            }
            if groups.len() >= limit {
                done = true;
            }
        }
        g = g + 1;
    }
    proof {
        let q = qualifying_groups(items@, by, kv);
        lemma_qualifying_prefix(items@, by, kv, g as int);
        let a = groups_view(groups@);
        if !done {
            assert(kv.subrange(0, g as int) =~= kv);
            assert(a == q);
        } else {
            assert(a == q.subrange(0, cap as int));
            if q.len() <= cap {
                assert(q.subrange(0, cap as int) =~= q);
            }
        }
        assert(a == (if q.len() <= cap { q } else { q.subrange(0, cap as int) }));
    }
    let sorted_groups = sort_groups_exec(groups);
    let group_count = sorted_groups.len();
    DuplicatePayload {
        action: "item_duplicates".to_owned(),
        ok: true,
        status: "success".to_owned(),
        code: "OK".to_owned(),
        by: by.as_str().to_owned(),
        group_count,
        groups: sorted_groups,
    }
}

} // verus!
