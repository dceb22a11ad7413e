//! Records read from the Zotero SQLite database, and the pure logic applied to them.

use vstd::prelude::*;

use crate::error::DomainError;
use crate::paths::{is_absolute, join_path, join_path_spec, normalize_path, normalize_path_spec};
use crate::text::{
    lit, lowercase, push_str, starts_with, starts_with_exec, to_lowercase, all_digits, all_digits_exec, chars_of, concat_str, parse_i64, parse_i64_spec, push_char,
    str_eq, string_from_range, to_uppercase, trim, trim_bounds, trim_end, trim_str, uppercase,
    skip_ws_backward, i64_to_string, int_decimal,
};

verus! {

/// An item row with its derived flags; `fields` holds every item field name and value.
#[derive(Debug, Clone)]
pub struct Item {
    pub item_id: i64,
    pub key: String,
    pub library_id: i64,
    pub item_type_id: i64,
    pub type_label: String,
    pub date_added: String,
    pub date_modified: String,
    pub version: i64,
    pub title: String,
    pub doi: String,
    pub date: Option<String>,
    pub has_pdf: bool,
    pub note_parent_item_id: Option<i64>,
    pub note_content: Option<String>,
    pub attachment_parent_item_id: Option<i64>,
    pub annotation_parent_item_id: Option<i64>,
    pub annotation_text: Option<String>,
    pub annotation_comment: Option<String>,
    pub link_mode: Option<i64>,
    pub content_type: Option<String>,
    pub attachment_path: Option<String>,
    pub fields: Vec<(String, String)>,
    pub creators: Vec<Creator>,
    pub tags: Vec<Tag>,
    pub is_attachment: bool,
    pub is_note: bool,
    pub is_annotation: bool,
    pub parent_item_id: Option<i64>,
    pub note_text: String,
    pub note_preview: String,
}

/// A creator attached to an item.
#[derive(Debug, Clone)]
pub struct Creator {
    pub creator_id: i64,
    pub first_name: Option<String>,
    pub last_name: Option<String>,
    pub field_mode: i64,
    pub creator_type_id: i64,
    pub order_index: i64,
}

/// A tag attached to an item.
#[derive(Debug, Clone)]
pub struct Tag {
    pub tag_id: i64,
    pub name: String,
    pub kind: i64,
}


/// A collection row with its item count.
#[derive(Debug, Clone)]
pub struct Collection {
    pub collection_id: i64,
    pub key: String,
    pub collection_name: String,
    pub parent_collection_id: Option<i64>,
    pub library_id: i64,
    pub version: i64,
    pub item_count: i64,
}

/// A collection with its nested child collections.
#[derive(Debug)]
pub struct CollectionNode {
    pub collection_id: i64,
    pub key: String,
    pub collection_name: String,
    pub parent_collection_id: Option<i64>,
    pub library_id: i64,
    pub version: i64,
    pub item_count: i64,
    pub children: Vec<CollectionNode>,
}

/// The value of a collection row.
pub struct CollectionView {
    pub collection_id: i64,
    pub key: Seq<char>,
    pub collection_name: Seq<char>,
    pub parent_collection_id: Option<i64>,
    pub library_id: i64,
    pub version: i64,
    pub item_count: i64,
}

/// The value of a tree node.
#[verifier::ext_equal]
pub struct NodeView {
    pub collection: CollectionView,
    pub children: Seq<NodeView>,
}

impl View for Collection {
    type V = CollectionView;

    open spec fn view(&self) -> CollectionView {
        CollectionView {
            collection_id: self.collection_id,
            key: self.key@,
            collection_name: self.collection_name@,
            parent_collection_id: self.parent_collection_id,
            library_id: self.library_id,
            version: self.version,
            item_count: self.item_count,
        }
    }
}

/// View of a node.
pub open spec fn node_view(n: CollectionNode) -> NodeView
    decreases n, 0int,
{
    NodeView {
        collection: CollectionView {
            collection_id: n.collection_id,
            key: n.key@,
            collection_name: n.collection_name@,
            parent_collection_id: n.parent_collection_id,
            library_id: n.library_id,
            version: n.version,
            item_count: n.item_count,
        },
        children: node_list_view(n.children@),
    }
}

/// View of a list of nodes.
pub open spec fn node_list_view(s: Seq<CollectionNode>) -> Seq<NodeView>
    decreases s, 1int,
{
    if s.len() == 0 {
        Seq::empty()
    } else {
        node_list_view(s.drop_last()).push(node_view(s.last()))
    }
}

impl View for CollectionNode {
    type V = NodeView;

    open spec fn view(&self) -> NodeView {
        node_view(*self)
    }
}

/// Some collection in `cs` has id `id`.
pub open spec fn known_id(cs: Seq<CollectionView>, id: i64) -> bool {
    exists|k: int| 0 <= k < cs.len() && #[trigger] cs[k].collection_id == id
}

/// A collection is a root when it has no parent, or its parent is not among `cs`.
pub open spec fn is_root(cs: Seq<CollectionView>, c: CollectionView) -> bool {
    match c.parent_collection_id {
        Some(p) => !known_id(cs, p),
        None => true,
    }
}

/// The tree node of `c`: `c` with, as children, the nodes of every collection of `cs`
/// whose parent is `c`, in order; `depth` bounds the nesting.
pub open spec fn tree_node(cs: Seq<CollectionView>, c: CollectionView, depth: nat) -> NodeView
    decreases depth, 0nat,
{
    NodeView {
        collection: c,
        children: if depth == 0 {
            Seq::empty()
        } else {
            tree_children(cs, c.collection_id, (depth - 1) as nat, cs.len())
        },
    }
}

/// The nodes of the collections among the first `m` of `cs` whose parent is `id`.
pub open spec fn tree_children(cs: Seq<CollectionView>, id: i64, depth: nat, m: nat) -> Seq<NodeView>
    decreases depth, m,
{
    if m == 0 || m > cs.len() {
        Seq::empty()
    } else {
        tree_children(cs, id, depth, (m - 1) as nat) + if cs[m - 1].parent_collection_id == Some(id) {
            seq![tree_node(cs, cs[m - 1], depth)]
        } else {
            Seq::empty()
        }
    }
}

/// The forest of `cs`: one tree per root, in order.
pub open spec fn collection_forest(cs: Seq<CollectionView>, m: nat) -> Seq<NodeView>
    decreases m,
{
    if m == 0 || m > cs.len() {
        Seq::empty()
    } else {
        collection_forest(cs, (m - 1) as nat) + if is_root(cs, cs[m - 1]) {
            seq![tree_node(cs, cs[m - 1], cs.len())]
        } else {
            Seq::empty()
        }
    }
}

/// Views of a list of collections.
pub open spec fn collections_view(s: Seq<Collection>) -> Seq<CollectionView> {
    s.map_values(|c: Collection| c@)
}

/// `node_list_view` is pointwise.
pub proof fn lemma_node_list_view_push(s: Seq<CollectionNode>, n: CollectionNode)
    ensures
        node_list_view(s.push(n)) == node_list_view(s).push(node_view(n)),
{
    assert(s.push(n).drop_last() =~= s);
}

fn known_id_exec(cs: &Vec<Collection>, id: i64) -> (b: bool)
    ensures
        b == known_id(collections_view(cs@), id),
{
    let ghost cv = collections_view(cs@);
    let mut k: usize = 0;
    while k < cs.len()
        invariant
            k <= cs@.len(),
            cv == collections_view(cs@),
            forall|m: int| 0 <= m < k ==> cv[m].collection_id != id,
        decreases cs.len() - k,
    {
        assert(cv[k as int] == cs@[k as int]@);
        if cs[k].collection_id == id {
            assert(cv[k as int].collection_id == id);
            return true;
        }
        k = k + 1;
    }
    false
}

fn node_from(c: &Collection, children: Vec<CollectionNode>) -> (n: CollectionNode)
    ensures
        n@ == (NodeView { collection: c@, children: node_list_view(children@) }),
{
    CollectionNode {
        collection_id: c.collection_id,
        key: c.key.clone(),
        collection_name: c.collection_name.clone(),
        parent_collection_id: c.parent_collection_id,
        library_id: c.library_id,
        version: c.version,
        item_count: c.item_count,
        children,
    }
}

fn build_node(cs: &Vec<Collection>, idx: usize, depth: usize) -> (n: CollectionNode)
    requires
        idx < cs@.len(),
    ensures
        n@ == tree_node(collections_view(cs@), cs@[idx as int]@, depth as nat),
    decreases depth,
{
    let ghost cv = collections_view(cs@);
    let c = &cs[idx];
    let mut children: Vec<CollectionNode> = Vec::new();
    if depth > 0 {
        let mut m: usize = 0;
        while m < cs.len()
            invariant
                m <= cs@.len(),
                cv == collections_view(cs@),
                idx < cs@.len(),
                c == cs@[idx as int],
                depth > 0,
                node_list_view(children@) == tree_children(cv, c.collection_id, (depth - 1) as nat, m as nat),
            decreases cs.len() - m,
        {
            assert(cv[m as int] == cs@[m as int]@);
            if cs[m].parent_collection_id == Some(c.collection_id) {
                let child = build_node(cs, m, depth - 1);
                let ghost before = children@;
                children.push(child);
                proof {
                    lemma_node_list_view_push(before, child);
                }
            }
            m = m + 1;
        }
    }
    let n = node_from(c, children);
    proof {
        assert(cv[idx as int] == c@);
        if depth == 0 {
            assert(node_list_view(children@) =~= Seq::empty());
        }
    }
    n
}

/// Nests `collections` by parent: every collection whose parent is absent from the list
/// (or has none) is a root, and children follow their order in the list.
pub fn build_collection_tree(collections: &Vec<Collection>) -> (r: Vec<CollectionNode>)
    ensures
        node_list_view(r@) == collection_forest(collections_view(collections@), collections@.len() as nat),
{
    let ghost cv = collections_view(collections@);
    let n = collections.len();
    let mut roots: Vec<CollectionNode> = Vec::new();
    let mut m: usize = 0;
    while m < n
        invariant
            n == collections@.len(),
            m <= n,
            cv == collections_view(collections@),
            node_list_view(roots@) == collection_forest(cv, m as nat),
        decreases n - m,
    {
        assert(cv[m as int] == collections@[m as int]@);
        let root = match collections[m].parent_collection_id {
            Some(p) => !known_id_exec(collections, p),
            None => true,
        };
        if root {
            let node = build_node(collections, m, n);
            let ghost before = roots@;
            roots.push(node);
            proof {
                lemma_node_list_view_push(before, node);
            }
        }
        m = m + 1;
    }
    roots
}


/// The message of a decimal that does not fit in an `i64` (`ParseIntError`'s text).
pub open spec fn overflow_message() -> Seq<char> {
    "number too large to fit in target type"@
}

/// A reference is numeric when, trimmed, it parses as an `i64`.
pub open spec fn is_numeric_ref_spec(value: Seq<char>) -> bool {
    parse_i64_spec(trim(value)) is Some
}

/// Whether `value`, trimmed, parses as an `i64` (so refers to a row id, not a key).
pub fn is_numeric_ref(value: &str) -> (b: bool)
    ensures
        b == is_numeric_ref_spec(value@),
{
    let t = trim_str(value);
    parse_i64(t.as_str()).is_some()
}

/// The library id a reference names: `L<digits>` (any case) or `<digits>`, trimmed.
pub open spec fn library_ref_spec(r: Seq<char>) -> Result<i64, Seq<char>> {
    let text = trim(r);
    let up = uppercase(text);
    if text.len() == 0 {
        Err("Library reference must not be empty"@)
    } else if up.len() > 1 && up[0] == 'L' && all_digits(up.drop_first()) {
        match parse_i64_spec(up.drop_first()) {
            Some(v) => Ok(v),
            None => Err(overflow_message()),
        }
    } else if all_digits(text) {
        match parse_i64_spec(text) {
            Some(v) => Ok(v),
            None => Err(overflow_message()),
        }
    } else {
        Err("Unsupported library reference: "@ + r)
    }
}

/// Parses a library reference (`L1`, `l1`, ` 1 `) into its id.
pub fn normalize_library_ref(library_ref: &str) -> (r: Result<i64, DomainError>)
    ensures
        match r {
            Ok(v) => library_ref_spec(library_ref@) == Ok::<i64, Seq<char>>(v),
            Err(e) => library_ref_spec(library_ref@) == Err::<i64, Seq<char>>(e.0@),
        },
{
    let text = trim_str(library_ref);
    let tv = chars_of(text.as_str());
    if tv.len() == 0 {
        return Err(DomainError::new("Library reference must not be empty"));
    }
    let upper = to_uppercase(text.as_str());
    let uv = chars_of(upper.as_str());
    if uv.len() > 1 && uv[0] == 'L' && all_digits_exec(&uv, 1, uv.len()) {
        proof {
            assert(uv@.subrange(1, uv@.len() as int) =~= uv@.drop_first());
        }
        let rest = string_from_range(&uv, 1, uv.len());
        return match parse_i64(rest.as_str()) {
            Some(v) => Ok(v),
            None => Err(DomainError::new("number too large to fit in target type")),
        };
    }
    proof {
        assert(tv@.subrange(0, tv@.len() as int) =~= tv@);
    }
    if all_digits_exec(&tv, 0, tv.len()) {
        return match parse_i64(text.as_str()) {
            Some(v) => Ok(v),
            None => Err(DomainError::new("number too large to fit in target type")),
        };
    }
    Err(DomainError::from_string(concat_str("Unsupported library reference: ", library_ref)))
}

/// Number of characters a note preview keeps.
pub const NOTE_PREVIEW_LENGTH: usize = 160;

/// The preview of a note's text: unchanged up to 160 characters; otherwise the first 159,
/// with trailing whitespace trimmed, and `…`.
pub open spec fn note_preview_spec(text: Seq<char>) -> Seq<char> {
    if text.len() <= 160 {
        text
    } else {
        trim_end(text.subrange(0, 159)).push('\u{2026}')
    }
}

/// A short preview of a note's plain text.
pub fn note_preview(text: &str) -> (r: String)
    ensures
        r@ == note_preview_spec(text@),
{
    let v = chars_of(text);
    if v.len() <= NOTE_PREVIEW_LENGTH {
        return text.to_owned();
    }
    let take = NOTE_PREVIEW_LENGTH - 1;
    let end = skip_ws_backward(&v, 0, take);
    let mut r = string_from_range(&v, 0, end);
    push_char(&mut r, '\u{2026}');
    r
}

/// A library row.
#[derive(Debug, Clone)]
pub struct Library {
    pub library_id: i64,
    pub kind: String,
    pub editable: i64,
    pub files_editable: i64,
    pub version: i64,
    pub storage_version: i64,
    pub last_sync: Option<i64>,
    pub archived: i64,
}

/// The default library: the first of kind `user`, else the first of all, else none.
pub open spec fn default_library_spec(libs: Seq<Library>) -> Option<i64> {
    if libs.len() == 0 {
        None
    } else if exists|i: int| 0 <= i < libs.len() && #[trigger] libs[i].kind@ == "user"@ {
        let i = choose|i: int|
            0 <= i < libs.len() && libs[i].kind@ == "user"@ && forall|j: int|
                0 <= j < i ==> #[trigger] libs[j].kind@ != "user"@;
        Some(libs[i].library_id)
    } else {
        Some(libs[0].library_id)
    }
}

/// The id of the default library among `libraries` (in id order).
pub fn default_library_id(libraries: &Vec<Library>) -> (r: Option<i64>)
    ensures
        r == default_library_spec(libraries@),
        match r {
            Some(id) => (exists|i: int| 0 <= i < libraries@.len() && #[trigger] libraries@[i].library_id == id),
            None => libraries@.len() == 0,
        },
{
    if libraries.len() == 0 {
        return None;
    }
    let mut i: usize = 0;
    while i < libraries.len()
        invariant
            i <= libraries@.len(),
            forall|j: int| 0 <= j < i ==> #[trigger] libraries@[j].kind@ != "user"@,
        decreases libraries.len() - i,
    {
        if str_eq(libraries[i].kind.as_str(), "user") {
            proof {
                let libs = libraries@;
                assert(libs[i as int].kind@ == "user"@);
                let c = choose|c: int|
                    0 <= c < libs.len() && libs[c].kind@ == "user"@ && forall|j: int|
                        0 <= j < c ==> #[trigger] libs[j].kind@ != "user"@;
                assert(c == i) by {
                    if c < i {
                        assert(libs[c].kind@ != "user"@);
                    }
                    if c > i {
                        assert(libs[i as int].kind@ != "user"@);
                    }
                }
            }
            return Some(libraries[i].library_id);
        }
        i = i + 1;
    }
    Some(libraries[0].library_id)
}


/// Value of an ASCII hex digit.
pub open spec fn hex_val(b: u8) -> Option<u8> {
    if 48 <= b <= 57 {
        Some((b - 48) as u8)
    } else if 97 <= b <= 102 {
        Some((b - 87) as u8)
    } else if 65 <= b <= 70 {
        Some((b - 55) as u8)
    } else {
        None
    }
}

/// What `u8::from_str_radix` gives for a two-byte text in base 16 (an optional `+` sign
/// is accepted).
pub open spec fn hex_pair(b1: u8, b2: u8) -> Option<u8> {
    match (hex_val(b1), hex_val(b2)) {
        (Some(h), Some(l)) => Some((h * 16 + l) as u8),
        _ => if b1 == 43 {
            hex_val(b2)
        } else {
            None
        },
    }
}

/// Percent-decoding of bytes: `%` followed by two more bytes that form a hex byte is
/// replaced by that byte; everything else is kept.
pub open spec fn percent_decode_bytes(b: Seq<u8>) -> Seq<u8>
    decreases b.len(),
{
    if b.len() == 0 {
        b
    } else if b.len() >= 3 && b[0] == 37 && hex_pair(b[1], b[2]) is Some {
        seq![hex_pair(b[1], b[2])->0] + percent_decode_bytes(b.subrange(3, b.len() as int))
    } else {
        seq![b[0]] + percent_decode_bytes(b.subrange(1, b.len() as int))
    }
}

/// What `String::from_utf8_lossy` gives for these bytes.
pub uninterp spec fn utf8_lossy(b: Seq<u8>) -> Seq<char>;

/// Calls `String::from_utf8_lossy`: invalid sequences become U+FFFD; valid UTF-8 is
/// decoded unchanged.
#[verifier::external_body]
fn from_utf8_lossy(b: &[u8]) -> (r: String)
    ensures
        r@ == utf8_lossy(b@),
        vstd::utf8::valid_utf8(b@) ==> r@ == vstd::utf8::decode_utf8(b@),
{
    String::from_utf8_lossy(b).into_owned()
}

fn hex_val_exec(b: u8) -> (r: Option<u8>)
    ensures
        r == hex_val(b),
{
    if 48 <= b && b <= 57 {
        Some(b - 48)
    } else if 97 <= b && b <= 102 {
        Some(b - 87)
    } else if 65 <= b && b <= 70 {
        Some(b - 55)
    } else {
        None
    }
}

fn hex_pair_exec(b1: u8, b2: u8) -> (r: Option<u8>)
    ensures
        r == hex_pair(b1, b2),
{
    match (hex_val_exec(b1), hex_val_exec(b2)) {
        (Some(h), Some(l)) => Some(h * 16 + l),
        _ => if b1 == 43 {
            hex_val_exec(b2)
        } else {
            None
        },
    }
}

/// The text of `input` after percent-decoding its UTF-8 bytes (`urllib.parse.unquote`).
pub open spec fn percent_decode_spec(input: Seq<char>) -> Seq<char> {
    utf8_lossy(percent_decode_bytes(vstd::utf8::encode_utf8(input)))
}

/// Decodes `%XX` escapes in `input`, reading the result as UTF-8 with replacement.
pub fn percent_decode(input: &str) -> (r: String)
    ensures
        r@ == percent_decode_spec(input@),
{
    let bytes = input.as_bytes();
    let ghost b = bytes@;
    let mut out: Vec<u8> = Vec::new();
    let mut i: usize = 0;
    proof {
        assert(b.subrange(0, b.len() as int) =~= b);
    }
    while i < bytes.len()
        invariant
            i <= b.len(),
            b == bytes@,
            percent_decode_bytes(b) == out@ + percent_decode_bytes(b.subrange(i as int, b.len() as int)),
        decreases bytes.len() - i,
    {
        let ghost rest = b.subrange(i as int, b.len() as int);
        if bytes[i] == 37 && bytes.len() - i > 2 {
            match hex_pair_exec(bytes[i + 1], bytes[i + 2]) {
                Some(v) => {
                    proof {
                        assert(rest[0] == b[i as int] && rest[1] == b[i + 1] && rest[2] == b[i + 2]);
                        assert(rest.subrange(3, rest.len() as int) =~= b.subrange(i + 3, b.len() as int));
                    }
                    out.push(v);
                    i = i + 3;
                    proof {
                        assert(out@ + percent_decode_bytes(b.subrange(i as int, b.len() as int)) =~= out@.drop_last() + (seq![v] + percent_decode_bytes(b.subrange(i as int, b.len() as int))));
                    }
                    continue;
                },
                None => {
                    proof {
                        assert(rest[0] == b[i as int] && rest[1] == b[i + 1] && rest[2] == b[i + 2]);
                    }
                },
            }
        }
        proof {
            assert(rest[0] == b[i as int]);
            if rest.len() >= 3 {
                assert(rest[1] == b[i + 1] && rest[2] == b[i + 2]);
            }
            assert(rest.subrange(1, rest.len() as int) =~= b.subrange(i + 1, b.len() as int));
        }
        let ghost before = out@;
        out.push(bytes[i]);
        i = i + 1;
        proof {
            assert(out@ + percent_decode_bytes(b.subrange(i as int, b.len() as int)) =~= before + (seq![b[i - 1]] + percent_decode_bytes(b.subrange(i as int, b.len() as int))));
        }
    }
    proof {
        assert(b.subrange(i as int, b.len() as int) =~= Seq::<u8>::empty());
        assert(out@ + Seq::<u8>::empty() =~= out@);
    }
    from_utf8_lossy(out.as_slice())
}


/// `s` with every `a` replaced by `b`.
pub open spec fn replace_char(s: Seq<char>, a: char, b: char) -> Seq<char> {
    s.map_values(|c: char| if c == a { b } else { c })
}

/// `s` without its leading `c` characters.
pub open spec fn trim_start_char(s: Seq<char>, c: char) -> Seq<char>
    decreases s.len(),
{
    if s.len() > 0 && s[0] == c {
        trim_start_char(s.drop_first(), c)
    } else {
        s
    }
}

/// Index of the first `/` in `s`, or `s.len()`.
pub open spec fn first_slash(s: Seq<char>) -> int
    decreases s.len(),
{
    if s.len() == 0 {
        0
    } else if s[0] == '/' {
        0
    } else {
        1 + first_slash(s.drop_first())
    }
}

proof fn lemma_first_slash(s: Seq<char>)
    ensures
        0 <= first_slash(s) <= s.len(),
        first_slash(s) < s.len() ==> s[first_slash(s)] == '/',
        forall|k: int| 0 <= k < first_slash(s) ==> s[k] != '/',
    decreases s.len(),
{
    if s.len() > 0 && s[0] != '/' {
        lemma_first_slash(s.drop_first());
        assert forall|k: int| 0 <= k < first_slash(s) implies s[k] != '/' by {
            if k > 0 {
                assert(s[k] == s.drop_first()[k - 1]);
            }
        }
    }
}

/// Splits the part after `file://` into authority (up to the first `/`) and path.
pub fn split_file_uri_authority(rest: &str) -> (r: (&str, &str))
    ensures
        r.0@ == rest@.subrange(0, first_slash(rest@)),
        r.1@ == rest@.subrange(first_slash(rest@), rest@.len() as int),
{
    let v = chars_of(rest);
    let mut i: usize = 0;
    proof {
        lemma_first_slash(rest@);
    }
    while i < v.len() && v[i] != '/'
        invariant
            i <= v@.len(),
            v@ == rest@,
            forall|k: int| 0 <= k < i ==> v@[k] != '/',
        decreases v.len() - i,
    {
        i = i + 1;
    }
    proof {
        lemma_first_slash(rest@);
        assert(i == first_slash(rest@)) by {
            let f = first_slash(rest@);
            if f < i {
                assert(v@[f] == '/');
            }
            if i < f {
                assert(v@[i as int] == '/');
            }
        }
    }
    (rest.substring_char(0, i), rest.substring_char(i, v.len()))
}

fn replace_char_exec(s: &str, a: char, b: char) -> (r: String)
    ensures
        r@ == replace_char(s@, a, b),
{
    let v = chars_of(s);
    let mut r = String::new();
    let mut i: usize = 0;
    while i < v.len()
        invariant
            i <= v@.len(),
            v@ == s@,
            r@ == replace_char(s@.subrange(0, i as int), a, b),
        decreases v.len() - i,
    {
        let c = if v[i] == a { b } else { v[i] };
        push_char(&mut r, c);
        proof {
            assert(replace_char(s@.subrange(0, i + 1), a, b) =~= replace_char(s@.subrange(0, i as int), a, b).push(c));
        }
        i = i + 1;
    }
    proof {
        assert(s@.subrange(0, v@.len() as int) =~= s@);
    }
    r
}

/// ASCII letter.
pub open spec fn is_ascii_alpha(c: char) -> bool {
    ('a' <= c && c <= 'z') || ('A' <= c && c <= 'Z')
}

/// Where an attachment's stored path points: `storage:<name>` under the item's storage
/// directory; `file://` URIs decoded (a non-`localhost` host gives a UNC path, `/C:/...`
/// a drive path, both with backslashes); absolute paths as they are; relative paths under
/// the data directory. Joined paths are normalized lexically.
pub open spec fn resolve_attachment_spec(path: Option<Seq<char>>, key: Seq<char>, data_dir: Seq<char>) -> Option<Seq<char>> {
    match path {
        None => None,
        Some(raw) => if raw.len() == 0 {
            None
        } else if starts_with(raw, "storage:"@) {
            Some(normalize_path_spec(join_path_spec(
                join_path_spec(join_path_spec(data_dir, "storage"@), key),
                raw.subrange(8, raw.len() as int),
            )))
        } else if starts_with(raw, "file://"@) {
            let rest = raw.subrange(7, raw.len() as int);
            let netloc = rest.subrange(0, first_slash(rest));
            let dec = percent_decode_spec(rest.subrange(first_slash(rest), rest.len() as int));
            if netloc.len() > 0 && lowercase(netloc) != "localhost"@ {
                Some(seq!['\\', '\\'] + netloc + replace_char(dec, '/', '\\'))
            } else if dec.len() >= 3 && dec[0] == '/' && is_ascii_alpha(dec[1]) && dec[2] == ':' {
                Some(replace_char(trim_start_char(dec, '/'), '/', '\\'))
            } else {
                Some(dec)
            }
        } else if is_absolute(raw) {
            Some(raw)
        } else {
            Some(normalize_path_spec(join_path_spec(data_dir, raw)))
        },
    }
}

fn trim_start_char_exec(s: &str, c: char) -> (r: String)
    ensures
        r@ == trim_start_char(s@, c),
{
    let v = chars_of(s);
    let mut i: usize = 0;
    proof {
        assert(v@.subrange(0, v@.len() as int) =~= v@);
    }
    while i < v.len() && v[i] == c
        invariant
            i <= v@.len(),
            v@ == s@,
            trim_start_char(s@, c) == trim_start_char(v@.subrange(i as int, v@.len() as int), c),
        decreases v.len() - i,
    {
        assert(v@.subrange(i as int, v@.len() as int).drop_first() =~= v@.subrange(i + 1, v@.len() as int));
        i = i + 1;
    }
    string_from_range(&v, i, v.len())
}

/// Resolves an attachment's stored path to a file-system path (lexically; no file-system
/// access).
pub fn resolve_attachment_real_path(attachment_path: Option<&str>, item_key: &str, data_dir: &str) -> (r: Option<String>)
    ensures
        opt_string_view(r) == resolve_attachment_spec(
            match attachment_path {
                Some(p) => Some(p@),
                None => None,
            },
            item_key@,
            data_dir@,
        ),
{
    let raw = match attachment_path {
        Some(p) => p,
        None => return None,
    };
    let rv = chars_of(raw);
    if rv.len() == 0 {
        return None;
    }
    let storage = lit("storage:");
    let file = lit("file://");
    proof {
        reveal_strlit("storage:");
        reveal_strlit("file://");
        assert(storage@.len() == 8);
        assert(file@.len() == 7);
    }
    if starts_with_exec(&rv, &storage) {
        let filename = string_from_range(&rv, 8, rv.len());
        let a = join_path(data_dir, "storage");
        let b = join_path(a.as_str(), item_key);
        let c = join_path(b.as_str(), filename.as_str());
        return Some(normalize_path(c.as_str()));
    }
    if starts_with_exec(&rv, &file) {
        let rest = string_from_range(&rv, 7, rv.len());
        let (netloc, encoded) = split_file_uri_authority(rest.as_str());
        let decoded = percent_decode(encoded);
        let nv = chars_of(netloc);
        let low = to_lowercase(netloc);
        if nv.len() > 0 && !str_eq(low.as_str(), "localhost") {
            let mut out = String::new();
            push_char(&mut out, '\\');
            push_char(&mut out, '\\');
            push_str(&mut out, netloc);
            let tail = replace_char_exec(decoded.as_str(), '/', '\\');
            push_str(&mut out, tail.as_str());
            proof {
                assert(out@ =~= seq!['\\', '\\'] + netloc@ + tail@);
            }
            return Some(out);
        }
        let dv = chars_of(decoded.as_str());
        if dv.len() >= 3 && dv[0] == '/' && (('a' <= dv[1] && dv[1] <= 'z') || ('A' <= dv[1] && dv[1] <= 'Z')) && dv[2] == ':' {
            let stripped = trim_start_char_exec(decoded.as_str(), '/');
            return Some(replace_char_exec(stripped.as_str(), '/', '\\'));
        }
        return Some(decoded);
    }
    if rv[0] == '/' {
        return Some(raw.to_owned());
    }
    let joined = join_path(data_dir, raw);
    Some(normalize_path(joined.as_str()))
}

/// Optional string by view.
pub open spec fn opt_string_view(o: Option<String>) -> Option<Seq<char>> {
    match o {
        Some(s) => Some(s@),
        None => None,
    }
}


/// A condition of a saved search.
#[derive(Debug, Clone)]
pub struct SavedSearchCondition {
    pub search_condition_id: i64,
    pub condition: String,
    pub operator: String,
    pub value: Option<String>,
    pub required: i64,
}

/// A saved search with its conditions.
#[derive(Debug, Clone)]
pub struct SavedSearch {
    pub saved_search_id: i64,
    pub saved_search_name: String,
    pub client_date_modified: String,
    pub library_id: i64,
    pub key: String,
    pub version: i64,
    pub conditions: Vec<SavedSearchCondition>,
}

/// A tag with the number of items carrying it.
#[derive(Debug, Clone)]
pub struct TagSummary {
    pub tag_id: i64,
    pub name: String,
    pub item_count: i64,
}

/// `s` with `x` put into place, keeping it strictly increasing (no duplicates).
pub open spec fn insert_sorted_unique(s: Seq<i64>, x: i64) -> Seq<i64>
    decreases s.len(),
{
    if s.len() == 0 {
        seq![x]
    } else if s.last() == x {
        s
    } else if s.last() < x {
        s.push(x)
    } else {
        insert_sorted_unique(s.drop_last(), x).push(s.last())
    }
}

/// The distinct values of `s` in increasing order.
pub open spec fn sorted_unique(s: Seq<i64>) -> Seq<i64>
    decreases s.len(),
{
    if s.len() == 0 {
        s
    } else {
        insert_sorted_unique(sorted_unique(s.drop_last()), s.last())
    }
}

/// `L<id>` labels joined by `, `.
pub open spec fn library_labels(ids: Seq<i64>) -> Seq<char>
    decreases ids.len(),
{
    if ids.len() == 0 {
        Seq::empty()
    } else if ids.len() == 1 {
        seq!['L'] + int_decimal(ids[0] as int)
    } else {
        library_labels(ids.drop_last()) + seq![',', ' ', 'L'] + int_decimal(ids.last() as int)
    }
}

proof fn lemma_insert_sorted_unique_at(s: Seq<i64>, x: i64, p: int)
    requires
        0 <= p <= s.len(),
        forall|k: int| p <= k < s.len() ==> #[trigger] s[k] > x,
        p == 0 || s[p - 1] <= x,
    ensures
        insert_sorted_unique(s, x) == if p > 0 && s[p - 1] == x {
            s
        } else {
            s.insert(p, x)
        },
    decreases s.len(),
{
    if s.len() == 0 {
        assert(s.insert(p, x) =~= seq![x]);
    } else if p == s.len() {
        if s.last() != x {
            assert(s.insert(p, x) =~= s.push(x));
        }
    } else {
        lemma_insert_sorted_unique_at(s.drop_last(), x, p);
        if p > 0 && s[p - 1] == x {
            assert(s.drop_last().push(s.last()) =~= s);
        } else {
            assert(s.insert(p, x) =~= s.drop_last().insert(p, x).push(s.last()));
        }
    }
}

fn insert_sorted_unique_exec(s: &mut Vec<i64>, x: i64)
    ensures
        final(s)@ == insert_sorted_unique(old(s)@, x),
{
    let mut p = s.len();
    while p > 0 && s[p - 1] > x
        invariant
            p <= s@.len(),
            *s == *old(s),
            forall|k: int| p <= k < s@.len() ==> #[trigger] s@[k] > x,
        decreases p,
    {
        p = p - 1;
    }
    proof {
        lemma_insert_sorted_unique_at(s@, x, p as int);
    }
    if p > 0 && s[p - 1] == x {
        return;
    }
    s.insert(p, x);
}

/// `L1, L2, ...` for the distinct library ids of `ids`, in increasing order.
fn library_labels_exec(ids: &Vec<i64>) -> (r: String)
    ensures
        r@ == library_labels(sorted_unique(ids@)),
{
    let mut sorted: Vec<i64> = Vec::new();
    let mut i: usize = 0;
    while i < ids.len()
        invariant
            i <= ids@.len(),
            sorted@ == sorted_unique(ids@.subrange(0, i as int)),
        decreases ids.len() - i,
    {
        proof {
            assert(ids@.subrange(0, i + 1).drop_last() =~= ids@.subrange(0, i as int));
        }
        insert_sorted_unique_exec(&mut sorted, ids[i]);
        i = i + 1;
    }
    proof {
        assert(ids@.subrange(0, ids@.len() as int) =~= ids@);
    }
    let ghost sv = sorted@;
    let mut out = String::new();
    let mut k: usize = 0;
    while k < sorted.len()
        invariant
            k <= sorted@.len(),
            sv == sorted@,
            out@ == library_labels(sv.subrange(0, k as int)),
        decreases sorted.len() - k,
    {
        proof {
            assert(sv.subrange(0, k + 1).drop_last() =~= sv.subrange(0, k as int));
        }
        if k > 0 {
            push_str(&mut out, ", ");
        }
        push_char(&mut out, 'L');
        let num = i64_to_string(sorted[k]);
        push_str(&mut out, num.as_str());
        proof {
            reveal_strlit(", ");
            if k == 0 {
                assert(out@ =~= seq!['L'] + int_decimal(sv[0] as int));
            } else {
                assert(out@ =~= library_labels(sv.subrange(0, k as int)) + seq![',', ' ', 'L'] + int_decimal(sv[k as int] as int));
            }
        }
        k = k + 1;
    }
    proof {
        assert(sv.subrange(0, sv.len() as int) =~= sv);
    }
    out
}

/// The message for a reference that matches in several libraries.
pub open spec fn ambiguous_message(kind: Seq<char>, reference: Seq<char>, ids: Seq<i64>) -> Seq<char> {
    "Ambiguous "@ + kind + " reference: "@ + reference + ". Matches found in "@ + library_labels(sorted_unique(ids))
        + ". Set the library with `session use-library <id>` and retry."@
}

pub(crate) fn ambiguous_message_exec(kind: &str, reference: &str, ids: &Vec<i64>) -> (r: String)
    ensures
        r@ == ambiguous_message(kind@, reference@, ids@),
{
    let mut out = "Ambiguous ".to_owned();
    push_str(&mut out, kind);
    push_str(&mut out, " reference: ");
    push_str(&mut out, reference);
    push_str(&mut out, ". Matches found in ");
    let labels = library_labels_exec(ids);
    push_str(&mut out, labels.as_str());
    push_str(&mut out, ". Set the library with `session use-library <id>` and retry.");
    out
}

/// Indices of the searches keyed `search_ref`, in order.
pub open spec fn key_match_indices(searches: Seq<SavedSearch>, search_ref: Seq<char>) -> Seq<int>
    decreases searches.len(),
{
    if searches.len() == 0 {
        Seq::empty()
    } else {
        key_match_indices(searches.drop_last(), search_ref) + if searches.last().key@ == search_ref {
            seq![searches.len() - 1]
        } else {
            Seq::empty()
        }
    }
}

/// How a saved-search reference resolves among `searches`: a numeric reference by the
/// first search whose id prints as the trimmed reference; otherwise by key, where several
/// matches without a library scope are ambiguous and one is taken first in order.
pub open spec fn saved_search_choice(searches: Seq<SavedSearch>, search_ref: Seq<char>, library_id: Option<i64>) -> Result<Option<int>, Seq<char>> {
    if is_numeric_ref_spec(search_ref) {
        if exists|i: int| 0 <= i < searches.len() && int_decimal(#[trigger] searches[i].saved_search_id as int) == trim(search_ref) {
            Ok(Some(choose|i: int| 0 <= i < searches.len() && int_decimal(searches[i].saved_search_id as int) == trim(search_ref) && forall|j: int| 0 <= j < i ==> int_decimal(#[trigger] searches[j].saved_search_id as int) != trim(search_ref)))
        } else {
            Ok(None)
        }
    } else {
        let m = key_match_indices(searches, search_ref);
        if m.len() == 0 {
            Ok(None)
        } else if m.len() > 1 && library_id is None {
            Err(ambiguous_message("saved search"@, search_ref, m.map_values(|i: int| searches[i].library_id)))
        } else {
            Ok(Some(m[0]))
        }
    }
}

proof fn lemma_key_match_indices(searches: Seq<SavedSearch>, r: Seq<char>)
    ensures
        forall|k: int| 0 <= k < key_match_indices(searches, r).len() ==> 0 <= #[trigger] key_match_indices(searches, r)[k] < searches.len()
            && searches[key_match_indices(searches, r)[k]].key@ == r,
    decreases searches.len(),
{
    if searches.len() > 0 {
        lemma_key_match_indices(searches.drop_last(), r);
        let a = key_match_indices(searches.drop_last(), r);
        assert forall|k: int| 0 <= k < a.len() implies 0 <= #[trigger] a[k] < searches.len() && searches[a[k]].key@ == r by {
            assert(searches.drop_last()[a[k]] == searches[a[k]]);
        }
    }
}

/// Resolves a saved-search reference (id or key) among `searches` (fetched for the
/// current library scope), moving the chosen search out.
pub fn resolve_saved_search(searches: Vec<SavedSearch>, search_ref: &str, library_id: Option<i64>) -> (r: Result<Option<SavedSearch>, DomainError>)
    ensures
        match saved_search_choice(searches@, search_ref@, library_id) {
            Ok(Some(i)) => r matches Ok(Some(s)) && s == searches@[i],
            Ok(None) => r matches Ok(None),
            Err(msg) => r matches Err(e) && e.0@ == msg,
        },
{
    let mut v = searches;
    let ghost all = v@;
    if is_numeric_ref(search_ref) {
        let target = trim_str(search_ref);
        let mut i: usize = 0;
        while i < v.len()
            invariant
                i <= v@.len(),
                v@ == all,
                all == searches@,
                is_numeric_ref_spec(search_ref@),
                target@ == trim(search_ref@),
                forall|j: int| 0 <= j < i ==> int_decimal(#[trigger] all[j].saved_search_id as int) != trim(search_ref@),
            decreases v.len() - i,
        {
            let id_text = i64_to_string(v[i].saved_search_id);
            if str_eq(id_text.as_str(), target.as_str()) {
                proof {
                    let c = choose|c: int| 0 <= c < all.len() && int_decimal(all[c].saved_search_id as int) == trim(search_ref@) && forall|j: int| 0 <= j < c ==> int_decimal(#[trigger] all[j].saved_search_id as int) != trim(search_ref@);
                    assert(int_decimal(all[i as int].saved_search_id as int) == trim(search_ref@));
                    assert(c == i) by {
                        if c < i {
                            assert(int_decimal(all[c].saved_search_id as int) != trim(search_ref@));
                        }
                        if c > i {
                            assert(int_decimal(all[i as int].saved_search_id as int) != trim(search_ref@));
                        }
                    }
                }
                let s = v.remove(i);
                proof {
                    assert(s == all[i as int]);
                    assert(saved_search_choice(all, search_ref@, library_id) == Ok::<Option<int>, Seq<char>>(Some(i as int)));
                }
                return Ok(Some(s));
            }
            i = i + 1;
        }
        return Ok(None);
    }
    let mut matches: Vec<usize> = Vec::new();
    let mut libs: Vec<i64> = Vec::new();
    let mut i: usize = 0;
    while i < v.len()
        invariant
            i <= v@.len(),
            v@ == all,
            all == searches@,
            matches@.len() == libs@.len(),
            matches@.map_values(|m: usize| m as int) == key_match_indices(all.subrange(0, i as int), search_ref@),
            forall|k: int| 0 <= k < matches@.len() ==> 0 <= #[trigger] matches@[k] < i && libs@[k] == all[matches@[k] as int].library_id,
        decreases v.len() - i,
    {
        proof {
            assert(all.subrange(0, i + 1).drop_last() =~= all.subrange(0, i as int));
        }
        if str_eq(v[i].key.as_str(), search_ref) {
            let ghost before = matches@;
            matches.push(i);
            libs.push(v[i].library_id);
            proof {
                assert(matches@.map_values(|m: usize| m as int) =~= before.map_values(|m: usize| m as int).push(i as int));
            }
        }
        i = i + 1;
    }
    proof {
        assert(all.subrange(0, all.len() as int) =~= all);
        let m = key_match_indices(all, search_ref@);
        assert(libs@ =~= m.map_values(|i: int| all[i].library_id)) by {
            assert forall|k: int| 0 <= k < libs@.len() implies libs@[k] == m.map_values(|i: int| all[i].library_id)[k] by {
                assert(m[k] == matches@.map_values(|x: usize| x as int)[k]);
            }
        }
    }
    if matches.len() == 0 {
        return Ok(None);
    }
    if matches.len() > 1 && library_id.is_none() {
        return Err(DomainError::from_string(ambiguous_message_exec("saved search", search_ref, &libs)));
    }
    proof {
        assert(matches@.map_values(|x: usize| x as int)[0] == matches@[0] as int);
    }
    let s = v.remove(matches[0]);
    Ok(Some(s))
}

/// Selects the library with id `library_id` (first match), if any.
pub fn find_library(libraries: Vec<Library>, library_id: i64) -> (r: Option<Library>)
    ensures
        match r {
            Some(l) => l.library_id == library_id && (exists|i: int| 0 <= i < libraries@.len() && libraries@[i] == l && forall|j: int| 0 <= j < i ==> #[trigger] libraries@[j].library_id != library_id),
            None => forall|i: int| 0 <= i < libraries@.len() ==> #[trigger] libraries@[i].library_id != library_id,
        },
{
    let mut v = libraries;
    let ghost all = v@;
    let mut i: usize = 0;
    while i < v.len()
        invariant
            i <= v@.len(),
            v@ == all,
            all == libraries@,
            forall|j: int| 0 <= j < i ==> #[trigger] all[j].library_id != library_id,
        decreases v.len() - i,
    {
        if v[i].library_id == library_id {
            let l = v.remove(i);
            assert(all[i as int] == l);
            assert(0 <= i < all.len() && all[i as int] == l && forall|j: int| 0 <= j < i ==> #[trigger] all[j].library_id != library_id);
            return Some(l);
        }
        i = i + 1;
    }
    None
}

/// `resolve_library`: parses the reference, then selects that library (none if absent).
pub fn resolve_library(libraries: Vec<Library>, library_ref: &str) -> (r: Result<Option<Library>, DomainError>)
    ensures
        match library_ref_spec(library_ref@) {
            Ok(id) => match r {
                Ok(Some(l)) => l.library_id == id && libraries@.contains(l),
                Ok(None) => forall|i: int| 0 <= i < libraries@.len() ==> #[trigger] libraries@[i].library_id != id,
                Err(_) => false,
            },
            Err(msg) => r matches Err(e) && e.0@ == msg,
        },
{
    let id = match normalize_library_ref(library_ref) {
        Ok(id) => id,
        Err(e) => return Err(e),
    };
    let ghost all = libraries@;
    let found = find_library(libraries, id);
    proof {
        if let Some(l) = &found {
            let l = *l;
            let i = choose|i: int| 0 <= i < all.len() && all[i] == l && forall|j: int| 0 <= j < i ==> #[trigger] all[j].library_id != id;
            assert(all.contains(l));
        }
    }
    Ok(found)
}

/// Every match of `pattern` in `t` replaced (or `t` when the pattern does not compile).
pub open spec fn replaced_all(pattern: Seq<char>, t: Seq<char>, with: Seq<char>) -> Seq<char> {
    match crate::pattern::regex_replace_all_result(pattern, t, with) {
        Some(x) => x,
        None => t,
    }
}

/// The plain text of a note's HTML: line breaks and closing paragraphs and divisions become
/// newlines, other tags go, entities are decoded, line endings become `\n`, runs of three or
/// more newlines become two, and the result is trimmed; empty without a note.
pub open spec fn note_text_spec(note_html: Option<Seq<char>>) -> Seq<char> {
    match note_html {
        None => Seq::empty(),
        Some(h) => if h.len() == 0 {
            Seq::empty()
        } else {
            let t1 = replaced_all("(?i)<br\\s*/?>"@, h, "\n"@);
            let t2 = replaced_all("(?i)</p\\s*>"@, t1, "\n\n"@);
            let t3 = replaced_all("(?i)</div\\s*>"@, t2, "\n"@);
            let t4 = replaced_all("<[^>]+>"@, t3, ""@);
            let t5 = crate::static_render::html_entities_decoded(t4);
            let t6 = crate::add_file::str_replace_result(crate::add_file::str_replace_result(t5, "\r\n"@, "\n"@), "\r"@, "\n"@);
            let t7 = replaced_all("\\n{3,}"@, t6, "\n\n"@);
            crate::text::trim(t7)
        },
    }
}

fn replace_all_or_keep(pattern: &str, t: String, with: &str) -> (r: String)
    ensures
        r@ == replaced_all(pattern@, t@, with@),
{
    match crate::pattern::regex_replace_all(pattern, t.as_str(), with) {
        Some(x) => x,
        None => t,
    }
}

/// The plain text of a note's HTML.
pub fn note_html_to_text(note_html: Option<&str>) -> (r: String)
    ensures
        r@ == note_text_spec(match note_html {
            Some(h) => Some(h@),
            None => None,
        }),
{
    let h = match note_html {
        Some(h) => h,
        None => return String::new(),
    };
    if crate::text::str_is_empty(h) {
        return String::new();
    }
    let t1 = replace_all_or_keep("(?i)<br\\s*/?>", h.to_owned(), "\n");
    let t2 = replace_all_or_keep("(?i)</p\\s*>", t1, "\n\n");
    let t3 = replace_all_or_keep("(?i)</div\\s*>", t2, "\n");
    let t4 = replace_all_or_keep("<[^>]+>", t3, "");
    let t5 = crate::static_render::decode_html_entities(t4.as_str());
    let t6a = crate::add_file::str_replace(t5.as_str(), "\r\n", "\n");
    let t6 = crate::add_file::str_replace(t6a.as_str(), "\r", "\n");
    let t7 = replace_all_or_keep("\\n{3,}", t6, "\n\n");
    crate::text::trim_str(t7.as_str())
}

/// An item's row as the database query returns it.
#[derive(Debug)]
pub struct ItemRow {
    pub item_id: i64,
    pub key: String,
    pub library_id: i64,
    pub item_type_id: i64,
    pub type_label: String,
    pub date_added: String,
    pub date_modified: String,
    pub version: i64,
    pub title: String,
    pub doi: Option<String>,
    pub date: Option<String>,
    pub has_pdf: i64,
    pub note_parent_item_id: Option<i64>,
    pub note_content: Option<String>,
    pub attachment_parent_item_id: Option<i64>,
    pub annotation_parent_item_id: Option<i64>,
    pub annotation_text: Option<String>,
    pub annotation_comment: Option<String>,
    pub link_mode: Option<i64>,
    pub content_type: Option<String>,
    pub attachment_path: Option<String>,
}

/// The view of an optional string.
pub open spec fn opt_chars(o: Option<String>) -> Option<Seq<char>> {
    match o {
        Some(s) => Some(s@),
        None => None,
    }
}

/// An item from its row and its fields, creators and tags: the DOI empty when absent, the
/// PDF flag set when not zero, its kind from its type name, its parent the attachment's,
/// else the note's, else the annotation's, and its note's plain text with a preview.
pub fn normalize_item(row: ItemRow, fields: Vec<(String, String)>, creators: Vec<Creator>, tags: Vec<Tag>) -> (r: Item)
    ensures
        r.item_id == row.item_id,
        r.key == row.key,
        r.library_id == row.library_id,
        r.item_type_id == row.item_type_id,
        r.type_label == row.type_label,
        r.date_added == row.date_added,
        r.date_modified == row.date_modified,
        r.version == row.version,
        r.title == row.title,
        r.doi@ == match row.doi {
            Some(d) => d@,
            None => Seq::empty(),
        },
        r.date == row.date,
        r.has_pdf == (row.has_pdf != 0),
        r.note_parent_item_id == row.note_parent_item_id,
        opt_chars(r.note_content) == opt_chars(row.note_content),
        r.attachment_parent_item_id == row.attachment_parent_item_id,
        r.annotation_parent_item_id == row.annotation_parent_item_id,
        r.annotation_text == row.annotation_text,
        r.annotation_comment == row.annotation_comment,
        r.link_mode == row.link_mode,
        r.content_type == row.content_type,
        r.attachment_path == row.attachment_path,
        r.fields == fields,
        r.creators == creators,
        r.tags == tags,
        r.is_attachment == (row.type_label@ == "attachment"@),
        r.is_note == (row.type_label@ == "note"@),
        r.is_annotation == (row.type_label@ == "annotation"@),
        r.parent_item_id == match row.attachment_parent_item_id {
            Some(p) => Some(p),
            None => match row.note_parent_item_id {
                Some(p) => Some(p),
                None => row.annotation_parent_item_id,
            },
        },
        r.note_text@ == note_text_spec(opt_chars(row.note_content)),
        r.note_preview@ == note_preview_spec(note_text_spec(opt_chars(row.note_content))),
{
    let note_text = note_html_to_text(match &row.note_content {
        Some(c) => Some(c.as_str()),
        None => None,
    });
    let preview = note_preview(note_text.as_str());
    let doi = match row.doi {
        Some(d) => d,
        None => String::new(),
    };
    let note_content = match &row.note_content {
        Some(c) => Some(c.clone()),
        None => None,
    };
    let parent = match row.attachment_parent_item_id {
        Some(p) => Some(p),
        None => match row.note_parent_item_id {
            Some(p) => Some(p),
            None => row.annotation_parent_item_id,
        },
    };
    let is_attachment = str_eq(row.type_label.as_str(), "attachment");
    let is_note = str_eq(row.type_label.as_str(), "note");
    let is_annotation = str_eq(row.type_label.as_str(), "annotation");
    Item {
        item_id: row.item_id,
        key: row.key,
        library_id: row.library_id,
        item_type_id: row.item_type_id,
        type_label: row.type_label,
        date_added: row.date_added,
        date_modified: row.date_modified,
        version: row.version,
        title: row.title,
        doi,
        date: row.date,
        has_pdf: row.has_pdf != 0,
        note_parent_item_id: row.note_parent_item_id,
        note_content,
        attachment_parent_item_id: row.attachment_parent_item_id,
        annotation_parent_item_id: row.annotation_parent_item_id,
        annotation_text: row.annotation_text,
        annotation_comment: row.annotation_comment,
        link_mode: row.link_mode,
        content_type: row.content_type,
        attachment_path: row.attachment_path,
        fields,
        creators,
        tags,
        is_attachment,
        is_note,
        is_annotation,
        parent_item_id: parent,
        note_text,
        note_preview: preview,
    }
}

} // verus!
