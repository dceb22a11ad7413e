//! How splitting BibTeX text relates to counting its entries.

use vstd::prelude::*;

use crate::import_normalization::{bibtex_entry_pattern, count_bibtex_spec, entries_upto, entry_text, split_bibtex_spec};
use crate::pattern::regex_matches_result;
use crate::text::{is_ws, trim, trim_end, trim_start};

verus! {

proof fn lemma_trim_start_keeps(x: Seq<char>, j: int)
    requires
        0 <= j < x.len(),
        !is_ws(x[j]),
    ensures
        exists|k: int| 0 <= k < trim_start(x).len() && !is_ws(#[trigger] trim_start(x)[k]),
    decreases x.len(),
{
    if x.len() > 0 && is_ws(x[0]) {
        assert(j > 0);
        assert(x.drop_first()[j - 1] == x[j]);
        lemma_trim_start_keeps(x.drop_first(), j - 1);
        assert(trim_start(x) == trim_start(x.drop_first()));
    } else {
        assert(!is_ws(trim_start(x)[j]));
    }
}

proof fn lemma_trim_end_nonempty(x: Seq<char>, k: int)
    requires
        0 <= k < x.len(),
        !is_ws(x[k]),
    ensures
        trim_end(x).len() > 0,
    decreases x.len(),
{
    if x.len() > 0 && is_ws(x.last()) {
        assert(x.drop_last()[k] == x[k]);
        lemma_trim_end_nonempty(x.drop_last(), k);
    }
}

proof fn lemma_trim_nonempty(x: Seq<char>, j: int)
    requires
        0 <= j < x.len(),
        !is_ws(x[j]),
    ensures
        trim(x).len() > 0,
{
    lemma_trim_start_keeps(x, j);
    let k = choose|k: int| 0 <= k < trim_start(x).len() && !is_ws(#[trigger] trim_start(x)[k]);
    lemma_trim_end_nonempty(trim_start(x), k);
}

proof fn lemma_entries_len(ms: Seq<Seq<char>>, ps: Seq<Seq<char>>, n: int)
    requires
        0 <= n <= ms.len(),
        forall|i: int| 0 <= i < ms.len() ==> (#[trigger] ms[i]).contains('@'),
    ensures
        entries_upto(ms, ps, n).len() == n,
    decreases n,
{
    if n > 0 {
        lemma_entries_len(ms, ps, n - 1);
        assert(ms[n - 1].contains('@'));
        let j = choose|j: int| 0 <= j < ms[n - 1].len() && #[trigger] ms[n - 1][j] == '@';
        assert(entry_text(ms, ps, n - 1)[j] == '@');
        lemma_trim_nonempty(entry_text(ms, ps, n - 1), j);
    }
}

/// Splitting BibTeX text gives one entry per entry start counted (each entry start, as the
/// pattern `@\w+\s*{` requires, holds an `@`); with no entry start counted, the whole text as
/// one entry unless it is blank.
pub proof fn law_split_matches_count(content: Seq<char>)
    requires
        regex_matches_result(bibtex_entry_pattern(), content) matches Some(ms) ==> forall|i: int|
            0 <= i < ms.len() ==> (#[trigger] ms[i]).contains('@'),
    ensures
        count_bibtex_spec(content) > 0 ==> split_bibtex_spec(content).len() == count_bibtex_spec(content),
        count_bibtex_spec(content) == 0 ==> split_bibtex_spec(content).len() == (if trim(content).len() == 0 {
            0int
        } else {
            1int
        }),
{
    match regex_matches_result(bibtex_entry_pattern(), content) {
        Some(ms) => {
            if ms.len() > 0 {
                let ps = match crate::pattern::regex_split_result(bibtex_entry_pattern(), content) {
                    Some(x) => x,
                    None => Seq::empty(),
                };
                lemma_entries_len(ms, ps, ms.len() as int);
            }
        },
        None => {},
    }
}

} // verus!
