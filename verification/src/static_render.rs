//! Static citation text assembled from rendered citations.

use vstd::prelude::*;

use crate::pattern::{regex_replace_all, regex_replace_all_result};
use crate::text::{
    chars_of, join_spec, join_strings, push_char, push_str, string_from_range, strings_view, trim,
    trim_bounds, trim_str,
};

verus! {

/// A rendered citation and bibliography entry for one item.
#[derive(Debug, Clone)]
pub struct RenderedItem {
    pub citation: String,
    pub bibliography: String,
}

/// The trimmed, non-empty citations among the first `n`.
pub open spec fn cleaned_citations(cs: Seq<Seq<char>>, n: int) -> Seq<Seq<char>>
    decreases n,
{
    if n <= 0 {
        Seq::empty()
    } else {
        cleaned_citations(cs, n - 1) + if trim(cs[n - 1]).len() > 0 {
            seq![trim(cs[n - 1])]
        } else {
            Seq::empty()
        }
    }
}

/// A citation wrapped in parentheses.
pub open spec fn is_parenthesized(c: Seq<char>) -> bool {
    c.len() > 0 && c[0] == '(' && c.last() == ')'
}

/// The inside of a parenthesized citation, trimmed.
pub open spec fn paren_inner(c: Seq<char>) -> Seq<char> {
    trim(c.subrange(1, c.len() - 1))
}

/// Several citations combined into one: none gives empty; one is kept; when all are
/// parenthesized their insides are joined by `; ` inside one pair of parentheses;
/// otherwise they are joined by `; `.
pub open spec fn combined_citation_spec(cs: Seq<Seq<char>>) -> Seq<char> {
    let cl = cleaned_citations(cs, cs.len() as int);
    if cl.len() == 0 {
        Seq::empty()
    } else if cl.len() == 1 {
        cl[0]
    } else if forall|i: int| 0 <= i < cl.len() ==> is_parenthesized(#[trigger] cl[i]) {
        seq!['('] + join_spec(cl.map_values(|c: Seq<char>| paren_inner(c)), "; "@) + seq![')']
    } else {
        join_spec(cl, "; "@)
    }
}

/// Combines the citations of one placeholder into one citation text.
pub fn combined_citation(citations: &Vec<String>) -> (r: String)
    ensures
        r@ == combined_citation_spec(strings_view(citations@)),
{
    let ghost cs = strings_view(citations@);
    let mut cleaned: Vec<String> = Vec::new();
    let mut i: usize = 0;
    while i < citations.len()
        invariant
            i <= citations@.len(),
            cs == strings_view(citations@),
            strings_view(cleaned@) == cleaned_citations(cs, i as int),
        decreases citations.len() - i,
    {
        let c = trim_str(citations[i].as_str());
        proof {
            assert(cs[i as int] == citations@[i as int]@);
        }
        if c.as_str().unicode_len() != 0 {
            let ghost before = cleaned@;
            cleaned.push(c);
            proof {
                assert(strings_view(cleaned@) =~= strings_view(before).push(c@));
            }
        }
        i = i + 1;
    }
    let ghost cl = strings_view(cleaned@);
    if cleaned.len() == 0 {
        return String::new();
    }
    if cleaned.len() == 1 {
        proof {
            assert(cl[0] == cleaned@[0]@);
        }
        return cleaned[0].clone();
    }
    let mut all_paren = true;
    let mut k: usize = 0;
    while k < cleaned.len()
        invariant
            k <= cleaned@.len(),
            cl == strings_view(cleaned@),
            all_paren == forall|j: int| 0 <= j < k ==> is_parenthesized(#[trigger] cl[j]),
        decreases cleaned.len() - k,
    {
        let v = chars_of(cleaned[k].as_str());
        let p = v.len() > 0 && v[0] == '(' && v[v.len() - 1] == ')';
        proof {
            assert(cl[k as int] == cleaned@[k as int]@);
            if !p {
                assert(!is_parenthesized(cl[k as int]));
            }
        }
        all_paren = all_paren && p;
        k = k + 1;
    }
    if all_paren {
        let mut inside: Vec<String> = Vec::new();
        let mut m: usize = 0;
        while m < cleaned.len()
            invariant
                m <= cleaned@.len(),
                cl == strings_view(cleaned@),
                forall|j: int| 0 <= j < cleaned@.len() ==> is_parenthesized(#[trigger] cl[j]),
                strings_view(inside@) == cl.subrange(0, m as int).map_values(|c: Seq<char>| paren_inner(c)),
            decreases cleaned.len() - m,
        {
            let v = chars_of(cleaned[m].as_str());
            proof {
                assert(cl[m as int] == cleaned@[m as int]@);
                assert(is_parenthesized(cl[m as int]));
            }
            let body = string_from_range(&v, 1, v.len() - 1);
            let inner = trim_str(body.as_str());
            let ghost before = inside@;
            inside.push(inner);
            proof {
                assert(inner@ == paren_inner(cl[m as int]));
                assert(strings_view(inside@) =~= strings_view(before).push(inner@));
                assert(cl.subrange(0, m + 1).map_values(|c: Seq<char>| paren_inner(c)) =~= cl.subrange(0, m as int).map_values(|c: Seq<char>| paren_inner(c)).push(paren_inner(cl[m as int])));
            }
            m = m + 1;
        }
        proof {
            assert(cl.subrange(0, cl.len() as int) =~= cl);
        }
        let mut out = String::new();
        push_char(&mut out, '(');
        let joined = join_strings(&inside, "; ");
        push_str(&mut out, joined.as_str());
        push_char(&mut out, ')');
        proof {
            assert(out@ =~= seq!['('] + joined@ + seq![')']);
        }
        return out;
    }
    join_strings(&cleaned, "; ")
}

/// What `html_escape::decode_html_entities` returns for this text.
pub uninterp spec fn html_entities_decoded(s: Seq<char>) -> Seq<char>;

/// Calls `html_escape::decode_html_entities` (named and numeric character references).
#[verifier::external_body]
pub fn decode_html_entities(s: &str) -> (r: String)
    ensures
        r@ == html_entities_decoded(s@),
{
    html_escape::decode_html_entities(s).into_owned()
}

/// Plain text of an HTML fragment: tags (`<[^>]+>`) removed, entities decoded, trimmed.
pub open spec fn plain_text_spec(val: Seq<char>) -> Seq<char> {
    let stripped = match regex_replace_all_result("<[^>]+>"@, val, ""@) {
        Some(x) => x,
        None => val,
    };
    trim(html_entities_decoded(stripped))
}

/// Strips tags from an HTML fragment and decodes its entities.
pub fn plain_text(val: &str) -> (r: String)
    ensures
        r@ == plain_text_spec(val@),
{
    let stripped = match regex_replace_all("<[^>]+>", val, "") {
        Some(x) => x,
        None => val.to_owned(),
    };
    let decoded = decode_html_entities(stripped.as_str());
    trim_str(decoded.as_str())
}

} // verus!
