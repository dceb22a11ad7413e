//! Lexical path arithmetic on `/`-separated paths (no file-system access).

use vstd::prelude::*;

use crate::text::{chars_of, concat_chars, push_char, push_str, string_from_chars};

verus! {

/// The non-empty `/`-separated components of `s`, in order.
pub open spec fn split_components(s: Seq<char>) -> Seq<Seq<char>> {
    split_rec(s, Seq::empty(), Seq::empty())
}

/// Helper for `split_components`: `done` holds finished components, `cur` the one being read.
pub open spec fn split_rec(s: Seq<char>, done: Seq<Seq<char>>, cur: Seq<char>) -> Seq<Seq<char>>
    decreases s.len(),
{
    if s.len() == 0 {
        if cur.len() > 0 {
            done.push(cur)
        } else {
            done
        }
    } else if s[0] == '/' {
        split_rec(s.drop_first(), if cur.len() > 0 { done.push(cur) } else { done }, Seq::empty())
    } else {
        split_rec(s.drop_first(), done, cur.push(s[0]))
    }
}

/// Resolving `.` and `..` components: `.` vanishes, `..` removes the previous normal
/// component; at the root of an absolute path it vanishes, in a relative one it stays.
pub open spec fn norm_stack(comps: Seq<Seq<char>>, absolute: bool) -> Seq<Seq<char>>
    decreases comps.len(),
{
    if comps.len() == 0 {
        Seq::empty()
    } else {
        let st = norm_stack(comps.drop_last(), absolute);
        let c = comps.last();
        if c == seq!['.'] {
            st
        } else if c == seq!['.', '.'] {
            if st.len() > 0 && st.last() != seq!['.', '.'] {
                st.drop_last()
            } else if absolute {
                st
            } else {
                st.push(c)
            }
        } else {
            st.push(c)
        }
    }
}

/// Components joined by `/`.
pub open spec fn join_components(cs: Seq<Seq<char>>) -> Seq<char>
    decreases cs.len(),
{
    if cs.len() == 0 {
        Seq::empty()
    } else if cs.len() == 1 {
        cs[0]
    } else {
        join_components(cs.drop_last()) + seq!['/'] + cs.last()
    }
}

/// A path is absolute when it starts with `/`.
pub open spec fn is_absolute(p: Seq<char>) -> bool {
    p.len() > 0 && p[0] == '/'
}

/// The lexically normalized form of `p`: redundant separators, `.` and resolvable `..`
/// removed; `/` for an absolute path with nothing left, `.` for a relative one.
pub open spec fn normalize_path_spec(p: Seq<char>) -> Seq<char> {
    let abs = is_absolute(p);
    let body = join_components(norm_stack(split_components(p), abs));
    if abs {
        seq!['/'] + body
    } else if body.len() == 0 {
        seq!['.']
    } else {
        body
    }
}

/// `base` joined with `p` (`Path::join`): an absolute `p` replaces `base`; otherwise a
/// `/` is put between them unless `base` is empty or already ends with one.
pub open spec fn join_path_spec(base: Seq<char>, p: Seq<char>) -> Seq<char> {
    if is_absolute(p) || base.len() == 0 {
        p
    } else if base.last() == '/' {
        base + p
    } else {
        base + seq!['/'] + p
    }
}

/// `Path::join`.
pub fn join_path(base: &str, p: &str) -> (r: String)
    ensures
        r@ == join_path_spec(base@, p@),
{
    let bv = chars_of(base);
    let pv = chars_of(p);
    if (pv.len() > 0 && pv[0] == '/') || bv.len() == 0 {
        return p.to_owned();
    }
    let mut r = base.to_owned();
    if bv[bv.len() - 1] != '/' {
        push_char(&mut r, '/');
    }
    push_str(&mut r, p);
    r
}

proof fn lemma_split_step(s: Seq<char>, i: int, done: Seq<Seq<char>>, cur: Seq<char>)
    requires
        0 <= i < s.len(),
    ensures
        split_rec(s.subrange(i, s.len() as int), done, cur) == (if s[i] == '/' {
            split_rec(s.subrange(i + 1, s.len() as int), if cur.len() > 0 { done.push(cur) } else { done }, Seq::empty())
        } else {
            split_rec(s.subrange(i + 1, s.len() as int), done, cur.push(s[i]))
        }),
{
    assert(s.subrange(i, s.len() as int).drop_first() =~= s.subrange(i + 1, s.len() as int));
}

/// The non-empty components of `p`.
pub fn split_path(p: &str) -> (r: Vec<Vec<char>>)
    ensures
        r@.map_values(|c: Vec<char>| c@) == split_components(p@),
{
    let v = chars_of(p);
    let mut done: Vec<Vec<char>> = Vec::new();
    let mut cur: Vec<char> = Vec::new();
    let mut i: usize = 0;
    proof {
        assert(v@.subrange(0, v@.len() as int) =~= v@);
        assert(done@.map_values(|c: Vec<char>| c@) =~= Seq::<Seq<char>>::empty());
        assert(cur@ =~= Seq::<char>::empty());
    }
    while i < v.len()
        invariant
            i <= v@.len(),
            v@ == p@,
            split_components(p@) == split_rec(
                v@.subrange(i as int, v@.len() as int),
                done@.map_values(|c: Vec<char>| c@),
                cur@,
            ),
        decreases v.len() - i,
    {
        proof {
            lemma_split_step(v@, i as int, done@.map_values(|c: Vec<char>| c@), cur@);
        }
        if v[i] == '/' {
            if cur.len() > 0 {
                let ghost before = done@;
                let c = cur;
                done.push(c);
                proof {
                    assert(done@.map_values(|c: Vec<char>| c@) =~= before.map_values(|c: Vec<char>| c@).push(c@));
                }
                cur = Vec::new();
            } else {
                cur = Vec::new();
            }
        } else {
            cur.push(v[i]);
        }
        i = i + 1;
    }
    proof {
        assert(v@.subrange(i as int, v@.len() as int) =~= Seq::<char>::empty());
    }
    if cur.len() > 0 {
        let ghost before = done@;
        let c = cur;
        done.push(c);
        proof {
            assert(done@.map_values(|c: Vec<char>| c@) =~= before.map_values(|c: Vec<char>| c@).push(c@));
        }
    }
    done
}


/// Views of a list of character vectors.
pub open spec fn comps_view(v: Seq<Vec<char>>) -> Seq<Seq<char>> {
    v.map_values(|c: Vec<char>| c@)
}

fn is_dot(c: &Vec<char>) -> (b: bool)
    ensures
        b == (c@ == seq!['.']),
{
    let r = c.len() == 1 && c[0] == '.';
    proof {
        if r {
            assert(c@ =~= seq!['.']);
        }
    }
    r
}

fn is_dotdot(c: &Vec<char>) -> (b: bool)
    ensures
        b == (c@ == seq!['.', '.']),
{
    let r = c.len() == 2 && c[0] == '.' && c[1] == '.';
    proof {
        if r {
            assert(c@ =~= seq!['.', '.']);
        }
    }
    r
}

/// Lexically normalizes `p` (no file-system access).
pub fn normalize_path(p: &str) -> (r: String)
    ensures
        r@ == normalize_path_spec(p@),
{
    let pv = chars_of(p);
    let abs = pv.len() > 0 && pv[0] == '/';
    let comps = split_path(p);
    let ghost cs = comps_view(comps@);
    let mut stack: Vec<Vec<char>> = Vec::new();
    let mut i: usize = 0;
    proof {
        assert(comps_view(stack@) =~= norm_stack(cs.subrange(0, 0), abs));
    }
    while i < comps.len()
        invariant
            i <= comps@.len(),
            cs == comps_view(comps@),
            abs == is_absolute(p@),
            comps_view(stack@) == norm_stack(cs.subrange(0, i as int), abs),
        decreases comps.len() - i,
    {
        proof {
            assert(cs.subrange(0, i + 1).drop_last() =~= cs.subrange(0, i as int));
            assert(cs.subrange(0, i + 1).last() == comps@[i as int]@);
        }
        let c = &comps[i];
        if is_dot(c) {
        } else if is_dotdot(c) {
            let top_is_normal = stack.len() > 0 && !is_dotdot(&stack[stack.len() - 1]);
            proof {
                if stack@.len() > 0 {
                    assert(comps_view(stack@).last() == stack@[stack@.len() - 1]@);
                }
            }
            if top_is_normal {
                let ghost before = stack@;
                stack.pop();
                proof {
                    assert(comps_view(stack@) =~= comps_view(before).drop_last());
                }
            } else if !abs {
                let ghost before = stack@;
                stack.push(sub_copy(c));
                proof {
                    assert(comps_view(stack@) =~= comps_view(before).push(c@));
                }
            }
        } else {
            let ghost before = stack@;
            stack.push(sub_copy(c));
            proof {
                assert(comps_view(stack@) =~= comps_view(before).push(c@));
            }
        }
        i = i + 1;
    }
    proof {
        assert(cs.subrange(0, cs.len() as int) =~= cs);
    }
    let ghost st = comps_view(stack@);
    let mut body: Vec<char> = Vec::new();
    let mut k: usize = 0;
    while k < stack.len()
        invariant
            k <= stack@.len(),
            st == comps_view(stack@),
            body@ == join_components(st.subrange(0, k as int)),
        decreases stack.len() - k,
    {
        proof {
            assert(st.subrange(0, k + 1).drop_last() =~= st.subrange(0, k as int));
            assert(st.subrange(0, k + 1).last() == stack@[k as int]@);
            if k == 0 {
                assert(st.subrange(0, 1)[0] == stack@[0]@);
            }
        }
        if k > 0 {
            body.push('/');
        }
        body = concat_chars(&body, &stack[k]);
        proof {
            if k == 0 {
                assert(body@ =~= stack@[0]@);
            }
        }
        k = k + 1;
    }
    proof {
        assert(st.subrange(0, st.len() as int) =~= st);
    }
    let mut r = String::new();
    if abs {
        push_char(&mut r, '/');
        let b = string_from_chars(&body);
        push_str(&mut r, b.as_str());
    } else if body.len() == 0 {
        push_char(&mut r, '.');
    } else {
        r = string_from_chars(&body);
    }
    r
}

fn sub_copy(c: &Vec<char>) -> (r: Vec<char>)
    ensures
        r@ == c@,
{
    let r = crate::text::sub_chars(c, 0, c.len());
    proof {
        assert(c@.subrange(0, c@.len() as int) =~= c@);
    }
    r
}

} // verus!
