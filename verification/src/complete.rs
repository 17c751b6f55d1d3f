//! Tab completion: resolving the dotted prefix of a partially typed
//! line and listing the field and method names that could come next.
//!
//! The resolved node's field names come first, then its method names,
//! each filtered by the text already typed after the last dot.  Any
//! failure — an unparseable prefix, an unknown segment, a method call in
//! the prefix — yields no candidates rather than an error, so completion
//! never interrupts typing.

use vstd::prelude::*;
use vstd::string::*;

use crate::eval::spec_resolve;
use crate::interactive::InteractiveFieldNames;
use crate::interactive::InteractiveMethodNames;
use crate::node::Node;
use crate::node::node_wf;
use crate::node::spec_field_names;
use crate::node::spec_method_names;
use crate::pathexpr::parse_path;
use crate::pathexpr::spec_parse_path;

verus! {

/// The names that begin with `pre`, in order.
pub open spec fn filter_prefixed(names: Seq<Seq<char>>, pre: Seq<char>) -> Seq<Seq<char>>
    decreases names.len(),
{
    if names.len() == 0 {
        Seq::empty()
    } else {
        let rest = filter_prefixed(names.drop_last(), pre);
        if pre.is_prefix_of(names.last()) {
            rest.push(names.last())
        } else {
            rest
        }
    }
}

/// The position of the last `.` in `s`, or `-1`.
pub open spec fn last_dot(s: Seq<char>) -> int
    decreases s.len(),
{
    if s.len() == 0 {
        -1
    } else if s.last() == '.' {
        s.len() - 1
    } else {
        last_dot(s.drop_last())
    }
}

pub proof fn lemma_last_dot(s: Seq<char>, k: int)
    requires
        -1 <= k < s.len() || (k == -1 && s.len() == 0),
        forall|m: int| k < m < s.len() ==> s[m] != '.',
        k >= 0 ==> s[k] == '.',
    ensures
        last_dot(s) == k,
    decreases s.len(),
{
    if s.len() > 0 {
        if k == s.len() - 1 {
        } else {
            assert(s.last() != '.');
            lemma_last_dot(s.drop_last(), k);
        }
    }
}

/// What completion suggests: the offset where the unconsumed suffix
/// begins, and the candidate names.
pub open spec fn spec_complete(root: Node, line: Seq<char>, cursor: int) -> (int, Seq<Seq<char>>) {
    let prefix = line.take(cursor);
    let d = last_dot(prefix);
    let suffix = prefix.subrange(d + 1, prefix.len() as int);
    if d < 0 {
        (0, filter_prefixed(spec_field_names(root) + spec_method_names(root), suffix))
    } else {
        match spec_parse_path(prefix.subrange(0, d)) {
            Option::Some(p) => if p.call_args is None {
                match spec_resolve(root, p.names, 0) {
                    Result::Ok(t) => (
                        d + 1,
                        filter_prefixed(spec_field_names(t) + spec_method_names(t), suffix),
                    ),
                    Result::Err(_) => (0, Seq::<Seq<char>>::empty()),
                }
            } else {
                (0, Seq::<Seq<char>>::empty())
            },
            Option::None => (0, Seq::<Seq<char>>::empty()),
        }
    }
}

/// Does `s` begin with `pre`?
fn str_is_prefix(pre: &str, s: &String) -> (r: bool)
    ensures
        r == pre@.is_prefix_of(s@),
{
    let pl = pre.unicode_len();
    let sl = s.as_str().unicode_len();
    if pl > sl {
        return false;
    }
    let mut j: usize = 0;
    while j < pl
        invariant
            0 <= j <= pl <= sl,
            pl == pre@.len(),
            sl == s@.len(),
            forall|m: int| 0 <= m < j ==> pre@[m] == s@[m],
        decreases pl - j,
    {
        if pre.get_char(j) != s.as_str().get_char(j) {
            proof {
                assert(s@.subrange(0, pl as int)[j as int] == s@[j as int]);
                assert(!(pre@ =~= s@.subrange(0, pl as int)));
            }
            return false;
        }
        j = j + 1;
    }
    proof {
        assert(pre@ =~= s@.subrange(0, pl as int));
    }
    true
}

/// Keeps the names that begin with `pre`, in order.
fn filter_names(names: &Vec<String>, pre: &str) -> (r: Vec<String>)
    ensures
        r@.map_values(|s: String| s@) == filter_prefixed(
            names@.map_values(|s: String| s@),
            pre@,
        ),
{
    let ghost nv = names@.map_values(|s: String| s@);
    let mut out: Vec<String> = Vec::new();
    let mut i: usize = 0;
    proof {
        assert(nv.take(0) =~= Seq::<Seq<char>>::empty());
        assert(out@.map_values(|s: String| s@) =~= filter_prefixed(nv.take(0), pre@));
    }
    while i < names.len()
        invariant
            0 <= i <= names@.len(),
            nv == names@.map_values(|s: String| s@),
            out@.map_values(|s: String| s@) == filter_prefixed(nv.take(i as int), pre@),
        decreases names@.len() - i,
    {
        let ghost out0 = out@;
        let keep = str_is_prefix(pre, &names[i]);
        if keep {
            out.push(names[i].clone());
        }
        i = i + 1;
        proof {
            assert(nv.take(i as int).drop_last() =~= nv.take(i - 1));
            assert(nv.take(i as int).last() == nv[i - 1]);
            assert(nv[i - 1] == names@[i - 1]@);
            if keep {
                assert(out@.subrange(0, out@.len() - 1) =~= out0);
                assert(out@.map_values(|s: String| s@) =~= out0.map_values(|s: String| s@).push(
                    names@[i - 1]@,
                ));
            }
            assert(out@.map_values(|s: String| s@) =~= filter_prefixed(nv.take(i as int), pre@));
        }
    }
    proof {
        assert(nv.take(names@.len() as int) =~= nv);
    }
    out
}

/// The candidate names of a node: its field names, then its method
/// names, both filtered by the typed suffix.
fn candidates_of(t: &Node, suffix: &str) -> (r: Vec<String>)
    ensures
        r@.map_values(|s: String| s@) == filter_prefixed(
            spec_field_names(*t) + spec_method_names(*t),
            suffix@,
        ),
{
    let mut all = t.get_all_interactive_field_names();
    let mut ms = t.get_all_interactive_method_names();
    let ghost fv = all@.map_values(|s: String| s@);
    let ghost mv = ms@.map_values(|s: String| s@);
    all.append(&mut ms);
    proof {
        assert(all@.map_values(|s: String| s@) =~= fv + mv);
    }
    filter_names(&all, suffix)
}

/// Completes a partially typed line at the given cursor position
/// (counted in characters): returns where the suggestion text begins
/// and the candidate names.
pub fn complete(root: &Node, line: &str, cursor: usize) -> (r: (usize, Vec<String>))
    requires
        node_wf(*root),
        cursor <= line@.len(),
    ensures
        r.0 == spec_complete(*root, line@, cursor as int).0,
        r.1@.map_values(|s: String| s@) == spec_complete(*root, line@, cursor as int).1,
{
    let ghost prefix = line@.take(cursor as int);
    let mut k: usize = cursor;
    while k > 0 && line.get_char(k - 1) != '.'
        invariant
            0 <= k <= cursor,
            cursor <= line@.len(),
            forall|m: int| k <= m < cursor ==> line@[m] != '.',
        decreases k,
    {
        k = k - 1;
    }
    proof {
        assert(forall|m: int| 0 <= m < cursor ==> prefix[m] == line@[m]);
        lemma_last_dot(prefix, k as int - 1);
        assert(last_dot(prefix) == k as int - 1);
    }
    if k == 0 {
        let suffix = line.substring_char(0, cursor);
        proof {
            assert(suffix@ =~= prefix.subrange(0, prefix.len() as int));
            assert(prefix.subrange(0, prefix.len() as int) =~= prefix.subrange(
                last_dot(prefix) + 1,
                prefix.len() as int,
            ));
        }
        let cands = candidates_of(root, suffix);
        proof {
            assert(spec_complete(*root, line@, cursor as int).0 == 0);
            assert(cands@.map_values(|s: String| s@) == spec_complete(
                *root,
                line@,
                cursor as int,
            ).1);
        }
        return (0, cands);
    } else {
        let head = line.substring_char(0, k - 1);
        proof {
            assert(head@ =~= prefix.subrange(0, k - 1));
        }
        match parse_path(head) {
            Result::Err(_) => {
                let r = (0usize, Vec::<String>::new());
                proof {
                    assert(r.1@.map_values(|s: String| s@) =~= Seq::<Seq<char>>::empty());
                }
                return r;
            },
            Result::Ok(p) => {
                if p.call_args.is_some() {
                    let r = (0usize, Vec::<String>::new());
                    proof {
                        assert(r.1@.map_values(|s: String| s@) =~= Seq::<Seq<char>>::empty());
                    }
                    return r;
                } else {
                    let ghost pv = crate::pathexpr::path_view(p);
                    let end = p.names.len();
                    proof {
                        assert(crate::eval::names_of(p.names@).take(end as int) =~= pv.names);
                    }
                    match crate::eval::resolve_from(root, &p.names, 0, end) {
                        Result::Err(_) => {
                            let r = (0usize, Vec::<String>::new());
                            proof {
                                assert(r.1@.map_values(|s: String| s@) =~= Seq::<
                                    Seq<char>,
                                >::empty());
                            }
                            return r;
                        },
                        Result::Ok(t) => {
                            proof {
                                assert(crate::eval::names_of(p.names@).take(end as int)
                                    =~= pv.names);
                            }
                            let suffix = line.substring_char(k, cursor);
                            proof {
                                assert(suffix@ =~= prefix.subrange(
                                    last_dot(prefix) + 1,
                                    prefix.len() as int,
                                ));
                            }
                            let cands = candidates_of(t, suffix);
                            proof {
                                assert(spec_complete(*root, line@, cursor as int).0 == k as int);
                                assert(cands@.map_values(|s: String| s@) == spec_complete(
                                    *root,
                                    line@,
                                    cursor as int,
                                ).1);
                            }
                            return (k, cands);
                        },
                    }
                }
            },
        }
    }
}

} // verus!
