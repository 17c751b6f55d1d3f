//! The path expression grammar and its parser.
//!
//! `path := segment ('.' segment)*` where a segment is an identifier,
//! and the final segment may instead be `identifier '(' argsText ')'`.
//! Only the final segment may be a method call; any malformed shape is a
//! `SyntaxError`, raised before any traversal begins.

use vstd::prelude::*;
use vstd::string::*;

use crate::interactive::InteractiveError;

verus! {

/// The mathematical image of a parsed path: the segment names in order,
/// and the raw argument text when the last segment is a method call.
pub struct PathV {
    pub names: Seq<Seq<char>>,
    pub call_args: Option<Seq<char>>,
}

/// A parsed path expression.
pub struct PathExpr {
    pub names: Vec<String>,
    pub call_args: Option<String>,
}

/// The mathematical image of a parsed path expression.
pub open spec fn path_view(p: PathExpr) -> PathV {
    PathV {
        names: p.names@.map_values(|s: String| s@),
        call_args: match p.call_args {
            Option::Some(s) => Some(s@),
            Option::None => None,
        },
    }
}

/// An identifier character: a letter, a digit, or an underscore.
pub open spec fn is_ident_char(c: char) -> bool {
    (48 <= c as int && c as int <= 57) || (65 <= c as int && c as int <= 90) || (97 <= c as int
        && c as int <= 122) || c as int == 95
}

/// The end of the identifier run starting at `i`.
pub open spec fn ident_end(s: Seq<char>, i: nat) -> nat
    decreases s.len() - i,
{
    if i >= s.len() {
        i
    } else if is_ident_char(s[i as int]) {
        ident_end(s, i + 1)
    } else {
        i
    }
}

pub proof fn lemma_ident_end(s: Seq<char>, i: nat, k: nat)
    requires
        i <= k <= s.len(),
        forall|m: int| i <= m < k ==> is_ident_char(#[trigger] s[m]),
        k == s.len() || !is_ident_char(s[k as int]),
    ensures
        ident_end(s, i) == k,
    decreases k - i,
{
    if i < k {
        lemma_ident_end(s, i + 1, k);
    }
}

pub proof fn lemma_ident_end_range(s: Seq<char>, i: nat)
    requires
        i <= s.len(),
    ensures
        i <= ident_end(s, i) <= s.len(),
    decreases s.len() - i,
{
    if i < s.len() && is_ident_char(s[i as int]) {
        lemma_ident_end_range(s, i + 1);
    }
}

/// Parses the path expression that starts at position `i` of `s`.
pub open spec fn spec_parse_at(s: Seq<char>, i: nat) -> Option<PathV>
    decreases s.len() - i,
{
    let k = ident_end(s, i);
    if k <= i || k > s.len() {
        None
    } else if k == s.len() {
        Some(PathV { names: seq![s.subrange(i as int, k as int)], call_args: None })
    } else if s[k as int] == '.' {
        match spec_parse_at(s, k + 1) {
            Option::None => None,
            Option::Some(p) => Some(
                PathV { names: seq![s.subrange(i as int, k as int)] + p.names, call_args: p.call_args },
            ),
        }
    } else if s[k as int] == '(' {
        if s.len() >= k + 2 && s.last() == ')' {
            Some(
                PathV {
                    names: seq![s.subrange(i as int, k as int)],
                    call_args: Some(s.subrange(k as int + 1, s.len() - 1)),
                },
            )
        } else {
            None
        }
    } else {
        None
    }
}

/// Parses a whole path expression.
pub open spec fn spec_parse_path(s: Seq<char>) -> Option<PathV> {
    spec_parse_at(s, 0)
}

/// A parsed path always carries at least one segment name.
pub proof fn lemma_parse_has_names(s: Seq<char>, i: nat)
    requires
        i <= s.len(),
        spec_parse_at(s, i) is Some,
    ensures
        spec_parse_at(s, i)->0.names.len() >= 1,
    decreases s.len() - i,
{
    let k = ident_end(s, i);
    lemma_ident_end_range(s, i);
    if k < s.len() && s[k as int] == '.' {
        lemma_parse_has_names(s, k + 1);
    }
}

/// Is the character at `k` an identifier character?
fn ident_char_at(s: &str, k: usize) -> (r: bool)
    requires
        k < s@.len(),
    ensures
        r == is_ident_char(s@[k as int]),
{
    let c = s.get_char(k);
    let u = c as u32;
    (48 <= u && u <= 57) || (65 <= u && u <= 90) || (97 <= u && u <= 122) || u == 95
}

/// Parses the path expression that starts at position `i` of `s`.
fn parse_at(s: &str, i: usize) -> (r: Option<PathExpr>)
    requires
        i <= s@.len(),
    ensures
        match spec_parse_at(s@, i as nat) {
            Option::Some(p) => r matches Some(pe) && path_view(pe) == p,
            Option::None => r is None,
        },
    decreases s@.len() - i,
{
    let n = s.unicode_len();
    let mut k = i;
    while k < n && ident_char_at(s, k)
        invariant
            i <= k <= n,
            n == s@.len(),
            forall|m: int| i <= m < k ==> is_ident_char(#[trigger] s@[m]),
        decreases n - k,
    {
        k = k + 1;
    }
    proof {
        lemma_ident_end(s@, i as nat, k as nat);
    }
    if k == i {
        return None;
    }
    let name = String::from_str(s.substring_char(i, k));
    if k == n {
        let mut names: Vec<String> = Vec::new();
        names.push(name);
        let pe = PathExpr { names, call_args: None };
        proof {
            assert(path_view(pe).names =~= seq![s@.subrange(i as int, k as int)]);
        }
        return Some(pe);
    }
    let c = s.get_char(k);
    if c == '.' {
        match parse_at(s, k + 1) {
            Option::None => None,
            Option::Some(mut pe) => {
                pe.names.insert(0, name);
                proof {
                    let p = spec_parse_at(s@, (k + 1) as nat)->0;
                    assert(path_view(pe).names =~= seq![s@.subrange(i as int, k as int)]
                        + p.names);
                }
                Some(pe)
            },
        }
    } else if c == '(' {
        if n - k >= 2 && s.get_char(n - 1) == ')' {
            let args = String::from_str(s.substring_char(k + 1, n - 1));
            let mut names: Vec<String> = Vec::new();
            names.push(name);
            let pe = PathExpr { names, call_args: Some(args) };
            proof {
                assert(path_view(pe).names =~= seq![s@.subrange(i as int, k as int)]);
            }
            Some(pe)
        } else {
            None
        }
    } else {
        None
    }
}

/// Parses a whole path expression, or reports a `SyntaxError`.
pub fn parse_path(s: &str) -> (r: Result<PathExpr, InteractiveError>)
    ensures
        match spec_parse_path(s@) {
            Option::Some(p) => r matches Ok(pe) && path_view(pe) == p,
            Option::None => r == Result::<PathExpr, InteractiveError>::Err(
                InteractiveError::SyntaxError,
            ),
        },
{
    match parse_at(s, 0) {
        Option::Some(pe) => Ok(pe),
        Option::None => Err(InteractiveError::SyntaxError),
    }
}

} // verus!
