//! Argument parsing: splitting raw argument text on top-level commas,
//! trimming each piece, and parsing it by the parameter's declared kind.
//!
//! Splitting is a naive comma split: a comma inside a single argument's
//! own text is not escaped.  That is the documented grammar of argument
//! lists, not an oversight.  The piece count is checked against the
//! declared arity before any piece is parsed, and parsing is
//! all-or-nothing: one unparseable piece fails the whole list.

use vstd::prelude::*;
use vstd::string::*;

use crate::node::Node;
use crate::node::ParamKind;
use crate::numbers::dec_digits_of;
use crate::numbers::dec_text;
use crate::numbers::dec_units;
use crate::numbers::dec_wf;
use crate::numbers::first_at;
use crate::numbers::int_text;
use crate::numbers::lemma_first_at_found;
use crate::numbers::lemma_first_at_none;
use crate::numbers::parse_bool;
use crate::numbers::parse_dec;
use crate::numbers::parse_int;
use crate::numbers::parse_uint;
use crate::numbers::spec_parse_bool;
use crate::numbers::spec_parse_dec;
use crate::numbers::spec_parse_int;
use crate::numbers::spec_parse_uint;

verus! {

/// The pieces of `s` split on commas, with no piece after a trailing
/// comma: the splitting a terminating comma-split performs.
pub open spec fn split_commas(s: Seq<char>) -> Seq<Seq<char>>
    decreases s.len(),
{
    if s.len() == 0 {
        Seq::empty()
    } else {
        match first_at(s, 0, ',') {
            Option::None => seq![s],
            Option::Some(k) => {
                let cut = if k + 1 <= s.len() {
                    k as int + 1
                } else {
                    s.len() as int
                };
                seq![s.subrange(0, k as int)] + split_commas(s.subrange(cut, s.len() as int))
            },
        }
    }
}

/// Splits `s` on commas.
pub fn split_args(s: &str) -> (r: Vec<String>)
    ensures
        r@.map_values(|p: String| p@) == split_commas(s@),
{
    let n = s.unicode_len();
    let mut out: Vec<String> = Vec::new();
    let mut start: usize = 0;
    let mut i: usize = 0;
    proof {
        assert(s@.subrange(0, n as int) =~= s@);
        assert(split_commas(s@) =~~= out@.map_values(|p: String| p@) + split_commas(
            s@.subrange(0, n as int),
        ));
    }
    while i < n
        invariant
            0 <= start <= i <= n,
            n == s@.len(),
            forall|m: int| start <= m < i ==> s@[m] != ',',
            split_commas(s@) =~~= out@.map_values(|p: String| p@) + split_commas(
                s@.subrange(start as int, n as int),
            ),
        decreases n - i,
    {
        if s.get_char(i) == ',' {
            let ghost rest = s@.subrange(start as int, n as int);
            proof {
                assert(forall|m: int| 0 <= m < i - start ==> rest[m] == s@[m + start]);
                lemma_first_at_found(rest, 0, (i - start) as nat, ',');
            }
            let piece = String::from_str(s.substring_char(start, i));
            let ghost out0 = out@;
            out.push(piece);
            proof {
                assert(rest.subrange(0, i - start) =~= s@.subrange(start as int, i as int));
                assert(rest.subrange(i - start + 1, rest.len() as int) =~= s@.subrange(
                    i + 1,
                    n as int,
                ));
                assert(out@.subrange(0, out@.len() - 1) =~= out0);
                assert(out@.map_values(|p: String| p@) =~= out0.map_values(|p: String| p@).push(
                    s@.subrange(start as int, i as int),
                ));
                assert(split_commas(s@) =~~= out@.map_values(|p: String| p@) + split_commas(
                    s@.subrange(i + 1, n as int),
                ));
            }
            start = i + 1;
        }
        i = i + 1;
    }
    if start < n {
        let ghost rest = s@.subrange(start as int, n as int);
        proof {
            assert(forall|m: int| 0 <= m < rest.len() ==> rest[m] == s@[m + start]);
            assert(forall|m: int| 0 <= m < rest.len() ==> rest[m] != ',');
            lemma_first_at_none(rest, 0, ',');
        }
        let piece = String::from_str(s.substring_char(start, n));
        let ghost out0 = out@;
        out.push(piece);
        proof {
            assert(out@.subrange(0, out@.len() - 1) =~= out0);
            assert(out@.map_values(|p: String| p@) =~= out0.map_values(|p: String| p@).push(rest));
            assert(split_commas(s@) =~~= out@.map_values(|p: String| p@));
        }
    } else {
        proof {
            assert(s@.subrange(start as int, n as int).len() == 0);
            assert(split_commas(s@) =~~= out@.map_values(|p: String| p@));
        }
    }
    out
}

/// A blank character that trimming removes: a space or a tab.
pub open spec fn is_space(c: char) -> bool {
    c == ' ' || c == '\t'
}

/// `s` with leading blanks removed.
pub open spec fn trim_front(s: Seq<char>) -> Seq<char>
    decreases s.len(),
{
    if s.len() > 0 && is_space(s[0]) {
        trim_front(s.subrange(1, s.len() as int))
    } else {
        s
    }
}

/// `s` with trailing blanks removed.
pub open spec fn trim_back(s: Seq<char>) -> Seq<char>
    decreases s.len(),
{
    if s.len() > 0 && is_space(s.last()) {
        trim_back(s.drop_last())
    } else {
        s
    }
}

/// `s` with surrounding blanks removed.
pub open spec fn trim_view(s: Seq<char>) -> Seq<char> {
    trim_back(trim_front(s))
}

pub proof fn lemma_trim_front(s: Seq<char>, a: int)
    requires
        0 <= a <= s.len(),
        forall|m: int| 0 <= m < a ==> is_space(#[trigger] s[m]),
        a == s.len() || !is_space(s[a]),
    ensures
        trim_front(s) == s.subrange(a, s.len() as int),
    decreases a,
{
    if a == 0 {
        assert(s.subrange(0, s.len() as int) =~= s);
    } else {
        let tail = s.subrange(1, s.len() as int);
        lemma_trim_front(tail, a - 1);
        assert(tail.subrange(a - 1, tail.len() as int) =~= s.subrange(a, s.len() as int));
    }
}

pub proof fn lemma_trim_back(s: Seq<char>, b: int)
    requires
        0 <= b <= s.len(),
        forall|m: int| b <= m < s.len() ==> is_space(#[trigger] s[m]),
        b == 0 || !is_space(s[b - 1]),
    ensures
        trim_back(s) == s.subrange(0, b),
    decreases s.len(),
{
    if b == s.len() {
        assert(s.subrange(0, b) =~= s);
    } else {
        lemma_trim_back(s.drop_last(), b);
        assert(s.drop_last().subrange(0, b) =~= s.subrange(0, b));
    }
}

/// Removes surrounding blanks.
pub fn trimmed(s: &str) -> (r: String)
    ensures
        r@ == trim_view(s@),
{
    let n = s.unicode_len();
    let mut a: usize = 0;
    while a < n && is_space_at(s, a)
        invariant
            0 <= a <= n,
            n == s@.len(),
            forall|m: int| 0 <= m < a ==> is_space(#[trigger] s@[m]),
        decreases n - a,
    {
        a = a + 1;
    }
    let mut b: usize = n;
    while b > a && is_space_at(s, b - 1)
        invariant
            a <= b <= n,
            n == s@.len(),
            forall|m: int| b <= m < n ==> is_space(#[trigger] s@[m]),
        decreases b,
    {
        b = b - 1;
    }
    proof {
        lemma_trim_front(s@, a as int);
        let f = s@.subrange(a as int, n as int);
        assert(forall|m: int| b - a <= m < f.len() ==> is_space(#[trigger] f[m]));
        lemma_trim_back(f, b - a);
        assert(f.subrange(0, b - a) =~= s@.subrange(a as int, b as int));
    }
    String::from_str(s.substring_char(a, b))
}

/// Is the character at `k` a blank?
fn is_space_at(s: &str, k: usize) -> (r: bool)
    requires
        k < s@.len(),
    ensures
        r == is_space(s@[k as int]),
{
    let c = s.get_char(k);
    c == ' ' || c == '\t'
}

/// Does the (untrimmed) piece parse as an argument of this kind?
pub open spec fn spec_arg_ok(kind: ParamKind, piece: Seq<char>) -> bool {
    let t = trim_view(piece);
    match kind {
        ParamKind::Boolean => spec_parse_bool(t) is Some,
        ParamKind::Unsigned => spec_parse_uint(t) is Some,
        ParamKind::Signed => spec_parse_int(t) is Some,
        ParamKind::Decimal => spec_parse_dec(t) is Some,
        ParamKind::Text => true,
    }
}

/// Does every piece parse as an argument of its declared kind?
pub open spec fn args_all_ok(kinds: Seq<ParamKind>, pieces: Seq<Seq<char>>) -> bool {
    forall|i: int| 0 <= i < kinds.len() ==> spec_arg_ok(kinds[i], #[trigger] pieces[i])
}

/// The debug text of the parsed argument: what echoing it prints.
pub open spec fn spec_arg_text(kind: ParamKind, piece: Seq<char>) -> Seq<char> {
    let t = trim_view(piece);
    match kind {
        ParamKind::Boolean => t,
        ParamKind::Unsigned => dec_digits_of(spec_parse_uint(t)->0),
        ParamKind::Signed => int_text(spec_parse_int(t)->0),
        ParamKind::Decimal => dec_text(spec_parse_dec(t)->0),
        ParamKind::Text => "\""@ + t + "\""@,
    }
}

/// The numeric value of the parsed argument, in millionths; a boolean
/// or text argument counts as zero.
pub open spec fn spec_arg_units(kind: ParamKind, piece: Seq<char>) -> int {
    let t = trim_view(piece);
    match kind {
        ParamKind::Unsigned => spec_parse_uint(t)->0 as int * 1000000,
        ParamKind::Signed => spec_parse_int(t)->0 * 1000000,
        ParamKind::Decimal => dec_units(spec_parse_dec(t)->0),
        _ => 0,
    }
}

/// The numeric value a node contributes to a sum, in millionths.
pub open spec fn node_units(n: Node) -> int {
    match n {
        Node::UInt(v) => v * 1000000,
        Node::Int(v) => v * 1000000,
        Node::Decimal(d) => dec_units(d),
        _ => 0,
    }
}

/// A node whose contribution to a sum is bounded: every decimal in
/// summing position is well formed.  Parsed arguments always are.
pub open spec fn arg_sum_ok(n: Node) -> bool {
    match n {
        Node::Decimal(d) => dec_wf(d),
        _ => true,
    }
}

/// Parses one raw argument piece by its declared kind.
pub fn parse_one_arg(kind: &ParamKind, piece: &str) -> (r: Option<Node>)
    ensures
        r is Some <==> spec_arg_ok(*kind, piece@),
        r matches Some(nd) ==> crate::render::spec_render(nd) == Some(spec_arg_text(*kind, piece@))
            && node_units(nd) == spec_arg_units(*kind, piece@) && crate::node::node_renderable(nd)
            && crate::node::node_wf(nd) && arg_sum_ok(nd),
{
    let t = trimmed(piece);
    match kind {
        ParamKind::Boolean => match parse_bool(t.as_str()) {
            Option::Some(b) => Some(Node::Bool(b)),
            Option::None => None,
        },
        ParamKind::Unsigned => match parse_uint(t.as_str()) {
            Option::Some(v) => Some(Node::UInt(v)),
            Option::None => None,
        },
        ParamKind::Signed => match parse_int(t.as_str()) {
            Option::Some(v) => Some(Node::Int(v)),
            Option::None => None,
        },
        ParamKind::Decimal => match parse_dec(t.as_str()) {
            Option::Some(d) => Some(Node::Decimal(d)),
            Option::None => None,
        },
        ParamKind::Text => Some(Node::Text(t)),
    }
}

/// Parses every piece, all-or-nothing.
pub fn parse_args(kinds: &Vec<ParamKind>, pieces: &Vec<String>) -> (r: Option<Vec<Node>>)
    requires
        kinds@.len() == pieces@.len(),
    ensures
        r is Some <==> (forall|i: int|
            0 <= i < kinds@.len() ==> spec_arg_ok(kinds@[i], (#[trigger] pieces@[i])@)),
        r matches Some(v) ==> v@.len() == kinds@.len() && (forall|i: int|
            0 <= i < kinds@.len() ==> crate::render::spec_render(#[trigger] v@[i]) == Some(
                spec_arg_text(kinds@[i], pieces@[i]@),
            ) && node_units(v@[i]) == spec_arg_units(kinds@[i], pieces@[i]@)
                && crate::node::node_renderable(v@[i]) && crate::node::node_wf(v@[i]) && arg_sum_ok(
                v@[i],
            )),
{
    let mut out: Vec<Node> = Vec::new();
    let mut i: usize = 0;
    while i < kinds.len()
        invariant
            0 <= i <= kinds@.len(),
            kinds@.len() == pieces@.len(),
            out@.len() == i,
            forall|j: int| 0 <= j < i ==> spec_arg_ok(kinds@[j], (#[trigger] pieces@[j])@),
            forall|j: int|
                0 <= j < i ==> crate::render::spec_render(#[trigger] out@[j]) == Some(
                    spec_arg_text(kinds@[j], pieces@[j]@),
                ) && node_units(out@[j]) == spec_arg_units(kinds@[j], pieces@[j]@)
                    && crate::node::node_renderable(out@[j]) && crate::node::node_wf(out@[j])
                    && arg_sum_ok(out@[j]),
        decreases kinds@.len() - i,
    {
        match parse_one_arg(&kinds[i], pieces[i].as_str()) {
            Option::Some(nd) => {
                out.push(nd);
            },
            Option::None => {
                return None;
            },
        }
        i = i + 1;
    }
    Some(out)
}

} // verus!
