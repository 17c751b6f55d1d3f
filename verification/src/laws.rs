//! The engine's laws: each proof function states one guarantee of the
//! evaluator over its specification, for every graph and every input.

use vstd::prelude::*;

use crate::args::args_all_ok;
use crate::args::split_commas;
use crate::complete::filter_prefixed;
use crate::complete::last_dot;
use crate::complete::spec_complete;
use crate::eval::path_mutating;
use crate::eval::spec_action_text;
use crate::eval::spec_evaluate;
use crate::eval::spec_resolve;
use crate::eval::spec_state_after;
use crate::interactive::ErrorView;
use crate::node::Node;
use crate::node::spec_field_names;
use crate::node::spec_label;
use crate::node::spec_lookup_field;
use crate::node::spec_lookup_method;
use crate::node::spec_method_names;
use crate::node::spec_mutates;
use crate::pathexpr::lemma_parse_has_names;
use crate::pathexpr::spec_parse_path;
use crate::render::spec_render;

verus! {

/// Resolving a whole name list is resolving all but the last name and
/// then looking the last one up.
pub proof fn lemma_resolve_snoc(n: Node, names: Seq<Seq<char>>, i: int)
    requires
        0 <= i < names.len(),
    ensures
        ({
            let full = spec_resolve(n, names, i);
            let pre = spec_resolve(n, names.take(names.len() - 1), i);
            match pre {
                Result::Ok(t) => full == (match spec_lookup_field(t, names.last()) {
                    Option::Some(v) => Result::<Node, ErrorView>::Ok(v),
                    Option::None => Result::<Node, ErrorView>::Err(
                        ErrorView::FieldNotFound {
                            type_label: spec_label(t),
                            field_name: names.last(),
                        },
                    ),
                }),
                Result::Err(e) => full == Result::<Node, ErrorView>::Err(e),
            }
        }),
    decreases names.len() - i,
{
    if i == names.len() - 1 {
        assert(names.take(names.len() - 1).len() == i);
        match spec_lookup_field(n, names[i]) {
            Option::Some(v) => {
                assert(spec_resolve(v, names, i + 1) == Result::<Node, ErrorView>::Ok(v));
            },
            Option::None => {},
        }
    } else {
        assert(names.take(names.len() - 1)[i] == names[i]);
        match spec_lookup_field(n, names[i]) {
            Option::Some(c) => {
                lemma_resolve_snoc(c, names, i + 1);
            },
            Option::None => {},
        }
    }
}

/// Every path of field segments that resolves to a value is echoed as
/// `Ok` of that value's debug text; a value with no debug text reports
/// `DebugNotImplemented` instead.  In a freshly zero-initialised graph
/// this is the field's default representation.
pub proof fn law_field_path(root: Node, expr: Seq<char>, excl: bool)
    requires
        ({
            &&& spec_parse_path(expr) matches Some(p)
            &&& p.call_args is None
            &&& spec_resolve(root, p.names, 0) is Ok
        }),
    ensures
        ({
            let p = spec_parse_path(expr)->0;
            let v = spec_resolve(root, p.names, 0)->Ok_0;
            spec_evaluate(root, expr, excl) == (match spec_render(v) {
                Option::Some(t) => Result::<Seq<char>, ErrorView>::Ok(t),
                Option::None => Result::<Seq<char>, ErrorView>::Err(
                    ErrorView::DebugNotImplemented,
                ),
            })
        }),
{
    let p = spec_parse_path(expr)->0;
    lemma_parse_has_names(expr, 0);
    lemma_resolve_snoc(root, p.names, 0);
}

/// A method call with the declared number of arguments, all of which
/// parse, is echoed as `Ok` of the debug text of what the method
/// returned.
pub proof fn law_method_ok(root: Node, expr: Seq<char>, excl: bool)
    requires
        ({
            &&& spec_parse_path(expr) matches Some(p)
            &&& p.call_args matches Some(args)
            &&& spec_resolve(root, p.names.take(p.names.len() - 1), 0) matches Ok(t)
            &&& spec_lookup_method(t, p.names.last()) matches Some(m)
            &&& !(spec_mutates(m.action) && !excl)
            &&& split_commas(args).len() == m.params@.len()
            &&& args_all_ok(m.params@, split_commas(args))
            &&& spec_action_text(m.action, m.params@, split_commas(args)) is Some
        }),
    ensures
        ({
            let p = spec_parse_path(expr)->0;
            let args = p.call_args->0;
            let t = spec_resolve(root, p.names.take(p.names.len() - 1), 0)->Ok_0;
            let m = spec_lookup_method(t, p.names.last())->0;
            spec_evaluate(root, expr, excl) == Result::<Seq<char>, ErrorView>::Ok(
                spec_action_text(m.action, m.params@, split_commas(args))->0,
            )
        }),
{
}

/// A method call whose argument count differs from the declared arity
/// is exactly `WrongNumberOfArguments`, whether or not the argument
/// text would have parsed.
pub proof fn law_wrong_arity(root: Node, expr: Seq<char>, excl: bool)
    requires
        ({
            &&& spec_parse_path(expr) matches Some(p)
            &&& p.call_args matches Some(args)
            &&& spec_resolve(root, p.names.take(p.names.len() - 1), 0) matches Ok(t)
            &&& spec_lookup_method(t, p.names.last()) matches Some(m)
            &&& !(spec_mutates(m.action) && !excl)
            &&& split_commas(args).len() != m.params@.len()
        }),
    ensures
        ({
            let p = spec_parse_path(expr)->0;
            let args = p.call_args->0;
            let t = spec_resolve(root, p.names.take(p.names.len() - 1), 0)->Ok_0;
            let m = spec_lookup_method(t, p.names.last())->0;
            spec_evaluate(root, expr, excl) == Result::<Seq<char>, ErrorView>::Err(
                ErrorView::WrongNumberOfArguments {
                    expected: m.params@.len(),
                    found: split_commas(args).len(),
                },
            )
        }),
{
}

/// A method call with the declared arity but an argument that does not
/// parse is exactly `ArgsError`, carrying the whole raw argument text.
pub proof fn law_bad_args(root: Node, expr: Seq<char>, excl: bool)
    requires
        ({
            &&& spec_parse_path(expr) matches Some(p)
            &&& p.call_args matches Some(args)
            &&& spec_resolve(root, p.names.take(p.names.len() - 1), 0) matches Ok(t)
            &&& spec_lookup_method(t, p.names.last()) matches Some(m)
            &&& !(spec_mutates(m.action) && !excl)
            &&& split_commas(args).len() == m.params@.len()
            &&& !args_all_ok(m.params@, split_commas(args))
        }),
    ensures
        ({
            let p = spec_parse_path(expr)->0;
            let args = p.call_args->0;
            spec_evaluate(root, expr, excl) == Result::<Seq<char>, ErrorView>::Err(
                ErrorView::ArgsError { given_args: args },
            )
        }),
{
}

/// An unknown name fails with the exact error that names the type and
/// the name, at any depth, and never anything worse: a failed
/// intermediate segment is returned verbatim, an unknown terminal field
/// is `FieldNotFound`, an unknown terminal method is `MethodNotFound`.
pub proof fn law_unknown_name(root: Node, expr: Seq<char>, excl: bool)
    requires
        spec_parse_path(expr) is Some,
    ensures
        spec_resolve(
            root,
            spec_parse_path(expr)->0.names.take(spec_parse_path(expr)->0.names.len() - 1),
            0,
        ) matches Err(e) ==> spec_evaluate(root, expr, excl) == Result::<Seq<char>, ErrorView>::Err(
            e,
        ),
        ({
            let p = spec_parse_path(expr)->0;
            spec_resolve(root, p.names.take(p.names.len() - 1), 0) matches Ok(t) ==> {
                &&& (p.call_args is None && spec_lookup_field(t, p.names.last()) is None)
                    ==> spec_evaluate(root, expr, excl) == Result::<Seq<char>, ErrorView>::Err(
                    ErrorView::FieldNotFound {
                        type_label: spec_label(t),
                        field_name: p.names.last(),
                    },
                )
                &&& (p.call_args is Some && spec_lookup_method(t, p.names.last()) is None)
                    ==> spec_evaluate(root, expr, excl) == Result::<Seq<char>, ErrorView>::Err(
                    ErrorView::MethodNotFound {
                        type_label: spec_label(t),
                        method_name: p.names.last(),
                    },
                )
            }
        }),
{
}

/// Completion on a dotted prefix that resolves suggests exactly the
/// resolved node's field names followed by its method names, filtered
/// by the typed suffix, starting right after the last dot.
pub proof fn law_complete_resolved(root: Node, line: Seq<char>, cursor: int)
    requires
        0 <= cursor <= line.len(),
        ({
            let prefix = line.take(cursor);
            let d = last_dot(prefix);
            &&& d >= 0
            &&& spec_parse_path(prefix.subrange(0, d)) matches Some(p)
            &&& p.call_args is None
            &&& spec_resolve(root, p.names, 0) is Ok
        }),
    ensures
        ({
            let prefix = line.take(cursor);
            let d = last_dot(prefix);
            let suffix = prefix.subrange(d + 1, prefix.len() as int);
            let p = spec_parse_path(prefix.subrange(0, d))->0;
            let t = spec_resolve(root, p.names, 0)->Ok_0;
            spec_complete(root, line, cursor) == (
                d + 1,
                filter_prefixed(spec_field_names(t) + spec_method_names(t), suffix),
            )
        }),
{
}

/// Completion on a prefix that does not resolve suggests nothing, and
/// never surfaces an error.
pub proof fn law_complete_unresolvable(root: Node, line: Seq<char>, cursor: int)
    requires
        0 <= cursor <= line.len(),
        ({
            let prefix = line.take(cursor);
            let d = last_dot(prefix);
            d >= 0 && (match spec_parse_path(prefix.subrange(0, d)) {
                Option::Some(p) => p.call_args is Some || spec_resolve(root, p.names, 0) is Err,
                Option::None => true,
            })
        }),
    ensures
        spec_complete(root, line, cursor) == (0int, Seq::<Seq<char>>::empty()),
{
}

/// A mutating method reached through a shared reference chain fails
/// with `MethodNotFound`, exactly as if it were not registered; the
/// graph, held only by shared reference, cannot change.
pub proof fn law_mutating_needs_exclusive(root: Node, expr: Seq<char>)
    requires
        ({
            &&& spec_parse_path(expr) matches Some(p)
            &&& p.call_args is Some
            &&& spec_resolve(root, p.names.take(p.names.len() - 1), 0) matches Ok(t)
            &&& spec_lookup_method(t, p.names.last()) matches Some(m)
            &&& spec_mutates(m.action)
        }),
    ensures
        ({
            let p = spec_parse_path(expr)->0;
            let t = spec_resolve(root, p.names.take(p.names.len() - 1), 0)->Ok_0;
            spec_evaluate(root, expr, false) == Result::<Seq<char>, ErrorView>::Err(
                ErrorView::MethodNotFound {
                    type_label: spec_label(t),
                    method_name: p.names.last(),
                },
            )
        }),
{
}

/// Idempotence: evaluation is a function of the graph and the line, and
/// a line that is not a resolved mutating method call leaves the graph
/// unchanged — so repeating any such line, including any pure method
/// call, gives the identical outcome.
pub proof fn law_idempotent(root: Node, expr: Seq<char>, excl: bool, after: Node)
    requires
        spec_state_after(root, expr, after),
        match spec_parse_path(expr) {
            Option::Some(p) => !path_mutating(root, p),
            Option::None => true,
        },
    ensures
        after == root,
        spec_evaluate(after, expr, excl) == spec_evaluate(root, expr, excl),
{
}

} // verus!
