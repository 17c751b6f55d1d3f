//! Debug rendering: the human-readable text of a node.
//!
//! A composite prints as `Label { field: value, ... }`, a tuple as
//! `(a, b)`, a named variant as `Name(items)`, text in double quotes,
//! and numbers in their canonical decimal form.  An opaque value has no
//! debug text: rendering it reports `DebugNotImplemented`.

use vstd::prelude::*;
use vstd::string::*;

use crate::interactive::InteractiveError;
use crate::node::FieldEntry;
use crate::node::Node;
use crate::node::node_renderable;
use crate::numbers::dec_digits_of;
use crate::numbers::dec_text;
use crate::numbers::int_text;
use crate::numbers::push_dec;
use crate::numbers::push_i64;
use crate::numbers::push_u128;

verus! {

/// The debug text of a node; `None` when an opaque value stands at or
/// inside it.
pub open spec fn spec_render(n: Node) -> Option<Seq<char>>
    decreases n,
{
    match n {
        Node::Unit => Some("()"@),
        Node::Bool(b) => Some(
            if b {
                "true"@
            } else {
                "false"@
            },
        ),
        Node::UInt(v) => Some(dec_digits_of(v as nat)),
        Node::Int(v) => Some(int_text(v as int)),
        Node::Decimal(d) => Some(dec_text(d)),
        Node::Text(s) => Some("\""@ + s@ + "\""@),
        Node::Tuple(items) => match spec_render_items(items@) {
            Option::Some(t) => Some("("@ + t + ")"@),
            Option::None => None,
        },
        Node::Variant { name, items } => if items@.len() == 0 {
            Some(name@)
        } else {
            match spec_render_items(items@) {
                Option::Some(t) => Some(name@ + "("@ + t + ")"@),
                Option::None => None,
            }
        },
        Node::Opaque { .. } => None,
        Node::Composite { label, fields, .. } => if fields@.len() == 0 {
            Some(label@)
        } else {
            match spec_render_fields(fields@) {
                Option::Some(t) => Some(label@ + " { "@ + t + " }"@),
                Option::None => None,
            }
        },
    }
}

/// The comma-joined debug text of a list of values.
pub open spec fn spec_render_items(items: Seq<Node>) -> Option<Seq<char>>
    decreases items,
{
    if items.len() == 0 {
        Some(Seq::empty())
    } else {
        match spec_render(items[0]) {
            Option::None => None,
            Option::Some(h) => if items.len() == 1 {
                Some(h)
            } else {
                match spec_render_items(items.subrange(1, items.len() as int)) {
                    Option::None => None,
                    Option::Some(t) => Some(h + ", "@ + t),
                }
            },
        }
    }
}

/// The comma-joined `name: value` debug text of a field table.
pub open spec fn spec_render_fields(fields: Seq<FieldEntry>) -> Option<Seq<char>>
    decreases fields,
{
    if fields.len() == 0 {
        Some(Seq::empty())
    } else {
        match spec_render(fields[0].node) {
            Option::None => None,
            Option::Some(h) => {
                let one = fields[0].name@ + ": "@ + h;
                if fields.len() == 1 {
                    Some(one)
                } else {
                    match spec_render_fields(fields.subrange(1, fields.len() as int)) {
                        Option::None => None,
                        Option::Some(t) => Some(one + ", "@ + t),
                    }
                }
            },
        }
    }
}

/// Appends the debug text of `n` to `out`; reports failure when an
/// opaque value was reached, in which case `out` holds partial text that
/// the caller discards.
pub fn push_node(n: &Node, out: &mut String) -> (ok: bool)
    requires
        node_renderable(*n),
    ensures
        match spec_render(*n) {
            Option::Some(t) => ok && final(out)@ == old(out)@ + t,
            Option::None => !ok,
        },
    decreases *n,
{
    match n {
        Node::Unit => {
            out.append("()");
            true
        },
        Node::Bool(b) => {
            if *b {
                out.append("true");
            } else {
                out.append("false");
            }
            true
        },
        Node::UInt(v) => {
            push_u128(out, *v as u128);
            true
        },
        Node::Int(v) => {
            push_i64(out, *v);
            true
        },
        Node::Decimal(d) => {
            push_dec(out, *d);
            true
        },
        Node::Text(s) => {
            out.append("\"");
            out.append(s.as_str());
            out.append("\"");
            proof {
                assert(out@ =~= old(out)@ + ("\""@ + s@ + "\""@));
            }
            true
        },
        Node::Tuple(items) => {
            proof {
                assert(items@.subrange(0, items@.len() as int) =~= items@);
            }
            out.append("(");
            let ok = push_items(items, 0, out);
            if ok {
                out.append(")");
                proof {
                    let t = spec_render_items(items@)->0;
                    assert(out@ =~= old(out)@ + ("("@ + t + ")"@));
                }
                true
            } else {
                false
            }
        },
        Node::Variant { name, items } => {
            proof {
                assert(items@.subrange(0, items@.len() as int) =~= items@);
            }
            if items.len() == 0 {
                out.append(name.as_str());
                true
            } else {
                out.append(name.as_str());
                out.append("(");
                let ok = push_items(items, 0, out);
                if ok {
                    out.append(")");
                    proof {
                        let t = spec_render_items(items@)->0;
                        assert(out@ =~= old(out)@ + (name@ + "("@ + t + ")"@));
                    }
                    true
                } else {
                    false
                }
            }
        },
        Node::Opaque { .. } => false,
        Node::Composite { label, fields, .. } => {
            proof {
                assert(fields@.subrange(0, fields@.len() as int) =~= fields@);
            }
            if fields.len() == 0 {
                out.append(label.as_str());
                true
            } else {
                out.append(label.as_str());
                out.append(" { ");
                let ok = push_fields(fields, 0, out);
                if ok {
                    out.append(" }");
                    proof {
                        let t = spec_render_fields(fields@)->0;
                        assert(out@ =~= old(out)@ + (label@ + " { "@ + t + " }"@));
                    }
                    true
                } else {
                    false
                }
            }
        },
    }
}

/// Appends the comma-joined debug text of `items[i ..]` to `out`.
fn push_items(items: &Vec<Node>, i: usize, out: &mut String) -> (ok: bool)
    requires
        i <= items@.len(),
        forall|k: int| 0 <= k < items@.len() ==> node_renderable(#[trigger] items@[k]),
    ensures
        match spec_render_items(items@.subrange(i as int, items@.len() as int)) {
            Option::Some(t) => ok && final(out)@ == old(out)@ + t,
            Option::None => !ok,
        },
    decreases items@.subrange(i as int, items@.len() as int),
{
    let ghost suffix = items@.subrange(i as int, items@.len() as int);
    if i == items.len() {
        proof {
            assert(out@ =~= old(out)@ + Seq::<char>::empty());
        }
        return true;
    }
    proof {
        assert(suffix[0] == items@[i as int]);
    }
    let ok = push_node(&items[i], out);
    if !ok {
        return false;
    }
    if i + 1 == items.len() {
        return true;
    }
    out.append(", ");
    proof {
        assert(suffix.subrange(1, suffix.len() as int) =~= items@.subrange(
            i + 1,
            items@.len() as int,
        ));
    }
    let ok2 = push_items(items, i + 1, out);
    if !ok2 {
        return false;
    }
    proof {
        let h = spec_render(items@[i as int])->0;
        let t = spec_render_items(items@.subrange(i + 1, items@.len() as int))->0;
        assert(out@ =~= old(out)@ + (h + ", "@ + t));
    }
    true
}

/// Appends the comma-joined `name: value` text of `fields[i ..]` to
/// `out`.
fn push_fields(fields: &Vec<FieldEntry>, i: usize, out: &mut String) -> (ok: bool)
    requires
        i <= fields@.len(),
        forall|k: int| 0 <= k < fields@.len() ==> node_renderable(#[trigger] fields@[k].node),
    ensures
        match spec_render_fields(fields@.subrange(i as int, fields@.len() as int)) {
            Option::Some(t) => ok && final(out)@ == old(out)@ + t,
            Option::None => !ok,
        },
    decreases fields@.subrange(i as int, fields@.len() as int),
{
    let ghost suffix = fields@.subrange(i as int, fields@.len() as int);
    if i == fields.len() {
        proof {
            assert(out@ =~= old(out)@ + Seq::<char>::empty());
        }
        return true;
    }
    proof {
        assert(suffix[0] == fields@[i as int]);
    }
    out.append(fields[i].name.as_str());
    out.append(": ");
    let ok = push_node(&fields[i].node, out);
    if !ok {
        return false;
    }
    if i + 1 == fields.len() {
        proof {
            let h = spec_render(fields@[i as int].node)->0;
            assert(out@ =~= old(out)@ + (fields@[i as int].name@ + ": "@ + h));
        }
        return true;
    }
    out.append(", ");
    proof {
        assert(suffix.subrange(1, suffix.len() as int) =~= fields@.subrange(
            i + 1,
            fields@.len() as int,
        ));
    }
    let ok2 = push_fields(fields, i + 1, out);
    if !ok2 {
        return false;
    }
    proof {
        let h = spec_render(fields@[i as int].node)->0;
        let t = spec_render_fields(fields@.subrange(i + 1, fields@.len() as int))->0;
        assert(out@ =~= old(out)@ + ((fields@[i as int].name@ + ": "@ + h) + ", "@ + t));
    }
    true
}

/// Renders a node as a fresh string, or reports that it has no debug
/// representation.
pub fn render_node(n: &Node) -> (r: Result<String, InteractiveError>)
    requires
        node_renderable(*n),
    ensures
        match spec_render(*n) {
            Option::Some(t) => r matches Ok(s) && s@ == t,
            Option::None => r == Result::<String, InteractiveError>::Err(
                InteractiveError::DebugNotImplemented,
            ),
        },
{
    let mut out = String::new();
    let ok = push_node(n, &mut out);
    if ok {
        Ok(out)
    } else {
        Err(InteractiveError::DebugNotImplemented)
    }
}

} // verus!
