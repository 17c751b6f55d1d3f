//! The resolver and evaluator: walking a dotted path through the graph
//! and reading a field or invoking a method at its end.
//!
//! Resolution is all-or-nothing: every segment but the last must name a
//! field of the current node, and the first failure is returned as is.
//! A method that mutates its receiver is reachable only through an
//! exclusive reference chain; through a shared chain it reports
//! `MethodNotFound`, exactly as if it were not registered.

use vstd::prelude::*;
use vstd::string::*;
use vstd::pervasive::VecAdditionalExecFns;
use vstd::pervasive::unreached;

use crate::args::args_all_ok;
use crate::args::node_units;
use crate::args::parse_args;
use crate::args::spec_arg_text;
use crate::args::spec_arg_units;
use crate::args::split_args;
use crate::args::split_commas;
use crate::interactive::ErrorView;
use crate::interactive::Interactive;
use crate::interactive::InteractiveError;
use crate::interactive::InteractiveFieldNames;
use crate::interactive::InteractiveFields;
use crate::interactive::InteractiveMethodNames;
use crate::interactive::InteractiveMethods;
use crate::interactive::error_text;
use crate::node::Action;
use crate::node::FieldEntry;
use crate::node::Method;
use crate::node::Node;
use crate::node::ParamKind;
use crate::node::field_pos;
use crate::node::find_field;
use crate::node::find_method;
use crate::node::lemma_field_pos_in_range;
use crate::node::lemma_method_pos_in_range;
use crate::node::lemma_wf_renderable;
use crate::node::method_wf;
use crate::node::node_wf;
use crate::node::spec_label;
use crate::node::spec_lookup_field;
use crate::node::spec_lookup_method;
use crate::node::spec_mutates;
use crate::numbers::Dec;
use crate::numbers::dec_text;
use crate::numbers::push_dec;
use crate::pathexpr::PathV;
use crate::pathexpr::lemma_parse_has_names;
use crate::pathexpr::parse_path;
use crate::pathexpr::spec_parse_path;
use crate::render::render_node;
use crate::render::spec_render;
use crate::render::spec_render_items;

verus! {

/// The comma-joined concatenation of a list of texts.
pub open spec fn joined(txts: Seq<Seq<char>>) -> Seq<char>
    decreases txts.len(),
{
    if txts.len() == 0 {
        Seq::empty()
    } else if txts.len() == 1 {
        txts[0]
    } else {
        txts[0] + ", "@ + joined(txts.subrange(1, txts.len() as int))
    }
}

/// The debug texts of the parsed arguments, one per parameter.
pub open spec fn args_texts(kinds: Seq<ParamKind>, pieces: Seq<Seq<char>>) -> Seq<Seq<char>> {
    Seq::new(kinds.len(), |i: int| spec_arg_text(kinds[i], pieces[i]))
}

/// The exact sum, in millionths, of the first `n` parsed arguments.
pub open spec fn args_units(kinds: Seq<ParamKind>, pieces: Seq<Seq<char>>, n: int) -> int
    decreases n,
{
    if n <= 0 {
        0
    } else {
        args_units(kinds, pieces, n - 1) + spec_arg_units(kinds[n - 1], pieces[n - 1])
    }
}

/// The decimal, at six fractional digits, whose value is `u` millionths.
pub open spec fn sum_dec(u: int) -> Dec {
    Dec {
        neg: u < 0,
        mant: (if u < 0 {
            -u
        } else {
            u
        }) as u128,
        scale: 6,
    }
}

/// The debug text a method invocation produces, given the receiver, the
/// behaviour, and the parsed argument pieces.
pub open spec fn spec_action_text(
    a: Action,
    kinds: Seq<ParamKind>,
    pieces: Seq<Seq<char>>,
) -> Option<Seq<char>> {
    match a {
        Action::Constant(b) => spec_render(*b),
        Action::SumArgs => Some(dec_text(sum_dec(args_units(kinds, pieces, kinds.len() as int)))),
        Action::EchoArgs => if kinds.len() == 1 {
            Some(spec_arg_text(kinds[0], pieces[0]))
        } else {
            Some("("@ + joined(args_texts(kinds, pieces)) + ")"@)
        },
        Action::ToggleField(_) => Some("()"@),
    }
}

/// The outcome of a terminal method-call segment: the rendered result,
/// or the exact error.  `excl` says whether the receiver was reached
/// through an exclusive reference chain; without one a mutating method
/// is as good as absent.
pub open spec fn spec_method_outcome(n: Node, name: Seq<char>, args: Seq<char>, excl: bool) -> Result<
    Seq<char>,
    ErrorView,
> {
    match spec_lookup_method(n, name) {
        Option::None => Err(
            ErrorView::MethodNotFound { type_label: spec_label(n), method_name: name },
        ),
        Option::Some(m) => if spec_mutates(m.action) && !excl {
            Err(ErrorView::MethodNotFound { type_label: spec_label(n), method_name: name })
        } else {
            let pieces = split_commas(args);
            if pieces.len() != m.params@.len() {
                Err(
                    ErrorView::WrongNumberOfArguments {
                        expected: m.params@.len(),
                        found: pieces.len(),
                    },
                )
            } else if !args_all_ok(m.params@, pieces) {
                Err(ErrorView::ArgsError { given_args: args })
            } else {
                match spec_action_text(m.action, m.params@, pieces) {
                    Option::Some(t) => Ok(t),
                    Option::None => Err(ErrorView::DebugNotImplemented),
                }
            }
        },
    }
}

/// Field-only resolution of `names[i ..]` from `n`: the node reached, or
/// the first error.
pub open spec fn spec_resolve(n: Node, names: Seq<Seq<char>>, i: int) -> Result<Node, ErrorView>
    decreases names.len() - i,
{
    if i >= names.len() {
        Ok(n)
    } else {
        match spec_lookup_field(n, names[i]) {
            Option::Some(child) => spec_resolve(child, names, i + 1),
            Option::None => Err(
                ErrorView::FieldNotFound { type_label: spec_label(n), field_name: names[i] },
            ),
        }
    }
}

/// The fields of a composite after toggling the named boolean field;
/// unchanged when the name is absent or the field is not a boolean.
pub open spec fn toggled_fields(f1: Seq<FieldEntry>, fname: Seq<char>) -> Seq<FieldEntry> {
    match field_pos(f1, 0, fname) {
        Option::Some(j) => match f1[j as int].node {
            Node::Bool(b) => f1.update(
                j as int,
                FieldEntry { name: f1[j as int].name, node: Node::Bool(!b) },
            ),
            _ => f1,
        },
        Option::None => f1,
    }
}

/// How a receiver after a method invocation relates to the receiver
/// before it: unchanged, unless a mutating method ran to completion, in
/// which case exactly its named boolean field is negated.
pub open spec fn method_state_rel(n: Node, name: Seq<char>, args: Seq<char>, n2: Node) -> bool {
    match spec_lookup_method(n, name) {
        Option::Some(m) => {
            let pieces = split_commas(args);
            if pieces.len() == m.params@.len() && args_all_ok(m.params@, pieces) {
                match m.action {
                    Action::ToggleField(f) => match (n, n2) {
                        (
                            Node::Composite { label: l1, fields: f1, methods: m1 },
                            Node::Composite { label: l2, fields: f2, methods: m2 },
                        ) => l2 == l1 && m2 == m1 && f2@ == toggled_fields(f1@, f@),
                        _ => false,
                    },
                    _ => n2 == n,
                }
            } else {
                n2 == n
            }
        },
        Option::None => n2 == n,
    }
}

impl InteractiveFieldNames for Node {
    open spec fn spec_interactive_field_names(&self) -> Seq<Seq<char>> {
        crate::node::spec_field_names(*self)
    }

    fn get_all_interactive_field_names(&self) -> (names: Vec<String>) {
        let mut out: Vec<String> = Vec::new();
        match self {
            Node::Composite { fields, .. } => {
                let mut i: usize = 0;
                while i < fields.len()
                    invariant
                        0 <= i <= fields@.len(),
                        out@.len() == i,
                        forall|j: int| 0 <= j < i ==> (#[trigger] out@[j])@ == fields@[j].name@,
                    decreases fields@.len() - i,
                {
                    out.push(fields[i].name.clone());
                    i = i + 1;
                }
                proof {
                    assert(out@.map_values(|s: String| s@) =~= fields@.map_values(
                        |f: FieldEntry| f.name@,
                    ));
                }
            },
            _ => {
                proof {
                    assert(out@.map_values(|s: String| s@) =~= Seq::<Seq<char>>::empty());
                }
            },
        }
        out
    }
}

impl InteractiveMethodNames for Node {
    open spec fn spec_interactive_method_names(&self) -> Seq<Seq<char>> {
        crate::node::spec_method_names(*self)
    }

    fn get_all_interactive_method_names(&self) -> (names: Vec<String>) {
        let mut out: Vec<String> = Vec::new();
        match self {
            Node::Composite { methods, .. } => {
                let mut i: usize = 0;
                while i < methods.len()
                    invariant
                        0 <= i <= methods@.len(),
                        out@.len() == i,
                        forall|j: int| 0 <= j < i ==> (#[trigger] out@[j])@ == methods@[j].name@,
                    decreases methods@.len() - i,
                {
                    out.push(methods[i].name.clone());
                    i = i + 1;
                }
                proof {
                    assert(out@.map_values(|s: String| s@) =~= methods@.map_values(
                        |m: Method| m.name@,
                    ));
                }
            },
            _ => {
                proof {
                    assert(out@.map_values(|s: String| s@) =~= Seq::<Seq<char>>::empty());
                }
            },
        }
        out
    }
}

impl InteractiveFields for Node {
    open spec fn spec_fields_wf(&self) -> bool {
        node_wf(*self)
    }

    open spec fn spec_eval_field(&self, field_name: Seq<char>) -> Result<Seq<char>, ErrorView> {
        match spec_lookup_field(*self, field_name) {
            Option::Some(v) => match spec_render(v) {
                Option::Some(t) => Ok(t),
                Option::None => Err(ErrorView::DebugNotImplemented),
            },
            Option::None => Err(
                ErrorView::FieldNotFound { type_label: spec_label(*self), field_name },
            ),
        }
    }

    fn __interactive_eval_field(&self, field_name: &str) -> (r: Result<String, InteractiveError>) {
        match self {
            Node::Composite { label, fields, .. } => {
                match find_field(fields, field_name) {
                    Option::Some(j) => {
                        proof {
                            lemma_field_pos_in_range(fields@, 0, field_name@);
                            assert(node_wf(fields@[j as int].node));
                            lemma_wf_renderable(fields@[j as int].node);
                        }
                        render_node(&fields[j].node)
                    },
                    Option::None => Err(
                        InteractiveError::FieldNotFound {
                            type_label: label.clone(),
                            field_name: field_name.to_owned(),
                        },
                    ),
                }
            },
            other => Err(
                InteractiveError::FieldNotFound {
                    type_label: other.label_text(),
                    field_name: field_name.to_owned(),
                },
            ),
        }
    }
}

/// The exact sum, in millionths, of the first `n` nodes.
pub open spec fn nodes_units(s: Seq<Node>, n: int) -> int
    decreases n,
{
    if n <= 0 {
        0
    } else {
        nodes_units(s, n - 1) + node_units(s[n - 1])
    }
}

proof fn lemma_units_eq(vals: Seq<Node>, kinds: Seq<ParamKind>, pieces: Seq<Seq<char>>, n: int)
    requires
        0 <= n <= vals.len(),
        n <= kinds.len(),
        n <= pieces.len(),
        forall|i: int| 0 <= i < n ==> node_units(#[trigger] vals[i]) == spec_arg_units(
            kinds[i],
            pieces[i],
        ),
    ensures
        nodes_units(vals, n) == args_units(kinds, pieces, n),
    decreases n,
{
    if n > 0 {
        lemma_units_eq(vals, kinds, pieces, n - 1);
    }
}

proof fn lemma_items_joined(items: Seq<Node>, txts: Seq<Seq<char>>)
    requires
        items.len() == txts.len(),
        forall|i: int| 0 <= i < items.len() ==> spec_render(#[trigger] items[i]) == Some(txts[i]),
    ensures
        spec_render_items(items) == Some(joined(txts)),
    decreases items.len(),
{
    if items.len() > 1 {
        let items2 = items.subrange(1, items.len() as int);
        let txts2 = txts.subrange(1, txts.len() as int);
        assert(forall|i: int| 0 <= i < items2.len() ==> spec_render(#[trigger] items2[i]) == Some(
            txts2[i],
        ));
        lemma_items_joined(items2, txts2);
    }
}

/// Adds the numeric values of the parsed arguments exactly.
fn sum_nodes(args: &Vec<Node>) -> (r: Dec)
    requires
        args@.len() <= 255,
        forall|i: int| 0 <= i < args@.len() ==> crate::args::arg_sum_ok(#[trigger] args@[i]),
    ensures
        r == sum_dec(nodes_units(args@, args@.len() as int)),
{
    let mut acc: i128 = 0;
    let mut i: usize = 0;
    while i < args.len()
        invariant
            0 <= i <= args@.len() <= 255,
            forall|j: int| 0 <= j < args@.len() ==> crate::args::arg_sum_ok(#[trigger] args@[j]),
            acc == nodes_units(args@, i as int),
            -(i as int) * crate::numbers::pow10(33) <= acc <= (i as int) * crate::numbers::pow10(
                33,
            ),
        decreases args@.len() - i,
    {
        proof {
            crate::numbers::lemma_pow10_values();
            crate::numbers::lemma_pow10_values_wide();
        }
        let u: i128 = match &args[i] {
            Node::UInt(v) => (*v as i128) * 1000000,
            Node::Int(v) => (*v as i128) * 1000000,
            Node::Decimal(d) => {
                let p = crate::numbers::pow10_small(6 - d.scale);
                proof {
                    crate::numbers::lemma_pow10_mono((6 - d.scale) as nat, 6);
                    assert((d.mant as int) * (p as int) <= crate::numbers::pow10(27)
                        * crate::numbers::pow10(6)) by (nonlinear_arith)
                        requires
                            0 <= d.mant as int <= crate::numbers::pow10(27),
                            0 <= p as int <= crate::numbers::pow10(6),
                    ;
                    crate::numbers::lemma_pow10_adds(27, 6);
                    let m = d.mant as int;
                    let pp = p as int;
                    assert((-1 * m) * pp == -(m * pp)) by (nonlinear_arith);
                    assert((1 * m) * pp == m * pp) by (nonlinear_arith);
                    assert(0 <= m * pp) by (nonlinear_arith)
                        requires
                            0 <= m,
                            0 <= pp,
                    ;
                }
                let mag = d.mant * p;
                if d.neg {
                    -(mag as i128)
                } else {
                    mag as i128
                }
            },
            _ => 0,
        };
        proof {
            assert(u == node_units(args@[i as int]));
            assert(-crate::numbers::pow10(33) <= u <= crate::numbers::pow10(33));
        }
        acc = acc + u;
        i = i + 1;
    }
    proof {
        crate::numbers::lemma_pow10_values_wide();
    }
    if acc < 0 {
        let r = Dec { neg: true, mant: (-acc) as u128, scale: 6 };
        r
    } else {
        let r = Dec { neg: false, mant: acc as u128, scale: 6 };
        r
    }
}

impl InteractiveMethods for Node {
    open spec fn spec_methods_wf(&self) -> bool {
        node_wf(*self)
    }

    open spec fn spec_eval_method(&self, method_name: Seq<char>, args: Seq<char>) -> Result<
        Seq<char>,
        ErrorView,
    > {
        spec_method_outcome(*self, method_name, args, true)
    }

    open spec fn spec_method_state(&self, method_name: Seq<char>, args: Seq<char>, after: &Node) -> bool {
        method_state_rel(*self, method_name, args, *after)
    }

    fn __interactive_eval_method(&mut self, method_name: &str, args: &str) -> (r: Result<
        String,
        InteractiveError,
    >) {
        let ghost n0 = *self;
        match self {
            Node::Composite { label, fields, methods } => {
                match find_method(methods, method_name) {
                    Option::None => Err(
                        InteractiveError::MethodNotFound {
                            type_label: label.clone(),
                            method_name: method_name.to_owned(),
                        },
                    ),
                    Option::Some(j) => {
                        proof {
                            lemma_method_pos_in_range(methods@, 0, method_name@);
                            assert(method_wf(methods@[j as int]));
                        }
                        let m = &methods[j];
                        let pieces = split_args(args);
                        proof {
                            assert(pieces@.map_values(|p: String| p@).len() == pieces@.len());
                        }
                        if pieces.len() != m.params.len() {
                            return Err(
                                InteractiveError::WrongNumberOfArguments {
                                    expected: m.params.len(),
                                    found: pieces.len(),
                                },
                            );
                        }
                        match parse_args(&m.params, &pieces) {
                            Option::None => {
                                proof {
                                    let kv = m.params@;
                                    let pv = pieces@.map_values(|p: String| p@);
                                    let i = choose|i: int|
                                        0 <= i < kv.len() && !crate::args::spec_arg_ok(
                                            kv[i],
                                            (#[trigger] pieces@[i])@,
                                        );
                                    assert(pv[i] == pieces@[i]@);
                                    assert(!crate::args::spec_arg_ok(kv[i], split_commas(args@)[i]));
                                    assert(!args_all_ok(kv, split_commas(args@)));
                                }
                                Err(
                                    InteractiveError::ArgsError {
                                        given_args: args.to_owned(),
                                    },
                                )
                            },
                            Option::Some(vals) => {
                                proof {
                                    let kv = m.params@;
                                    let pv = pieces@.map_values(|p: String| p@);
                                    assert forall|i: int|
                                        0 <= i < kv.len() implies crate::args::spec_arg_ok(
                                        kv[i],
                                        #[trigger] split_commas(args@)[i],
                                    ) by {
                                        assert(pv[i] == pieces@[i]@);
                                        assert(crate::args::spec_arg_ok(kv[i], pieces@[i]@));
                                    }
                                    assert(args_all_ok(kv, split_commas(args@)));
                                }
                                match &m.action {
                                    Action::Constant(b) => {
                                        proof {
                                            lemma_wf_renderable(**b);
                                        }
                                        render_node(b)
                                    },
                                    Action::SumArgs => {
                                        let d = sum_nodes(&vals);
                                        let mut out = String::new();
                                        push_dec(&mut out, d);
                                        proof {
                                            lemma_units_eq(
                                                vals@,
                                                m.params@,
                                                split_commas(args@),
                                                vals@.len() as int,
                                            );
                                        }
                                        Ok(out)
                                    },
                                    Action::EchoArgs => {
                                        if vals.len() == 1 {
                                            render_node(&vals[0])
                                        } else {
                                            proof {
                                                lemma_items_joined(
                                                    vals@,
                                                    args_texts(m.params@, split_commas(args@)),
                                                );
                                            }
                                            let t = Node::Tuple(vals);
                                            render_node(&t)
                                        }
                                    },
                                    Action::ToggleField(f) => {
                                        match find_field(fields, f.as_str()) {
                                            Option::Some(k) => {
                                                proof {
                                                    lemma_field_pos_in_range(fields@, 0, f@);
                                                }
                                                let flip = match &fields[k].node {
                                                    Node::Bool(b) => Some(!*b),
                                                    _ => None,
                                                };
                                                match flip {
                                                    Option::Some(nb) => {
                                                        let name = fields[k].name.clone();
                                                        fields.set(
                                                            k,
                                                            FieldEntry {
                                                                name,
                                                                node: Node::Bool(nb),
                                                            },
                                                        );
                                                    },
                                                    Option::None => {},
                                                }
                                            },
                                            Option::None => {},
                                        }
                                        Ok("()".to_owned())
                                    },
                                }
                            },
                        }
                    },
                }
            },
            other => Err(
                InteractiveError::MethodNotFound {
                    type_label: other.label_text(),
                    method_name: method_name.to_owned(),
                },
            ),
        }
    }
}

impl Interactive for Node {
    open spec fn spec_get_field(&self, field_name: Seq<char>) -> Result<Node, ErrorView> {
        match spec_lookup_field(*self, field_name) {
            Option::Some(c) => Ok(c),
            Option::None => Err(
                ErrorView::FieldNotFound { type_label: spec_label(*self), field_name },
            ),
        }
    }

    open spec fn spec_field_frame(&self, field_name: Seq<char>, new_child: Node, after: Node) -> bool {
        match (*self, after) {
            (
                Node::Composite { label: l1, fields: f1, methods: m1 },
                Node::Composite { label: l2, fields: f2, methods: m2 },
            ) => {
                let j = field_pos(f1@, 0, field_name)->0 as int;
                l2 == l1 && m2 == m1 && f2@ == f1@.update(
                    j,
                    FieldEntry { name: f1@[j].name, node: new_child },
                )
            },
            _ => false,
        }
    }

    fn __interactive_get_field<'a>(&'a self, field_name: &str) -> (r: Result<
        &'a Node,
        InteractiveError,
    >) {
        match self {
            Node::Composite { label, fields, .. } => {
                match find_field(fields, field_name) {
                    Option::Some(j) => {
                        proof {
                            lemma_field_pos_in_range(fields@, 0, field_name@);
                        }
                        Ok(&fields[j].node)
                    },
                    Option::None => Err(
                        InteractiveError::FieldNotFound {
                            type_label: label.clone(),
                            field_name: field_name.to_owned(),
                        },
                    ),
                }
            },
            other => Err(
                InteractiveError::FieldNotFound {
                    type_label: other.label_text(),
                    field_name: field_name.to_owned(),
                },
            ),
        }
    }

    fn __interactive_get_field_mut<'a>(&'a mut self, field_name: &str) -> (r: Result<
        &'a mut Node,
        InteractiveError,
    >) {
        match self {
            Node::Composite { label, fields, .. } => {
                match find_field(fields, field_name) {
                    Option::Some(j) => {
                        proof {
                            lemma_field_pos_in_range(fields@, 0, field_name@);
                        }
                        Ok(&mut fields[j].node)
                    },
                    Option::None => Err(
                        InteractiveError::FieldNotFound {
                            type_label: label.clone(),
                            field_name: field_name.to_owned(),
                        },
                    ),
                }
            },
            other => Err(
                InteractiveError::FieldNotFound {
                    type_label: other.label_text(),
                    field_name: field_name.to_owned(),
                },
            ),
        }
    }
}

/// The views of a list of segment names.
pub open spec fn names_of(names: Seq<String>) -> Seq<Seq<char>> {
    names.map_values(|s: String| s@)
}

/// Shared resolution of `names[i .. end]` from `n`, following one field
/// per segment.
pub(crate) fn resolve_from<'a>(n: &'a Node, names: &Vec<String>, i: usize, end: usize) -> (r: Result<
    &'a Node,
    InteractiveError,
>)
    requires
        i <= end <= names@.len(),
    ensures
        r matches Ok(c) ==> spec_resolve(*n, names_of(names@).take(end as int), i as int)
            == Ok::<Node, ErrorView>(*c),
        r matches Err(e) ==> spec_resolve(*n, names_of(names@).take(end as int), i as int)
            == Err::<Node, ErrorView>(e@),
    decreases end - i,
{
    if i == end {
        return Ok(n);
    }
    proof {
        assert(names_of(names@).take(end as int)[i as int] == names@[i as int]@);
    }
    match n.__interactive_get_field(names[i].as_str()) {
        Result::Ok(c) => resolve_from(c, names, i + 1, end),
        Result::Err(e) => Err(e),
    }
}

/// A well-formed graph keeps every node that resolution can reach well
/// formed.
pub proof fn lemma_resolve_wf(n: Node, names: Seq<Seq<char>>, i: int)
    requires
        node_wf(n),
    ensures
        spec_resolve(n, names, i) matches Ok(c) ==> node_wf(c),
    decreases names.len() - i,
{
    if i < names.len() {
        match spec_lookup_field(n, names[i]) {
            Option::Some(child) => {
                match n {
                    Node::Composite { fields, .. } => {
                        lemma_field_pos_in_range(fields@, 0, names[i]);
                        assert(node_wf(child));
                    },
                    _ => {},
                }
                lemma_resolve_wf(child, names, i + 1);
            },
            Option::None => {},
        }
    }
}

/// Reaching a mutating method needs no special case in the outcome when
/// the terminal method, if present, does not mutate.
pub proof fn lemma_outcome_excl(n: Node, name: Seq<char>, args: Seq<char>)
    requires
        match spec_lookup_method(n, name) {
            Option::Some(m) => !spec_mutates(m.action),
            Option::None => true,
        },
    ensures
        spec_method_outcome(n, name, args, false) == spec_method_outcome(n, name, args, true),
{
}

/// Invoking a method preserves well-formedness of the receiver.
pub proof fn lemma_state_rel_wf(n: Node, name: Seq<char>, args: Seq<char>, n2: Node)
    requires
        node_wf(n),
        method_state_rel(n, name, args, n2),
    ensures
        node_wf(n2),
{
    match spec_lookup_method(n, name) {
        Option::Some(m) => {
            let pieces = split_commas(args);
            if pieces.len() == m.params@.len() && args_all_ok(m.params@, pieces) {
                match m.action {
                    Action::ToggleField(f) => {
                        match (n, n2) {
                            (
                                Node::Composite { label: l1, fields: f1, methods: m1 },
                                Node::Composite { label: l2, fields: f2, methods: m2 },
                            ) => {
                                assert forall|i: int| 0 <= i < f2@.len() implies node_wf(
                                    #[trigger] f2@[i].node,
                                ) by {
                                    match field_pos(f1@, 0, f@) {
                                        Option::Some(jn) => {
                                            lemma_field_pos_in_range(f1@, 0, f@);
                                            let j = jn as int;
                                            if f1@[j].node is Bool {
                                                if i != j {
                                                    assert(f2@[i] == f1@[i]);
                                                }
                                            } else {
                                                assert(f2@ == f1@);
                                            }
                                            assert(node_wf(f1@[i].node));
                                        },
                                        Option::None => {
                                            assert(f2@ == f1@);
                                            assert(node_wf(f1@[i].node));
                                        },
                                    }
                                }
                            },
                            _ => {},
                        }
                    },
                    _ => {},
                }
            }
        },
        Option::None => {},
    }
}

/// The state relation along a resolved path whose terminal segment
/// invokes a method: every node off the path is untouched, and the
/// receiver changes exactly as the method says.
pub open spec fn mutated_rel(n: Node, names: Seq<Seq<char>>, args: Seq<char>, i: int, n2: Node) -> bool
    decreases names.len() - i,
{
    if i >= names.len() - 1 {
        method_state_rel(n, names.last(), args, n2)
    } else {
        match spec_lookup_field(n, names[i]) {
            Option::Some(child) => match (n, n2) {
                (
                    Node::Composite { label: l1, fields: f1, methods: m1 },
                    Node::Composite { label: l2, fields: f2, methods: m2 },
                ) => {
                    let j = field_pos(f1@, 0, names[i])->0 as int;
                    l2 == l1 && m2 == m1 && f2@.len() == f1@.len() && (forall|k: int|
                        0 <= k < f1@.len() && k != j ==> f2@[k] == f1@[k]) && f2@[j].name
                        == f1@[j].name && mutated_rel(f1@[j].node, names, args, i + 1, f2@[j].node)
                },
                _ => false,
            },
            Option::None => n2 == n,
        }
    }
}

/// The outcome of evaluating `names[i ..]` with terminal argument text
/// `args`, from `n`.
pub open spec fn spec_eval_from(
    n: Node,
    names: Seq<Seq<char>>,
    args: Seq<char>,
    i: int,
    excl: bool,
) -> Result<Seq<char>, ErrorView> {
    match spec_resolve(n, names.take(names.len() - 1), i) {
        Result::Ok(t) => spec_method_outcome(t, names.last(), args, excl),
        Result::Err(e) => Err(e),
    }
}

/// The exclusive evaluator for a path whose terminal is a method call:
/// walks `names[i .. ]` by exclusive reference and invokes the method at
/// the end.
fn eval_mut_at(node: &mut Node, names: &Vec<String>, i: usize, args: &str) -> (r: Result<
    String,
    InteractiveError,
>)
    requires
        node_wf(*old(node)),
        i < names@.len(),
        spec_resolve(
            *old(node),
            names_of(names@).take(names@.len() - 1),
            i as int,
        ) is Ok,
    ensures
        match (r, spec_eval_from(*old(node), names_of(names@), args@, i as int, true)) {
            (Result::Ok(s), Result::Ok(t)) => s@ == t,
            (Result::Err(e), Result::Err(g)) => e@ == g,
            _ => false,
        },
        mutated_rel(*old(node), names_of(names@), args@, i as int, *final(node)),
        node_wf(*final(node)),
    decreases names@.len() - i,
{
    let ghost nv = names_of(names@);
    let n = names.len();
    if i + 1 == n {
        proof {
            assert(nv.last() == names@[i as int]@);
        }
        let r = node.__interactive_eval_method(names[i].as_str(), args);
        proof {
            lemma_state_rel_wf(*old(node), names@[i as int]@, args@, *node);
        }
        r
    } else {
        proof {
            assert(nv.take(names@.len() - 1)[i as int] == names@[i as int]@);
        }
        let ghost childv = spec_lookup_field(*node, names@[i as int]@)->0;
        proof {
            assert(spec_lookup_field(*node, names@[i as int]@) is Some);
            assert(*node is Composite);
            lemma_field_pos_in_range((*node)->Composite_fields@, 0, names@[i as int]@);
            assert(node_wf(childv));
        }
        let child = match node.__interactive_get_field_mut(names[i].as_str()) {
            Result::Ok(c) => c,
            Result::Err(_) => {
                proof {
                    assert(false);
                }
                unreached()
            },
        };
        let r = eval_mut_at(child, names, i + 1, args);
        proof {
            assert(mutated_rel(*old(node), nv, args@, i as int, *node));
            assert(*old(node) is Composite && *node is Composite);
            let f1 = (*old(node))->Composite_fields;
            let f2 = (*node)->Composite_fields;
            let j = field_pos(f1@, 0, nv[i as int])->0 as int;
            assert forall|k: int| 0 <= k < f2@.len() implies node_wf(#[trigger] f2@[k].node) by {
                if k != j {
                    assert(f2@[k] == f1@[k]);
                    assert(node_wf(f1@[k].node));
                }
            }
            assert((*node)->Composite_methods == (*old(node))->Composite_methods);
            assert(node_wf(*node));
        }
        r
    }
}

impl Node {
    /// Invokes a method through a shared reference chain.  A mutating
    /// method is unavailable here and reports `MethodNotFound`.
    pub fn eval_method_shared(&self, method_name: &str, args: &str) -> (r: Result<
        String,
        InteractiveError,
    >)
        requires
            node_wf(*self),
        ensures
            match (r, spec_method_outcome(*self, method_name@, args@, false)) {
                (Result::Ok(s), Result::Ok(t)) => s@ == t,
                (Result::Err(e), Result::Err(g)) => e@ == g,
                _ => false,
            },
    {
        match self {
            Node::Composite { label, fields, methods } => {
                match find_method(methods, method_name) {
                    Option::None => Err(
                        InteractiveError::MethodNotFound {
                            type_label: label.clone(),
                            method_name: method_name.to_owned(),
                        },
                    ),
                    Option::Some(j) => {
                        proof {
                            lemma_method_pos_in_range(methods@, 0, method_name@);
                            assert(method_wf(methods@[j as int]));
                        }
                        let m = &methods[j];
                        if m.action.mutates() {
                            return Err(
                                InteractiveError::MethodNotFound {
                                    type_label: label.clone(),
                                    method_name: method_name.to_owned(),
                                },
                            );
                        }
                        let pieces = split_args(args);
                        if pieces.len() != m.params.len() {
                            return Err(
                                InteractiveError::WrongNumberOfArguments {
                                    expected: m.params.len(),
                                    found: pieces.len(),
                                },
                            );
                        }
                        match parse_args(&m.params, &pieces) {
                            Option::None => {
                                proof {
                                    let kv = m.params@;
                                    let pv = pieces@.map_values(|p: String| p@);
                                    let i = choose|i: int|
                                        0 <= i < kv.len() && !crate::args::spec_arg_ok(
                                            kv[i],
                                            (#[trigger] pieces@[i])@,
                                        );
                                    assert(pv[i] == pieces@[i]@);
                                    assert(!crate::args::spec_arg_ok(kv[i], split_commas(args@)[i]));
                                    assert(!args_all_ok(kv, split_commas(args@)));
                                }
                                Err(InteractiveError::ArgsError { given_args: args.to_owned() })
                            },
                            Option::Some(vals) => {
                                proof {
                                    let kv = m.params@;
                                    let pv = pieces@.map_values(|p: String| p@);
                                    assert forall|i: int|
                                        0 <= i < kv.len() implies crate::args::spec_arg_ok(
                                        kv[i],
                                        #[trigger] split_commas(args@)[i],
                                    ) by {
                                        assert(pv[i] == pieces@[i]@);
                                        assert(crate::args::spec_arg_ok(kv[i], pieces@[i]@));
                                    }
                                    assert(args_all_ok(kv, split_commas(args@)));
                                }
                                match &m.action {
                                    Action::Constant(b) => {
                                        proof {
                                            lemma_wf_renderable(**b);
                                        }
                                        render_node(b)
                                    },
                                    Action::SumArgs => {
                                        let d = sum_nodes(&vals);
                                        let mut out = String::new();
                                        push_dec(&mut out, d);
                                        proof {
                                            lemma_units_eq(
                                                vals@,
                                                m.params@,
                                                split_commas(args@),
                                                vals@.len() as int,
                                            );
                                        }
                                        Ok(out)
                                    },
                                    Action::EchoArgs => {
                                        if vals.len() == 1 {
                                            render_node(&vals[0])
                                        } else {
                                            proof {
                                                lemma_items_joined(
                                                    vals@,
                                                    args_texts(m.params@, split_commas(args@)),
                                                );
                                            }
                                            let t = Node::Tuple(vals);
                                            render_node(&t)
                                        }
                                    },
                                    Action::ToggleField(_) => {
                                        proof {
                                            assert(false);
                                        }
                                        unreached()
                                    },
                                }
                            },
                        }
                    },
                }
            },
            other => Err(
                InteractiveError::MethodNotFound {
                    type_label: other.label_text(),
                    method_name: method_name.to_owned(),
                },
            ),
        }
    }
}

/// Does this parsed path end in a method call that both exists at the
/// resolved receiver and mutates it?
pub open spec fn path_mutating(root: Node, p: PathV) -> bool {
    p.call_args is Some && match spec_resolve(root, p.names.take(p.names.len() - 1), 0) {
        Result::Ok(t) => match spec_lookup_method(t, p.names.last()) {
            Option::Some(m) => spec_mutates(m.action),
            Option::None => false,
        },
        Result::Err(_) => false,
    }
}

/// The outcome of evaluating a parsed path from `root`.
pub open spec fn spec_eval_path(root: Node, p: PathV, excl: bool) -> Result<Seq<char>, ErrorView> {
    match spec_resolve(root, p.names.take(p.names.len() - 1), 0) {
        Result::Ok(t) => match p.call_args {
            Option::None => t.spec_eval_field(p.names.last()),
            Option::Some(args) => spec_method_outcome(t, p.names.last(), args, excl),
        },
        Result::Err(e) => Err(e),
    }
}

/// The outcome of evaluating a raw line from `root`: parse, resolve,
/// then read or invoke.
pub open spec fn spec_evaluate(root: Node, expr: Seq<char>, excl: bool) -> Result<
    Seq<char>,
    ErrorView,
> {
    match spec_parse_path(expr) {
        Option::Some(p) => spec_eval_path(root, p, excl),
        Option::None => Err(ErrorView::SyntaxError),
    }
}

/// The echoed line of an outcome.
pub open spec fn outcome_line(r: Result<Seq<char>, ErrorView>) -> Seq<char> {
    match r {
        Result::Ok(t) => "Ok("@ + t + ")"@,
        Result::Err(e) => "Err("@ + error_text(e) + ")"@,
    }
}

/// How the graph after an exclusive evaluation relates to the graph
/// before it: untouched, unless the line was a mutating method call that
/// resolved, in which case exactly the receiver's named boolean field is
/// negated.
pub open spec fn spec_state_after(root: Node, expr: Seq<char>, n2: Node) -> bool {
    match spec_parse_path(expr) {
        Option::Some(p) => if path_mutating(root, p) {
            mutated_rel(root, p.names, p.call_args->0, 0, n2)
        } else {
            n2 == root
        },
        Option::None => n2 == root,
    }
}

/// Evaluates a path expression against the graph by exclusive
/// reference, so mutating methods are available.
pub fn evaluate_result(root: &mut Node, expr: &str) -> (r: Result<String, InteractiveError>)
    requires
        node_wf(*old(root)),
    ensures
        match (r, spec_evaluate(*old(root), expr@, true)) {
            (Result::Ok(s), Result::Ok(t)) => s@ == t,
            (Result::Err(e), Result::Err(g)) => e@ == g,
            _ => false,
        },
        spec_state_after(*old(root), expr@, *final(root)),
        node_wf(*final(root)),
{
    let p = match parse_path(expr) {
        Result::Ok(p) => p,
        Result::Err(e) => {
            return Err(e);
        },
    };
    let ghost pv = crate::pathexpr::path_view(p);
    proof {
        lemma_parse_has_names(expr@, 0);
        assert(pv.names.len() >= 1);
    }
    let last = p.names.len() - 1;
    proof {
        assert(pv.names.take(last as int) == names_of(p.names@).take(last as int));
        assert(pv.names.last() == p.names@[last as int]@);
    }
    let mut mutating = false;
    if p.call_args.is_some() {
        match resolve_from(&*root, &p.names, 0, last) {
            Result::Ok(t) => {
                match t {
                    Node::Composite { methods, .. } => {
                        match find_method(methods, p.names[last].as_str()) {
                            Option::Some(j) => {
                                proof {
                                    lemma_method_pos_in_range(methods@, 0, p.names@[last as int]@);
                                }
                                mutating = methods[j].action.mutates();
                            },
                            Option::None => {},
                        }
                    },
                    _ => {},
                }
            },
            Result::Err(_) => {},
        }
    }
    proof {
        assert(mutating == path_mutating(*root, pv));
    }
    if mutating {
        let args = match &p.call_args {
            Option::Some(a) => a.as_str(),
            Option::None => {
                proof {
                    assert(false);
                }
                unreached()
            },
        };
        let r = eval_mut_at(root, &p.names, 0, args);
        proof {
            assert(spec_eval_from(*old(root), names_of(p.names@), args@, 0, true)
                == spec_eval_path(*old(root), pv, true));
        }
        r
    } else {
        match resolve_from(&*root, &p.names, 0, last) {
            Result::Err(e) => Err(e),
            Result::Ok(t) => {
                proof {
                    lemma_resolve_wf(*root, pv.names.take(last as int), 0);
                }
                match &p.call_args {
                    Option::None => t.__interactive_eval_field(p.names[last].as_str()),
                    Option::Some(a) => {
                        proof {
                            lemma_outcome_excl(*t, pv.names.last(), a@);
                        }
                        t.eval_method_shared(p.names[last].as_str(), a.as_str())
                    },
                }
            },
        }
    }
}

/// Wraps an evaluation outcome as the single echoed line.
fn to_line(res: Result<String, InteractiveError>) -> (r: String)
    ensures
        match res {
            Result::Ok(s) => r@ == "Ok("@ + s@ + ")"@,
            Result::Err(e) => r@ == "Err("@ + error_text(e@) + ")"@,
        },
{
    match res {
        Result::Ok(t) => {
            let mut s = String::from_str("Ok(");
            s.append(t.as_str());
            s.append(")");
            s
        },
        Result::Err(e) => {
            let mut s = String::from_str("Err(");
            s.append(e.to_text().as_str());
            s.append(")");
            s
        },
    }
}

/// Evaluates a path expression and echoes the outcome as one line,
/// `Ok(...)` or `Err(...)`.
pub fn evaluate(root: &mut Node, expr: &str) -> (r: String)
    requires
        node_wf(*old(root)),
    ensures
        r@ == outcome_line(spec_evaluate(*old(root), expr@, true)),
        spec_state_after(*old(root), expr@, *final(root)),
        node_wf(*final(root)),
{
    let res = evaluate_result(root, expr);
    to_line(res)
}

/// Evaluates a path expression against the graph by shared reference:
/// reads and non-mutating methods only.
pub fn evaluate_shared_result(root: &Node, expr: &str) -> (r: Result<String, InteractiveError>)
    requires
        node_wf(*root),
    ensures
        match (r, spec_evaluate(*root, expr@, false)) {
            (Result::Ok(s), Result::Ok(t)) => s@ == t,
            (Result::Err(e), Result::Err(g)) => e@ == g,
            _ => false,
        },
{
    let p = match parse_path(expr) {
        Result::Ok(p) => p,
        Result::Err(e) => {
            return Err(e);
        },
    };
    let ghost pv = crate::pathexpr::path_view(p);
    proof {
        lemma_parse_has_names(expr@, 0);
        assert(pv.names.take(p.names@.len() - 1) == names_of(p.names@).take(p.names@.len() - 1));
        assert(pv.names.last() == p.names@[p.names@.len() - 1]@);
    }
    let last = p.names.len() - 1;
    match resolve_from(root, &p.names, 0, last) {
        Result::Err(e) => Err(e),
        Result::Ok(t) => {
            proof {
                lemma_resolve_wf(*root, pv.names.take(last as int), 0);
            }
            match &p.call_args {
                Option::None => t.__interactive_eval_field(p.names[last].as_str()),
                Option::Some(a) => t.eval_method_shared(p.names[last].as_str(), a.as_str()),
            }
        },
    }
}

/// Evaluates by shared reference and echoes the outcome as one line.
pub fn evaluate_shared(root: &Node, expr: &str) -> (r: String)
    requires
        node_wf(*root),
    ensures
        r@ == outcome_line(spec_evaluate(*root, expr@, false)),
{
    let res = evaluate_shared_result(root, expr);
    to_line(res)
}

} // verus!
