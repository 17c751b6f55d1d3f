//! The object graph and the per-type descriptors.
//!
//! A [`Node`] is any value the engine can reach.  A composite node
//! carries its descriptor inline: the ordered field table and the
//! ordered method table registered for its type.  Every other node is a
//! leaf with no descriptor, for which every lookup reports "not found"
//! rather than failing fatally.

use vstd::prelude::*;
use vstd::string::*;

use crate::numbers::Dec;
use crate::numbers::dec_wf;

verus! {

/// The declared type of one method parameter, which fixes how its raw
/// argument text is parsed.
pub enum ParamKind {
    Boolean,
    Unsigned,
    Signed,
    Decimal,
    Text,
}

/// What a registered method does when invoked.
///
/// A descriptor cannot carry native code, so each method names one of
/// the engine's invocation behaviours.
pub enum Action {
    /// Returns a fixed value, ignoring the receiver.
    Constant(Box<Node>),
    /// Returns the exact sum of the numeric arguments as a decimal.
    SumArgs,
    /// Returns the lone argument, or the arguments as a tuple.
    EchoArgs,
    /// Negates the named boolean field of the receiver; requires an
    /// exclusive reference chain to reach the receiver.
    ToggleField(String),
}

/// One registered method: its name, its parameter kinds (the expected
/// arity is their number), and its behaviour.
pub struct Method {
    pub name: String,
    pub params: Vec<ParamKind>,
    pub action: Action,
}

/// One registered field: its name and the value below it.
pub struct FieldEntry {
    pub name: String,
    pub node: Node,
}

/// A value in the traversable graph.
pub enum Node {
    /// The unit value, debug-printed `()`.
    Unit,
    Bool(bool),
    UInt(u64),
    Int(i64),
    /// An exact decimal, standing where the embedded program has a
    /// fractional number.
    Decimal(Dec),
    Text(String),
    Tuple(Vec<Node>),
    /// A named enum-style value such as `Ok("pong")`.
    Variant { name: String, items: Vec<Node> },
    /// A value with no renderable debug representation.
    Opaque { label: String },
    /// A struct value with its registered descriptor.
    Composite { label: String, fields: Vec<FieldEntry>, methods: Vec<Method> },
}

/// Does a method need an exclusive reference chain to its receiver?
pub open spec fn spec_mutates(a: Action) -> bool {
    a is ToggleField
}

impl Action {
    /// Exec mirror of [`spec_mutates`].
    pub fn mutates(&self) -> (r: bool)
        ensures
            r == spec_mutates(*self),
    {
        match self {
            Action::ToggleField(_) => true,
            _ => false,
        }
    }
}

/// The type label a node reports in `FieldNotFound` and
/// `MethodNotFound` errors: the registered type label of a composite or
/// opaque value, and a primitive name for descriptor-less leaves.
pub open spec fn spec_label(n: Node) -> Seq<char> {
    match n {
        Node::Unit => "()"@,
        Node::Bool(_) => "bool"@,
        Node::UInt(_) => "u64"@,
        Node::Int(_) => "i64"@,
        Node::Decimal(_) => "decimal"@,
        Node::Text(_) => "str"@,
        Node::Tuple(_) => "tuple"@,
        Node::Variant { name, .. } => name@,
        Node::Opaque { label } => label@,
        Node::Composite { label, .. } => label@,
    }
}

/// The registered field names of a node, in declaration order.
pub open spec fn spec_field_names(n: Node) -> Seq<Seq<char>> {
    match n {
        Node::Composite { fields, .. } => fields@.map_values(|f: FieldEntry| f.name@),
        _ => Seq::empty(),
    }
}

/// The registered method names of a node, in declaration order.
pub open spec fn spec_method_names(n: Node) -> Seq<Seq<char>> {
    match n {
        Node::Composite { methods, .. } => methods@.map_values(|m: Method| m.name@),
        _ => Seq::empty(),
    }
}

/// The first position at or after `i` of a field called `name`.
pub open spec fn field_pos(fields: Seq<FieldEntry>, i: nat, name: Seq<char>) -> Option<nat>
    decreases fields.len() - i,
{
    if i >= fields.len() {
        None
    } else if fields[i as int].name@ == name {
        Some(i)
    } else {
        field_pos(fields, i + 1, name)
    }
}

/// The first position at or after `i` of a method called `name`.
pub open spec fn method_pos(methods: Seq<Method>, i: nat, name: Seq<char>) -> Option<nat>
    decreases methods.len() - i,
{
    if i >= methods.len() {
        None
    } else if methods[i as int].name@ == name {
        Some(i)
    } else {
        method_pos(methods, i + 1, name)
    }
}

/// The value of the field called `name`, if the node has one.
pub open spec fn spec_lookup_field(n: Node, name: Seq<char>) -> Option<Node> {
    match n {
        Node::Composite { fields, .. } => match field_pos(fields@, 0, name) {
            Option::Some(i) => Some(fields@[i as int].node),
            Option::None => None,
        },
        _ => None,
    }
}

/// The method called `name`, if the node has one.
pub open spec fn spec_lookup_method(n: Node, name: Seq<char>) -> Option<Method> {
    match n {
        Node::Composite { methods, .. } => match method_pos(methods@, 0, name) {
            Option::Some(i) => Some(methods@[i as int]),
            Option::None => None,
        },
        _ => None,
    }
}

/// Every decimal in the graph can be rendered: its scale is at most six
/// fractional digits.
pub open spec fn node_renderable(n: Node) -> bool
    decreases n,
{
    match n {
        Node::Decimal(d) => d.scale <= 6,
        Node::Tuple(items) => forall|i: int|
            0 <= i < items@.len() ==> node_renderable(#[trigger] items@[i]),
        Node::Variant { items, .. } => forall|i: int|
            0 <= i < items@.len() ==> node_renderable(#[trigger] items@[i]),
        Node::Composite { fields, methods, .. } => (forall|i: int|
            0 <= i < fields@.len() ==> node_renderable(#[trigger] fields@[i].node)) && (forall|
            i: int,
        |
            0 <= i < methods@.len() ==> action_renderable(#[trigger] methods@[i].action)),
        _ => true,
    }
}

/// The fixed result of a constant method can be rendered too.
pub open spec fn action_renderable(a: Action) -> bool
    decreases a,
{
    match a {
        Action::Constant(b) => node_renderable(*b),
        _ => true,
    }
}

/// A well-formed graph: every decimal is well formed and every
/// registered method takes at most 255 arguments.
pub open spec fn node_wf(n: Node) -> bool
    decreases n,
{
    match n {
        Node::Decimal(d) => dec_wf(d),
        Node::Tuple(items) => forall|i: int| 0 <= i < items@.len() ==> node_wf(
            #[trigger] items@[i],
        ),
        Node::Variant { items, .. } => forall|i: int| 0 <= i < items@.len() ==> node_wf(
            #[trigger] items@[i],
        ),
        Node::Composite { fields, methods, .. } => (forall|i: int|
            0 <= i < fields@.len() ==> node_wf(#[trigger] fields@[i].node)) && (forall|i: int|
            0 <= i < methods@.len() ==> method_wf(#[trigger] methods@[i])),
        _ => true,
    }
}

/// A well-formed method: bounded arity, and a well-formed constant
/// result when it has one.
pub open spec fn method_wf(m: Method) -> bool
    decreases m,
{
    m.params@.len() <= 255 && match m.action {
        Action::Constant(b) => node_wf(*b),
        _ => true,
    }
}

pub proof fn lemma_wf_renderable(n: Node)
    requires
        node_wf(n),
    ensures
        node_renderable(n),
    decreases n,
{
    match n {
        Node::Tuple(items) => {
            assert forall|i: int| 0 <= i < items@.len() implies node_renderable(
                #[trigger] items@[i],
            ) by {
                lemma_wf_renderable(items@[i]);
            }
        },
        Node::Variant { items, .. } => {
            assert forall|i: int| 0 <= i < items@.len() implies node_renderable(
                #[trigger] items@[i],
            ) by {
                lemma_wf_renderable(items@[i]);
            }
        },
        Node::Composite { fields, methods, .. } => {
            assert forall|i: int| 0 <= i < fields@.len() implies node_renderable(
                #[trigger] fields@[i].node,
            ) by {
                lemma_wf_renderable(fields@[i].node);
            }
            assert forall|i: int| 0 <= i < methods@.len() implies action_renderable(
                #[trigger] methods@[i].action,
            ) by {
                assert(method_wf(methods@[i]));
                if methods@[i].action is Constant {
                    lemma_wf_renderable(*methods@[i].action->Constant_0);
                }
            }
        },
        _ => {},
    }
}

impl Node {
    /// The type label reported in lookup errors.
    pub fn label_text(&self) -> (r: String)
        ensures
            r@ == spec_label(*self),
    {
        match self {
            Node::Unit => String::from_str("()"),
            Node::Bool(_) => String::from_str("bool"),
            Node::UInt(_) => String::from_str("u64"),
            Node::Int(_) => String::from_str("i64"),
            Node::Decimal(_) => String::from_str("decimal"),
            Node::Text(_) => String::from_str("str"),
            Node::Tuple(_) => String::from_str("tuple"),
            Node::Variant { name, .. } => name.clone(),
            Node::Opaque { label } => label.clone(),
            Node::Composite { label, .. } => label.clone(),
        }
    }
}

impl Node {
    /// Checks the graph invariant that evaluation requires: every
    /// decimal is well formed, every method's arity is bounded.
    pub fn is_well_formed(&self) -> (r: bool)
        ensures
            r == node_wf(*self),
        decreases *self,
    {
        match self {
            Node::Decimal(d) => d.scale <= 6 && d.mant <= crate::numbers::DEC_MANT_LIMIT,
            Node::Tuple(items) => {
                proof {
                    assert(items@.subrange(0, items@.len() as int) =~= items@);
                }
                nodes_wf_from(items, 0)
            },
            Node::Variant { items, .. } => {
                proof {
                    assert(items@.subrange(0, items@.len() as int) =~= items@);
                }
                nodes_wf_from(items, 0)
            },
            Node::Composite { fields, methods, .. } => {
                proof {
                    assert(fields@.subrange(0, fields@.len() as int) =~= fields@);
                    assert(methods@.subrange(0, methods@.len() as int) =~= methods@);
                }
                let fok = fields_wf_from(fields, 0);
                if !fok {
                    return false;
                }
                methods_wf_from(methods, 0)
            },
            _ => true,
        }
    }
}

/// Checks `items[i ..]` for well-formedness.
fn nodes_wf_from(items: &Vec<Node>, i: usize) -> (r: bool)
    requires
        i <= items@.len(),
    ensures
        r == (forall|k: int| i <= k < items@.len() ==> node_wf(#[trigger] items@[k])),
    decreases items@.subrange(i as int, items@.len() as int),
{
    if i == items.len() {
        return true;
    }
    proof {
        assert(items@.subrange(i as int, items@.len() as int)[0] == items@[i as int]);
    }
    let ok = items[i].is_well_formed();
    if !ok {
        return false;
    }
    proof {
        assert(items@.subrange(i as int, items@.len() as int).subrange(
            1,
            items@.len() - i,
        ) =~= items@.subrange(i + 1, items@.len() as int));
    }
    nodes_wf_from(items, i + 1)
}

/// Checks `fields[i ..]` for well-formedness of their values.
fn fields_wf_from(fields: &Vec<FieldEntry>, i: usize) -> (r: bool)
    requires
        i <= fields@.len(),
    ensures
        r == (forall|k: int| i <= k < fields@.len() ==> node_wf(#[trigger] fields@[k].node)),
    decreases fields@.subrange(i as int, fields@.len() as int),
{
    if i == fields.len() {
        return true;
    }
    proof {
        assert(fields@.subrange(i as int, fields@.len() as int)[0] == fields@[i as int]);
    }
    let ok = fields[i].node.is_well_formed();
    if !ok {
        return false;
    }
    proof {
        assert(fields@.subrange(i as int, fields@.len() as int).subrange(
            1,
            fields@.len() - i,
        ) =~= fields@.subrange(i + 1, fields@.len() as int));
    }
    fields_wf_from(fields, i + 1)
}

/// Checks `methods[i ..]` for well-formedness.
fn methods_wf_from(methods: &Vec<Method>, i: usize) -> (r: bool)
    requires
        i <= methods@.len(),
    ensures
        r == (forall|k: int| i <= k < methods@.len() ==> method_wf(#[trigger] methods@[k])),
    decreases methods@.subrange(i as int, methods@.len() as int),
{
    if i == methods.len() {
        return true;
    }
    proof {
        assert(methods@.subrange(i as int, methods@.len() as int)[0] == methods@[i as int]);
    }
    let m = &methods[i];
    if m.params.len() > 255 {
        return false;
    }
    let aok = match &m.action {
        Action::Constant(b) => b.is_well_formed(),
        _ => true,
    };
    if !aok {
        return false;
    }
    proof {
        assert(method_wf(methods@[i as int]));
        assert(methods@.subrange(i as int, methods@.len() as int).subrange(
            1,
            methods@.len() - i,
        ) =~= methods@.subrange(i + 1, methods@.len() as int));
    }
    methods_wf_from(methods, i + 1)
}

/// Finds a field by name in a field table.
pub fn find_field(fields: &Vec<FieldEntry>, name: &str) -> (r: Option<usize>)
    ensures
        r is Some <==> field_pos(fields@, 0, name@) is Some,
        r matches Some(j) ==> field_pos(fields@, 0, name@) == Some(j as nat) && j < fields@.len()
            && fields@[j as int].name@ == name@,
{
    let mut i: usize = 0;
    while i < fields.len()
        invariant
            0 <= i <= fields@.len(),
            forall|m: int| 0 <= m < i ==> (#[trigger] fields@[m].name)@ != name@,
        decreases fields@.len() - i,
    {
        if fields[i].name == name.to_owned() {
            proof {
                lemma_field_pos_found(fields@, 0, i as nat, name@);
            }
            return Some(i);
        }
        i = i + 1;
    }
    proof {
        lemma_field_pos_none(fields@, 0, name@);
    }
    None
}

/// Finds a method by name in a method table.
pub fn find_method(methods: &Vec<Method>, name: &str) -> (r: Option<usize>)
    ensures
        r is Some <==> method_pos(methods@, 0, name@) is Some,
        r matches Some(j) ==> method_pos(methods@, 0, name@) == Some(j as nat) && j
            < methods@.len() && methods@[j as int].name@ == name@,
{
    let mut i: usize = 0;
    while i < methods.len()
        invariant
            0 <= i <= methods@.len(),
            forall|m: int| 0 <= m < i ==> (#[trigger] methods@[m].name)@ != name@,
        decreases methods@.len() - i,
    {
        if methods[i].name == name.to_owned() {
            proof {
                lemma_method_pos_found(methods@, 0, i as nat, name@);
            }
            return Some(i);
        }
        i = i + 1;
    }
    proof {
        lemma_method_pos_none(methods@, 0, name@);
    }
    None
}

pub proof fn lemma_field_pos_found(fields: Seq<FieldEntry>, i: nat, j: nat, name: Seq<char>)
    requires
        i <= j < fields.len(),
        fields[j as int].name@ == name,
        forall|m: int| i <= m < j ==> (#[trigger] fields[m].name)@ != name,
    ensures
        field_pos(fields, i, name) == Some(j),
    decreases j - i,
{
    if i < j {
        lemma_field_pos_found(fields, i + 1, j, name);
    }
}

pub proof fn lemma_field_pos_none(fields: Seq<FieldEntry>, i: nat, name: Seq<char>)
    requires
        forall|m: int| i <= m < fields.len() ==> (#[trigger] fields[m].name)@ != name,
    ensures
        field_pos(fields, i, name) is None,
    decreases fields.len() - i,
{
    if i < fields.len() {
        lemma_field_pos_none(fields, i + 1, name);
    }
}

pub proof fn lemma_method_pos_found(methods: Seq<Method>, i: nat, j: nat, name: Seq<char>)
    requires
        i <= j < methods.len(),
        methods[j as int].name@ == name,
        forall|m: int| i <= m < j ==> (#[trigger] methods[m].name)@ != name,
    ensures
        method_pos(methods, i, name) == Some(j),
    decreases j - i,
{
    if i < j {
        lemma_method_pos_found(methods, i + 1, j, name);
    }
}

pub proof fn lemma_method_pos_none(methods: Seq<Method>, i: nat, name: Seq<char>)
    requires
        forall|m: int| i <= m < methods.len() ==> (#[trigger] methods[m].name)@ != name,
    ensures
        method_pos(methods, i, name) is None,
    decreases methods.len() - i,
{
    if i < methods.len() {
        lemma_method_pos_none(methods, i + 1, name);
    }
}

pub proof fn lemma_field_pos_in_range(fields: Seq<FieldEntry>, i: nat, name: Seq<char>)
    requires
        field_pos(fields, i, name) is Some,
    ensures
        i <= field_pos(fields, i, name)->0 < fields.len(),
        fields[field_pos(fields, i, name)->0 as int].name@ == name,
    decreases fields.len() - i,
{
    if i < fields.len() && fields[i as int].name@ != name {
        lemma_field_pos_in_range(fields, i + 1, name);
    }
}

pub proof fn lemma_method_pos_in_range(methods: Seq<Method>, i: nat, name: Seq<char>)
    requires
        method_pos(methods, i, name) is Some,
    ensures
        i <= method_pos(methods, i, name)->0 < methods.len(),
        methods[method_pos(methods, i, name)->0 as int].name@ == name,
    decreases methods.len() - i,
{
    if i < methods.len() && methods[i as int].name@ != name {
        lemma_method_pos_in_range(methods, i + 1, name);
    }
}

} // verus!
