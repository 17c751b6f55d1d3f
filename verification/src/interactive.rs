//! The error taxonomy shared by every component of the engine.
//!
//! Every failure of evaluation or completion is one of these variants;
//! all of them are ordinary, recoverable outcomes, never a panic.

use vstd::prelude::*;
use vstd::string::*;

use crate::numbers::dec_digits_of;
use crate::numbers::push_u128;

verus! {

/// The ghost image of an [`InteractiveError`]: the same variants over
/// mathematical sequences of characters.
pub enum ErrorView {
    MethodNotFound { type_label: Seq<char>, method_name: Seq<char> },
    FieldNotFound { type_label: Seq<char>, field_name: Seq<char> },
    WrongNumberOfArguments { expected: nat, found: nat },
    ArgsError { given_args: Seq<char> },
    SyntaxError,
    DebugNotImplemented,
}

/// The main error type of this crate.
///
/// `MethodNotFound` and `FieldNotFound` name the exact type and the exact
/// name that failed to resolve; `WrongNumberOfArguments` is raised before
/// any argument is parsed; `ArgsError` carries the whole raw argument
/// text; `SyntaxError` is raised by the path parser before any traversal;
/// `DebugNotImplemented` reports a value with no renderable debug form.
#[derive(Debug, PartialEq, Eq)]
pub enum InteractiveError {
    MethodNotFound { type_label: String, method_name: String },
    FieldNotFound { type_label: String, field_name: String },
    WrongNumberOfArguments { expected: usize, found: usize },
    ArgsError { given_args: String },
    SyntaxError,
    DebugNotImplemented,
}

impl View for InteractiveError {
    type V = ErrorView;

    open spec fn view(&self) -> ErrorView {
        match self {
            InteractiveError::MethodNotFound { type_label, method_name } =>
                ErrorView::MethodNotFound { type_label: type_label@, method_name: method_name@ },
            InteractiveError::FieldNotFound { type_label, field_name } =>
                ErrorView::FieldNotFound { type_label: type_label@, field_name: field_name@ },
            InteractiveError::WrongNumberOfArguments { expected, found } =>
                ErrorView::WrongNumberOfArguments {
                    expected: *expected as nat,
                    found: *found as nat,
                },
            InteractiveError::ArgsError { given_args } =>
                ErrorView::ArgsError { given_args: given_args@ },
            InteractiveError::SyntaxError => ErrorView::SyntaxError,
            InteractiveError::DebugNotImplemented => ErrorView::DebugNotImplemented,
        }
    }
}

/// The debug text of an error, exactly as a REPL echoes it.
pub open spec fn error_text(e: ErrorView) -> Seq<char> {
    match e {
        ErrorView::MethodNotFound { type_label, method_name } =>
            "MethodNotFound { type_label: \""@ + type_label + "\", method_name: \""@ + method_name
                + "\" }"@,
        ErrorView::FieldNotFound { type_label, field_name } =>
            "FieldNotFound { type_label: \""@ + type_label + "\", field_name: \""@ + field_name
                + "\" }"@,
        ErrorView::WrongNumberOfArguments { expected, found } =>
            "WrongNumberOfArguments { expected: "@ + dec_digits_of(expected) + ", found: "@
                + dec_digits_of(found) + " }"@,
        ErrorView::ArgsError { given_args } => "ArgsError { given_args: \""@ + given_args + "\" }"@,
        ErrorView::SyntaxError => "SyntaxError"@,
        ErrorView::DebugNotImplemented => "DebugNotImplemented"@,
    }
}

impl InteractiveError {
    /// Renders the error as its debug text.
    pub fn to_text(&self) -> (r: String)
        ensures
            r@ == error_text(self@),
    {
        let mut s = String::new();
        match self {
            InteractiveError::MethodNotFound { type_label, method_name } => {
                s.append("MethodNotFound { type_label: \"");
                s.append(type_label.as_str());
                s.append("\", method_name: \"");
                s.append(method_name.as_str());
                s.append("\" }");
            },
            InteractiveError::FieldNotFound { type_label, field_name } => {
                s.append("FieldNotFound { type_label: \"");
                s.append(type_label.as_str());
                s.append("\", field_name: \"");
                s.append(field_name.as_str());
                s.append("\" }");
            },
            InteractiveError::WrongNumberOfArguments { expected, found } => {
                s.append("WrongNumberOfArguments { expected: ");
                push_u128(&mut s, *expected as u128);
                s.append(", found: ");
                push_u128(&mut s, *found as u128);
                s.append(" }");
            },
            InteractiveError::ArgsError { given_args } => {
                s.append("ArgsError { given_args: \"");
                s.append(given_args.as_str());
                s.append("\" }");
            },
            InteractiveError::SyntaxError => {
                s.append("SyntaxError");
            },
            InteractiveError::DebugNotImplemented => {
                s.append("DebugNotImplemented");
            },
        }
        proof {
            assert(s@ =~= error_text(self@));
        }
        s
    }
}

/// The capability every node in the graph offers: field lookup by
/// shared or exclusive reference.  A type with no descriptor keeps the
/// contract by answering `FieldNotFound` to every query, so traversal
/// ends gracefully at leaves.
pub trait Interactive: Sized + InteractiveFields + InteractiveMethods + InteractiveFieldNames +
    InteractiveMethodNames {
    /// What `__interactive_get_field` returns.
    spec fn spec_get_field(&self, field_name: Seq<char>) -> Result<Self, ErrorView>;

    /// How the receiver after `__interactive_get_field_mut` relates to
    /// the receiver before it, given the final value of the returned
    /// reference.
    spec fn spec_field_frame(&self, field_name: Seq<char>, new_child: Self, after: Self) -> bool;

    /// Looks for a field with the given name and on success returns a
    /// shared reference to it.
    fn __interactive_get_field<'a>(&'a self, field_name: &str) -> (r: Result<
        &'a Self,
        InteractiveError,
    >)
        ensures
            match (r, self.spec_get_field(field_name@)) {
                (Result::Ok(c), Result::Ok(g)) => *c == g,
                (Result::Err(e), Result::Err(g)) => e@ == g,
                _ => false,
            },
    ;

    /// Looks for a field with the given name and on success returns an
    /// exclusive reference to it.
    fn __interactive_get_field_mut<'a>(&'a mut self, field_name: &str) -> (r: Result<
        &'a mut Self,
        InteractiveError,
    >)
        ensures
            r matches Ok(c) ==> old(self).spec_get_field(field_name@) matches Ok(g) && *c == g
                && old(self).spec_field_frame(field_name@, *final(c), *final(self)),
            r matches Err(e) ==> old(self).spec_get_field(field_name@) matches Err(g) && e@ == g
                && *final(self) == *old(self),
    ;
}

/// Evaluating a field: looking it up and rendering its debug text.
pub trait InteractiveFields {
    /// The well-formedness the receiver must keep for field evaluation.
    spec fn spec_fields_wf(&self) -> bool;

    /// What `__interactive_eval_field` returns.
    spec fn spec_eval_field(&self, field_name: Seq<char>) -> Result<Seq<char>, ErrorView>;

    /// Looks for a field with the given name and returns its debug
    /// text, or the error that stopped it.
    fn __interactive_eval_field(&self, field_name: &str) -> (r: Result<String, InteractiveError>)
        requires
            self.spec_fields_wf(),
        ensures
            match (r, self.spec_eval_field(field_name@)) {
                (Result::Ok(s), Result::Ok(t)) => s@ == t,
                (Result::Err(e), Result::Err(g)) => e@ == g,
                _ => false,
            },
    ;
}

/// Invoking a method: parsing its raw argument text, calling it, and
/// rendering what it returned.
pub trait InteractiveMethods {
    /// The well-formedness the receiver must keep for method invocation.
    spec fn spec_methods_wf(&self) -> bool;

    /// What `__interactive_eval_method` returns.
    spec fn spec_eval_method(&self, method_name: Seq<char>, args: Seq<char>) -> Result<
        Seq<char>,
        ErrorView,
    >;

    /// How the receiver after `__interactive_eval_method` relates to the
    /// receiver before it.
    spec fn spec_method_state(&self, method_name: Seq<char>, args: Seq<char>, after: &Self) -> bool;

    /// Looks for a method with the given name, parses the raw argument
    /// text against its declared parameters, invokes it, and returns the
    /// debug text of its result, or the error that stopped it.
    fn __interactive_eval_method(&mut self, method_name: &str, args: &str) -> (r: Result<
        String,
        InteractiveError,
    >)
        requires
            old(self).spec_methods_wf(),
        ensures
            match (r, old(self).spec_eval_method(method_name@, args@)) {
                (Result::Ok(s), Result::Ok(t)) => s@ == t,
                (Result::Err(e), Result::Err(g)) => e@ == g,
                _ => false,
            },
            old(self).spec_method_state(method_name@, args@, final(self)),
    ;
}

/// Listing the registered field names, in declaration order, for
/// completion.
pub trait InteractiveFieldNames {
    /// What `get_all_interactive_field_names` returns.
    spec fn spec_interactive_field_names(&self) -> Seq<Seq<char>>;

    /// Returns all interactive field names of this value's type.
    fn get_all_interactive_field_names(&self) -> (names: Vec<String>)
        ensures
            names@.map_values(|s: String| s@) == self.spec_interactive_field_names(),
    ;
}

/// Listing the registered method names, in declaration order, for
/// completion.
pub trait InteractiveMethodNames {
    /// What `get_all_interactive_method_names` returns.
    spec fn spec_interactive_method_names(&self) -> Seq<Seq<char>>;

    /// Returns all interactive method names of this value's type.
    fn get_all_interactive_method_names(&self) -> (names: Vec<String>)
        ensures
            names@.map_values(|s: String| s@) == self.spec_interactive_method_names(),
    ;
}

} // verus!
