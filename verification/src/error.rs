//! Error and value types: builtin names or declarations in a module.
use crate::ident::EscErrorIdent;
use crate::module_id::EscModuleId;
use vstd::prelude::*;

verus! {

/// A declaration in a module's semantic AST, by the declaration's node number.
#[derive(Debug, Hash)]
pub struct EscErrorId {
    pub module_id: EscModuleId,
    pub node: u32,
}

/// A type that a value may have or an error may be an instance of.
#[derive(Debug, Hash)]
pub enum EscErrorType {
    Buildin(EscErrorIdent),
    Node(EscErrorId),
}

/// The mathematical value of an error type.
pub enum ErrorTypeView {
    Builtin(Seq<char>),
    Node(Seq<char>, u32),
}

impl View for EscErrorType {
    type V = ErrorTypeView;

    open spec fn view(&self) -> ErrorTypeView {
        match self {
            EscErrorType::Buildin(name) => ErrorTypeView::Builtin(name@),
            EscErrorType::Node(id) => ErrorTypeView::Node(id.module_id@, id.node),
        }
    }
}

/// The view of the builtin type with the given name.
pub open spec fn builtin_view(name: Seq<char>) -> ErrorTypeView {
    ErrorTypeView::Builtin(name)
}

/// The view of the `unknown` type, which stands for any possible type or error.
pub open spec fn unknown_view() -> ErrorTypeView {
    ErrorTypeView::Builtin("unknown"@)
}

/// The builtin type that `new` on the standard global at `path` constructs.
pub open spec fn constructed_type(path: Seq<char>) -> Option<ErrorTypeView> {
    match crate::globals::spec_get(path) {
        Some(g) => match g.instance_type {
            Some(t) => Some(builtin_view(t)),
            None => None,
        },
        None => None,
    }
}

impl EscErrorId {
    pub fn duplicate(&self) -> (r: Self)
        ensures
            r.module_id@ == self.module_id@,
            r.node == self.node,
    {
        EscErrorId { module_id: self.module_id.duplicate(), node: self.node }
    }
}

impl EscErrorType {
    pub fn builtin(name: &str) -> (r: Self)
        ensures
            r@ == builtin_view(name@),
    {
        EscErrorType::Buildin(EscErrorIdent::new(name))
    }

    /// The `unknown` type.
    pub fn unknown() -> (r: Self)
        ensures
            r@ == unknown_view(),
    {
        EscErrorType::builtin("unknown")
    }

    /// A copy with the same view.
    pub fn duplicate(&self) -> (r: Self)
        ensures
            r@ == self@,
    {
        match self {
            EscErrorType::Buildin(name) => EscErrorType::Buildin(name.duplicate()),
            EscErrorType::Node(id) => EscErrorType::Node(id.duplicate()),
        }
    }

    /// Whether two types are the same.
    pub fn same(&self, other: &Self) -> (r: bool)
        ensures
            r == (self@ == other@),
    {
        match (self, other) {
            (EscErrorType::Buildin(a), EscErrorType::Buildin(b)) => a.same(b),
            (EscErrorType::Node(a), EscErrorType::Node(b)) => a.node == b.node
                && a.module_id.same(&b.module_id),
            _ => false,
        }
    }

    /// The builtin type that `new` on the standard global `name` constructs.
    pub fn constructor(name: &str) -> (r: Option<Self>)
        ensures
            r is Some <==> constructed_type(name@) is Some,
            r matches Some(t) ==> constructed_type(name@) == Some(t@),
    {
        match crate::globals::EscGlobals::get(name) {
            Some(global) => match global.instance_type {
                Some(ty) => Some(EscErrorType::builtin(ty.as_str())),
                None => None,
            },
            None => None,
        }
    }

    /// The builtin name, if this is a builtin type.
    pub fn builtin_name(&self) -> (r: Option<&str>)
        ensures
            r is None <==> self@ is Node,
            r matches Some(s) ==> self@ == ErrorTypeView::Builtin(s@),
    {
        match self {
            EscErrorType::Buildin(name) => Some(name.as_str()),
            EscErrorType::Node(_) => None,
        }
    }
}

impl Clone for EscErrorType {
    fn clone(&self) -> (r: Self)
        ensures
            r@ == self@,
    {
        self.duplicate()
    }
}

impl PartialEq for EscErrorType {
    fn eq(&self, other: &Self) -> (r: bool) {
        self.same(other)
    }
}

impl vstd::std_specs::cmp::PartialEqSpecImpl for EscErrorType {
    open spec fn obeys_eq_spec() -> bool {
        true
    }

    open spec fn eq_spec(&self, other: &Self) -> bool {
        self@ == other@
    }
}

impl Eq for EscErrorType {

}

} // verus!
