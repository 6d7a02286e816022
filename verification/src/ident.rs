//! Names of builtin error and value types.
use vstd::prelude::*;

verus! {

/// The name of a builtin type, such as `TypeError` or `number`.
#[derive(Clone, Debug, Hash)]
pub struct EscErrorIdent(String);

impl View for EscErrorIdent {
    type V = Seq<char>;

    closed spec fn view(&self) -> Seq<char> {
        self.0@
    }
}

impl EscErrorIdent {
    pub fn new(name: &str) -> (r: Self)
        ensures
            r@ == name@,
    {
        EscErrorIdent(name.to_owned())
    }

    pub fn as_str(&self) -> (r: &str)
        ensures
            r@ == self@,
    {
        self.0.as_str()
    }

    /// A copy with the same name.
    pub fn duplicate(&self) -> (r: Self)
        ensures
            r@ == self@,
    {
        EscErrorIdent(self.0.clone())
    }

    /// Whether two names are the same.
    pub fn same(&self, other: &Self) -> (r: bool)
        ensures
            r == (self@ == other@),
    {
        self.0 == other.0
    }
}

} // verus!
