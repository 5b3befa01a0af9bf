use vstd::prelude::*;

verus! {

/// A runtime value carried by a literal token.
#[derive(Debug, Clone, Copy, PartialEq, Eq, Structural)]
pub enum Data {
    Boolean(bool),
}

/// An identifier, as written in the source.
#[derive(Debug, Clone, PartialEq, Eq, Hash)]
pub struct Local {
    name: String,
}

impl View for Local {
    type V = Seq<char>;

    closed spec fn view(&self) -> Seq<char> {
        self.name@
    }
}

impl Local {
    pub fn new(name: String) -> (r: Local)
        ensures
            r@ == name@,
    {
        Local { name }
    }

    pub fn name(&self) -> (r: &str)
        ensures
            r@ == self@,
    {
        self.name.as_str()
    }
}

} // verus!
