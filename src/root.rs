use vstd::prelude::*;

verus! {

/// A named, independent population of agents inside one key-value cluster.
#[derive(Clone, Debug, PartialEq, Eq, Hash)]
pub struct Root {
    name: String,
}

impl View for Root {
    type V = Seq<char>;

    /// The root's name.
    closed spec fn view(&self) -> Seq<char> {
        self.name@
    }
}

impl Root {
    /// The root called `name`.
    pub fn new(name: &str) -> (r: Root)
        ensures
            r@ == name@,
    {
        Root { name: name.to_owned() }
    }

    /// The root's name.
    pub fn name(&self) -> (r: &str)
        ensures
            r@ == self@,
    {
        self.name.as_str()
    }
}

} // verus!
