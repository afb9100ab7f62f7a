use vstd::prelude::*;
use vstd::string::StringExecFns;

verus! {

/// A named provider of dialogue records.
#[derive(Debug, Clone, PartialEq)]
pub struct DialogProvider {
    pub name: String,
}

impl DialogProvider {
    pub fn new(name: String) -> (r: Self)
        ensures
            r.name == name,
    {
        Self { name }
    }

    pub fn create_dialog(prout: &str) -> (r: String)
        ensures
            r@ == "le caca : "@ + prout@,
    {
        let s = String::from_str("le caca : ");
        s.concat(prout)
    }
}

} // verus!
