use vstd::prelude::*;

verus! {

/// First message a client sends: the name of the application it speaks for.
#[derive(PartialEq, Eq, Debug)]
pub struct InitMessage {
    pub name: String,
}

impl InitMessage {
    pub fn new(name: String) -> (r: Self)
        ensures
            r.name@ == name@,
    {
        Self { name }
    }

    pub fn name(&self) -> (r: &str)
        ensures
            r@ == self.name@,
    {
        self.name.as_str()
    }
}

/// A message of a kind this build does not know.
#[derive(PartialEq, Eq, Debug)]
pub struct UnkownMessage;

} // verus!
