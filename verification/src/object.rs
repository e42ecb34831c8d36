use vstd::prelude::*;

verus! {

/// A non-owning handle into a virtual machine's object registry: the index
/// of the object in the registry that created it.
#[derive(Debug, Clone, Copy, PartialEq, Eq, Structural)]
pub struct ObjPtr(pub usize);

/// A heap payload owned by a virtual machine's object registry.
#[derive(Debug)]
pub enum Obj {
    String(Vec<u8>),
}

impl Obj {
    /// The byte content of the object.
    pub open spec fn view(&self) -> Seq<u8> {
        match self {
            Obj::String(bytes) => bytes@,
        }
    }

    pub fn is_string(&self) -> (r: bool)
        ensures
            r,
    {
        match self {
            Obj::String(_) => true,
        }
    }

    pub fn into_string(&self) -> (r: &Vec<u8>)
        ensures
            r@ == self@,
    {
        match self {
            Obj::String(bytes) => bytes,
        }
    }
}

} // verus!
