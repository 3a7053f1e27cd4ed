use vstd::prelude::*;

verus! {

/// The bytes of a PDB file.
#[derive(Debug)]
pub struct Pdb {
    data: Vec<u8>,
}

impl Pdb {
    /// The bytes that are held.
    pub closed spec fn bytes(&self) -> Seq<u8> {
        self.data@
    }

    /// Holds the bytes of a PDB file.
    pub fn parse(data: Vec<u8>) -> (r: Pdb)
        ensures
            r.bytes() == data@,
    {
        Pdb { data }
    }

    /// The bytes that are held.
    pub fn data(&self) -> (r: &[u8])
        ensures
            r@ == self.bytes(),
    {
        self.data.as_slice()
    }
}

} // verus!
