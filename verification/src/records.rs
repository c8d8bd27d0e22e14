//! The records that the build takes in: localities, public spaces and
//! addresses as the source register lists them.

use vstd::prelude::*;

verus! {

/// A place name with the 16-bit number that the source gives it.
#[derive(Debug, PartialEq, Eq)]
pub struct Locality {
    pub id: u16,
    pub name: String,
}

/// A street or other named public space, and the locality it lies in.
#[derive(Debug, PartialEq, Eq)]
pub struct PublicSpace {
    pub id: String,
    pub name: String,
    pub locality_id: u16,
}

/// One numbered address on a public space.
#[derive(Debug, PartialEq, Eq)]
pub struct Address {
    pub id: String,
    pub house_number: u32,
    pub house_letter: Option<String>,
    pub house_number_addition: Option<String>,
    pub postal_code: String,
    pub public_space_id: String,
}

/// Everything that one source archive yields.
#[derive(Debug)]
pub struct ParsedData {
    pub addresses: Vec<Address>,
    pub public_spaces: Vec<PublicSpace>,
    pub localities: Vec<Locality>,
}

impl ParsedData {
    /// No records at all.
    pub fn new() -> (data: ParsedData)
        ensures
            data.addresses@.len() == 0,
            data.public_spaces@.len() == 0,
            data.localities@.len() == 0,
    {
        ParsedData { addresses: Vec::new(), public_spaces: Vec::new(), localities: Vec::new() }
    }
}

} // verus!
