//! Building a database from parsed records.

use crate::database::{texts, Database};
use crate::error::BuildError;
use crate::names::{is_index_of, position, sorted_unique};
use crate::postal::{is_canonical, is_postal_code};
use crate::records::{ParsedData, PublicSpace};
use crate::soundness::{invariants_hold, lemma_build_is_sound};
use crate::transform::{
    encode_addresses, index_localities, index_public_spaces, is_locality_map,
    has_id, has_number, is_public_space_map, locality_names_of, public_space_names_of, ranges_of,
    LocalityMap,
};
use vstd::prelude::*;
use vstd::utf8::encode_utf8;

verus! {

/// Why no database can be built from the records, if none can: there are
/// too many locality names, or the public spaces cannot be indexed.
pub open spec fn build_error(data: ParsedData) -> Option<BuildError> {
    if locality_names_of(data.localities@).to_set().len() > 65536 {
        Some(BuildError::TooManyLocalities)
    } else if public_space_names_of(data.public_spaces@).to_set().len() > 0x1_0000_0000 {
        Some(BuildError::CountOverflow)
    } else if exists|i: int|
        0 <= i < data.public_spaces@.len() && !has_number(
            data.localities@,
            (#[trigger] data.public_spaces@[i]).locality_id,
        ) {
        Some(BuildError::UnknownLocality)
    } else {
        None
    }
}

/// The identifiers of the public spaces, in the order of the list.
fn ids_of_public_spaces(public_spaces: &Vec<PublicSpace>) -> (ids: Vec<String>)
    ensures
        ids@.len() == public_spaces@.len(),
        forall|k: int| 0 <= k < ids@.len() ==> (#[trigger] ids@[k])@ == public_spaces@[k].id@,
{
    let mut ids: Vec<String> = Vec::new();
    let mut i: usize = 0;
    while i < public_spaces.len()
        invariant
            i <= public_spaces@.len(),
            ids@.len() == i,
            forall|k: int| 0 <= k < i ==> (#[trigger] ids@[k])@ == public_spaces@[k].id@,
        decreases public_spaces@.len() - i,
    {
        ids.push(public_spaces[i].id.clone());
        i = i + 1;
    }
    ids
}

impl ParsedData {
    /// Every address that lies on a public space of the records has a
    /// postal code in canonical form. An address on an unknown public space
    /// is dropped by the build, whatever its postal code.
    pub open spec fn addresses_are_encodable(self) -> bool {
        forall|i: int|
            0 <= i < self.addresses@.len() && has_id(
                self.public_spaces@,
                (#[trigger] self.addresses@[i]).public_space_id@,
            ) ==> is_postal_code(encode_utf8(self.addresses@[i].postal_code@))
    }

    /// Whether the addresses can be encoded: a build asks for this.
    pub fn check_addresses(&self) -> (ok: bool)
        ensures
            ok == self.addresses_are_encodable(),
    {
        let ids = ids_of_public_spaces(&self.public_spaces);
        let known = sorted_unique(&ids);
        let mut i: usize = 0;
        while i < self.addresses.len()
            invariant
                i <= self.addresses@.len(),
                ids@.len() == self.public_spaces@.len(),
                forall|k: int|
                    0 <= k < ids@.len() ==> (#[trigger] ids@[k])@ == self.public_spaces@[k].id@,
                is_index_of(texts(known@), texts(ids@)),
                forall|k: int|
                    0 <= k < i && has_id(
                        self.public_spaces@,
                        (#[trigger] self.addresses@[k]).public_space_id@,
                    ) ==> is_postal_code(encode_utf8(self.addresses@[k].postal_code@)),
            decreases self.addresses@.len() - i,
        {
            let address = &self.addresses[i];
            let (_, found) = position(&known, address.public_space_id.as_str());
            proof {
                let id = address.public_space_id@;
                if has_id(self.public_spaces@, id) {
                    let k = choose|k: int|
                        0 <= k < self.public_spaces@.len() && (
                        #[trigger] self.public_spaces@[k]).id@ == id;
                    assert(texts(ids@)[k] == id);
                    assert(texts(ids@).contains(id));
                }
                if texts(ids@).contains(id) {
                    let k = choose|k: int| 0 <= k < ids@.len() && texts(ids@)[k] == id;
                    assert(self.public_spaces@[k].id@ == id);
                }
                assert(found == has_id(self.public_spaces@, id));
            }
            if found && !is_canonical(address.postal_code.as_str().as_bytes()) {
                assert(has_id(self.public_spaces@, self.addresses@[i as int].public_space_id@));
                return false;
            }
            i = i + 1;
        }
        true
    }
}

impl Database {
    /// Build a database from parsed records: index the localities and the
    /// public spaces, then fold the addresses into ranges. The database
    /// holds every invariant of the format.
    pub fn from_parsed_data(data: ParsedData) -> (r: Result<Database, BuildError>)
        requires
            data.addresses_are_encodable(),
        ensures
            match r {
                Ok(db) => {
                    &&& build_error(data) is None
                    &&& is_index_of(db@.localities, locality_names_of(data.localities@))
                    &&& is_index_of(db@.public_spaces, public_space_names_of(data.public_spaces@))
                    &&& invariants_hold(db@)
                    &&& exists|locality_map: Map<u16, u16>, map: Map<Seq<char>, (u32, u16)>|
                        {
                            &&& is_locality_map(locality_map, data.localities@, db@.localities)
                            &&& #[trigger] is_public_space_map(
                                map,
                                data.public_spaces@,
                                db@.public_spaces,
                                locality_map,
                            )
                            &&& db@.ranges == ranges_of(data.addresses@, map)
                        }
                },
                Err(e) => build_error(data) == Some(e),
            },
    {
        let ghost given = data;
        let LocalityMap { locality_names, locality_map } = match index_localities(data.localities) {
            Ok(index) => index,
            Err(e) => { return Err(e); },
        };
        let ghost known = locality_map@;
        let (public_space_names, public_spaces_map) = match index_public_spaces(
            data.public_spaces,
            locality_map,
        ) {
            Ok(index) => index,
            Err(e) => {
                proof {
                    if e == BuildError::UnknownLocality {
                        let i = choose|i: int|
                            0 <= i < given.public_spaces@.len() && !known.contains_key(
                                (#[trigger] given.public_spaces@[i]).locality_id,
                            );
                        assert(!has_number(given.localities@, given.public_spaces@[i].locality_id));
                    }
                }
                return Err(e);
            },
        };
        proof {
            assert forall|i: int| 0 <= i < given.public_spaces@.len() implies has_number(
                given.localities@,
                (#[trigger] given.public_spaces@[i]).locality_id,
            ) by {
                assert(known.contains_key(given.public_spaces@[i].locality_id));
            }
        }
        let ranges = encode_addresses(data.addresses, &public_spaces_map);
        let db = Database { localities: locality_names, public_spaces: public_space_names, ranges };
        proof {
            assert(is_public_space_map(
                public_spaces_map@,
                given.public_spaces@,
                db@.public_spaces,
                known,
            ));
            lemma_build_is_sound(
                db@,
                given.addresses@,
                given.public_spaces@,
                given.localities@,
                public_spaces_map@,
                known,
            );
        }
        Ok(db)
    }
}

} // verus!
