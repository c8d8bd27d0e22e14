//! One handle for both readers.

use crate::database::{Database, NumberRange};
use crate::error::DatabaseError;
use crate::gzip::{decoded_from, gzip_decoded};
use crate::lookup::{lookup_in, present};
use crate::view::{
    file_localities, file_public_spaces, file_ranges, view_error, DatabaseView,
};
use vstd::prelude::*;
use vstd::string::StringSliceAdditionalSpecFns;

verus! {

/// A loaded database: decoded into owned values, or read in place.
pub enum DatabaseHandle<'a> {
    Decoded(Database),
    View(DatabaseView<'a>),
}

/// The names from index `from` up to index `to` that are present, in
/// their order.
pub open spec fn present_names(names: Seq<Option<Seq<char>>>, from: int, to: int) -> Seq<
    Seq<char>,
>
    decreases to - from,
{
    if from >= to {
        Seq::empty()
    } else {
        match names[from] {
            Some(name) => seq![name] + present_names(names, from + 1, to),
            None => present_names(names, from + 1, to),
        }
    }
}

/// A walk through the locality names of a database, in the order of the
/// file.
pub struct Localities<'a> {
    handle: &'a DatabaseHandle<'a>,
    index: usize,
}

impl<'a> Localities<'a> {
    #[verifier::type_invariant]
    spec fn well_formed(self) -> bool {
        self.index <= self.handle.listed_count()
    }

    /// The names that the walk has yet to give.
    pub closed spec fn remaining(&self) -> Seq<Seq<char>> {
        present_names(self.handle.locality_names(), self.index as int, self.handle.listed_count())
    }

    /// The next name, or `None` at the end. A name of a file read in place
    /// whose bytes are no text is passed over.
    pub fn next(&mut self) -> (name: Option<&'a str>)
        ensures
            match name {
                Some(text) => old(self).remaining() == seq![text@] + final(self).remaining(),
                None => old(self).remaining().len() == 0 && final(self).remaining().len() == 0,
            },
    {
        proof {
            use_type_invariant(&*self);
        }
        match self.handle {
            DatabaseHandle::Decoded(db) => {
                if self.index < db.localities.len() {
                    let name = db.localities[self.index].as_str();
                    self.index = self.index + 1;
                    Some(name)
                } else {
                    None
                }
            },
            DatabaseHandle::View(view) => {
                let count = view.locality_count();
                let limit: usize = if count <= 65536 {
                    count as usize
                } else {
                    65536
                };
                while self.index < limit
                    invariant
                        self.index <= limit,
                        self.handle == old(self).handle,
                        self.handle matches DatabaseHandle::View(v) && v == view,
                        limit == self.handle.listed_count(),
                        self.remaining() == old(self).remaining(),
                    decreases limit - self.index,
                {
                    let found = view.locality_name(self.index as u16);
                    self.index = self.index + 1;
                    if found.is_some() {
                        return found;
                    }
                }
                None
            },
        }
    }
}

impl<'a> DatabaseHandle<'a> {
    /// The ranges of the database.
    pub open spec fn ranges(&self) -> Seq<NumberRange> {
        match self {
            DatabaseHandle::Decoded(db) => db@.ranges,
            DatabaseHandle::View(view) => file_ranges(view@),
        }
    }

    /// The locality names of the database. In a file read in place a name
    /// whose bytes are no text is missing.
    pub open spec fn locality_names(&self) -> Seq<Option<Seq<char>>> {
        match self {
            DatabaseHandle::Decoded(db) => present(db@.localities),
            DatabaseHandle::View(view) => file_localities(view@),
        }
    }

    /// The public-space names of the database.
    pub open spec fn public_space_names(&self) -> Seq<Option<Seq<char>>> {
        match self {
            DatabaseHandle::Decoded(db) => present(db@.public_spaces),
            DatabaseHandle::View(view) => file_public_spaces(view@),
        }
    }

    /// How many of the locality names `localities` goes through: all of an
    /// owned database, and those with a 16-bit index of a file read in
    /// place.
    pub open spec fn listed_count(&self) -> int {
        match self {
            DatabaseHandle::Decoded(db) => db@.localities.len() as int,
            DatabaseHandle::View(view) => if file_localities(view@).len() <= 65536 {
                file_localities(view@).len() as int
            } else {
                65536
            },
        }
    }

    /// True when the database holds no range.
    pub fn is_empty(&self) -> (empty: bool)
        ensures
            empty <==> self.ranges().len() == 0,
    {
        match self {
            DatabaseHandle::Decoded(db) => db.is_empty(),
            DatabaseHandle::View(view) => view.is_empty(),
        }
    }

    /// A walk through all locality names in the order of the file.
    pub fn localities(&'a self) -> (names: Localities<'a>)
        ensures
            names.remaining() == present_names(self.locality_names(), 0, self.listed_count()),
    {
        Localities { handle: self, index: 0 }
    }

    /// Look an address up by postal code and house number.
    pub fn lookup(&self, postalcode: &str, house_number: u32) -> (found: Option<(&str, &str)>)
        ensures
            match found {
                Some((public_space, locality)) => lookup_in(
                    self.ranges(),
                    self.public_space_names(),
                    self.locality_names(),
                    postalcode.spec_bytes(),
                    house_number,
                ) == Some((public_space@, locality@)),
                None => lookup_in(
                    self.ranges(),
                    self.public_space_names(),
                    self.locality_names(),
                    postalcode.spec_bytes(),
                    house_number,
                ) is None,
            },
    {
        self.lookup_bytes(postalcode.as_bytes(), house_number)
    }

    /// Look an address up by the bytes of a postal code and a house
    /// number.
    pub fn lookup_bytes(&self, postalcode: &[u8], house_number: u32) -> (found: Option<
        (&str, &str),
    >)
        ensures
            match found {
                Some((public_space, locality)) => lookup_in(
                    self.ranges(),
                    self.public_space_names(),
                    self.locality_names(),
                    postalcode@,
                    house_number,
                ) == Some((public_space@, locality@)),
                None => lookup_in(
                    self.ranges(),
                    self.public_space_names(),
                    self.locality_names(),
                    postalcode@,
                    house_number,
                ) is None,
            },
    {
        match self {
            DatabaseHandle::Decoded(db) => db.lookup_bytes(postalcode, house_number),
            DatabaseHandle::View(view) => view.lookup_bytes(postalcode, house_number),
        }
    }

    /// Load a database from the bytes of a plain file, to be read in
    /// place.
    pub fn load(bytes: &'a [u8]) -> (r: Result<DatabaseHandle<'a>, DatabaseError>)
        ensures
            match r {
                Ok(handle) => {
                    &&& view_error(bytes@) is None
                    &&& handle matches DatabaseHandle::View(view)
                    &&& view@ == bytes@
                },
                Err(e) => view_error(bytes@) == Some(e),
            },
    {
        match DatabaseView::from_bytes(bytes) {
            Ok(view) => Ok(DatabaseHandle::View(view)),
            Err(e) => Err(e),
        }
    }

    /// Load a database from the bytes of a gzip-compressed file, decoded
    /// into owned values.
    pub fn load_compressed(compressed: &[u8]) -> (r: Result<DatabaseHandle<'a>, DatabaseError>)
        ensures
            match r {
                Ok(handle) => {
                    &&& handle matches DatabaseHandle::Decoded(db)
                    &&& decoded_from(gzip_decoded(compressed@)) == Ok::<_, DatabaseError>(db@)
                },
                Err(e) => decoded_from(gzip_decoded(compressed@)) == Err::<
                    crate::database::DatabaseContent,
                    _,
                >(e),
            },
    {
        match Database::from_compressed(compressed) {
            Ok(db) => Ok(DatabaseHandle::Decoded(db)),
            Err(e) => Err(e),
        }
    }
}

} // verus!
