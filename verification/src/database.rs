//! The database as owned values.

use crate::wire::{u16_at, u32_at};
use vstd::prelude::*;

verus! {

/// A run of consecutive house numbers, `start ..= start + length`, that
/// share a postal code, a public space and a locality.
#[derive(Debug, Clone, Copy, PartialEq, Eq, Structural)]
pub struct NumberRange {
    pub postal_code: u32,
    pub start: u32,
    pub length: u16,
    pub public_space_index: u32,
    pub locality_index: u16,
}

impl NumberRange {
    /// The last house number of the range. It stops at `u32::MAX` where
    /// `start + length` would pass it.
    pub open spec fn end(self) -> int {
        if self.start + self.length <= u32::MAX {
            self.start + self.length
        } else {
            u32::MAX as int
        }
    }

    /// The range holds the house number.
    pub open spec fn covers(self, house_number: u32) -> bool {
        self.start <= house_number <= self.end()
    }
}

/// The database in memory: the sorted names and the sorted ranges.
pub struct Database {
    pub localities: Vec<String>,
    pub public_spaces: Vec<String>,
    pub ranges: Vec<NumberRange>,
}

/// What a database holds, as mathematical values.
pub struct DatabaseContent {
    pub localities: Seq<Seq<char>>,
    pub public_spaces: Seq<Seq<char>>,
    pub ranges: Seq<NumberRange>,
}

/// The texts of a list of names.
pub open spec fn texts(names: Seq<String>) -> Seq<Seq<char>> {
    Seq::new(names.len(), |i: int| names[i]@)
}

impl View for Database {
    type V = DatabaseContent;

    open spec fn view(&self) -> DatabaseContent {
        DatabaseContent {
            localities: texts(self.localities@),
            public_spaces: texts(self.public_spaces@),
            ranges: self.ranges@,
        }
    }
}

/// The range record of 16 bytes that starts at `base`.
pub open spec fn range_record(bytes: Seq<u8>, base: int) -> NumberRange {
    NumberRange {
        postal_code: u32_at(bytes, base),
        start: u32_at(bytes, base + 4),
        length: u16_at(bytes, base + 8),
        public_space_index: u32_at(bytes, base + 10),
        locality_index: u16_at(bytes, base + 14),
    }
}

impl Database {
    /// True when the database holds no range.
    pub fn is_empty(&self) -> (empty: bool)
        ensures
            empty <==> self@.ranges.len() == 0,
    {
        self.ranges.len() == 0
    }

    /// The name of the locality at `index`, if there is one.
    pub fn locality_name(&self, index: u16) -> (name: Option<&str>)
        ensures
            name is Some <==> index < self@.localities.len(),
            name matches Some(s) ==> s@ == self@.localities[index as int],
    {
        if (index as usize) < self.localities.len() {
            Some(self.localities[index as usize].as_str())
        } else {
            None
        }
    }

    /// The name of the public space at `index`, if there is one.
    pub fn public_space_name(&self, index: u32) -> (name: Option<&str>)
        ensures
            name is Some <==> index < self@.public_spaces.len(),
            name matches Some(s) ==> s@ == self@.public_spaces[index as int],
    {
        if (index as usize) < self.public_spaces.len() {
            Some(self.public_spaces[index as usize].as_str())
        } else {
            None
        }
    }
}

} // verus!
