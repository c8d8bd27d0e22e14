//! Putting records together from the fields of the source register.
//!
//! The reader of the XML hands over one field at a time: the name of an
//! element and the text inside it. A draft takes the fields of one record
//! in, and says at the end whether they make a record. Only a record that
//! is issued and has no end of validity is surfaced.

use crate::decimal::{decimal_up_to, parse_u16, parse_u32};
use crate::order::bytes_eq;
use crate::records::{Address, Locality, PublicSpace};
use vstd::prelude::*;
use vstd::string::StringSliceAdditionalSpecFns;
use vstd::utf8::encode_utf8;

verus! {

/// The fields of an address element.
#[derive(Debug, Clone, Copy, PartialEq, Eq, Structural)]
pub enum AddressField {
    Id,
    HouseNumber,
    HouseLetter,
    HouseNumberAddition,
    PostalCode,
    PublicSpaceRef,
    EndValidity,
    Status,
}

/// The fields of a locality element.
#[derive(Debug, Clone, Copy, PartialEq, Eq, Structural)]
pub enum LocalityField {
    Id,
    Name,
    EndValidity,
}

/// The fields of a public-space element.
#[derive(Debug, Clone, Copy, PartialEq, Eq, Structural)]
pub enum PublicSpaceField {
    Id,
    Name,
    LocalityRef,
    EndValidity,
    Status,
}

/// The element name is the given one.
pub open spec fn named(tag: Seq<u8>, name: &str) -> bool {
    tag == name.spec_bytes()
}

/// The status text of a record that has been issued.
pub open spec fn is_issued_status(text: Seq<char>) -> bool {
    encode_utf8(text) == "Naamgeving uitgegeven".spec_bytes()
}

fn is_named(tag: &[u8], name: &str) -> (r: bool)
    ensures
        r == named(tag@, name),
{
    bytes_eq(tag, name.as_bytes())
}

/// Whether the element is an address record.
pub fn is_address_record(tag: &[u8]) -> (r: bool)
    ensures
        r == named(tag@, "Objecten:Nummeraanduiding"),
{
    is_named(tag, "Objecten:Nummeraanduiding")
}

/// Whether the element is a locality record.
pub fn is_locality_record(tag: &[u8]) -> (r: bool)
    ensures
        r == named(tag@, "Objecten:Woonplaats"),
{
    is_named(tag, "Objecten:Woonplaats")
}

/// Whether the element is a public-space record.
pub fn is_public_space_record(tag: &[u8]) -> (r: bool)
    ensures
        r == named(tag@, "Objecten:OpenbareRuimte"),
{
    is_named(tag, "Objecten:OpenbareRuimte")
}

/// The field of an address that an element name stands for.
pub open spec fn address_field_of(tag: Seq<u8>) -> Option<AddressField> {
    if named(tag, "Objecten:identificatie") {
        Some(AddressField::Id)
    } else if named(tag, "Objecten:huisnummer") {
        Some(AddressField::HouseNumber)
    } else if named(tag, "Objecten:huisletter") {
        Some(AddressField::HouseLetter)
    } else if named(tag, "Objecten:huisnummertoevoeging") {
        Some(AddressField::HouseNumberAddition)
    } else if named(tag, "Objecten:postcode") {
        Some(AddressField::PostalCode)
    } else if named(tag, "Objecten-ref:OpenbareRuimteRef") {
        Some(AddressField::PublicSpaceRef)
    } else if named(tag, "Historie:eindGeldigheid") {
        Some(AddressField::EndValidity)
    } else if named(tag, "Objecten:status") {
        Some(AddressField::Status)
    } else {
        None
    }
}

/// The field of an address that an element name stands for, if any.
pub fn address_field(tag: &[u8]) -> (field: Option<AddressField>)
    ensures
        field == address_field_of(tag@),
{
    if is_named(tag, "Objecten:identificatie") {
        Some(AddressField::Id)
    } else if is_named(tag, "Objecten:huisnummer") {
        Some(AddressField::HouseNumber)
    } else if is_named(tag, "Objecten:huisletter") {
        Some(AddressField::HouseLetter)
    } else if is_named(tag, "Objecten:huisnummertoevoeging") {
        Some(AddressField::HouseNumberAddition)
    } else if is_named(tag, "Objecten:postcode") {
        Some(AddressField::PostalCode)
    } else if is_named(tag, "Objecten-ref:OpenbareRuimteRef") {
        Some(AddressField::PublicSpaceRef)
    } else if is_named(tag, "Historie:eindGeldigheid") {
        Some(AddressField::EndValidity)
    } else if is_named(tag, "Objecten:status") {
        Some(AddressField::Status)
    } else {
        None
    }
}

/// The field of a locality that an element name stands for.
pub open spec fn locality_field_of(tag: Seq<u8>) -> Option<LocalityField> {
    if named(tag, "Objecten:identificatie") {
        Some(LocalityField::Id)
    } else if named(tag, "Objecten:naam") {
        Some(LocalityField::Name)
    } else if named(tag, "Historie:eindGeldigheid") {
        Some(LocalityField::EndValidity)
    } else {
        None
    }
}

/// The field of a locality that an element name stands for, if any.
pub fn locality_field(tag: &[u8]) -> (field: Option<LocalityField>)
    ensures
        field == locality_field_of(tag@),
{
    if is_named(tag, "Objecten:identificatie") {
        Some(LocalityField::Id)
    } else if is_named(tag, "Objecten:naam") {
        Some(LocalityField::Name)
    } else if is_named(tag, "Historie:eindGeldigheid") {
        Some(LocalityField::EndValidity)
    } else {
        None
    }
}

/// The field of a public space that an element name stands for.
pub open spec fn public_space_field_of(tag: Seq<u8>) -> Option<PublicSpaceField> {
    if named(tag, "Objecten:identificatie") {
        Some(PublicSpaceField::Id)
    } else if named(tag, "Objecten:naam") {
        Some(PublicSpaceField::Name)
    } else if named(tag, "Objecten-ref:WoonplaatsRef") {
        Some(PublicSpaceField::LocalityRef)
    } else if named(tag, "Historie:eindGeldigheid") {
        Some(PublicSpaceField::EndValidity)
    } else if named(tag, "Objecten:status") {
        Some(PublicSpaceField::Status)
    } else {
        None
    }
}

/// The field of a public space that an element name stands for, if any.
pub fn public_space_field(tag: &[u8]) -> (field: Option<PublicSpaceField>)
    ensures
        field == public_space_field_of(tag@),
{
    if is_named(tag, "Objecten:identificatie") {
        Some(PublicSpaceField::Id)
    } else if is_named(tag, "Objecten:naam") {
        Some(PublicSpaceField::Name)
    } else if is_named(tag, "Objecten-ref:WoonplaatsRef") {
        Some(PublicSpaceField::LocalityRef)
    } else if is_named(tag, "Historie:eindGeldigheid") {
        Some(PublicSpaceField::EndValidity)
    } else if is_named(tag, "Objecten:status") {
        Some(PublicSpaceField::Status)
    } else {
        None
    }
}

/// Whether a status text says that the record has been issued.
fn issued_status(text: &str) -> (r: bool)
    ensures
        r == is_issued_status(text@),
{
    bytes_eq(text.as_bytes(), "Naamgeving uitgegeven".as_bytes())
}

/// What has been seen of one address element.
pub struct AddressDraft {
    pub id: Option<String>,
    pub house_number: Option<u32>,
    pub house_letter: Option<String>,
    pub house_number_addition: Option<String>,
    pub postal_code: Option<String>,
    pub public_space_id: Option<String>,
    pub expired: bool,
    pub issued: bool,
    pub invalid: Option<String>,
}

/// What an address element comes to.
pub enum AddressOutcome {
    /// An issued, unexpired address with all its fields.
    Record(Address),
    /// An issued, unexpired address whose house number is no number: the
    /// text that stood in its place.
    InvalidHouseNumber(String),
    /// An element that is expired, not issued, or incomplete.
    Skipped,
}

/// The house number that a text spells, if it spells one.
pub open spec fn house_number_of(text: Seq<char>) -> Option<u32> {
    match decimal_up_to(encode_utf8(text), u32::MAX as int) {
        Some(value) => Some(value as u32),
        None => None,
    }
}

/// The locality number that a text spells, if it spells one.
pub open spec fn locality_number_of(text: Seq<char>) -> Option<u16> {
    match decimal_up_to(encode_utf8(text), u16::MAX as int) {
        Some(value) => Some(value as u16),
        None => None,
    }
}

impl AddressDraft {
    /// The draft with the field taken in. A field without text changes
    /// nothing, but for the end of validity, whose presence alone counts.
    pub open spec fn after(self, field: AddressField, content: Option<String>) -> AddressDraft {
        match (field, content) {
            (AddressField::EndValidity, _) => AddressDraft { expired: true, ..self },
            (_, None) => self,
            (AddressField::Id, Some(text)) => AddressDraft { id: Some(text), ..self },
            (AddressField::HouseNumber, Some(text)) => match house_number_of(text@) {
                Some(number) => AddressDraft { house_number: Some(number), ..self },
                None => AddressDraft { invalid: Some(text), ..self },
            },
            (AddressField::HouseLetter, Some(text)) => AddressDraft {
                house_letter: Some(text),
                ..self
            },
            (AddressField::HouseNumberAddition, Some(text)) => AddressDraft {
                house_number_addition: Some(text),
                ..self
            },
            (AddressField::PostalCode, Some(text)) => AddressDraft {
                postal_code: Some(text),
                ..self
            },
            (AddressField::PublicSpaceRef, Some(text)) => AddressDraft {
                public_space_id: Some(text),
                ..self
            },
            (AddressField::Status, Some(text)) => if is_issued_status(text@) {
                AddressDraft { issued: true, ..self }
            } else {
                self
            },
        }
    }

    /// What the element comes to.
    pub open spec fn outcome(self) -> AddressOutcome {
        if self.expired || !self.issued {
            AddressOutcome::Skipped
        } else if self.invalid is Some {
            AddressOutcome::InvalidHouseNumber(self.invalid->0)
        } else if self.id is Some && self.house_number is Some && self.postal_code is Some
            && self.public_space_id is Some {
            AddressOutcome::Record(
                Address {
                    id: self.id->0,
                    house_number: self.house_number->0,
                    house_letter: self.house_letter,
                    house_number_addition: self.house_number_addition,
                    postal_code: self.postal_code->0,
                    public_space_id: self.public_space_id->0,
                },
            )
        } else {
            AddressOutcome::Skipped
        }
    }

    /// A draft that has seen nothing.
    pub fn new() -> (draft: AddressDraft)
        ensures
            draft == (AddressDraft {
                id: None,
                house_number: None,
                house_letter: None,
                house_number_addition: None,
                postal_code: None,
                public_space_id: None,
                expired: false,
                issued: false,
                invalid: None,
            }),
    {
        AddressDraft {
            id: None,
            house_number: None,
            house_letter: None,
            house_number_addition: None,
            postal_code: None,
            public_space_id: None,
            expired: false,
            issued: false,
            invalid: None,
        }
    }

    /// Take a field in.
    pub fn accept(&mut self, field: AddressField, content: Option<String>)
        ensures
            *final(self) == old(self).after(field, content),
    {
        match field {
            AddressField::EndValidity => {
                self.expired = true;
            },
            AddressField::Id => {
                if let Some(text) = content {
                    self.id = Some(text);
                }
            },
            AddressField::HouseNumber => {
                if let Some(text) = content {
                    match parse_u32(text.as_str().as_bytes()) {
                        Some(number) => {
                            self.house_number = Some(number);
                        },
                        None => {
                            self.invalid = Some(text);
                        },
                    }
                }
            },
            AddressField::HouseLetter => {
                if let Some(text) = content {
                    self.house_letter = Some(text);
                }
            },
            AddressField::HouseNumberAddition => {
                if let Some(text) = content {
                    self.house_number_addition = Some(text);
                }
            },
            AddressField::PostalCode => {
                if let Some(text) = content {
                    self.postal_code = Some(text);
                }
            },
            AddressField::PublicSpaceRef => {
                if let Some(text) = content {
                    self.public_space_id = Some(text);
                }
            },
            AddressField::Status => {
                if let Some(text) = content {
                    if issued_status(text.as_str()) {
                        self.issued = true;
                    }
                }
            },
        }
    }

    /// Close the element.
    pub fn finish(self) -> (outcome: AddressOutcome)
        ensures
            outcome == self.outcome(),
    {
        if self.expired || !self.issued {
            return AddressOutcome::Skipped;
        }
        if let Some(text) = self.invalid {
            return AddressOutcome::InvalidHouseNumber(text);
        }
        match (self.id, self.house_number, self.postal_code, self.public_space_id) {
            (Some(id), Some(house_number), Some(postal_code), Some(public_space_id)) => {
                AddressOutcome::Record(
                    Address {
                        id,
                        house_number,
                        house_letter: self.house_letter,
                        house_number_addition: self.house_number_addition,
                        postal_code,
                        public_space_id,
                    },
                )
            },
            _ => AddressOutcome::Skipped,
        }
    }
}

/// What has been seen of one locality element.
pub struct LocalityDraft {
    pub id: Option<u16>,
    pub name: Option<String>,
    pub expired: bool,
}

impl LocalityDraft {
    /// Whether the field can be taken in: the number of a locality must be
    /// a 16-bit number.
    pub open spec fn takes(field: LocalityField, content: Option<String>) -> bool {
        field == LocalityField::Id && content is Some ==> locality_number_of((content->0)@) is Some
    }

    /// The draft with the field taken in.
    pub open spec fn after(self, field: LocalityField, content: Option<String>) -> LocalityDraft {
        match (field, content) {
            (LocalityField::EndValidity, _) => LocalityDraft { expired: true, ..self },
            (_, None) => self,
            (LocalityField::Id, Some(text)) => match locality_number_of(text@) {
                Some(number) => LocalityDraft { id: Some(number), ..self },
                None => self,
            },
            (LocalityField::Name, Some(text)) => LocalityDraft { name: Some(text), ..self },
        }
    }

    /// The locality that the element comes to, if it comes to one: it is
    /// not expired and has a number and a name.
    pub open spec fn outcome(self) -> Option<Locality> {
        if !self.expired && self.id is Some && self.name is Some {
            Some(Locality { id: self.id->0, name: self.name->0 })
        } else {
            None
        }
    }

    /// A draft that has seen nothing.
    pub fn new() -> (draft: LocalityDraft)
        ensures
            draft == (LocalityDraft { id: None, name: None, expired: false }),
    {
        LocalityDraft { id: None, name: None, expired: false }
    }

    /// Take a field in. The result is `false`, and the draft as it was,
    /// where the number of the locality is no 16-bit number.
    pub fn accept(&mut self, field: LocalityField, content: Option<String>) -> (taken: bool)
        ensures
            taken == Self::takes(field, content),
            *final(self) == old(self).after(field, content),
    {
        match field {
            LocalityField::EndValidity => {
                self.expired = true;
                true
            },
            LocalityField::Id => match content {
                Some(text) => match parse_u16(text.as_str().as_bytes()) {
                    Some(number) => {
                        self.id = Some(number);
                        true
                    },
                    None => false,
                },
                None => true,
            },
            LocalityField::Name => {
                if let Some(text) = content {
                    self.name = Some(text);
                }
                true
            },
        }
    }

    /// Close the element.
    pub fn finish(self) -> (locality: Option<Locality>)
        ensures
            locality == self.outcome(),
    {
        if self.expired {
            return None;
        }
        match (self.id, self.name) {
            (Some(id), Some(name)) => Some(Locality { id, name }),
            _ => None,
        }
    }
}

/// What has been seen of one public-space element.
pub struct PublicSpaceDraft {
    pub id: Option<String>,
    pub name: Option<String>,
    pub locality_id: Option<u16>,
    pub expired: bool,
    pub issued: bool,
}

impl PublicSpaceDraft {
    /// Whether the field can be taken in: the reference to a locality must
    /// be a 16-bit number.
    pub open spec fn takes(field: PublicSpaceField, content: Option<String>) -> bool {
        field == PublicSpaceField::LocalityRef && content is Some ==> locality_number_of(
            (content->0)@,
        ) is Some
    }

    /// The draft with the field taken in.
    pub open spec fn after(self, field: PublicSpaceField, content: Option<String>)
        -> PublicSpaceDraft {
        match (field, content) {
            (PublicSpaceField::EndValidity, _) => PublicSpaceDraft { expired: true, ..self },
            (_, None) => self,
            (PublicSpaceField::Id, Some(text)) => PublicSpaceDraft { id: Some(text), ..self },
            (PublicSpaceField::Name, Some(text)) => PublicSpaceDraft { name: Some(text), ..self },
            (PublicSpaceField::LocalityRef, Some(text)) => match locality_number_of(text@) {
                Some(number) => PublicSpaceDraft { locality_id: Some(number), ..self },
                None => self,
            },
            (PublicSpaceField::Status, Some(text)) => if is_issued_status(text@) {
                PublicSpaceDraft { issued: true, ..self }
            } else {
                self
            },
        }
    }

    /// The public space that the element comes to, if it comes to one: it
    /// is issued and not expired, and has an identifier, a name and a
    /// locality.
    pub open spec fn outcome(self) -> Option<PublicSpace> {
        if !self.expired && self.issued && self.id is Some && self.name is Some
            && self.locality_id is Some {
            Some(
                PublicSpace {
                    id: self.id->0,
                    name: self.name->0,
                    locality_id: self.locality_id->0,
                },
            )
        } else {
            None
        }
    }

    /// A draft that has seen nothing.
    pub fn new() -> (draft: PublicSpaceDraft)
        ensures
            draft == (PublicSpaceDraft {
                id: None,
                name: None,
                locality_id: None,
                expired: false,
                issued: false,
            }),
    {
        PublicSpaceDraft { id: None, name: None, locality_id: None, expired: false, issued: false }
    }

    /// Take a field in. The result is `false`, and the draft as it was,
    /// where the reference to the locality is no 16-bit number.
    pub fn accept(&mut self, field: PublicSpaceField, content: Option<String>) -> (taken: bool)
        ensures
            taken == Self::takes(field, content),
            *final(self) == old(self).after(field, content),
    {
        match field {
            PublicSpaceField::EndValidity => {
                self.expired = true;
                true
            },
            PublicSpaceField::Id => {
                if let Some(text) = content {
                    self.id = Some(text);
                }
                true
            },
            PublicSpaceField::Name => {
                if let Some(text) = content {
                    self.name = Some(text);
                }
                true
            },
            PublicSpaceField::LocalityRef => match content {
                Some(text) => match parse_u16(text.as_str().as_bytes()) {
                    Some(number) => {
                        self.locality_id = Some(number);
                        true
                    },
                    None => false,
                },
                None => true,
            },
            PublicSpaceField::Status => {
                if let Some(text) = content {
                    if issued_status(text.as_str()) {
                        self.issued = true;
                    }
                }
                true
            },
        }
    }

    /// Close the element.
    pub fn finish(self) -> (public_space: Option<PublicSpace>)
        ensures
            public_space == self.outcome(),
    {
        if self.expired || !self.issued {
            return None;
        }
        match (self.id, self.name, self.locality_id) {
            (Some(id), Some(name), Some(locality_id)) => Some(
                PublicSpace { id, name, locality_id },
            ),
            _ => None,
        }
    }
}

} // verus!
