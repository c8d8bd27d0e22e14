//! Reading records out of the events of an XML document.
//!
//! The parser is a state machine. Whoever reads the document hands it one
//! event after the other, up to and including the end of the document, and
//! gets back what each event brought: nothing, a record, or a notice.
//!
//! A record starts with its element. Inside it, every element that stands
//! for a field is read up to its end tag, and the last text in it is the
//! content of the field. The end tag of the record, or the end of the
//! document, closes the record.

use crate::assembly::{
    address_field, address_field_of, is_address_record, is_locality_record,
    is_public_space_record, locality_field, locality_field_of, named, public_space_field,
    public_space_field_of, AddressDraft, AddressField, AddressOutcome, LocalityDraft,
    LocalityField, PublicSpaceDraft, PublicSpaceField,
};
use crate::order::bytes_eq;
use crate::records::{Address, Locality, PublicSpace};
use vstd::prelude::*;

verus! {

/// An event of an XML document, as far as the parser tells events apart.
pub enum XmlEvent {
    /// A start tag with the name of its element.
    Start(Vec<u8>),
    /// An end tag with the name of its element.
    End(Vec<u8>),
    /// Text or character data.
    Text(String),
    /// The end of the document.
    Eof,
    /// Anything else.
    Other,
}

/// The kind of record that a parser reads.
#[derive(Debug, Clone, Copy, PartialEq, Eq, Structural)]
pub enum RecordKind {
    Address,
    Locality,
    PublicSpace,
}

/// A record in the making.
pub enum Draft {
    Address(AddressDraft),
    Locality(LocalityDraft),
    PublicSpace(PublicSpaceDraft),
}

/// A field of a record.
#[derive(Debug, Clone, Copy, PartialEq, Eq, Structural)]
pub enum Field {
    Address(AddressField),
    Locality(LocalityField),
    PublicSpace(PublicSpaceField),
}

/// What an event brought.
pub enum Feedback {
    /// Nothing to pass on.
    Nothing,
    /// An address.
    Address(Address),
    /// A locality.
    Locality(Locality),
    /// A public space.
    PublicSpace(PublicSpace),
    /// An address was passed over because this text stood where its house
    /// number should.
    InvalidHouseNumber(String),
    /// The number of a locality is no 16-bit number. The document cannot
    /// be read any further.
    Failed,
}

/// Where the parser stands in the document.
pub enum Position {
    /// Between records.
    Outside,
    /// Inside a record.
    InRecord(Draft),
    /// Inside the element `tag`, which stands for `field`. `content` is the
    /// last text seen in it.
    InField { draft: Draft, field: Field, tag: Vec<u8>, content: Option<String> },
    /// Behind the end of the document, or behind a failure.
    Done,
}

/// A parser for the records of one kind.
pub struct RecordParser {
    pub kind: RecordKind,
    pub position: Position,
}

/// The element is a record of the kind.
pub open spec fn is_record_of(kind: RecordKind, tag: Seq<u8>) -> bool {
    match kind {
        RecordKind::Address => named(tag, "Objecten:Nummeraanduiding"),
        RecordKind::Locality => named(tag, "Objecten:Woonplaats"),
        RecordKind::PublicSpace => named(tag, "Objecten:OpenbareRuimte"),
    }
}

/// The field of a record of the kind that the element stands for.
pub open spec fn field_of(kind: RecordKind, tag: Seq<u8>) -> Option<Field> {
    match kind {
        RecordKind::Address => match address_field_of(tag) {
            Some(field) => Some(Field::Address(field)),
            None => None,
        },
        RecordKind::Locality => match locality_field_of(tag) {
            Some(field) => Some(Field::Locality(field)),
            None => None,
        },
        RecordKind::PublicSpace => match public_space_field_of(tag) {
            Some(field) => Some(Field::PublicSpace(field)),
            None => None,
        },
    }
}

/// A draft of the kind that has seen nothing.
pub open spec fn fresh_draft(kind: RecordKind) -> Draft {
    match kind {
        RecordKind::Address => Draft::Address(
            AddressDraft {
                id: None,
                house_number: None,
                house_letter: None,
                house_number_addition: None,
                postal_code: None,
                public_space_id: None,
                expired: false,
                issued: false,
                invalid: None,
            },
        ),
        RecordKind::Locality => Draft::Locality(
            LocalityDraft { id: None, name: None, expired: false },
        ),
        RecordKind::PublicSpace => Draft::PublicSpace(
            PublicSpaceDraft {
                id: None,
                name: None,
                locality_id: None,
                expired: false,
                issued: false,
            },
        ),
    }
}

impl Draft {
    /// Whether the field can be taken in. A field of another kind of record
    /// is passed over.
    pub open spec fn takes(self, field: Field, content: Option<String>) -> bool {
        match (self, field) {
            (Draft::Locality(_), Field::Locality(f)) => LocalityDraft::takes(f, content),
            (Draft::PublicSpace(_), Field::PublicSpace(f)) => PublicSpaceDraft::takes(f, content),
            _ => true,
        }
    }

    /// The draft with the field taken in.
    pub open spec fn after(self, field: Field, content: Option<String>) -> Draft {
        match (self, field) {
            (Draft::Address(draft), Field::Address(f)) => Draft::Address(draft.after(f, content)),
            (Draft::Locality(draft), Field::Locality(f)) => Draft::Locality(
                draft.after(f, content),
            ),
            (Draft::PublicSpace(draft), Field::PublicSpace(f)) => Draft::PublicSpace(
                draft.after(f, content),
            ),
            _ => self,
        }
    }

    /// What the closed record brings.
    pub open spec fn outcome(self) -> Feedback {
        match self {
            Draft::Address(draft) => match draft.outcome() {
                AddressOutcome::Record(address) => Feedback::Address(address),
                AddressOutcome::InvalidHouseNumber(text) => Feedback::InvalidHouseNumber(text),
                AddressOutcome::Skipped => Feedback::Nothing,
            },
            Draft::Locality(draft) => match draft.outcome() {
                Some(locality) => Feedback::Locality(locality),
                None => Feedback::Nothing,
            },
            Draft::PublicSpace(draft) => match draft.outcome() {
                Some(public_space) => Feedback::PublicSpace(public_space),
                None => Feedback::Nothing,
            },
        }
    }

    /// A draft of the kind that has seen nothing.
    pub fn new(kind: RecordKind) -> (draft: Draft)
        ensures
            draft == fresh_draft(kind),
    {
        match kind {
            RecordKind::Address => Draft::Address(AddressDraft::new()),
            RecordKind::Locality => Draft::Locality(LocalityDraft::new()),
            RecordKind::PublicSpace => Draft::PublicSpace(PublicSpaceDraft::new()),
        }
    }

    /// Take a field in. The second result is `false` where the field
    /// cannot be taken.
    pub fn accept(self, field: Field, content: Option<String>) -> (r: (Draft, bool))
        ensures
            r.0 == self.after(field, content),
            r.1 == self.takes(field, content),
    {
        match self {
            Draft::Address(mut draft) => match field {
                Field::Address(f) => {
                    draft.accept(f, content);
                    (Draft::Address(draft), true)
                },
                _ => (Draft::Address(draft), true),
            },
            Draft::Locality(mut draft) => match field {
                Field::Locality(f) => {
                    let taken = draft.accept(f, content);
                    (Draft::Locality(draft), taken)
                },
                _ => (Draft::Locality(draft), true),
            },
            Draft::PublicSpace(mut draft) => match field {
                Field::PublicSpace(f) => {
                    let taken = draft.accept(f, content);
                    (Draft::PublicSpace(draft), taken)
                },
                _ => (Draft::PublicSpace(draft), true),
            },
        }
    }

    /// Close the record.
    pub fn finish(self) -> (feedback: Feedback)
        ensures
            feedback == self.outcome(),
    {
        match self {
            Draft::Address(draft) => match draft.finish() {
                AddressOutcome::Record(address) => Feedback::Address(address),
                AddressOutcome::InvalidHouseNumber(text) => Feedback::InvalidHouseNumber(text),
                AddressOutcome::Skipped => Feedback::Nothing,
            },
            Draft::Locality(draft) => match draft.finish() {
                Some(locality) => Feedback::Locality(locality),
                None => Feedback::Nothing,
            },
            Draft::PublicSpace(draft) => match draft.finish() {
                Some(public_space) => Feedback::PublicSpace(public_space),
                None => Feedback::Nothing,
            },
        }
    }
}

/// Whether the element is a record of the kind.
fn is_record(kind: RecordKind, tag: &[u8]) -> (r: bool)
    ensures
        r == is_record_of(kind, tag@),
{
    match kind {
        RecordKind::Address => is_address_record(tag),
        RecordKind::Locality => is_locality_record(tag),
        RecordKind::PublicSpace => is_public_space_record(tag),
    }
}

/// The field of a record of the kind that the element stands for, if any.
fn field_for(kind: RecordKind, tag: &[u8]) -> (field: Option<Field>)
    ensures
        field == field_of(kind, tag@),
{
    match kind {
        RecordKind::Address => match address_field(tag) {
            Some(field) => Some(Field::Address(field)),
            None => None,
        },
        RecordKind::Locality => match locality_field(tag) {
            Some(field) => Some(Field::Locality(field)),
            None => None,
        },
        RecordKind::PublicSpace => match public_space_field(tag) {
            Some(field) => Some(Field::PublicSpace(field)),
            None => None,
        },
    }
}

/// Where the parser stands, and what it passes on, once the field that it
/// was in is closed, at the end of the document or before it.
pub open spec fn field_closed(
    draft: Draft,
    field: Field,
    content: Option<String>,
    at_end: bool,
) -> (Position, Feedback) {
    if !draft.takes(field, content) {
        (Position::Done, Feedback::Failed)
    } else if at_end {
        (Position::Done, draft.after(field, content).outcome())
    } else {
        (Position::InRecord(draft.after(field, content)), Feedback::Nothing)
    }
}

impl RecordParser {
    /// The parser after the event, and what the event brought.
    pub open spec fn after(self, event: XmlEvent) -> (RecordParser, Feedback) {
        let (position, feedback) = match self.position {
            Position::Outside => match event {
                XmlEvent::Start(tag) => if is_record_of(self.kind, tag@) {
                    (Position::InRecord(fresh_draft(self.kind)), Feedback::Nothing)
                } else {
                    (Position::Outside, Feedback::Nothing)
                },
                XmlEvent::Eof => (Position::Done, Feedback::Nothing),
                _ => (Position::Outside, Feedback::Nothing),
            },
            Position::InRecord(draft) => match event {
                XmlEvent::Start(tag) => match field_of(self.kind, tag@) {
                    Some(field) => (
                        Position::InField { draft, field, tag, content: None },
                        Feedback::Nothing,
                    ),
                    None => (Position::InRecord(draft), Feedback::Nothing),
                },
                XmlEvent::End(tag) => if is_record_of(self.kind, tag@) {
                    (Position::Outside, draft.outcome())
                } else {
                    (Position::InRecord(draft), Feedback::Nothing)
                },
                XmlEvent::Eof => (Position::Done, draft.outcome()),
                _ => (Position::InRecord(draft), Feedback::Nothing),
            },
            Position::InField { draft, field, tag, content } => match event {
                XmlEvent::Text(text) => (
                    Position::InField { draft, field, tag, content: Some(text) },
                    Feedback::Nothing,
                ),
                XmlEvent::End(name) => if name@ == tag@ {
                    field_closed(draft, field, content, false)
                } else {
                    (Position::InField { draft, field, tag, content }, Feedback::Nothing)
                },
                XmlEvent::Eof => field_closed(draft, field, content, true),
                _ => (Position::InField { draft, field, tag, content }, Feedback::Nothing),
            },
            Position::Done => (Position::Done, Feedback::Nothing),
        };
        (RecordParser { kind: self.kind, position }, feedback)
    }

    /// A parser for the records of a kind, at the start of a document.
    pub fn new(kind: RecordKind) -> (parser: RecordParser)
        ensures
            parser == (RecordParser { kind, position: Position::Outside }),
    {
        RecordParser { kind, position: Position::Outside }
    }

    /// Whether the parser has seen the end of the document, or has failed.
    pub fn is_done(&self) -> (done: bool)
        ensures
            done == (self.position is Done),
    {
        match self.position {
            Position::Done => true,
            _ => false,
        }
    }

    /// Take the next event in.
    pub fn feed(self, event: XmlEvent) -> (r: (RecordParser, Feedback))
        ensures
            r == self.after(event),
    {
        let kind = self.kind;
        let (position, feedback) = match self.position {
            Position::Outside => match event {
                XmlEvent::Start(tag) => if is_record(kind, tag.as_slice()) {
                    (Position::InRecord(Draft::new(kind)), Feedback::Nothing)
                } else {
                    (Position::Outside, Feedback::Nothing)
                },
                XmlEvent::Eof => (Position::Done, Feedback::Nothing),
                _ => (Position::Outside, Feedback::Nothing),
            },
            Position::InRecord(draft) => match event {
                XmlEvent::Start(tag) => match field_for(kind, tag.as_slice()) {
                    Some(field) => (
                        Position::InField { draft, field, tag, content: None },
                        Feedback::Nothing,
                    ),
                    None => (Position::InRecord(draft), Feedback::Nothing),
                },
                XmlEvent::End(tag) => if is_record(kind, tag.as_slice()) {
                    (Position::Outside, draft.finish())
                } else {
                    (Position::InRecord(draft), Feedback::Nothing)
                },
                XmlEvent::Eof => (Position::Done, draft.finish()),
                _ => (Position::InRecord(draft), Feedback::Nothing),
            },
            Position::InField { draft, field, tag, content } => match event {
                XmlEvent::Text(text) => (
                    Position::InField { draft, field, tag, content: Some(text) },
                    Feedback::Nothing,
                ),
                XmlEvent::End(name) => if bytes_eq(name.as_slice(), tag.as_slice()) {
                    close_field(draft, field, content, false)
                } else {
                    (Position::InField { draft, field, tag, content }, Feedback::Nothing)
                },
                XmlEvent::Eof => close_field(draft, field, content, true),
                _ => (Position::InField { draft, field, tag, content }, Feedback::Nothing),
            },
            Position::Done => (Position::Done, Feedback::Nothing),
        };
        (RecordParser { kind, position }, feedback)
    }
}

/// Close the field that the parser was in.
fn close_field(draft: Draft, field: Field, content: Option<String>, at_end: bool) -> (r: (
    Position,
    Feedback,
))
    ensures
        r == field_closed(draft, field, content, at_end),
{
    let (draft, taken) = draft.accept(field, content);
    if !taken {
        (Position::Done, Feedback::Failed)
    } else if at_end {
        (Position::Done, draft.finish())
    } else {
        (Position::InRecord(draft), Feedback::Nothing)
    }
}

} // verus!
