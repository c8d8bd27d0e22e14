use bag_address_lookup::assembly::{
    address_field, is_address_record, is_locality_record, is_public_space_record, locality_field,
    public_space_field, AddressDraft, AddressField, AddressOutcome, LocalityDraft, LocalityField,
    PublicSpaceDraft, PublicSpaceField,
};
use bag_address_lookup::{Address, Locality, PublicSpace};

fn text(value: &str) -> Option<String> {
    Some(value.to_string())
}

fn issued_address() -> AddressDraft {
    let mut draft = AddressDraft::new();
    draft.accept(AddressField::Id, text("0003200000134001"));
    draft.accept(AddressField::HouseNumber, text("56"));
    draft.accept(AddressField::PostalCode, text("1234AB"));
    draft.accept(AddressField::PublicSpaceRef, text("0003300000116985"));
    draft.accept(AddressField::Status, text("Naamgeving uitgegeven"));
    draft
}

#[test]
fn element_names_are_told_apart() {
    assert!(is_address_record(b"Objecten:Nummeraanduiding"));
    assert!(!is_address_record(b"Objecten:nummeraanduiding"));
    assert!(is_locality_record(b"Objecten:Woonplaats"));
    assert!(is_public_space_record(b"Objecten:OpenbareRuimte"));
    assert!(!is_public_space_record(b"Objecten:Woonplaats"));
    assert_eq!(address_field(b"Objecten:identificatie"), Some(AddressField::Id));
    assert_eq!(address_field(b"Objecten:huisnummer"), Some(AddressField::HouseNumber));
    assert_eq!(address_field(b"Objecten:huisletter"), Some(AddressField::HouseLetter));
    assert_eq!(
        address_field(b"Objecten:huisnummertoevoeging"),
        Some(AddressField::HouseNumberAddition)
    );
    assert_eq!(address_field(b"Objecten:postcode"), Some(AddressField::PostalCode));
    assert_eq!(
        address_field(b"Objecten-ref:OpenbareRuimteRef"),
        Some(AddressField::PublicSpaceRef)
    );
    assert_eq!(address_field(b"Historie:eindGeldigheid"), Some(AddressField::EndValidity));
    assert_eq!(address_field(b"Objecten:status"), Some(AddressField::Status));
    assert_eq!(address_field(b"Objecten:naam"), None);
    assert_eq!(locality_field(b"Objecten:identificatie"), Some(LocalityField::Id));
    assert_eq!(locality_field(b"Objecten:naam"), Some(LocalityField::Name));
    assert_eq!(locality_field(b"Historie:eindGeldigheid"), Some(LocalityField::EndValidity));
    assert_eq!(locality_field(b"Objecten:status"), None);
    assert_eq!(public_space_field(b"Objecten:identificatie"), Some(PublicSpaceField::Id));
    assert_eq!(public_space_field(b"Objecten:naam"), Some(PublicSpaceField::Name));
    assert_eq!(
        public_space_field(b"Objecten-ref:WoonplaatsRef"),
        Some(PublicSpaceField::LocalityRef)
    );
    assert_eq!(
        public_space_field(b"Historie:eindGeldigheid"),
        Some(PublicSpaceField::EndValidity)
    );
    assert_eq!(public_space_field(b"Objecten:status"), Some(PublicSpaceField::Status));
    assert_eq!(public_space_field(b""), None);
}

#[test]
fn an_issued_address_is_surfaced() {
    let mut draft = issued_address();
    draft.accept(AddressField::HouseLetter, text("a"));
    draft.accept(AddressField::HouseNumberAddition, None);
    match draft.finish() {
        AddressOutcome::Record(address) => assert_eq!(
            address,
            Address {
                id: "0003200000134001".to_string(),
                house_number: 56,
                house_letter: Some("a".to_string()),
                house_number_addition: None,
                postal_code: "1234AB".to_string(),
                public_space_id: "0003300000116985".to_string(),
            }
        ),
        _ => panic!("the address is complete"),
    }
}

#[test]
fn an_expired_or_unissued_address_is_skipped() {
    let mut expired = issued_address();
    expired.accept(AddressField::EndValidity, None);
    assert!(matches!(expired.finish(), AddressOutcome::Skipped));

    let mut draft = AddressDraft::new();
    draft.accept(AddressField::Id, text("1"));
    draft.accept(AddressField::HouseNumber, text("56"));
    draft.accept(AddressField::PostalCode, text("1234AB"));
    draft.accept(AddressField::PublicSpaceRef, text("2"));
    draft.accept(AddressField::Status, text("Naamgeving ingetrokken"));
    draft.accept(AddressField::Status, None);
    assert!(matches!(draft.finish(), AddressOutcome::Skipped));
}

#[test]
fn an_address_without_a_number_is_reported() {
    let mut draft = issued_address();
    draft.accept(AddressField::HouseNumber, text("12a"));
    match draft.finish() {
        AddressOutcome::InvalidHouseNumber(value) => assert_eq!(value, "12a"),
        _ => panic!("the house number is no number"),
    }
    let mut hidden = issued_address();
    hidden.accept(AddressField::HouseNumber, text("x"));
    hidden.accept(AddressField::EndValidity, text("2020-01-01"));
    assert!(matches!(hidden.finish(), AddressOutcome::Skipped));
}

#[test]
fn an_incomplete_address_is_skipped() {
    let mut draft = AddressDraft::new();
    draft.accept(AddressField::Id, text("1"));
    draft.accept(AddressField::HouseNumber, text("56"));
    draft.accept(AddressField::PostalCode, None);
    draft.accept(AddressField::PublicSpaceRef, text("2"));
    draft.accept(AddressField::Status, text("Naamgeving uitgegeven"));
    assert!(matches!(draft.finish(), AddressOutcome::Skipped));
    assert!(matches!(AddressDraft::new().finish(), AddressOutcome::Skipped));
}

#[test]
fn localities_are_put_together() {
    let mut draft = LocalityDraft::new();
    assert!(draft.accept(LocalityField::Id, text("1245")));
    assert!(draft.accept(LocalityField::Name, text("Hoogerheide")));
    assert!(draft.accept(LocalityField::Name, None));
    assert_eq!(draft.finish(), Some(Locality { id: 1245, name: "Hoogerheide".to_string() }));

    let mut expired = LocalityDraft::new();
    assert!(expired.accept(LocalityField::Id, text("1245")));
    assert!(expired.accept(LocalityField::Name, text("Hoogerheide")));
    assert!(expired.accept(LocalityField::EndValidity, text("2020-01-01")));
    assert_eq!(expired.finish(), None);

    let mut nameless = LocalityDraft::new();
    assert!(nameless.accept(LocalityField::Id, text("1245")));
    assert_eq!(nameless.finish(), None);

    let mut wrong = LocalityDraft::new();
    assert!(!wrong.accept(LocalityField::Id, text("65536")));
    assert!(!wrong.accept(LocalityField::Id, text("abc")));
    assert_eq!(wrong.id, None);
}

#[test]
fn public_spaces_are_put_together() {
    let mut draft = PublicSpaceDraft::new();
    assert!(draft.accept(PublicSpaceField::Id, text("0003300000116985")));
    assert!(draft.accept(PublicSpaceField::Name, text("Abel Eppensstraat")));
    assert!(draft.accept(PublicSpaceField::LocalityRef, text("3386")));
    assert!(draft.accept(PublicSpaceField::Status, text("Naamgeving uitgegeven")));
    assert_eq!(
        draft.finish(),
        Some(PublicSpace {
            id: "0003300000116985".to_string(),
            name: "Abel Eppensstraat".to_string(),
            locality_id: 3386,
        })
    );

    let mut unissued = PublicSpaceDraft::new();
    assert!(unissued.accept(PublicSpaceField::Id, text("1")));
    assert!(unissued.accept(PublicSpaceField::Name, text("A")));
    assert!(unissued.accept(PublicSpaceField::LocalityRef, text("2")));
    assert_eq!(unissued.finish(), None);

    let mut expired = PublicSpaceDraft::new();
    assert!(expired.accept(PublicSpaceField::Id, text("1")));
    assert!(expired.accept(PublicSpaceField::Name, text("A")));
    assert!(expired.accept(PublicSpaceField::LocalityRef, text("2")));
    assert!(expired.accept(PublicSpaceField::Status, text("Naamgeving uitgegeven")));
    assert!(expired.accept(PublicSpaceField::EndValidity, None));
    assert_eq!(expired.finish(), None);

    let mut wrong = PublicSpaceDraft::new();
    assert!(!wrong.accept(PublicSpaceField::LocalityRef, text("x")));
    assert!(wrong.accept(PublicSpaceField::LocalityRef, None));
    assert_eq!(wrong.locality_id, None);
}
