use bag_address_lookup::parser::{Feedback, Position, RecordKind, RecordParser, XmlEvent};
use bag_address_lookup::{Address, Locality, PublicSpace};

fn start(name: &str) -> XmlEvent {
    XmlEvent::Start(name.as_bytes().to_vec())
}

fn end(name: &str) -> XmlEvent {
    XmlEvent::End(name.as_bytes().to_vec())
}

fn text(value: &str) -> XmlEvent {
    XmlEvent::Text(value.to_string())
}

fn field(name: &str, value: &str) -> Vec<XmlEvent> {
    vec![start(name), text(value), end(name)]
}

fn run(kind: RecordKind, events: Vec<XmlEvent>) -> (Vec<Feedback>, bool) {
    let mut parser = RecordParser::new(kind);
    let mut brought = Vec::new();
    for event in events {
        let (next, feedback) = parser.feed(event);
        parser = next;
        if !matches!(feedback, Feedback::Nothing) {
            brought.push(feedback);
        }
    }
    (brought, parser.is_done())
}

fn issued_address(number: &str) -> Vec<XmlEvent> {
    let mut events = vec![start("Objecten:Nummeraanduiding")];
    events.extend(field("Objecten:identificatie", "0003200000134001"));
    events.extend(field("Objecten:huisnummer", number));
    events.extend(field("Objecten:postcode", "1234AB"));
    events.extend(field("Objecten:status", "Naamgeving uitgegeven"));
    events.push(start("Objecten:ligtAan"));
    events.extend(field("Objecten-ref:OpenbareRuimteRef", "0003300000116985"));
    events.push(end("Objecten:ligtAan"));
    events
}

fn expected_address(number: u32) -> Address {
    Address {
        id: "0003200000134001".to_string(),
        house_number: number,
        house_letter: None,
        house_number_addition: None,
        postal_code: "1234AB".to_string(),
        public_space_id: "0003300000116985".to_string(),
    }
}

#[test]
fn addresses_are_read_out_of_a_document() {
    let mut events = vec![XmlEvent::Other, start("sl:standBestand"), start("sl:stand")];
    events.extend(issued_address("56"));
    events.push(end("Objecten:Nummeraanduiding"));
    events.push(end("sl:stand"));
    events.extend(issued_address("1"));
    events.push(end("Objecten:Nummeraanduiding"));
    events.push(XmlEvent::Eof);

    let (brought, done) = run(RecordKind::Address, events);

    assert!(done);
    assert_eq!(brought.len(), 2);
    assert!(matches!(&brought[0], Feedback::Address(a) if *a == expected_address(56)));
    assert!(matches!(&brought[1], Feedback::Address(a) if *a == expected_address(1)));
}

#[test]
fn a_record_is_closed_by_the_end_of_the_document() {
    let mut events = issued_address("7");
    events.push(XmlEvent::Eof);
    let (brought, done) = run(RecordKind::Address, events);
    assert!(done);
    assert_eq!(brought.len(), 1);
    assert!(matches!(&brought[0], Feedback::Address(a) if *a == expected_address(7)));

    let mut events = issued_address("7");
    events.push(start("Objecten:huisletter"));
    events.push(text("b"));
    events.push(XmlEvent::Eof);
    events.push(XmlEvent::Eof);
    let (brought, done) = run(RecordKind::Address, events);
    assert!(done);
    assert_eq!(brought.len(), 1);
    assert!(matches!(
        &brought[0],
        Feedback::Address(a) if a.house_letter == Some("b".to_string()) && a.house_number == 7
    ));
}

#[test]
fn the_last_text_of_a_field_counts() {
    let mut events = issued_address("7");
    events.push(start("Objecten:huisletter"));
    events.push(text("a"));
    events.push(start("nested"));
    events.push(text("b"));
    events.push(end("nested"));
    events.push(XmlEvent::Other);
    events.push(end("Objecten:huisletter"));
    events.push(end("Objecten:Nummeraanduiding"));
    let (brought, done) = run(RecordKind::Address, events);
    assert!(!done);
    assert!(matches!(
        &brought[0],
        Feedback::Address(a) if a.house_letter == Some("b".to_string())
    ));
}

#[test]
fn expired_and_numberless_addresses_are_passed_over() {
    let mut events = issued_address("12a");
    events.push(end("Objecten:Nummeraanduiding"));
    events.extend(issued_address("3"));
    events.push(start("Historie:eindGeldigheid"));
    events.push(end("Historie:eindGeldigheid"));
    events.push(end("Objecten:Nummeraanduiding"));
    events.push(start("Objecten:Nummeraanduiding"));
    events.push(end("Objecten:Nummeraanduiding"));
    events.push(XmlEvent::Eof);
    let (brought, done) = run(RecordKind::Address, events);
    assert!(done);
    assert_eq!(brought.len(), 1);
    assert!(matches!(&brought[0], Feedback::InvalidHouseNumber(t) if t == "12a"));
}

#[test]
fn localities_and_public_spaces_are_read() {
    let mut events = vec![start("Objecten:Woonplaats")];
    events.extend(field("Objecten:identificatie", "3386"));
    events.extend(field("Objecten:naam", "Hoogerheide"));
    events.extend(field("Objecten:status", "Woonplaats aangewezen"));
    events.push(end("Objecten:Woonplaats"));
    events.push(XmlEvent::Eof);
    let (brought, _) = run(RecordKind::Locality, events);
    assert_eq!(brought.len(), 1);
    assert!(matches!(
        &brought[0],
        Feedback::Locality(l) if *l == Locality { id: 3386, name: "Hoogerheide".to_string() }
    ));

    let mut events = vec![start("Objecten:OpenbareRuimte")];
    events.extend(field("Objecten:identificatie", "0003300000116985"));
    events.extend(field("Objecten:naam", "Abel Eppensstraat"));
    events.extend(field("Objecten:status", "Naamgeving uitgegeven"));
    events.extend(field("Objecten-ref:WoonplaatsRef", "3386"));
    events.push(end("Objecten:OpenbareRuimte"));
    events.push(XmlEvent::Eof);
    let (brought, _) = run(RecordKind::PublicSpace, events.clone_events());
    assert_eq!(brought.len(), 1);
    assert!(matches!(
        &brought[0],
        Feedback::PublicSpace(p) if *p == PublicSpace {
            id: "0003300000116985".to_string(),
            name: "Abel Eppensstraat".to_string(),
            locality_id: 3386,
        }
    ));
    let (brought, done) = run(RecordKind::Address, events);
    assert!(brought.is_empty());
    assert!(done);
}

#[test]
fn a_locality_number_that_is_no_number_stops_the_parser() {
    let mut events = vec![start("Objecten:Woonplaats")];
    events.extend(field("Objecten:identificatie", "70000"));
    events.extend(field("Objecten:naam", "Hoogerheide"));
    events.push(end("Objecten:Woonplaats"));
    let (brought, done) = run(RecordKind::Locality, events);
    assert!(done);
    assert_eq!(brought.len(), 1);
    assert!(matches!(&brought[0], Feedback::Failed));
}

#[test]
fn a_parser_starts_between_records() {
    let parser = RecordParser::new(RecordKind::Address);
    assert!(!parser.is_done());
    assert!(matches!(parser.position, Position::Outside));
    let (parser, feedback) = parser.feed(text("stray"));
    assert!(matches!(feedback, Feedback::Nothing));
    assert!(matches!(parser.position, Position::Outside));
    let (parser, _) = parser.feed(XmlEvent::Eof);
    assert!(parser.is_done());
    let (parser, feedback) = parser.feed(start("Objecten:Nummeraanduiding"));
    assert!(parser.is_done());
    assert!(matches!(feedback, Feedback::Nothing));
}

trait CloneEvents {
    fn clone_events(&self) -> Vec<XmlEvent>;
}

impl CloneEvents for Vec<XmlEvent> {
    fn clone_events(&self) -> Vec<XmlEvent> {
        self.iter()
            .map(|event| match event {
                XmlEvent::Start(tag) => XmlEvent::Start(tag.clone()),
                XmlEvent::End(tag) => XmlEvent::End(tag.clone()),
                XmlEvent::Text(text) => XmlEvent::Text(text.clone()),
                XmlEvent::Eof => XmlEvent::Eof,
                XmlEvent::Other => XmlEvent::Other,
            })
            .collect()
    }
}
