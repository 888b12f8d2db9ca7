use mmq::records::collect;
use mmq::{Asn, ConnectionType, Domain, LookupResult, Record};

fn asn(n: u32) -> Asn {
    Asn { autonomous_system_number: Some(n), autonomous_system_organization: None }
}

#[test]
fn new_result_is_empty() {
    let r = LookupResult::new();
    assert!(r.is_empty());
    assert!(r.city().is_none());
    assert!(r.country().is_none());
    assert!(r.asn().is_none());
    assert!(r.isp().is_none());
    assert!(r.domain().is_none());
    assert!(r.connection_type().is_none());
}

#[test]
fn store_fills_the_slot_of_its_kind() {
    let mut r = LookupResult::new();
    r.store(Record::Domain(Some(Domain { domain: Some("example.com".to_string()) })));
    assert!(!r.is_empty());
    assert_eq!(r.domain().unwrap().domain.as_deref(), Some("example.com"));
    assert!(r.asn().is_none());
    r.store(Record::ConnectionType(None));
    assert!(r.connection_type().is_none());
    assert!(r.domain().is_some());
    r.store(Record::Domain(Some(Domain { domain: Some("example.org".to_string()) })));
    assert_eq!(r.domain().unwrap().domain.as_deref(), Some("example.org"));
}

#[test]
fn last_found_record_of_a_kind_wins() {
    let r = collect(vec![Record::Asn(Some(asn(1))), Record::Asn(Some(asn(2)))]);
    assert_eq!(r.asn().unwrap().autonomous_system_number, Some(2));
}

#[test]
fn answer_without_record_keeps_found_record() {
    let r = collect(vec![Record::Asn(Some(asn(1))), Record::ConnectionType(None), Record::Asn(None)]);
    assert_eq!(r.asn().unwrap().autonomous_system_number, Some(1));
    assert!(r.connection_type().is_none());
    assert!(!r.is_empty());
    let mut r = LookupResult::new();
    r.store(Record::Asn(Some(asn(7))));
    r.store(Record::Asn(None));
    assert_eq!(r.asn().unwrap().autonomous_system_number, Some(7));
}

#[test]
fn answers_without_records_leave_result_empty() {
    let r = collect(vec![Record::City(None), Record::Country(None), Record::Isp(None)]);
    assert!(r.is_empty());
    let r = collect(vec![Record::ConnectionType(Some(ConnectionType { connection_type: None }))]);
    assert!(!r.is_empty());
}
