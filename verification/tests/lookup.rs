use mmq::lookup::classify_database_type;
use mmq::records::{Asn, Domain};
use mmq::{open, DatabaseSource, DatabaseType, Lookup, LookupError, Record};

/// A database file to open: its path, and the type its metadata names with
/// the reader it gives, or the error opening it gives.
type File = (&'static str, Result<(&'static str, u32), &'static str>);

fn opened(path: &'static str, database_type: &'static str, reader: u32) -> File {
    (path, Ok((database_type, reader)))
}

fn failed(path: &'static str, error: &'static str) -> File {
    (path, Err(error))
}

fn load(file: &File) -> DatabaseSource<u32, String> {
    match file.1 {
        Ok((database_type, reader)) => DatabaseSource::Opened {
            path: file.0.to_string(),
            key: file.0.replace("/./", "/"),
            database_type: database_type.to_string(),
            reader,
        },
        Err(error) => DatabaseSource::Failed { path: file.0.to_string(), error: error.to_string() },
    }
}

fn open_files(files: Vec<File>) -> Result<Lookup<u32>, LookupError<String>> {
    open(files, load)
}

fn kind(name: &str) -> Result<DatabaseType, LookupError<String>> {
    classify_database_type::<String>(name)
}

#[test]
fn classifies_maxmind_database_types() {
    assert_eq!(kind("GeoIP2-City").unwrap(), DatabaseType::City);
    assert_eq!(kind("GeoLite2-City").unwrap(), DatabaseType::City);
    assert_eq!(kind("GeoLite2-Country").unwrap(), DatabaseType::Country);
    assert_eq!(kind("GeoLite2-ASN").unwrap(), DatabaseType::Asn);
    assert_eq!(kind("GeoIP2-ISP").unwrap(), DatabaseType::Isp);
    assert_eq!(kind("GeoIP2-Domain").unwrap(), DatabaseType::Domain);
    assert_eq!(kind("GeoIP2-Connection-Type").unwrap(), DatabaseType::ConnectionType);
}

#[test]
fn city_takes_precedence() {
    assert_eq!(kind("Country-City-ASN").unwrap(), DatabaseType::City);
    assert_eq!(kind("ISP-ASN").unwrap(), DatabaseType::Asn);
}

#[test]
fn unsupported_type_is_reported_lowercased() {
    match kind("GeoIP2-Anonymous-IP") {
        Err(LookupError::UnsupportedDatabaseType(t)) => assert_eq!(t, "geoip2-anonymous-ip"),
        other => panic!("unexpected {:?}", other),
    }
    assert!(matches!(kind("GeoIP2-Enterprise"), Err(LookupError::UnsupportedDatabaseType(_))));
}

#[test]
fn opens_all_databases_keyed_by_path() {
    let lookup = open_files(vec![opened("a.mmdb", "GeoLite2-City", 1), opened("b.mmdb", "GeoLite2-ASN", 2)]).unwrap();
    let dbs = lookup.databases();
    assert_eq!(dbs.len(), 2);
    assert_eq!(dbs[0].path, "a.mmdb");
    assert_eq!(dbs[0].kind, DatabaseType::City);
    assert_eq!(dbs[0].reader, 1);
    assert_eq!(dbs[1].kind, DatabaseType::Asn);
}

#[test]
fn same_path_keeps_one_entry() {
    let lookup = Lookup::open(
        vec![
            opened("a.mmdb", "GeoLite2-City", 1),
            opened("b.mmdb", "GeoLite2-ASN", 2),
            opened("a.mmdb", "GeoLite2-Country", 3),
        ],
        load,
    )
    .unwrap();
    let dbs = lookup.databases();
    assert_eq!(dbs.len(), 2);
    assert_eq!(dbs[0].path, "a.mmdb");
    assert_eq!(dbs[0].kind, DatabaseType::Country);
    assert_eq!(dbs[0].reader, 3);
}

#[test]
fn first_failure_is_reported() {
    let r = open_files(vec![
        opened("a.mmdb", "GeoLite2-City", 1),
        opened("b.mmdb", "Something-Else", 2),
        failed("c.mmdb", "missing"),
    ]);
    assert!(matches!(r, Err(LookupError::UnsupportedDatabaseType(t)) if t == "something-else"));
    let r = open_files(vec![failed("c.mmdb", "missing"), opened("b.mmdb", "Something-Else", 2)]);
    match r {
        Err(LookupError::Open { path, source }) => {
            assert_eq!(path, "c.mmdb");
            assert_eq!(source, "missing");
        }
        other => panic!("unexpected {:?}", other),
    }
}

#[test]
fn no_databases_is_fine() {
    let lookup = open_files(vec![]).unwrap();
    assert!(lookup.databases().is_empty());
    assert!(lookup.verify_dbs(|_| Err::<(), String>("never asked".to_string())).is_ok());
}

#[test]
fn verification_stops_at_first_error() {
    let lookup = open_files(vec![
        opened("a", "GeoLite2-City", 1),
        opened("b", "GeoLite2-ASN", 2),
        opened("c", "GeoIP2-Domain", 3),
    ])
    .unwrap();
    let asked = std::cell::RefCell::new(Vec::new());
    let r = lookup.verify_dbs(|reader: &u32| {
        asked.borrow_mut().push(*reader);
        if *reader == 2 { Err(format!("bad {}", reader)) } else { Ok(()) }
    });
    assert_eq!(r, Err("bad 2".to_string()));
    assert_eq!(*asked.borrow(), vec![1, 2]);
    assert!(lookup.verify_dbs(|_: &u32| Ok::<(), String>(())).is_ok());
}

#[test]
fn get_collects_answers() {
    let lookup = open_files(vec![opened("a", "GeoLite2-ASN", 1), opened("b", "GeoIP2-Domain", 2)]).unwrap();
    let result = lookup
        .get(|kind, reader: &u32| match kind {
            DatabaseType::Asn => Ok::<Record, String>(Record::Asn(Some(Asn {
                autonomous_system_number: Some(15169),
                autonomous_system_organization: Some("GOOGLE".to_string()),
            }))),
            _ => Ok(Record::Domain(Some(Domain { domain: Some(format!("d{}", reader)) }))),
        })
        .unwrap();
    assert_eq!(result.asn().unwrap().autonomous_system_number, Some(15169));
    assert_eq!(result.domain().unwrap().domain.as_deref(), Some("d2"));
    assert!(result.city().is_none());
    let failing = lookup.get(|kind, _: &u32| match kind {
        DatabaseType::Domain => Err("lookup failed".to_string()),
        _ => Ok(Record::Asn(None)),
    });
    assert_eq!(failing.unwrap_err(), "lookup failed");
}

#[test]
fn opening_stops_at_first_failure() {
    let loaded = std::cell::RefCell::new(Vec::new());
    let r = open(
        vec![
            opened("a", "GeoLite2-City", 1),
            opened("b", "GeoIP2-Anonymous-IP", 2),
            opened("c", "GeoLite2-ASN", 3),
        ],
        |file: &File| {
            loaded.borrow_mut().push(file.0);
            load(file)
        },
    );
    assert!(matches!(r, Err(LookupError::UnsupportedDatabaseType(_))));
    assert_eq!(*loaded.borrow(), vec!["a", "b"]);
}

#[test]
fn get_stops_at_first_error() {
    let lookup = open_files(vec![
        opened("a", "GeoLite2-ASN", 1),
        opened("b", "GeoIP2-Domain", 2),
        opened("c", "GeoIP2-Domain", 3),
    ])
    .unwrap();
    let asked = std::cell::RefCell::new(Vec::new());
    let r = lookup.get(|kind, reader: &u32| {
        asked.borrow_mut().push(*reader);
        match kind {
            DatabaseType::Domain => Err(format!("failed at {}", reader)),
            _ => Ok(Record::Asn(None)),
        }
    });
    assert_eq!(r.unwrap_err(), "failed at 2");
    assert_eq!(*asked.borrow(), vec![1, 2]);
}

#[test]
fn record_found_in_one_of_two_databases_of_a_kind_is_kept() {
    let lookup = open_files(vec![opened("first", "GeoLite2-ASN", 1), opened("second", "GeoLite2-ASN", 2)]).unwrap();
    let result = lookup
        .get(|_, reader: &u32| {
            Ok::<Record, String>(Record::Asn(if *reader == 1 {
                Some(Asn { autonomous_system_number: Some(15169), autonomous_system_organization: None })
            } else {
                None
            }))
        })
        .unwrap();
    assert_eq!(result.asn().unwrap().autonomous_system_number, Some(15169));
}

#[test]
fn classification_ignores_case() {
    assert_eq!(kind("GEOLITE2-CITY").unwrap(), DatabaseType::City);
    assert_eq!(kind("My-DOMAIN-db").unwrap(), DatabaseType::Domain);
    match kind("ÜBER-Netz") {
        Err(LookupError::UnsupportedDatabaseType(t)) => assert_eq!(t, "über-netz"),
        other => panic!("unexpected {:?}", other),
    }
}

#[test]
fn paths_are_compared_by_key() {
    let lookup = open_files(vec![
        opened("db/a.mmdb", "GeoLite2-City", 1),
        opened("db/./a.mmdb", "GeoLite2-ASN", 2),
        opened("db/b.mmdb", "GeoIP2-Domain", 3),
    ])
    .unwrap();
    let dbs = lookup.databases();
    assert_eq!(dbs.len(), 2);
    assert_eq!(dbs[0].key, "db/a.mmdb");
    assert_eq!(dbs[0].kind, DatabaseType::Asn);
    assert_eq!(dbs[0].reader, 2);
    assert_eq!(dbs[1].path, "db/b.mmdb");
}
