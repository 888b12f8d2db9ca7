use mmq::records::collect;
use mmq::display::{add_city_fields, add_country_fields};
use mmq::{print_lookup_result, report, Fields, Asn, City, ConnectionType, Country, Domain, Isp, Line, Location, Place, Record, Style};

fn place(name: Option<&str>, code: Option<&str>, id: Option<u32>) -> Place {
    Place { name: name.map(str::to_string), code: code.map(str::to_string), geoname_id: id }
}

fn nowhere() -> Place {
    place(None, None, None)
}

fn render(line: &Line) -> String {
    line.spans.iter().map(|s| s.text.as_str()).collect()
}

fn render_all(lines: &[Line]) -> Vec<String> {
    lines.iter().map(render).collect()
}

fn us_city() -> City {
    City {
        city: nowhere(),
        continent: place(Some("North America"), Some("NA"), Some(6255149)),
        country: place(Some("United States"), Some("US"), Some(6252001)),
        location: Location {
            latitude: Some("37.751".to_string()),
            longitude: Some("-97.822".to_string()),
            accuracy_radius: Some(1000),
            time_zone: Some("America/Chicago".to_string()),
        },
        postal_code: None,
        registered_country: place(Some("United States"), Some("US"), Some(6252001)),
        represented_country: nowhere(),
        representation_type: None,
        subdivisions: vec![],
        is_anycast: None,
    }
}

fn google_asn() -> Asn {
    Asn { autonomous_system_number: Some(15169), autonomous_system_organization: Some("GOOGLE".to_string()) }
}

fn padded(label: &str, width: usize) -> String {
    format!("{:<width$}", label, width = width)
}

#[test]
fn city_and_asn_report() {
    let result = collect(vec![Record::City(Some(us_city())), Record::Asn(Some(google_asn()))]);
    let lines = print_lookup_result("142.250.130.139", &result);
    let w = 50;
    let expected = vec![
        format!("{}142.250.130.139", "-".repeat(65)),
        format!("{}: North America (NA) (geoname id: 6255149)", padded("Continent", w)),
        format!("{}: United States (US) (geoname id: 6252001)", padded("Country", w)),
        format!("{}: America/Chicago", padded("Time zone", w)),
        "Approximate latitude/longitude and accuracy radius: 37.751/-97.822 (1000 km)".to_string(),
        format!("{}: United States (US) (geoname id: 6252001)", padded("Registered country", w)),
        format!("{}: 15169", padded("ASN (Autonomous system number)", w)),
        format!("{}: GOOGLE", padded("ASN Organization", w)),
        "-".repeat(80),
    ];
    assert_eq!(render_all(&lines), expected);
    assert_eq!(lines[0].spans[0].style, Style::Gray);
    assert_eq!(lines[0].spans[1].style, Style::GreenBold);
    assert_eq!(lines[1].spans[0].style, Style::CyanBold);
    assert_eq!(lines[1].spans[1].style, Style::Gray);
    assert_eq!(lines[1].spans[1].text, ":");
    assert_eq!(lines[1].spans[2].style, Style::Plain);
}

#[test]
fn country_and_asn_report() {
    let country = Country {
        continent: nowhere(),
        country: nowhere(),
        registered_country: place(Some("United States"), Some("US"), Some(6252001)),
        represented_country: nowhere(),
        representation_type: None,
        is_anycast: None,
    };
    let asn = Asn { autonomous_system_number: Some(13335), autonomous_system_organization: Some("CLOUDFLARENET".to_string()) };
    let result = collect(vec![Record::Asn(Some(asn)), Record::Country(Some(country))]);
    let lines = render_all(&print_lookup_result("104.16.133.229", &result));
    let w = 30;
    assert_eq!(lines.len(), 5);
    assert!(lines.contains(&"ASN Organization              : CLOUDFLARENET".to_string()));
    assert!(lines.contains(&format!("{}: United States (US) (geoname id: 6252001)", padded("Registered country", w))));
    assert!(lines.contains(&"ASN (Autonomous system number): 13335".to_string()));
}

#[test]
fn city_hides_country_record() {
    let country = Country {
        continent: place(Some("Europe"), Some("EU"), None),
        country: place(Some("Germany"), Some("DE"), None),
        registered_country: nowhere(),
        represented_country: nowhere(),
        representation_type: None,
        is_anycast: Some(true),
    };
    let with_country = collect(vec![Record::City(Some(us_city())), Record::Country(Some(country))]);
    let without = collect(vec![Record::City(Some(us_city()))]);
    assert_eq!(render_all(&print_lookup_result("1.1.1.1", &with_country)), render_all(&print_lookup_result("1.1.1.1", &without)));
}

#[test]
fn country_record_alone_is_shown() {
    let country = Country {
        continent: place(Some("Europe"), Some("EU"), None),
        country: place(Some("Germany"), None, Some(2921044)),
        registered_country: nowhere(),
        represented_country: place(Some("United States"), Some("US"), None),
        representation_type: Some("military".to_string()),
        is_anycast: Some(false),
    };
    let result = collect(vec![Record::Country(Some(country))]);
    let lines = render_all(&print_lookup_result("2.2.2.2", &result));
    let w = 19;
    assert_eq!(
        lines[1..lines.len() - 1].to_vec(),
        vec![
            format!("{}: Europe (EU)", padded("Continent", w)),
            format!("{}: Germany (geoname id: 2921044)", padded("Country", w)),
            format!("{}: United States (US)", padded("Represented country", w)),
            format!("{}: military", padded("Representation type", w)),
            format!("{}: no", padded("Anycast", w)),
        ]
    );
}

#[test]
fn full_city_record() {
    let city = City {
        city: place(Some("Munich"), Some("ignored"), Some(2867714)),
        continent: nowhere(),
        country: nowhere(),
        location: Location { latitude: Some("48.1".to_string()), longitude: None, accuracy_radius: Some(5), time_zone: None },
        postal_code: Some("80331".to_string()),
        registered_country: nowhere(),
        represented_country: nowhere(),
        representation_type: None,
        subdivisions: vec![place(Some("Bavaria"), Some("BY"), Some(2951839)), nowhere(), place(Some("Upper Bavaria"), None, None)],
        is_anycast: Some(true),
    };
    let result = collect(vec![Record::City(Some(city))]);
    let lines = render_all(&print_lookup_result("5.5.5.5", &result));
    let w = 12;
    assert_eq!(
        lines,
        vec![
            format!("{}5.5.5.5", "-".repeat(65)),
            format!("{}: Munich (geoname id: 2867714)", padded("City", w)),
            format!("{}: 80331", padded("Postal code", w)),
            format!("{}:", padded("Subdivisions", w)),
            "  + Bavaria (BY) (geoname id: 2951839)".to_string(),
            "  + Upper Bavaria".to_string(),
            format!("{}: yes", padded("Anycast", w)),
            "-".repeat(80),
        ]
    );
}

#[test]
fn subdivision_names_with_separator_split_further() {
    let mut city = us_city();
    city.subdivisions = vec![place(Some("A, B"), None, None)];
    let result = collect(vec![Record::City(Some(city))]);
    let lines = render_all(&print_lookup_result("5.5.5.5", &result));
    assert!(lines.contains(&"  + A".to_string()));
    assert!(lines.contains(&"  + B".to_string()));
}

#[test]
fn isp_domain_and_connection_type() {
    let result = collect(vec![
        Record::Isp(Some(Isp {
            isp: Some("Telekom".to_string()),
            organization: Some("DTAG".to_string()),
            mobile_country_code: Some("262".to_string()),
            mobile_network_code: None,
        })),
        Record::Domain(Some(Domain { domain: Some("t-ipconnect.de".to_string()) })),
        Record::ConnectionType(Some(ConnectionType { connection_type: Some("Cable/DSL".to_string()) })),
    ]);
    let lines = render_all(&print_lookup_result("3.3.3.3", &result));
    let w = 31;
    assert_eq!(
        lines[1..lines.len() - 1].to_vec(),
        vec![
            format!("{}: Telekom", padded("ISP (Internet Service Provider)", w)),
            format!("{}: DTAG", padded("ISP Organization", w)),
            format!("{}: 262", padded("Mobile country code", w)),
            format!("{}: t-ipconnect.de", padded("Domain", w)),
            format!("{}: Cable/DSL", padded("Connection type", w)),
        ]
    );
}

#[test]
fn record_without_fields_gives_only_rules() {
    let result = collect(vec![Record::Domain(Some(Domain { domain: None }))]);
    let lines = render_all(&report("4.4.4.4", &result));
    assert_eq!(lines, vec![format!("{}4.4.4.4", "-".repeat(65)), "-".repeat(80)]);
}

#[test]
fn empty_result_reports_no_results() {
    let result = collect(vec![Record::City(None), Record::Asn(None)]);
    let lines = report("127.0.0.1", &result);
    assert_eq!(render_all(&lines), vec!["No results found for 127.0.0.1".to_string()]);
    assert_eq!(lines[0].spans[0].style, Style::Bold);
    assert_eq!(lines[0].spans[1].style, Style::GreenBold);
    assert_eq!(lines[0].spans[1].text, "127.0.0.1");
}

#[test]
fn report_of_found_address_is_its_layout() {
    let result = collect(vec![Record::Asn(Some(google_asn()))]);
    assert_eq!(render_all(&report("8.8.8.8", &result)), render_all(&print_lookup_result("8.8.8.8", &result)));
}

#[test]
fn adding_a_city_twice_is_adding_it_once() {
    let mut fields = Fields::new();
    add_city_fields(&mut fields, &us_city());
    let once = fields.entries().clone();
    add_city_fields(&mut fields, &us_city());
    assert_eq!(fields.entries(), &once);
    assert_eq!(once.len(), 5);
}

#[test]
fn country_renders_like_a_city_with_its_places() {
    let country = || Country {
        continent: place(Some("North America"), Some("NA"), Some(6255149)),
        country: place(Some("Canada"), Some("CA"), Some(6251999)),
        registered_country: place(Some("United States"), Some("US"), Some(6252001)),
        represented_country: place(Some("Germany"), None, None),
        representation_type: Some("military".to_string()),
        is_anycast: Some(true),
    };
    let c = country();
    let city = City {
        city: nowhere(),
        continent: c.continent,
        country: c.country,
        location: Location { latitude: None, longitude: None, accuracy_radius: None, time_zone: None },
        postal_code: None,
        registered_country: c.registered_country,
        represented_country: c.represented_country,
        representation_type: c.representation_type,
        subdivisions: vec![],
        is_anycast: c.is_anycast,
    };
    let mut from_country = Fields::new();
    add_country_fields(&mut from_country, &country());
    let mut from_city = Fields::new();
    add_city_fields(&mut from_city, &city);
    assert_eq!(from_country.entries(), from_city.entries());
    assert_eq!(from_country.entries().len(), 6);
}
