//! The records that a lookup in a GeoIP2 database yields, held as plain
//! values, and the result that aggregates them over all databases.
use vstd::prelude::*;

verus! {

/// A named place: a continent, a country or a subdivision.
#[derive(Debug)]
pub struct Place {
    /// English name.
    pub name: Option<String>,
    /// Continent code or ISO code.
    pub code: Option<String>,
    /// GeoNames identifier.
    pub geoname_id: Option<u32>,
}

/// Where a city record places an address.
#[derive(Debug)]
pub struct Location {
    /// Latitude as `Display` writes the database's number.
    pub latitude: Option<String>,
    /// Longitude as `Display` writes the database's number.
    pub longitude: Option<String>,
    /// Accuracy radius in kilometres.
    pub accuracy_radius: Option<u16>,
    /// IANA time zone.
    pub time_zone: Option<String>,
}

/// A record of a City database.
#[derive(Debug)]
pub struct City {
    /// The city itself (its `code` is not used).
    pub city: Place,
    pub continent: Place,
    pub country: Place,
    pub location: Location,
    pub postal_code: Option<String>,
    pub registered_country: Place,
    pub represented_country: Place,
    /// How the represented country is represented (a military base, ...).
    pub representation_type: Option<String>,
    pub subdivisions: Vec<Place>,
    pub is_anycast: Option<bool>,
}

/// A record of a Country database.
#[derive(Debug)]
pub struct Country {
    pub continent: Place,
    pub country: Place,
    pub registered_country: Place,
    pub represented_country: Place,
    pub representation_type: Option<String>,
    pub is_anycast: Option<bool>,
}

/// A record of an ASN database.
#[derive(Debug)]
pub struct Asn {
    pub autonomous_system_number: Option<u32>,
    pub autonomous_system_organization: Option<String>,
}

/// A record of an ISP database.
#[derive(Debug)]
pub struct Isp {
    pub isp: Option<String>,
    pub organization: Option<String>,
    pub mobile_country_code: Option<String>,
    pub mobile_network_code: Option<String>,
}

/// A record of a Domain database.
#[derive(Debug)]
pub struct Domain {
    pub domain: Option<String>,
}

/// A record of a Connection-Type database.
#[derive(Debug)]
pub struct ConnectionType {
    pub connection_type: Option<String>,
}

/// What one database gave for an address: its kind of record, or `None`
/// where the database holds nothing for it.
#[derive(Debug)]
pub enum Record {
    City(Option<City>),
    Country(Option<Country>),
    Asn(Option<Asn>),
    Isp(Option<Isp>),
    Domain(Option<Domain>),
    ConnectionType(Option<ConnectionType>),
}

/// The records of a result, one slot per kind of database.
pub struct ResultView {
    pub city: Option<City>,
    pub country: Option<Country>,
    pub asn: Option<Asn>,
    pub isp: Option<Isp>,
    pub domain: Option<Domain>,
    pub connection_type: Option<ConnectionType>,
}

/// The result with no record at all.
pub open spec fn empty_result() -> ResultView {
    ResultView { city: None, country: None, asn: None, isp: None, domain: None, connection_type: None }
}

/// No slot holds a record.
pub open spec fn result_is_empty(r: ResultView) -> bool {
    &&& r.city is None
    &&& r.country is None
    &&& r.asn is None
    &&& r.isp is None
    &&& r.domain is None
    &&& r.connection_type is None
}

/// The result after a database of `record`'s kind answered: a record it
/// found takes the slot of its kind; an answer without a record leaves the
/// result as it was, so that a record found earlier stays.
pub open spec fn stored(r: ResultView, record: Record) -> ResultView {
    match record {
        Record::City(Some(c)) => ResultView { city: Some(c), ..r },
        Record::Country(Some(c)) => ResultView { country: Some(c), ..r },
        Record::Asn(Some(a)) => ResultView { asn: Some(a), ..r },
        Record::Isp(Some(i)) => ResultView { isp: Some(i), ..r },
        Record::Domain(Some(d)) => ResultView { domain: Some(d), ..r },
        Record::ConnectionType(Some(c)) => ResultView { connection_type: Some(c), ..r },
        _ => r,
    }
}

/// The result of the answers in `records`, taken in order.
pub open spec fn stored_all(r: ResultView, records: Seq<Record>) -> ResultView
    decreases records.len(),
{
    if records.len() == 0 {
        r
    } else {
        stored(stored_all(r, records.drop_last()), records.last())
    }
}

/// Aggregated lookup result: for each kind of database, the record found for
/// the address, if any.
#[derive(Debug)]
pub struct LookupResult {
    city: Option<City>,
    country: Option<Country>,
    asn: Option<Asn>,
    isp: Option<Isp>,
    domain: Option<Domain>,
    connection_type: Option<ConnectionType>,
}

impl View for LookupResult {
    type V = ResultView;

    closed spec fn view(&self) -> ResultView {
        ResultView {
            city: self.city,
            country: self.country,
            asn: self.asn,
            isp: self.isp,
            domain: self.domain,
            connection_type: self.connection_type,
        }
    }
}

impl LookupResult {
    /// A result with no record.
    pub fn new() -> (r: Self)
        ensures
            r@ == empty_result(),
    {
        LookupResult { city: None, country: None, asn: None, isp: None, domain: None, connection_type: None }
    }

    /// No database gave a record.
    pub fn is_empty(&self) -> (r: bool)
        ensures
            r == result_is_empty(self@),
    {
        self.city.is_none() && self.country.is_none() && self.asn.is_none() && self.isp.is_none()
            && self.domain.is_none() && self.connection_type.is_none()
    }

    /// Puts a record that one database found into the slot of its kind; an
    /// answer without a record changes nothing.
    pub fn store(&mut self, record: Record)
        ensures
            final(self)@ == stored(old(self)@, record),
    {
        match record {
            Record::City(Some(c)) => self.city = Some(c),
            Record::Country(Some(c)) => self.country = Some(c),
            Record::Asn(Some(a)) => self.asn = Some(a),
            Record::Isp(Some(i)) => self.isp = Some(i),
            Record::Domain(Some(d)) => self.domain = Some(d),
            Record::ConnectionType(Some(c)) => self.connection_type = Some(c),
            _ => {},
        }
    }

    /// The City record.
    pub fn city(&self) -> (r: Option<&City>)
        ensures
            r is Some <==> self@.city is Some,
            r is Some ==> self@.city->0 == *r->0,
    {
        self.city.as_ref()
    }

    /// The Country record.
    pub fn country(&self) -> (r: Option<&Country>)
        ensures
            r is Some <==> self@.country is Some,
            r is Some ==> self@.country->0 == *r->0,
    {
        self.country.as_ref()
    }

    /// The ASN record.
    pub fn asn(&self) -> (r: Option<&Asn>)
        ensures
            r is Some <==> self@.asn is Some,
            r is Some ==> self@.asn->0 == *r->0,
    {
        self.asn.as_ref()
    }

    /// The ISP record.
    pub fn isp(&self) -> (r: Option<&Isp>)
        ensures
            r is Some <==> self@.isp is Some,
            r is Some ==> self@.isp->0 == *r->0,
    {
        self.isp.as_ref()
    }

    /// The Domain record.
    pub fn domain(&self) -> (r: Option<&Domain>)
        ensures
            r is Some <==> self@.domain is Some,
            r is Some ==> self@.domain->0 == *r->0,
    {
        self.domain.as_ref()
    }

    /// The Connection-Type record.
    pub fn connection_type(&self) -> (r: Option<&ConnectionType>)
        ensures
            r is Some <==> self@.connection_type is Some,
            r is Some ==> self@.connection_type->0 == *r->0,
    {
        self.connection_type.as_ref()
    }
}

/// The result of the answers of all databases, taken in order.
pub fn collect(records: Vec<Record>) -> (r: LookupResult)
    ensures
        r@ == stored_all(empty_result(), records@),
{
    let mut result = LookupResult::new();
    let ghost all = records@;
    for record in it: records
        invariant
            it.seq() == all,
            result@ == stored_all(empty_result(), all.take(it.index() as int)),
    {
        assert(all.take(it.index() + 1).drop_last() =~= all.take(it.index() as int));
        result.store(record);
    }
    assert(all.take(all.len() as int) =~= all);
    result
}

/// The two answers come from the same kind of database.
pub open spec fn same_kind(a: Record, b: Record) -> bool {
    match (a, b) {
        (Record::City(_), Record::City(_)) => true,
        (Record::Country(_), Record::Country(_)) => true,
        (Record::Asn(_), Record::Asn(_)) => true,
        (Record::Isp(_), Record::Isp(_)) => true,
        (Record::Domain(_), Record::Domain(_)) => true,
        (Record::ConnectionType(_), Record::ConnectionType(_)) => true,
        _ => false,
    }
}

/// The slot of `answer`'s kind holds exactly what `answer` gave.
pub open spec fn holds(r: ResultView, answer: Record) -> bool {
    match answer {
        Record::City(c) => r.city == c,
        Record::Country(c) => r.country == c,
        Record::Asn(a) => r.asn == a,
        Record::Isp(i) => r.isp == i,
        Record::Domain(d) => r.domain == d,
        Record::ConnectionType(c) => r.connection_type == c,
    }
}

/// The answer carries no record.
pub open spec fn answer_is_none(answer: Record) -> bool {
    match answer {
        Record::City(c) => c is None,
        Record::Country(c) => c is None,
        Record::Asn(a) => a is None,
        Record::Isp(i) => i is None,
        Record::Domain(d) => d is None,
        Record::ConnectionType(c) => c is None,
    }
}

/// Storing an answer changes only the slot of its kind, and an answer
/// without a record changes nothing.
pub proof fn lemma_stored_other_kind(r: ResultView, stored_answer: Record, probe: Record)
    requires
        !same_kind(stored_answer, probe) || answer_is_none(stored_answer),
    ensures
        holds(stored(r, stored_answer), probe) == holds(r, probe),
{
}

/// Each kind of database that found a record holds, in the collected
/// result, the record found by the last database of that kind that found
/// one; later answers of that kind without a record do not erase it.
pub proof fn lemma_last_found_kept(records: Seq<Record>, i: int)
    requires
        0 <= i < records.len(),
        !answer_is_none(records[i]),
        forall|j: int|
            i < j < records.len() && same_kind(#[trigger] records[j], records[i]) ==> answer_is_none(records[j]),
    ensures
        holds(stored_all(empty_result(), records), records[i]),
    decreases records.len(),
{
    if i == records.len() - 1 {
    } else {
        let rest = records.drop_last();
        assert(rest[i] == records[i]);
        assert forall|j: int| i < j < rest.len() && same_kind(#[trigger] rest[j], rest[i]) implies answer_is_none(
            rest[j],
        ) by {
            assert(rest[j] == records[j]);
        }
        lemma_last_found_kept(rest, i);
        assert(!same_kind(records.last(), records[i]) || answer_is_none(records.last()));
        lemma_stored_other_kind(stored_all(empty_result(), rest), records.last(), records[i]);
    }
}

/// A kind of database none of which found a record has an empty slot.
pub proof fn lemma_unfound_kind_empty(records: Seq<Record>, probe: Record)
    requires
        answer_is_none(probe),
        forall|j: int|
            0 <= j < records.len() && same_kind(#[trigger] records[j], probe) ==> answer_is_none(records[j]),
    ensures
        holds(stored_all(empty_result(), records), probe),
    decreases records.len(),
{
    if records.len() > 0 {
        let rest = records.drop_last();
        assert forall|j: int| 0 <= j < rest.len() && same_kind(#[trigger] rest[j], probe) implies answer_is_none(
            rest[j],
        ) by {
            assert(rest[j] == records[j]);
        }
        lemma_unfound_kind_empty(rest, probe);
        assert(same_kind(records[records.len() - 1], probe) ==> answer_is_none(records[records.len() - 1]));
        lemma_stored_other_kind(stored_all(empty_result(), rest), records.last(), probe);
    }
}

/// A result is empty exactly when none of its six slots holds a record.
pub proof fn lemma_empty_iff_no_record(r: ResultView)
    ensures
        result_is_empty(r) <==> (r.city is None && r.country is None && r.asn is None && r.isp is None
            && r.domain is None && r.connection_type is None),
{
}

/// A result into which a database stored a record it found is not empty,
/// whatever kind of record it is.
pub proof fn lemma_found_record_not_empty(r: ResultView, answer: Record)
    requires
        !answer_is_none(answer),
    ensures
        !result_is_empty(stored(r, answer)),
{
}

/// The result collected from answers of which some found a record is not
/// empty; the result collected from answers none of which found one is.
pub proof fn lemma_collected_empty(records: Seq<Record>)
    ensures
        result_is_empty(stored_all(empty_result(), records)) <==> forall|i: int|
            0 <= i < records.len() ==> answer_is_none(#[trigger] records[i]),
    decreases records.len(),
{
    if records.len() > 0 {
        let rest = records.drop_last();
        lemma_collected_empty(rest);
        if !answer_is_none(records.last()) {
            lemma_found_record_not_empty(stored_all(empty_result(), rest), records.last());
            assert(!answer_is_none(records[records.len() - 1]));
        } else {
            assert forall|i: int| 0 <= i < records.len() && (forall|j: int| 0 <= j < rest.len() ==> answer_is_none(#[trigger] rest[j])) implies answer_is_none(#[trigger] records[i]) by {
                if i < rest.len() {
                    assert(rest[i] == records[i]);
                }
            }
            assert((forall|i: int| 0 <= i < records.len() ==> answer_is_none(#[trigger] records[i])) ==> (forall|j: int| 0 <= j < rest.len() ==> answer_is_none(#[trigger] rest[j]))) by {
                assert forall|j: int| 0 <= j < rest.len() && (forall|i: int| 0 <= i < records.len() ==> answer_is_none(#[trigger] records[i])) implies answer_is_none(#[trigger] rest[j]) by {
                    assert(rest[j] == records[j]);
                }
            }
        }
    }
}

} // verus!
