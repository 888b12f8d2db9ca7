//! The report printed for an address: the fields that its records give, each
//! under a label, laid out as styled lines.
use vstd::prelude::*;

use crate::records::{Asn, City, ConnectionType, Country, Domain, Isp, LookupResult, Place, ResultView, result_is_empty};
use crate::table::{
    distinct_entry_keys, distinct_keys, has_entry, has_key, lemma_upsert, lemma_upsert_present_concat,
    lemma_upsert_present_entries, lemma_upsert_present_idempotent, upsert, upsert_present,
};
use crate::text::{
    contains_seq, decimal, decimal_seq, dashes, join, join_seq, lemma_split_join, pad_right, padded, repeated, split,
    split_seq, texts,
};

verus! {

/// The view of an optional text.
pub open spec fn text_of(o: Option<String>) -> Option<Seq<char>> {
    match o {
        Some(s) => Some(s@),
        None => None,
    }
}

/// " (code)" where there is a code.
pub open spec fn code_part(code: Option<String>) -> Seq<char> {
    match code {
        Some(c) => " ("@ + c@ + ")"@,
        None => Seq::empty(),
    }
}

/// " (geoname id: N)" where there is an identifier.
pub open spec fn id_part(id: Option<u32>) -> Seq<char> {
    match id {
        Some(i) => " (geoname id: "@ + decimal_seq(i as nat) + ")"@,
        None => Seq::empty(),
    }
}

/// How a named place is shown: its English name, then its code and its
/// identifier where known; nothing without a name.
pub open spec fn place_text(p: Place) -> Option<Seq<char>> {
    match p.name {
        Some(n) => Some(n@ + code_part(p.code) + id_part(p.geoname_id)),
        None => None,
    }
}

/// How the city itself is shown: its name, then its identifier where known.
pub open spec fn city_name_text(p: Place) -> Option<Seq<char>> {
    match p.name {
        Some(n) => Some(n@ + id_part(p.geoname_id)),
        None => None,
    }
}

/// "lat/long (r km)", where all three are known.
pub open spec fn coordinates_text(c: City) -> Option<Seq<char>> {
    match (c.location.latitude, c.location.longitude, c.location.accuracy_radius) {
        (Some(lat), Some(long), Some(r)) => Some(
            lat@ + "/"@ + long@ + " ("@ + decimal_seq(r as nat) + " km)"@,
        ),
        _ => None,
    }
}

/// "yes" or "no", where known.
pub open spec fn anycast_text(b: Option<bool>) -> Option<Seq<char>> {
    match b {
        Some(true) => Some("yes"@),
        Some(false) => Some("no"@),
        None => None,
    }
}

/// The texts of the subdivisions that have a name, in order.
pub open spec fn subdivision_texts(subs: Seq<Place>) -> Seq<Seq<char>>
    decreases subs.len(),
{
    if subs.len() == 0 {
        Seq::empty()
    } else {
        let before = subdivision_texts(subs.drop_last());
        match place_text(subs.last()) {
            Some(t) => before.push(t),
            None => before,
        }
    }
}

/// The subdivisions joined by ", ", where at least one has a name.
pub open spec fn subdivisions_text(subs: Seq<Place>) -> Option<Seq<char>> {
    let t = subdivision_texts(subs);
    if t.len() > 0 {
        Some(join_seq(t, ", "@))
    } else {
        None
    }
}

/// Inserts `v` under `k` where there is a value.
pub open spec fn insert_opt(f: Seq<(Seq<char>, Seq<char>)>, k: Seq<char>, v: Option<Seq<char>>) -> Seq<(Seq<char>, Seq<char>)> {
    match v {
        Some(v) => upsert(f, k, v),
        None => f,
    }
}

/// The fields after those of a City record are added.
pub open spec fn city_fields(f: Seq<(Seq<char>, Seq<char>)>, c: City) -> Seq<(Seq<char>, Seq<char>)> {
    let f = insert_opt(f, "City"@, city_name_text(c.city));
    let f = insert_opt(f, "Continent"@, place_text(c.continent));
    let f = insert_opt(f, "Country"@, place_text(c.country));
    let f = insert_opt(f, "Time zone"@, text_of(c.location.time_zone));
    let f = insert_opt(f, "Approximate latitude/longitude and accuracy radius"@, coordinates_text(c));
    let f = insert_opt(f, "Postal code"@, text_of(c.postal_code));
    let f = insert_opt(f, "Registered country"@, place_text(c.registered_country));
    let f = insert_opt(f, "Represented country"@, place_text(c.represented_country));
    let f = insert_opt(f, "Representation type"@, text_of(c.representation_type));
    let f = insert_opt(f, "Subdivisions"@, subdivisions_text(c.subdivisions@));
    insert_opt(f, "Anycast"@, anycast_text(c.is_anycast))
}

/// The fields after those of a Country record are added.
pub open spec fn country_fields(f: Seq<(Seq<char>, Seq<char>)>, c: Country) -> Seq<(Seq<char>, Seq<char>)> {
    let f = insert_opt(f, "Continent"@, place_text(c.continent));
    let f = insert_opt(f, "Country"@, place_text(c.country));
    let f = insert_opt(f, "Registered country"@, place_text(c.registered_country));
    let f = insert_opt(f, "Represented country"@, place_text(c.represented_country));
    let f = insert_opt(f, "Representation type"@, text_of(c.representation_type));
    insert_opt(f, "Anycast"@, anycast_text(c.is_anycast))
}

/// The number in decimal, where known.
pub open spec fn number_text(n: Option<u32>) -> Option<Seq<char>> {
    match n {
        Some(n) => Some(decimal_seq(n as nat)),
        None => None,
    }
}

/// The fields after those of an ASN record are added.
pub open spec fn asn_fields(f: Seq<(Seq<char>, Seq<char>)>, a: Asn) -> Seq<(Seq<char>, Seq<char>)> {
    let f = insert_opt(f, "ASN (Autonomous system number)"@, number_text(a.autonomous_system_number));
    insert_opt(f, "ASN Organization"@, text_of(a.autonomous_system_organization))
}

/// The fields after those of an ISP record are added.
pub open spec fn isp_fields(f: Seq<(Seq<char>, Seq<char>)>, i: Isp) -> Seq<(Seq<char>, Seq<char>)> {
    let f = insert_opt(f, "ISP (Internet Service Provider)"@, text_of(i.isp));
    let f = insert_opt(f, "ISP Organization"@, text_of(i.organization));
    let f = insert_opt(f, "Mobile country code"@, text_of(i.mobile_country_code));
    insert_opt(f, "Mobile network code"@, text_of(i.mobile_network_code))
}

/// The fields after that of a Domain record is added.
pub open spec fn domain_fields(f: Seq<(Seq<char>, Seq<char>)>, d: Domain) -> Seq<(Seq<char>, Seq<char>)> {
    insert_opt(f, "Domain"@, text_of(d.domain))
}

/// The fields after that of a Connection-Type record is added.
pub open spec fn connection_type_fields(f: Seq<(Seq<char>, Seq<char>)>, c: ConnectionType) -> Seq<(Seq<char>, Seq<char>)> {
    insert_opt(f, "Connection type"@, text_of(c.connection_type))
}

/// All fields of a result, labelled; a Country record counts only where there
/// is no City record, whose fields already tell the country.
pub open spec fn result_fields(r: ResultView) -> Seq<(Seq<char>, Seq<char>)> {
    let f = Seq::empty();
    let f = match r.city {
        Some(c) => city_fields(f, c),
        None => f,
    };
    let f = match r.country {
        Some(c) => if r.city is None {
            country_fields(f, c)
        } else {
            f
        },
        None => f,
    };
    let f = match r.asn {
        Some(a) => asn_fields(f, a),
        None => f,
    };
    let f = match r.isp {
        Some(i) => isp_fields(f, i),
        None => f,
    };
    let f = match r.domain {
        Some(d) => domain_fields(f, d),
        None => f,
    };
    match r.connection_type {
        Some(c) => connection_type_fields(f, c),
        None => f,
    }
}

/// Labelled values, each label once, in the order they were first added.
#[derive(Debug)]
pub struct Fields {
    entries: Vec<(String, String)>,
}

impl View for Fields {
    type V = Seq<(Seq<char>, Seq<char>)>;

    closed spec fn view(&self) -> Seq<(Seq<char>, Seq<char>)> {
        self.entries@.map_values(|e: (String, String)| (e.0@, e.1@))
    }
}

impl Fields {
    /// No fields.
    pub fn new() -> (r: Self)
        ensures
            r@ == Seq::<(Seq<char>, Seq<char>)>::empty(),
    {
        let r = Fields { entries: Vec::new() };
        assert(r@ =~= Seq::<(Seq<char>, Seq<char>)>::empty());
        r
    }

    /// The labels and values, in order.
    pub fn entries(&self) -> (r: &Vec<(String, String)>)
        ensures
            r@.map_values(|e: (String, String)| (e.0@, e.1@)) == self@,
    {
        &self.entries
    }

    /// Sets the value under `key`.
    fn insert(&mut self, key: &str, value: String)
        requires
            distinct_keys(old(self)@),
        ensures
            final(self)@ == upsert(old(self)@, key@, value@),
            distinct_keys(final(self)@),
    {
        let owned_key = key.to_owned();
        let ghost before = self@;
        let n = self.entries.len();
        let mut i: usize = 0;
        while i < n
            invariant
                n == self.entries@.len(),
                before == self@,
                before == old(self)@,
                distinct_keys(before),
                owned_key@ == key@,
                i <= n,
                forall|k: int| 0 <= k < i ==> self@[k].0 != key@,
            decreases n - i,
        {
            if self.entries[i].0 == owned_key {
                proof {
                    assert(before[i as int].0 == key@);
                    lemma_upsert(before, key@, value@, i as int);
                }
                self.entries.set(i, (owned_key, value));
                assert(self@ =~= upsert(before, key@, value@));
                return;
            }
            i = i + 1;
        }
        proof {
            lemma_upsert(before, key@, value@, 0);
            assert(!has_key(before, key@));
        }
        self.entries.push((owned_key, value));
        assert(self@ =~= upsert(before, key@, value@));
    }

    /// Sets the value under `key` where there is one.
    fn insert_opt(&mut self, key: &str, value: Option<String>)
        requires
            distinct_keys(old(self)@),
        ensures
            final(self)@ == insert_opt(old(self)@, key@, text_of(value)),
            distinct_keys(final(self)@),
    {
        if let Some(v) = value {
            self.insert(key, v);
        }
    }
}

/// A copy of an optional text.
fn copy_text(o: &Option<String>) -> (r: Option<String>)
    ensures
        text_of(r) == text_of(*o),
{
    match o {
        Some(s) => Some(s.clone()),
        None => None,
    }
}

/// Appends " (geoname id: N)" where there is an identifier.
fn append_id(out: &mut String, id: Option<u32>)
    ensures
        final(out)@ == old(out)@ + id_part(id),
{
    if let Some(id) = id {
        out.append(" (geoname id: ");
        let n = decimal(id as u64);
        out.append(n.as_str());
        out.append(")");
    } else {
        assert(old(out)@ + id_part(id) =~= old(out)@);
    }
}

/// The text of a named place.
fn place_value(p: &Place) -> (r: Option<String>)
    ensures
        text_of(r) == place_text(*p),
{
    match &p.name {
        Some(name) => {
            let mut out = name.clone();
            match &p.code {
                Some(code) => {
                    out.append(" (");
                    out.append(code.as_str());
                    out.append(")");
                },
                None => {
                    assert(out@ + code_part(p.code) =~= out@);
                },
            }
            append_id(&mut out, p.geoname_id);
            assert(out@ =~= name@ + code_part(p.code) + id_part(p.geoname_id));
            Some(out)
        },
        None => None,
    }
}

/// The text of the city itself.
fn city_name_value(p: &Place) -> (r: Option<String>)
    ensures
        text_of(r) == city_name_text(*p),
{
    match &p.name {
        Some(name) => {
            let mut out = name.clone();
            append_id(&mut out, p.geoname_id);
            Some(out)
        },
        None => None,
    }
}

/// The coordinates of a city record.
fn coordinates_value(c: &City) -> (r: Option<String>)
    ensures
        text_of(r) == coordinates_text(*c),
{
    match (&c.location.latitude, &c.location.longitude, c.location.accuracy_radius) {
        (Some(lat), Some(long), Some(radius)) => {
            let mut out = lat.clone();
            out.append("/");
            out.append(long.as_str());
            out.append(" (");
            let n = decimal(radius as u64);
            out.append(n.as_str());
            out.append(" km)");
            Some(out)
        },
        _ => None,
    }
}

/// "yes" or "no".
fn anycast_value(b: Option<bool>) -> (r: Option<String>)
    ensures
        text_of(r) == anycast_text(b),
{
    match b {
        Some(true) => Some("yes".to_owned()),
        Some(false) => Some("no".to_owned()),
        None => None,
    }
}

/// A number in decimal.
fn number_value(n: Option<u32>) -> (r: Option<String>)
    ensures
        text_of(r) == number_text(n),
{
    match n {
        Some(n) => Some(decimal(n as u64)),
        None => None,
    }
}

/// The subdivisions that have a name, joined by ", ".
fn subdivisions_value(subs: &Vec<Place>) -> (r: Option<String>)
    ensures
        text_of(r) == subdivisions_text(subs@),
{
    let mut lines: Vec<String> = Vec::new();
    let n = subs.len();
    for i in 0..n
        invariant
            n == subs@.len(),
            texts(lines@) == subdivision_texts(subs@.take(i as int)),
    {
        assert(subs@.take(i + 1).drop_last() =~= subs@.take(i as int));
        let ghost before = texts(lines@);
        match place_value(&subs[i]) {
            Some(t) => {
                lines.push(t);
                assert(texts(lines@) =~= before.push(t@));
            },
            None => {},
        }
    }
    assert(subs@.take(n as int) =~= subs@);
    if lines.len() > 0 {
        Some(join(&lines, ", "))
    } else {
        None
    }
}

/// Adds the fields of a City record.
pub fn add_city_fields(fields: &mut Fields, city: &City)
    requires
        distinct_keys(old(fields)@),
    ensures
        final(fields)@ == city_fields(old(fields)@, *city),
        distinct_keys(final(fields)@),
{
    fields.insert_opt("City", city_name_value(&city.city));
    fields.insert_opt("Continent", place_value(&city.continent));
    fields.insert_opt("Country", place_value(&city.country));
    fields.insert_opt("Time zone", copy_text(&city.location.time_zone));
    fields.insert_opt("Approximate latitude/longitude and accuracy radius", coordinates_value(city));
    fields.insert_opt("Postal code", copy_text(&city.postal_code));
    fields.insert_opt("Registered country", place_value(&city.registered_country));
    fields.insert_opt("Represented country", place_value(&city.represented_country));
    fields.insert_opt("Representation type", copy_text(&city.representation_type));
    fields.insert_opt("Subdivisions", subdivisions_value(&city.subdivisions));
    fields.insert_opt("Anycast", anycast_value(city.is_anycast));
}

/// Adds the fields of a Country record.
pub fn add_country_fields(fields: &mut Fields, country: &Country)
    requires
        distinct_keys(old(fields)@),
    ensures
        final(fields)@ == country_fields(old(fields)@, *country),
        distinct_keys(final(fields)@),
{
    fields.insert_opt("Continent", place_value(&country.continent));
    fields.insert_opt("Country", place_value(&country.country));
    fields.insert_opt("Registered country", place_value(&country.registered_country));
    fields.insert_opt("Represented country", place_value(&country.represented_country));
    fields.insert_opt("Representation type", copy_text(&country.representation_type));
    fields.insert_opt("Anycast", anycast_value(country.is_anycast));
}

/// Adds the fields of an ASN record.
pub fn add_asn_fields(fields: &mut Fields, asn: &Asn)
    requires
        distinct_keys(old(fields)@),
    ensures
        final(fields)@ == asn_fields(old(fields)@, *asn),
        distinct_keys(final(fields)@),
{
    fields.insert_opt("ASN (Autonomous system number)", number_value(asn.autonomous_system_number));
    fields.insert_opt("ASN Organization", copy_text(&asn.autonomous_system_organization));
}

/// Adds the fields of an ISP record.
pub fn add_isp_fields(fields: &mut Fields, isp: &Isp)
    requires
        distinct_keys(old(fields)@),
    ensures
        final(fields)@ == isp_fields(old(fields)@, *isp),
        distinct_keys(final(fields)@),
{
    fields.insert_opt("ISP (Internet Service Provider)", copy_text(&isp.isp));
    fields.insert_opt("ISP Organization", copy_text(&isp.organization));
    fields.insert_opt("Mobile country code", copy_text(&isp.mobile_country_code));
    fields.insert_opt("Mobile network code", copy_text(&isp.mobile_network_code));
}

/// Adds the field of a Domain record.
pub fn add_domain_fields(fields: &mut Fields, domain: &Domain)
    requires
        distinct_keys(old(fields)@),
    ensures
        final(fields)@ == domain_fields(old(fields)@, *domain),
        distinct_keys(final(fields)@),
{
    fields.insert_opt("Domain", copy_text(&domain.domain));
}

/// Adds the field of a Connection-Type record.
pub fn add_connection_type_fields(fields: &mut Fields, connection_type: &ConnectionType)
    requires
        distinct_keys(old(fields)@),
    ensures
        final(fields)@ == connection_type_fields(old(fields)@, *connection_type),
        distinct_keys(final(fields)@),
{
    fields.insert_opt("Connection type", copy_text(&connection_type.connection_type));
}

/// How a piece of a line is shown on a terminal.
#[derive(Debug, Clone, Copy, PartialEq, Eq, Structural)]
pub enum Style {
    Plain,
    Bold,
    /// Bright black.
    Gray,
    GreenBold,
    CyanBold,
}

/// A piece of a line in one style.
#[derive(Debug)]
pub struct Span {
    pub style: Style,
    pub text: String,
}

/// One line of output, made of styled pieces.
#[derive(Debug)]
pub struct Line {
    pub spans: Vec<Span>,
}

/// A line as styles and texts.
pub open spec fn line_view(l: Line) -> Seq<(Style, Seq<char>)> {
    l.spans@.map_values(|s: Span| (s.style, s.text@))
}

/// Lines as styles and texts.
pub open spec fn lines_view(v: Seq<Line>) -> Seq<Seq<(Style, Seq<char>)>> {
    v.map_values(|l: Line| line_view(l))
}

/// The rule above a report: 65 dashes, then the address.
pub open spec fn header_line(address: Seq<char>) -> Seq<(Style, Seq<char>)> {
    seq![(Style::Gray, repeated('-', 65)), (Style::GreenBold, address)]
}

/// The rule below a report: 80 dashes.
pub open spec fn footer_line() -> Seq<(Style, Seq<char>)> {
    seq![(Style::Gray, repeated('-', 80))]
}

/// The line that says an address is in no database.
pub open spec fn no_results_line(address: Seq<char>) -> Seq<(Style, Seq<char>)> {
    seq![(Style::Bold, "No results found for "@), (Style::GreenBold, address)]
}

/// One line per item of a list value.
pub open spec fn item_lines(items: Seq<Seq<char>>) -> Seq<Seq<(Style, Seq<char>)>> {
    items.map_values(|t: Seq<char>| seq![(Style::Plain, "  + "@ + t)])
}

/// The lines of one field, its label padded to `width`: the subdivisions as a
/// heading with one item per piece between ", ", any other field on one line.
pub open spec fn entry_lines(key: Seq<char>, value: Seq<char>, width: nat) -> Seq<Seq<(Style, Seq<char>)>> {
    if key == "Subdivisions"@ {
        seq![seq![(Style::CyanBold, padded(key, width)), (Style::Gray, ":"@)]] + item_lines(
            split_seq(value, ", "@),
        )
    } else {
        seq![seq![(Style::CyanBold, padded(key, width)), (Style::Gray, ":"@), (Style::Plain, " "@ + value)]]
    }
}

/// The lines of all fields in order.
pub open spec fn body_lines(entries: Seq<(Seq<char>, Seq<char>)>, width: nat) -> Seq<Seq<(Style, Seq<char>)>>
    decreases entries.len(),
{
    if entries.len() == 0 {
        Seq::empty()
    } else {
        body_lines(entries.drop_last(), width) + entry_lines(entries.last().0, entries.last().1, width)
    }
}

/// The length of the longest label, 0 without fields.
pub open spec fn longest_label(entries: Seq<(Seq<char>, Seq<char>)>) -> nat
    decreases entries.len(),
{
    if entries.len() == 0 {
        0
    } else {
        let before = longest_label(entries.drop_last());
        if entries.last().0.len() > before {
            entries.last().0.len()
        } else {
            before
        }
    }
}

/// The report of an address: header, the fields with labels aligned to the
/// longest, footer.
pub open spec fn layout(address: Seq<char>, entries: Seq<(Seq<char>, Seq<char>)>) -> Seq<Seq<(Style, Seq<char>)>> {
    seq![header_line(address)] + body_lines(entries, longest_label(entries)) + seq![footer_line()]
}

/// A styled piece of text.
fn span(style: Style, text: String) -> (r: Span)
    ensures
        r.style == style,
        r.text@ == text@,
{
    Span { style, text }
}

/// The lines of one field.
fn entry_lines_of(key: &String, value: &String, width: usize) -> (r: Vec<Line>)
    ensures
        lines_view(r@) == entry_lines(key@, value@, width as nat),
{
    let label = pad_right(key.as_str(), width);
    let mut out: Vec<Line> = Vec::new();
    let subdivisions = "Subdivisions".to_owned();
    if *key == subdivisions {
        let mut heading: Vec<Span> = Vec::new();
        heading.push(span(Style::CyanBold, label));
        heading.push(span(Style::Gray, ":".to_owned()));
        out.push(Line { spans: heading });
        proof {
            reveal_strlit(", ");
        }
        let items = split(value.as_str(), ", ");
        let ghost pieces = texts(items@);
        let n = items.len();
        assert(line_view(out@[0]) =~= seq![(Style::CyanBold, padded(key@, width as nat)), (Style::Gray, ":"@)]);
        assert(item_lines(pieces.take(0)) =~= Seq::empty());
        assert(lines_view(out@) =~= seq![seq![(Style::CyanBold, padded(key@, width as nat)), (Style::Gray, ":"@)]]
            + item_lines(pieces.take(0)));
        for i in 0..n
            invariant
                n == items@.len(),
                pieces == texts(items@),
                lines_view(out@) == seq![seq![(Style::CyanBold, padded(key@, width as nat)), (Style::Gray, ":"@)]]
                    + item_lines(pieces.take(i as int)),
        {
            let mut text = "  + ".to_owned();
            text.append(items[i].as_str());
            let mut item: Vec<Span> = Vec::new();
            item.push(span(Style::Plain, text));
            let ghost before = lines_view(out@);
            out.push(Line { spans: item });
            assert(line_view(out@.last()) =~= seq![(Style::Plain, "  + "@ + pieces[i as int])]);
            assert(item_lines(pieces.take(i + 1)) =~= item_lines(pieces.take(i as int)).push(
                seq![(Style::Plain, "  + "@ + pieces[i as int])],
            ));
            assert(lines_view(out@) =~= before.push(seq![(Style::Plain, "  + "@ + pieces[i as int])]));
        }
        assert(pieces.take(n as int) =~= pieces);
    } else {
        let mut text = " ".to_owned();
        text.append(value.as_str());
        let mut line: Vec<Span> = Vec::new();
        line.push(span(Style::CyanBold, label));
        line.push(span(Style::Gray, ":".to_owned()));
        line.push(span(Style::Plain, text));
        out.push(Line { spans: line });
        assert(line_view(out@[0]) =~= seq![(Style::CyanBold, padded(key@, width as nat)), (Style::Gray, ":"@), (Style::Plain, " "@ + value@)]);
        assert(lines_view(out@) =~= entry_lines(key@, value@, width as nat));
    }
    out
}

impl Fields {
    /// The length of the longest label.
    fn longest_label(&self) -> (r: usize)
        ensures
            r == longest_label(self@),
    {
        let n = self.entries.len();
        let mut longest: usize = 0;
        for i in 0..n
            invariant
                n == self.entries@.len(),
                longest == longest_label(self@.take(i as int)),
        {
            assert(self@.take(i + 1).drop_last() =~= self@.take(i as int));
            let len = self.entries[i].0.as_str().unicode_len();
            if len > longest {
                longest = len;
            }
        }
        assert(self@.take(n as int) =~= self@);
        longest
    }

    /// The report of `address` with these fields.
    fn layout(&self, address: &str) -> (r: Vec<Line>)
        ensures
            lines_view(r@) == layout(address@, self@),
    {
        let width = self.longest_label();
        let mut out: Vec<Line> = Vec::new();
        let mut header: Vec<Span> = Vec::new();
        header.push(span(Style::Gray, dashes(65)));
        header.push(span(Style::GreenBold, address.to_owned()));
        out.push(Line { spans: header });
        assert(line_view(out@[0]) =~= header_line(address@));
        assert(lines_view(out@) =~= seq![header_line(address@)] + body_lines(self@.take(0), width as nat));
        let n = self.entries.len();
        for i in 0..n
            invariant
                n == self.entries@.len(),
                width == longest_label(self@),
                lines_view(out@) == seq![header_line(address@)] + body_lines(self@.take(i as int), width as nat),
        {
            assert(self@.take(i + 1).drop_last() =~= self@.take(i as int));
            let ghost before = lines_view(out@);
            let mut more = entry_lines_of(&self.entries[i].0, &self.entries[i].1, width);
            let ghost added = lines_view(more@);
            out.append(&mut more);
            assert(lines_view(out@) =~= before + added);
        }
        assert(self@.take(n as int) =~= self@);
        let mut footer: Vec<Span> = Vec::new();
        footer.push(span(Style::Gray, dashes(80)));
        let ghost before = lines_view(out@);
        out.push(Line { spans: footer });
        assert(line_view(out@.last()) =~= footer_line());
        assert(lines_view(out@) =~= before.push(footer_line()));
        out
    }
}

/// Lays out the report of `address` with the fields of `result`: a header
/// with the address, one line per field (the subdivisions as a list), each
/// label padded to the longest, and a closing rule. The fields of a Country
/// record are left out where there is a City record.
pub fn print_lookup_result(address: &str, result: &LookupResult) -> (r: Vec<Line>)
    ensures
        lines_view(r@) == layout(address@, result_fields(result@)),
{
    let mut fields = Fields::new();
    if let Some(city) = result.city() {
        add_city_fields(&mut fields, city);
    }
    if let Some(country) = result.country() {
        if result.city().is_none() {
            add_country_fields(&mut fields, country);
        }
    }
    if let Some(asn) = result.asn() {
        add_asn_fields(&mut fields, asn);
    }
    if let Some(isp) = result.isp() {
        add_isp_fields(&mut fields, isp);
    }
    if let Some(domain) = result.domain() {
        add_domain_fields(&mut fields, domain);
    }
    if let Some(connection_type) = result.connection_type() {
        add_connection_type_fields(&mut fields, connection_type);
    }
    fields.layout(address)
}

/// What is printed for `address`: the line that says it was found nowhere
/// where `result` is empty, else its report.
pub fn report(address: &str, result: &LookupResult) -> (r: Vec<Line>)
    ensures
        result_is_empty(result@) ==> lines_view(r@) == seq![no_results_line(address@)],
        !result_is_empty(result@) ==> lines_view(r@) == layout(address@, result_fields(result@)),
{
    if result.is_empty() {
        let mut spans: Vec<Span> = Vec::new();
        spans.push(span(Style::Bold, "No results found for ".to_owned()));
        spans.push(span(Style::GreenBold, address.to_owned()));
        let mut out: Vec<Line> = Vec::new();
        out.push(Line { spans });
        assert(line_view(out@[0]) =~= no_results_line(address@));
        assert(lines_view(out@) =~= seq![no_results_line(address@)]);
        out
    } else {
        print_lookup_result(address, result)
    }
}

/// Where there is a City record, the Country record changes nothing in the
/// fields of a result.
pub proof fn lemma_city_hides_country(r1: ResultView, r2: ResultView)
    requires
        r1.city is Some,
        r1.city == r2.city,
        r1.asn == r2.asn,
        r1.isp == r2.isp,
        r1.domain == r2.domain,
        r1.connection_type == r2.connection_type,
    ensures
        result_fields(r1) == result_fields(r2),
{
}

/// No label is longer than the longest.
proof fn lemma_longest_label(entries: Seq<(Seq<char>, Seq<char>)>, i: int)
    requires
        0 <= i < entries.len(),
    ensures
        entries[i].0.len() <= longest_label(entries),
    decreases entries.len(),
{
    if i < entries.len() - 1 {
        assert(entries.drop_last()[i] == entries[i]);
        lemma_longest_label(entries.drop_last(), i);
    }
}

/// Every label is padded to the same width, that of the longest label.
pub proof fn lemma_labels_aligned(entries: Seq<(Seq<char>, Seq<char>)>)
    ensures
        forall|i: int|
            0 <= i < entries.len() ==> #[trigger] padded(entries[i].0, longest_label(entries)).len()
                == longest_label(entries),
{
    assert forall|i: int| 0 <= i < entries.len() implies #[trigger] padded(
        entries[i].0,
        longest_label(entries),
    ).len() == longest_label(entries) by {
        lemma_longest_label(entries, i);
    }
}

proof fn lemma_insert_opt_distinct(f: Seq<(Seq<char>, Seq<char>)>, k: Seq<char>, v: Option<Seq<char>>)
    requires
        distinct_keys(f),
    ensures
        distinct_keys(insert_opt(f, k, v)),
{
    if let Some(v) = v {
        lemma_upsert(f, k, v, 0);
    }
}

proof fn lemma_city_fields_distinct(f: Seq<(Seq<char>, Seq<char>)>, c: City)
    requires
        distinct_keys(f),
    ensures
        distinct_keys(city_fields(f, c)),
{
    let f1 = insert_opt(f, "City"@, city_name_text(c.city));
    lemma_insert_opt_distinct(f, "City"@, city_name_text(c.city));
    let f2 = insert_opt(f1, "Continent"@, place_text(c.continent));
    lemma_insert_opt_distinct(f1, "Continent"@, place_text(c.continent));
    let f3 = insert_opt(f2, "Country"@, place_text(c.country));
    lemma_insert_opt_distinct(f2, "Country"@, place_text(c.country));
    let f4 = insert_opt(f3, "Time zone"@, text_of(c.location.time_zone));
    lemma_insert_opt_distinct(f3, "Time zone"@, text_of(c.location.time_zone));
    let f5 = insert_opt(f4, "Approximate latitude/longitude and accuracy radius"@, coordinates_text(c));
    lemma_insert_opt_distinct(f4, "Approximate latitude/longitude and accuracy radius"@, coordinates_text(c));
    let f6 = insert_opt(f5, "Postal code"@, text_of(c.postal_code));
    lemma_insert_opt_distinct(f5, "Postal code"@, text_of(c.postal_code));
    let f7 = insert_opt(f6, "Registered country"@, place_text(c.registered_country));
    lemma_insert_opt_distinct(f6, "Registered country"@, place_text(c.registered_country));
    let f8 = insert_opt(f7, "Represented country"@, place_text(c.represented_country));
    lemma_insert_opt_distinct(f7, "Represented country"@, place_text(c.represented_country));
    let f9 = insert_opt(f8, "Representation type"@, text_of(c.representation_type));
    lemma_insert_opt_distinct(f8, "Representation type"@, text_of(c.representation_type));
    let f10 = insert_opt(f9, "Subdivisions"@, subdivisions_text(c.subdivisions@));
    lemma_insert_opt_distinct(f9, "Subdivisions"@, subdivisions_text(c.subdivisions@));
    lemma_insert_opt_distinct(f10, "Anycast"@, anycast_text(c.is_anycast));
}

proof fn lemma_country_fields_distinct(f: Seq<(Seq<char>, Seq<char>)>, c: Country)
    requires
        distinct_keys(f),
    ensures
        distinct_keys(country_fields(f, c)),
{
    let f1 = insert_opt(f, "Continent"@, place_text(c.continent));
    lemma_insert_opt_distinct(f, "Continent"@, place_text(c.continent));
    let f2 = insert_opt(f1, "Country"@, place_text(c.country));
    lemma_insert_opt_distinct(f1, "Country"@, place_text(c.country));
    let f3 = insert_opt(f2, "Registered country"@, place_text(c.registered_country));
    lemma_insert_opt_distinct(f2, "Registered country"@, place_text(c.registered_country));
    let f4 = insert_opt(f3, "Represented country"@, place_text(c.represented_country));
    lemma_insert_opt_distinct(f3, "Represented country"@, place_text(c.represented_country));
    let f5 = insert_opt(f4, "Representation type"@, text_of(c.representation_type));
    lemma_insert_opt_distinct(f4, "Representation type"@, text_of(c.representation_type));
    lemma_insert_opt_distinct(f5, "Anycast"@, anycast_text(c.is_anycast));
}

/// No label is shown twice in the report of a result.
pub proof fn lemma_labels_unique(r: ResultView)
    ensures
        distinct_keys(result_fields(r)),
{
    let f0 = Seq::<(Seq<char>, Seq<char>)>::empty();
    let f1 = match r.city {
        Some(c) => city_fields(f0, c),
        None => f0,
    };
    if let Some(c) = r.city {
        lemma_city_fields_distinct(f0, c);
    }
    let f2 = match r.country {
        Some(c) => if r.city is None {
            country_fields(f1, c)
        } else {
            f1
        },
        None => f1,
    };
    if let Some(c) = r.country {
        if r.city is None {
            lemma_country_fields_distinct(f1, c);
        }
    }
    let f3 = match r.asn {
        Some(a) => asn_fields(f2, a),
        None => f2,
    };
    if let Some(a) = r.asn {
        lemma_insert_opt_distinct(f2, "ASN (Autonomous system number)"@, number_text(a.autonomous_system_number));
        lemma_insert_opt_distinct(
            insert_opt(f2, "ASN (Autonomous system number)"@, number_text(a.autonomous_system_number)),
            "ASN Organization"@,
            text_of(a.autonomous_system_organization),
        );
    }
    let f4 = match r.isp {
        Some(i) => isp_fields(f3, i),
        None => f3,
    };
    if let Some(i) = r.isp {
        let g1 = insert_opt(f3, "ISP (Internet Service Provider)"@, text_of(i.isp));
        lemma_insert_opt_distinct(f3, "ISP (Internet Service Provider)"@, text_of(i.isp));
        let g2 = insert_opt(g1, "ISP Organization"@, text_of(i.organization));
        lemma_insert_opt_distinct(g1, "ISP Organization"@, text_of(i.organization));
        let g3 = insert_opt(g2, "Mobile country code"@, text_of(i.mobile_country_code));
        lemma_insert_opt_distinct(g2, "Mobile country code"@, text_of(i.mobile_country_code));
        lemma_insert_opt_distinct(g3, "Mobile network code"@, text_of(i.mobile_network_code));
    }
    let f5 = match r.domain {
        Some(d) => domain_fields(f4, d),
        None => f4,
    };
    if let Some(d) = r.domain {
        lemma_insert_opt_distinct(f4, "Domain"@, text_of(d.domain));
    }
    if let Some(c) = r.connection_type {
        lemma_insert_opt_distinct(f5, "Connection type"@, text_of(c.connection_type));
    }
}

/// Each subdivision that has a name is listed as an item of its own under the
/// "Subdivisions" heading, in order, where no subdivision's text holds ", ".
pub proof fn lemma_subdivisions_listed(subs: Seq<Place>, width: nat)
    requires
        subdivisions_text(subs) is Some,
        forall|i: int|
            0 <= i < subdivision_texts(subs).len() ==> !contains_seq(
                #[trigger] subdivision_texts(subs)[i],
                ", "@,
            ),
    ensures
        entry_lines("Subdivisions"@, subdivisions_text(subs)->0, width) == seq![
            seq![(Style::CyanBold, padded("Subdivisions"@, width)), (Style::Gray, ":"@)],
        ] + item_lines(subdivision_texts(subs)),
{
    lemma_split_join(subdivision_texts(subs));
}

/// The labels and values that a City record gives, in order.
pub open spec fn city_entries(c: City) -> Seq<(Seq<char>, Option<Seq<char>>)> {
    seq![
        ("City"@, city_name_text(c.city)),
        ("Continent"@, place_text(c.continent)),
        ("Country"@, place_text(c.country)),
        ("Time zone"@, text_of(c.location.time_zone)),
        ("Approximate latitude/longitude and accuracy radius"@, coordinates_text(c)),
        ("Postal code"@, text_of(c.postal_code)),
        ("Registered country"@, place_text(c.registered_country)),
        ("Represented country"@, place_text(c.represented_country)),
        ("Representation type"@, text_of(c.representation_type)),
        ("Subdivisions"@, subdivisions_text(c.subdivisions@)),
        ("Anycast"@, anycast_text(c.is_anycast)),
    ]
}

/// The fields of a City record are its entries inserted in order, and no
/// label occurs twice among them.
proof fn lemma_city_entries(f: Seq<(Seq<char>, Seq<char>)>, c: City)
    ensures
        city_fields(f, c) == upsert_present(f, city_entries(c)),
        distinct_entry_keys(city_entries(c)),
{
    let es = city_entries(c);
    reveal_with_fuel(upsert_present, 12);
    assert(es.drop_last().drop_last().drop_last().drop_last().drop_last().drop_last().drop_last().drop_last().drop_last().drop_last().drop_last() =~= Seq::<(Seq<char>, Option<Seq<char>>)>::empty());
    reveal_strlit("City");
    reveal_strlit("Continent");
    reveal_strlit("Country");
    reveal_strlit("Time zone");
    reveal_strlit("Approximate latitude/longitude and accuracy radius");
    reveal_strlit("Postal code");
    reveal_strlit("Registered country");
    reveal_strlit("Represented country");
    reveal_strlit("Representation type");
    reveal_strlit("Subdivisions");
    reveal_strlit("Anycast");
    assert forall|i: int, j: int| 0 <= i < j < es.len() implies es[i].0 != es[j].0 by {
        if es[i].0.len() == es[j].0.len() {
            assert(es[i].0[0] != es[j].0[0] || es[i].0[9] != es[j].0[9]);
        }
    }
}

/// Adding the fields of the same City record a second time changes nothing.
pub proof fn lemma_city_fields_idempotent(f: Seq<(Seq<char>, Seq<char>)>, c: City)
    requires
        distinct_keys(f),
    ensures
        city_fields(city_fields(f, c), c) == city_fields(f, c),
{
    lemma_city_entries(f, c);
    lemma_city_entries(city_fields(f, c), c);
    lemma_upsert_present_idempotent(f, city_entries(c));
}

/// A City record with no city name, time zone, coordinates, postal code or
/// subdivisions, and with the places, representation type and anycast flag of
/// a Country record, gives the same fields as that Country record.
pub proof fn lemma_country_as_city(f: Seq<(Seq<char>, Seq<char>)>, c: Country, y: City)
    requires
        y.city.name is None,
        y.location.time_zone is None,
        y.location.latitude is None,
        y.postal_code is None,
        y.subdivisions@.len() == 0,
        y.continent == c.continent,
        y.country == c.country,
        y.registered_country == c.registered_country,
        y.represented_country == c.represented_country,
        y.representation_type == c.representation_type,
        y.is_anycast == c.is_anycast,
    ensures
        city_fields(f, y) == country_fields(f, c),
{
    assert(subdivision_texts(y.subdivisions@) =~= Seq::<Seq<char>>::empty());
}

/// The entries that a Country record gives, at the places of the labels
/// that a City record gives, without values where the Country record has none.
pub open spec fn country_entries(c: Country) -> Seq<(Seq<char>, Option<Seq<char>>)> {
    seq![
        ("City"@, None),
        ("Continent"@, place_text(c.continent)),
        ("Country"@, place_text(c.country)),
        ("Time zone"@, None),
        ("Approximate latitude/longitude and accuracy radius"@, None),
        ("Postal code"@, None),
        ("Registered country"@, place_text(c.registered_country)),
        ("Represented country"@, place_text(c.represented_country)),
        ("Representation type"@, text_of(c.representation_type)),
        ("Subdivisions"@, None),
        ("Anycast"@, anycast_text(c.is_anycast)),
    ]
}

/// The entries of the place records of a result: the City record's, else the
/// Country record's, else none.
pub open spec fn place_entries(r: ResultView) -> Seq<(Seq<char>, Option<Seq<char>>)> {
    match r.city {
        Some(c) => city_entries(c),
        None => match r.country {
            Some(c) => country_entries(c),
            None => seq![
                ("City"@, None),
                ("Continent"@, None),
                ("Country"@, None),
                ("Time zone"@, None),
                ("Approximate latitude/longitude and accuracy radius"@, None),
                ("Postal code"@, None),
                ("Registered country"@, None),
                ("Represented country"@, None),
                ("Representation type"@, None),
                ("Subdivisions"@, None),
                ("Anycast"@, None),
            ],
        },
    }
}

/// The entries of an ASN record, if any.
pub open spec fn asn_entries(a: Option<Asn>) -> Seq<(Seq<char>, Option<Seq<char>>)> {
    seq![
        ("ASN (Autonomous system number)"@, match a { Some(a) => number_text(a.autonomous_system_number), None => None }),
        ("ASN Organization"@, match a { Some(a) => text_of(a.autonomous_system_organization), None => None }),
    ]
}

/// The entries of an ISP record, if any.
pub open spec fn isp_entries(i: Option<Isp>) -> Seq<(Seq<char>, Option<Seq<char>>)> {
    seq![
        ("ISP (Internet Service Provider)"@, match i { Some(i) => text_of(i.isp), None => None }),
        ("ISP Organization"@, match i { Some(i) => text_of(i.organization), None => None }),
        ("Mobile country code"@, match i { Some(i) => text_of(i.mobile_country_code), None => None }),
        ("Mobile network code"@, match i { Some(i) => text_of(i.mobile_network_code), None => None }),
    ]
}

/// The entry of a Domain record, if any.
pub open spec fn domain_entries(d: Option<Domain>) -> Seq<(Seq<char>, Option<Seq<char>>)> {
    seq![("Domain"@, match d { Some(d) => text_of(d.domain), None => None })]
}

/// The entry of a Connection-Type record, if any.
pub open spec fn connection_type_entries(c: Option<ConnectionType>) -> Seq<(Seq<char>, Option<Seq<char>>)> {
    seq![("Connection type"@, match c { Some(c) => text_of(c.connection_type), None => None })]
}

/// All entries of a result in the order they are inserted.
pub open spec fn result_entries(r: ResultView) -> Seq<(Seq<char>, Option<Seq<char>>)> {
    place_entries(r) + asn_entries(r.asn) + isp_entries(r.isp) + domain_entries(r.domain)
        + connection_type_entries(r.connection_type)
}

/// Every label of a report, in order.
pub open spec fn report_labels() -> Seq<Seq<char>> {
    seq![
        "City"@,
        "Continent"@,
        "Country"@,
        "Time zone"@,
        "Approximate latitude/longitude and accuracy radius"@,
        "Postal code"@,
        "Registered country"@,
        "Represented country"@,
        "Representation type"@,
        "Subdivisions"@,
        "Anycast"@,
        "ASN (Autonomous system number)"@,
        "ASN Organization"@,
        "ISP (Internet Service Provider)"@,
        "ISP Organization"@,
        "Mobile country code"@,
        "Mobile network code"@,
        "Domain"@,
        "Connection type"@,
    ]
}

/// No two labels of a report are the same text.
proof fn lemma_report_labels_distinct()
    ensures
        forall|i: int, j: int| 0 <= i < j < report_labels().len() ==> report_labels()[i] != report_labels()[j],
{
    reveal_strlit("City");
    reveal_strlit("Continent");
    reveal_strlit("Country");
    reveal_strlit("Time zone");
    reveal_strlit("Approximate latitude/longitude and accuracy radius");
    reveal_strlit("Postal code");
    reveal_strlit("Registered country");
    reveal_strlit("Represented country");
    reveal_strlit("Representation type");
    reveal_strlit("Subdivisions");
    reveal_strlit("Anycast");
    reveal_strlit("ASN (Autonomous system number)");
    reveal_strlit("ASN Organization");
    reveal_strlit("ISP (Internet Service Provider)");
    reveal_strlit("ISP Organization");
    reveal_strlit("Mobile country code");
    reveal_strlit("Mobile network code");
    reveal_strlit("Domain");
    reveal_strlit("Connection type");
    let l = report_labels();
    assert forall|i: int, j: int| 0 <= i < j < l.len() implies l[i] != l[j] by {
        if l[i].len() == l[j].len() {
            assert(l[i][0] != l[j][0] || l[i][9] != l[j][9]);
        }
    }
}

/// The entries of a result carry the labels of a report, so no label twice.
proof fn lemma_result_entries_distinct(r: ResultView)
    ensures
        distinct_entry_keys(result_entries(r)),
{
    let es = result_entries(r);
    lemma_report_labels_distinct();
    assert(es.len() == 19);
    assert forall|i: int| 0 <= i < es.len() implies (#[trigger] es[i]).0 == report_labels()[i] by {}
    assert forall|i: int, j: int| 0 <= i < j < es.len() implies es[i].0 != es[j].0 by {
        assert(es[i].0 == report_labels()[i]);
        assert(es[j].0 == report_labels()[j]);
    }
}

/// The fields of a result are its entries inserted in order.
proof fn lemma_result_entries(r: ResultView)
    ensures
        result_fields(r) == upsert_present(Seq::empty(), result_entries(r)),
{
    let e0 = Seq::<(Seq<char>, Seq<char>)>::empty();
    reveal_with_fuel(upsert_present, 12);
    let pe = place_entries(r);
    assert(pe.len() == 11);
    assert(pe.drop_last().drop_last().drop_last().drop_last().drop_last().drop_last().drop_last().drop_last().drop_last().drop_last().drop_last() =~= Seq::<(Seq<char>, Option<Seq<char>>)>::empty());
    let f1 = match r.city {
        Some(c) => city_fields(e0, c),
        None => e0,
    };
    let f2 = match r.country {
        Some(c) => if r.city is None {
            country_fields(f1, c)
        } else {
            f1
        },
        None => f1,
    };
    if let Some(c) = r.city {
        lemma_city_entries(e0, c);
    }
    assert(f2 == upsert_present(e0, pe));
    let ae = asn_entries(r.asn);
    let ie = isp_entries(r.isp);
    let de = domain_entries(r.domain);
    let ce = connection_type_entries(r.connection_type);
    assert(ae.drop_last().drop_last() =~= Seq::<(Seq<char>, Option<Seq<char>>)>::empty());
    assert(ie.drop_last().drop_last().drop_last().drop_last() =~= Seq::<(Seq<char>, Option<Seq<char>>)>::empty());
    assert(de.drop_last() =~= Seq::<(Seq<char>, Option<Seq<char>>)>::empty());
    assert(ce.drop_last() =~= Seq::<(Seq<char>, Option<Seq<char>>)>::empty());
    let f3 = match r.asn {
        Some(a) => asn_fields(f2, a),
        None => f2,
    };
    assert(f3 == upsert_present(f2, ae));
    let f4 = match r.isp {
        Some(i) => isp_fields(f3, i),
        None => f3,
    };
    assert(f4 == upsert_present(f3, ie));
    let f5 = match r.domain {
        Some(d) => domain_fields(f4, d),
        None => f4,
    };
    assert(f5 == upsert_present(f4, de));
    assert(result_fields(r) == upsert_present(f5, ce));
    lemma_upsert_present_concat(e0, pe, ae);
    lemma_upsert_present_concat(e0, pe + ae, ie);
    lemma_upsert_present_concat(e0, pe + ae + ie, de);
    lemma_upsert_present_concat(e0, pe + ae + ie + de, ce);
}

/// Every value that a result's entries carry is shown under its label.
proof fn lemma_result_entries_shown(r: ResultView, j: int)
    requires
        0 <= j < result_entries(r).len(),
        result_entries(r)[j].1 is Some,
    ensures
        has_entry(result_fields(r), result_entries(r)[j].0, result_entries(r)[j].1->0),
{
    lemma_result_entries(r);
    lemma_result_entries_distinct(r);
    lemma_upsert_present_entries(Seq::empty(), result_entries(r));
    assert(result_entries(r)[j].1->0 == result_entries(r)[j].1->0);
}

/// The ASN record of a result is shown whatever other records there are: its
/// number in decimal under "ASN (Autonomous system number)" and its
/// organization under "ASN Organization".
pub proof fn lemma_asn_shown(r: ResultView)
    ensures
        r.asn matches Some(a) ==> (a.autonomous_system_number matches Some(n) ==> has_entry(
            result_fields(r),
            "ASN (Autonomous system number)"@,
            decimal_seq(n as nat),
        )),
        r.asn matches Some(a) ==> (a.autonomous_system_organization matches Some(o) ==> has_entry(
            result_fields(r),
            "ASN Organization"@,
            o@,
        )),
{
    if let Some(a) = r.asn {
        if a.autonomous_system_number is Some {
            lemma_result_entries_shown(r, 11);
        }
        if a.autonomous_system_organization is Some {
            lemma_result_entries_shown(r, 12);
        }
    }
}

/// The ISP record of a result is shown whatever other records there are: the
/// ISP, the organization, the mobile country code and the mobile network code,
/// each under its own label.
pub proof fn lemma_isp_shown(r: ResultView)
    ensures
        r.isp matches Some(i) ==> (i.isp matches Some(x) ==> has_entry(
            result_fields(r),
            "ISP (Internet Service Provider)"@,
            x@,
        )),
        r.isp matches Some(i) ==> (i.organization matches Some(x) ==> has_entry(result_fields(r), "ISP Organization"@, x@)),
        r.isp matches Some(i) ==> (i.mobile_country_code matches Some(x) ==> has_entry(
            result_fields(r),
            "Mobile country code"@,
            x@,
        )),
        r.isp matches Some(i) ==> (i.mobile_network_code matches Some(x) ==> has_entry(
            result_fields(r),
            "Mobile network code"@,
            x@,
        )),
{
    if let Some(i) = r.isp {
        if i.isp is Some {
            lemma_result_entries_shown(r, 13);
        }
        if i.organization is Some {
            lemma_result_entries_shown(r, 14);
        }
        if i.mobile_country_code is Some {
            lemma_result_entries_shown(r, 15);
        }
        if i.mobile_network_code is Some {
            lemma_result_entries_shown(r, 16);
        }
    }
}

/// The Domain and Connection-Type records of a result are shown whatever other
/// records there are.
pub proof fn lemma_domain_and_connection_type_shown(r: ResultView)
    ensures
        r.domain matches Some(d) ==> (d.domain matches Some(x) ==> has_entry(result_fields(r), "Domain"@, x@)),
        r.connection_type matches Some(c) ==> (c.connection_type matches Some(x) ==> has_entry(
            result_fields(r),
            "Connection type"@,
            x@,
        )),
{
    if let Some(d) = r.domain {
        if d.domain is Some {
            lemma_result_entries_shown(r, 17);
        }
    }
    if let Some(c) = r.connection_type {
        if c.connection_type is Some {
            lemma_result_entries_shown(r, 18);
        }
    }
}

/// Labels of one run of entries that stand at `start` among the report labels.
proof fn lemma_entries_distinct(es: Seq<(Seq<char>, Option<Seq<char>>)>, start: int)
    requires
        0 <= start,
        start + es.len() <= report_labels().len(),
        forall|i: int| 0 <= i < es.len() ==> (#[trigger] es[i]).0 == report_labels()[start + i],
    ensures
        distinct_entry_keys(es),
{
    lemma_report_labels_distinct();
    assert forall|i: int, j: int| 0 <= i < j < es.len() implies es[i].0 != es[j].0 by {
        assert(es[i].0 == report_labels()[start + i]);
        assert(es[j].0 == report_labels()[start + j]);
    }
}

/// Adding an ISP record's fields shows each of its values under its own
/// label: the ISP, the organization, the mobile country code and the mobile
/// network code.
pub proof fn lemma_isp_fields_shown(f: Seq<(Seq<char>, Seq<char>)>, i: Isp)
    requires
        distinct_keys(f),
    ensures
        i.isp matches Some(x) ==> has_entry(isp_fields(f, i), "ISP (Internet Service Provider)"@, x@),
        i.organization matches Some(x) ==> has_entry(isp_fields(f, i), "ISP Organization"@, x@),
        i.mobile_country_code matches Some(x) ==> has_entry(isp_fields(f, i), "Mobile country code"@, x@),
        i.mobile_network_code matches Some(x) ==> has_entry(isp_fields(f, i), "Mobile network code"@, x@),
{
    let es = isp_entries(Some(i));
    reveal_with_fuel(upsert_present, 5);
    assert(es.drop_last().drop_last().drop_last().drop_last() =~= Seq::<(Seq<char>, Option<Seq<char>>)>::empty());
    assert(isp_fields(f, i) == upsert_present(f, es));
    lemma_entries_distinct(es, 13);
    lemma_upsert_present_entries(f, es);
    if i.isp is Some {
        assert(es[0].1 is Some);
    }
    if i.organization is Some {
        assert(es[1].1 is Some);
    }
    if i.mobile_country_code is Some {
        assert(es[2].1 is Some);
    }
    if i.mobile_network_code is Some {
        assert(es[3].1 is Some);
    }
}

/// Adding an ASN record's fields shows its number in decimal and its
/// organization, each under its own label.
pub proof fn lemma_asn_fields_shown(f: Seq<(Seq<char>, Seq<char>)>, a: Asn)
    requires
        distinct_keys(f),
    ensures
        a.autonomous_system_number matches Some(n) ==> has_entry(
            asn_fields(f, a),
            "ASN (Autonomous system number)"@,
            decimal_seq(n as nat),
        ),
        a.autonomous_system_organization matches Some(o) ==> has_entry(asn_fields(f, a), "ASN Organization"@, o@),
{
    let es = asn_entries(Some(a));
    reveal_with_fuel(upsert_present, 3);
    assert(es.drop_last().drop_last() =~= Seq::<(Seq<char>, Option<Seq<char>>)>::empty());
    assert(asn_fields(f, a) == upsert_present(f, es));
    lemma_entries_distinct(es, 11);
    lemma_upsert_present_entries(f, es);
    if a.autonomous_system_number is Some {
        assert(es[0].1 is Some);
    }
    if a.autonomous_system_organization is Some {
        assert(es[1].1 is Some);
    }
}

/// A City record of a result shows each of its values under its label; so
/// does a Country record where there is no City record.
pub proof fn lemma_places_shown(r: ResultView, j: int)
    requires
        0 <= j < 11,
    ensures
        r.city matches Some(c) ==> (city_entries(c)[j].1 is Some ==> has_entry(
            result_fields(r),
            city_entries(c)[j].0,
            city_entries(c)[j].1->0,
        )),
        r.city is None ==> (r.country matches Some(c) ==> (country_entries(c)[j].1 is Some ==> has_entry(
            result_fields(r),
            country_entries(c)[j].0,
            country_entries(c)[j].1->0,
        ))),
{
    let es = result_entries(r);
    assert(es[j] == place_entries(r)[j]);
    if place_entries(r)[j].1 is Some {
        lemma_result_entries_shown(r, j);
    }
}

} // verus!
