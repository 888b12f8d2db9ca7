//! Core logic of `mmq`, a tool that looks up IP addresses in MaxMind MMDB
//! (GeoIP2) databases: classifying the opened databases, collecting what each
//! of them holds for an address, and laying out the report printed for it.
use vstd::prelude::*;

pub mod command;
pub mod display;
pub mod lookup;
pub mod records;
pub mod table;
pub mod text;

pub use command::worker_count;
pub use display::{print_lookup_result, report, Fields, Line, Span, Style};
pub use lookup::{open, Database, DatabaseSource, DatabaseType, Lookup, LookupError};
pub use records::{Asn, City, ConnectionType, Country, Domain, Isp, Location, LookupResult, Place, Record};

verus! {

} // verus!
