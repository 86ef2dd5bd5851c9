//! Optional geolocation: a country-lookup database held in memory.
//! Loading can fail and lookups can miss; both degrade to absence, and
//! nothing downstream depends on what a lookup returns.

use vstd::prelude::*;

verus! {

/// A loaded country-lookup database. The reader inside is a
/// `maxminddb::Reader` over the database's bytes; it is opaque here,
/// and so is this struct, because the reader's type cannot be declared
/// to the verifier (its generic parameter carries an `AsRef` bound).
#[verifier::external_body]
pub struct GeoDatabase {
    reader: maxminddb::Reader<Vec<u8>>,
}

impl GeoDatabase {
    /// Relies on `maxminddb::Reader::from_source`: parses an in-memory
    /// country database, failing on malformed input. `None` on failure,
    /// never an error.
    #[verifier::external_body]
    pub fn load(data: Vec<u8>) -> (r: Option<GeoDatabase>) {
        match maxminddb::Reader::from_source(data) {
            Ok(reader) => Some(GeoDatabase { reader }),
            Err(_) => None,
        }
    }

    /// Relies on `maxminddb::Reader::lookup` and
    /// `maxminddb::LookupResult::decode`: looks one IPv4 address up in
    /// the database and extracts the two-letter country code, if the
    /// database holds one for it. The result depends on the database's
    /// contents, so nothing is claimed of it; callers treat every
    /// outcome alike, and a miss or failure is `None`.
    #[verifier::external_body]
    pub fn lookup_country(&self, octets: (u8, u8, u8, u8)) -> (r: Option<String>) {
        let ip = core::net::IpAddr::V4(
            core::net::Ipv4Addr::new(octets.0, octets.1, octets.2, octets.3),
        );
        let looked_up = self.reader.lookup(ip).ok()?;
        let country: maxminddb::geoip2::Country = looked_up.decode().ok()??;
        country.country.iso_code.map(|code| code.to_string())
    }
}

} // verus!
