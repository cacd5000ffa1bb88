use vstd::prelude::*;
use crate::rates::RateTable;

verus! {

/// One currency entry of a country as the reference source lists it.
pub struct RestCountryCurrency {
    pub code: String,
}

/// A country as the reference source describes it.
pub struct RestCountryResponse {
    pub name: String,
    pub capital: Option<String>,
    pub region: Option<String>,
    pub population: i64,
    pub flag: Option<String>,
    pub currencies: Option<Vec<RestCountryCurrency>>,
}

/// The rates of the exchange-rate source.
pub struct ExchangeRateResponse {
    pub rates: RateTable,
}

/// A point in time: milliseconds since the Unix epoch, UTC.
#[derive(Clone, Copy, PartialEq, Eq, Structural, Debug)]
pub struct Timestamp {
    pub millis: i64,
}

/// A stored country record.
///
/// `exchange_rate` is in millionths of a unit of the reference currency
/// (2.5 is `2_500_000`); `estimated_gdp` is in hundredths (cents).
pub struct Country {
    pub name: String,
    pub capital: Option<String>,
    pub region: Option<String>,
    pub population: i64,
    pub currency_code: Option<String>,
    pub exchange_rate: Option<u64>,
    pub estimated_gdp: Option<i128>,
    pub flag_url: Option<String>,
    pub last_refreshed_at: Timestamp,
}

/// The singleton aggregate written by each refresh.
#[derive(Clone, Copy, PartialEq, Eq, Structural, Debug)]
pub struct AppStatus {
    pub total_countries: i32,
    pub last_refreshed_at: Option<Timestamp>,
}

/// Optional filters and sort key of a listing.
pub struct GetCountriesQuery {
    pub region: Option<String>,
    pub currency: Option<String>,
    pub sort: Option<String>,
}

/// What a successful refresh reports.
pub struct RefreshResponse {
    pub status: String,
    pub countries_processed: usize,
    pub last_refreshed_at: Timestamp,
}

/// Connection settings of the service.
pub struct Config {
    pub database_url: String,
    pub port: u16,
}

pub fn clone_opt_string(s: &Option<String>) -> (r: Option<String>)
    ensures
        r == *s,
{
    match s {
        Some(v) => Some(v.clone()),
        None => None,
    }
}

impl Country {
    /// A field-by-field copy.
    pub fn duplicate(&self) -> (r: Country)
        ensures
            r == *self,
    {
        Country {
            name: self.name.clone(),
            capital: clone_opt_string(&self.capital),
            region: clone_opt_string(&self.region),
            population: self.population,
            currency_code: clone_opt_string(&self.currency_code),
            exchange_rate: self.exchange_rate,
            estimated_gdp: self.estimated_gdp,
            flag_url: clone_opt_string(&self.flag_url),
            last_refreshed_at: self.last_refreshed_at,
        }
    }
}

} // verus!
