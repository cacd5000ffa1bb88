use vstd::prelude::*;
use crate::models::{Country, RestCountryResponse, Timestamp};
use crate::rates::RateTable;

verus! {

/// Smallest growth multiplier, in thousandths (1000.000).
pub const MULTIPLIER_MIN: u64 = 1_000_000;

/// Largest growth multiplier, in thousandths (2000.000).
pub const MULTIPLIER_MAX: u64 = 2_000_000;

/// Hundredths of GDP per unit of `population * multiplier / rate` with the
/// multiplier in thousandths and the rate in millionths.
pub const GDP_SCALE: u128 = 100_000;

/// The code of the first listed currency, if the country lists any.
pub open spec fn first_currency(c: RestCountryResponse) -> Option<String> {
    match c.currencies {
        Some(v) => if v@.len() > 0 {
            Some(v@[0].code)
        } else {
            None
        },
        None => None,
    }
}

/// Estimated GDP in hundredths: `population * multiplier / rate`, truncated
/// toward zero, with the multiplier in thousandths and the rate in millionths.
pub open spec fn gdp_cents(population: int, multiplier: int, rate: int) -> int {
    if population >= 0 {
        (population * multiplier * 100_000) / rate
    } else {
        -(((-population) * multiplier * 100_000) / rate)
    }
}

/// The exchange rate a country gets: that of its first currency, if the
/// table has one.
pub open spec fn rate_for(c: RestCountryResponse, rates: Map<Seq<char>, u64>) -> Option<u64> {
    match first_currency(c) {
        Some(k) => if rates.contains_key(k@) {
            Some(rates[k@])
        } else {
            None
        },
        None => None,
    }
}

/// The estimated GDP a country gets: derived from the rate when there is
/// one, zero when it lists no currency, absent when its currency has no rate.
pub open spec fn gdp_for(c: RestCountryResponse, rates: Map<Seq<char>, u64>, multiplier: int) -> Option<i128> {
    match first_currency(c) {
        Some(k) => if rates.contains_key(k@) {
            Some(gdp_cents(c.population as int, multiplier, rates[k@] as int) as i128)
        } else {
            None
        },
        None => Some(0i128),
    }
}

/// The record that a refresh writes for `c`.
pub open spec fn enriched(
    c: RestCountryResponse,
    rates: Map<Seq<char>, u64>,
    multiplier: int,
    at: Timestamp,
) -> Country {
    Country {
        name: c.name,
        capital: c.capital,
        region: c.region,
        population: c.population,
        currency_code: first_currency(c),
        exchange_rate: rate_for(c, rates),
        estimated_gdp: gdp_for(c, rates, multiplier),
        flag_url: c.flag,
        last_refreshed_at: at,
    }
}

/// The code of the first listed currency.
pub fn currency_code(country: &RestCountryResponse) -> (r: Option<String>)
    ensures
        r == first_currency(*country),
{
    match &country.currencies {
        Some(v) => if v.len() > 0 {
            Some(v[0].code.clone())
        } else {
            None
        },
        None => None,
    }
}

/// `population * multiplier / rate` in hundredths, truncated toward zero.
pub fn estimate_gdp(population: i64, multiplier: u64, rate: u64) -> (r: i128)
    requires
        multiplier <= MULTIPLIER_MAX,
        rate > 0,
    ensures
        r as int == gdp_cents(population as int, multiplier as int, rate as int),
{
    let magnitude: u128 = if population >= 0 {
        population as u128
    } else {
        (0i128 - population as i128) as u128
    };
    assert(magnitude <= 0x8000_0000_0000_0000);
    assert(magnitude * (multiplier as u128) <= 0x8000_0000_0000_0000 * 2_000_000) by (nonlinear_arith)
        requires
            magnitude <= 0x8000_0000_0000_0000,
            multiplier <= 2_000_000,
    ;
    let scaled: u128 = magnitude * (multiplier as u128);
    assert(scaled * GDP_SCALE <= 0x8000_0000_0000_0000 * 2_000_000 * 100_000) by (nonlinear_arith)
        requires
            scaled <= 0x8000_0000_0000_0000 * 2_000_000,
    ;
    let product: u128 = scaled * GDP_SCALE;
    let q: u128 = product / (rate as u128);
    assert(q <= product) by (nonlinear_arith)
        requires
            rate >= 1,
            q == product / (rate as u128),
    ;
    assert(magnitude as int * multiplier as int * 100_000 == product as int);
    if population >= 0 {
        q as i128
    } else {
        0i128 - q as i128
    }
}

/// The record for `country`, with `multiplier` as the growth factor where
/// its currency has a rate and `at` as its refresh time.
pub fn enrich_country(
    country: &RestCountryResponse,
    rates: &RateTable,
    multiplier: u64,
    at: Timestamp,
) -> (r: Country)
    requires
        rates.wf(),
        multiplier <= MULTIPLIER_MAX,
    ensures
        r == enriched(*country, rates@, multiplier as int, at),
{
    let code = currency_code(country);
    let (exchange_rate, estimated_gdp) = match &code {
        Some(k) => match rates.get(k) {
            Some(rate) => (Some(rate), Some(estimate_gdp(country.population, multiplier, rate))),
            None => (None, None),
        },
        None => (None, Some(0i128)),
    };
    Country {
        name: country.name.clone(),
        capital: crate::models::clone_opt_string(&country.capital),
        region: crate::models::clone_opt_string(&country.region),
        population: country.population,
        currency_code: code,
        exchange_rate,
        estimated_gdp,
        flag_url: crate::models::clone_opt_string(&country.flag),
        last_refreshed_at: at,
    }
}

/// A country whose currency has a rate gets that rate and a GDP of
/// `population * multiplier / rate`: never negative for a non-negative
/// population, and between the values the smallest and the largest
/// multiplier give.
pub proof fn lemma_rated_gdp(c: RestCountryResponse, rates: Map<Seq<char>, u64>, multiplier: int)
    requires
        first_currency(c) is Some,
        rates.contains_key(first_currency(c).unwrap()@),
        rates[first_currency(c).unwrap()@] > 0,
        MULTIPLIER_MIN <= multiplier <= MULTIPLIER_MAX,
        c.population >= 0,
    ensures
        ({
            let rate = rates[first_currency(c).unwrap()@] as int;
            let gdp = gdp_for(c, rates, multiplier).unwrap() as int;
            &&& rate_for(c, rates) == Some(rate as u64)
            &&& gdp == (c.population * multiplier * 100_000) / rate
            &&& 0 <= gdp
            &&& (c.population * MULTIPLIER_MIN * 100_000) / rate <= gdp
            &&& gdp <= (c.population * MULTIPLIER_MAX * 100_000) / rate
        }),
{
    let rate = rates[first_currency(c).unwrap()@] as int;
    let p = c.population as int;
    assert(0 <= p * MULTIPLIER_MIN * 100_000 <= p * multiplier * 100_000 <= p * MULTIPLIER_MAX * 100_000)
        by (nonlinear_arith)
        requires
            p >= 0,
            MULTIPLIER_MIN <= multiplier <= MULTIPLIER_MAX,
    ;
    vstd::arithmetic::div_mod::lemma_div_is_ordered(p * MULTIPLIER_MIN * 100_000, p * multiplier * 100_000, rate);
    vstd::arithmetic::div_mod::lemma_div_is_ordered(p * multiplier * 100_000, p * MULTIPLIER_MAX * 100_000, rate);
    vstd::arithmetic::div_mod::lemma_div_pos_is_pos(p * multiplier * 100_000, rate);
    assert(p * multiplier * 100_000 <= 0x8000_0000_0000_0000 * 2_000_000 * 100_000) by (nonlinear_arith)
        requires
            0 <= p <= 0x8000_0000_0000_0000,
            multiplier <= 2_000_000,
    ;
    vstd::arithmetic::div_mod::lemma_div_is_ordered_by_denominator(p * multiplier * 100_000, 1, rate);
}

/// A country that lists no currency gets a GDP of exactly zero and no rate.
pub proof fn lemma_no_currency(c: RestCountryResponse, rates: Map<Seq<char>, u64>, multiplier: int)
    requires
        c.currencies is None,
    ensures
        gdp_for(c, rates, multiplier) == Some(0i128),
        rate_for(c, rates) is None,
{
}

/// A country whose currency has no rate gets neither a rate nor a GDP.
pub proof fn lemma_unrated_currency(c: RestCountryResponse, rates: Map<Seq<char>, u64>, multiplier: int)
    requires
        first_currency(c) is Some,
        !rates.contains_key(first_currency(c).unwrap()@),
    ensures
        gdp_for(c, rates, multiplier) is None,
        rate_for(c, rates) is None,
{
}

} // verus!
