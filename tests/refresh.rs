use country_cache::enrich::{estimate_gdp, enrich_country, MULTIPLIER_MAX, MULTIPLIER_MIN};
use country_cache::models::{Country, RestCountryCurrency, RestCountryResponse, Timestamp};
use country_cache::rates::RateTable;
use country_cache::store::{
    apply_refresh, delete_country_by_name, get_app_status, get_country_by_name, refresh_data,
    top_by_gdp, CountryStore,
};

fn country(name: &str, population: i64, codes: Option<Vec<&str>>) -> RestCountryResponse {
    RestCountryResponse {
        name: name.to_string(),
        capital: Some(format!("{} City", name)),
        region: Some("Testregion".to_string()),
        population,
        flag: None,
        currencies: codes.map(|cs| {
            cs.into_iter()
                .map(|c| RestCountryCurrency { code: c.to_string() })
                .collect()
        }),
    }
}

fn rates(entries: &[(&str, u64)]) -> RateTable {
    let mut t = RateTable::new();
    for (code, rate) in entries {
        t.insert(code.to_string(), *rate);
    }
    t
}

fn row(name: &str, population: i64, gdp: Option<i128>) -> Country {
    Country {
        name: name.to_string(),
        capital: None,
        region: None,
        population,
        currency_code: None,
        exchange_rate: None,
        estimated_gdp: gdp,
        flag_url: None,
        last_refreshed_at: Timestamp { millis: 0 },
    }
}

#[test]
fn testland_gets_rate_and_gdp_in_range() {
    let mut store = CountryStore::new();
    let r = refresh_data(
        &mut store,
        vec![country("Testland", 1_000_000, Some(vec!["XTL"]))],
        rates(&[("XTL", 2_000_000)]),
    );
    let (status, top) = r.ok().unwrap();
    assert_eq!(status.total_countries, 1);
    assert!(status.last_refreshed_at.is_some());
    assert_eq!(top.len(), 1);
    let c = get_country_by_name(&store, "Testland").ok().unwrap();
    assert_eq!(c.exchange_rate, Some(2_000_000));
    assert_eq!(c.currency_code, Some("XTL".to_string()));
    let gdp = c.estimated_gdp.unwrap();
    // 500000000.00 to 1000000000.00, in hundredths
    assert!(gdp >= 50_000_000_000 && gdp <= 100_000_000_000);
    assert_eq!(c.last_refreshed_at, status.last_refreshed_at.unwrap());
    assert_eq!(c.last_refreshed_at.millis % 100, 0);
}

#[test]
fn no_currency_list_gives_zero_gdp() {
    let mut store = CountryStore::new();
    refresh_data(&mut store, vec![country("Nocoin", 500, None)], rates(&[("USD", 1_000_000)]))
        .ok()
        .unwrap();
    let c = get_country_by_name(&store, "Nocoin").ok().unwrap();
    assert_eq!(c.estimated_gdp, Some(0));
    assert_eq!(c.exchange_rate, None);
    assert_eq!(c.currency_code, None);
}

#[test]
fn empty_currency_list_gives_zero_gdp() {
    let t = rates(&[("USD", 1_000_000)]);
    let c = enrich_country(&country("Emptyland", 10, Some(vec![])), &t, MULTIPLIER_MIN, Timestamp { millis: 5 });
    assert_eq!(c.estimated_gdp, Some(0));
    assert_eq!(c.exchange_rate, None);
}

#[test]
fn unrated_currency_gives_neither_rate_nor_gdp() {
    let mut store = CountryStore::new();
    refresh_data(&mut store, vec![country("Oddland", 500, Some(vec!["ODD"]))], rates(&[("USD", 1_000_000)]))
        .ok()
        .unwrap();
    let c = get_country_by_name(&store, "Oddland").ok().unwrap();
    assert_eq!(c.currency_code, Some("ODD".to_string()));
    assert_eq!(c.exchange_rate, None);
    assert_eq!(c.estimated_gdp, None);
}

#[test]
fn only_first_currency_counts() {
    let t = rates(&[("BBB", 1_000_000)]);
    let c = enrich_country(&country("Twin", 10, Some(vec!["AAA", "BBB"])), &t, MULTIPLIER_MIN, Timestamp { millis: 0 });
    assert_eq!(c.currency_code, Some("AAA".to_string()));
    assert_eq!(c.exchange_rate, None);
    assert_eq!(c.estimated_gdp, None);
}

#[test]
fn gdp_formula_exact_values() {
    // 1e6 * 1500 / 2.0 = 750000000.00
    assert_eq!(estimate_gdp(1_000_000, 1_500_000, 2_000_000), 75_000_000_000);
    // 3 * 1000 / 0.5 = 6000.00
    assert_eq!(estimate_gdp(3, MULTIPLIER_MIN, 500_000), 600_000);
    // 7 * 2000 / 3.0 = 4666.666... -> 4666.66
    assert_eq!(estimate_gdp(7, MULTIPLIER_MAX, 3_000_000), 466_666);
    assert_eq!(estimate_gdp(-7, MULTIPLIER_MAX, 3_000_000), -466_666);
    assert_eq!(estimate_gdp(0, MULTIPLIER_MAX, 1), 0);
    assert_eq!(estimate_gdp(i64::MAX, MULTIPLIER_MAX, 1), (i64::MAX as i128) * 2_000_000 * 100_000);
}

#[test]
fn apply_refresh_is_exact_for_given_multipliers() {
    let mut store = CountryStore::new();
    let cs = vec![
        country("Testland", 1_000_000, Some(vec!["XTL"])),
        country("Nocoin", 5, None),
        country("Oddland", 5, Some(vec!["ODD"])),
    ];
    let at = Timestamp { millis: 1_700_000_000_000 };
    let (status, top) = apply_refresh(&mut store, &cs, &rates(&[("XTL", 2_000_000)]), &vec![1_500_000, 1_000_000, 2_000_000], at)
        .ok()
        .unwrap();
    assert_eq!(status.total_countries, 3);
    assert_eq!(status.last_refreshed_at, Some(at));
    assert_eq!(store.len(), 3);
    let names: Vec<&str> = top.iter().map(|c| c.name.as_str()).collect();
    assert_eq!(names, vec!["Testland", "Nocoin"]);
    assert_eq!(top[0].estimated_gdp, Some(75_000_000_000));
    let s = get_app_status(&store).ok().unwrap();
    assert_eq!(s, status);
}

#[test]
fn refresh_overwrites_by_name_and_keeps_order() {
    let mut store = CountryStore::new();
    let t = rates(&[("XTL", 2_000_000)]);
    apply_refresh(&mut store, &vec![country("A", 1, None), country("B", 2, None)], &t, &vec![MULTIPLIER_MIN; 2], Timestamp { millis: 100 })
        .ok()
        .unwrap();
    apply_refresh(&mut store, &vec![country("B", 20, Some(vec!["XTL"])), country("C", 3, None)], &t, &vec![MULTIPLIER_MIN; 2], Timestamp { millis: 200 })
        .ok()
        .unwrap();
    let names: Vec<&str> = store.records().iter().map(|c| c.name.as_str()).collect();
    assert_eq!(names, vec!["A", "B", "C"]);
    let b = get_country_by_name(&store, "B").ok().unwrap();
    assert_eq!(b.population, 20);
    assert_eq!(b.exchange_rate, Some(2_000_000));
    assert_eq!(b.last_refreshed_at, Timestamp { millis: 200 });
    let a = get_country_by_name(&store, "A").ok().unwrap();
    assert_eq!(a.last_refreshed_at, Timestamp { millis: 100 });
    assert_eq!(get_app_status(&store).ok().unwrap().total_countries, 2);
}

#[test]
fn duplicate_names_in_one_batch_keep_the_last() {
    let mut store = CountryStore::new();
    let t = rates(&[]);
    apply_refresh(&mut store, &vec![country("A", 1, None), country("A", 9, None)], &t, &vec![MULTIPLIER_MIN; 2], Timestamp { millis: 0 })
        .ok()
        .unwrap();
    assert_eq!(store.len(), 1);
    assert_eq!(get_country_by_name(&store, "A").ok().unwrap().population, 9);
    assert_eq!(get_app_status(&store).ok().unwrap().total_countries, 2);
}

#[test]
fn empty_refresh_records_zero_countries() {
    let mut store = CountryStore::new();
    let (status, top) = refresh_data(&mut store, vec![], RateTable::new()).ok().unwrap();
    assert_eq!(status.total_countries, 0);
    assert!(top.is_empty());
    assert_eq!(store.len(), 0);
}

#[test]
fn status_before_any_refresh() {
    let store = CountryStore::new();
    let s = get_app_status(&store).ok().unwrap();
    assert_eq!(s.total_countries, 0);
    assert_eq!(s.last_refreshed_at, None);
}

#[test]
fn top_five_by_gdp_highest_first() {
    let rows = vec![
        row("a", 1, Some(10)),
        row("b", 1, None),
        row("c", 1, Some(30)),
        row("d", 1, Some(20)),
        row("e", 1, Some(30)),
        row("f", 1, Some(5)),
        row("g", 1, Some(1)),
        row("h", 1, Some(40)),
    ];
    let top = top_by_gdp(&rows, 5);
    let names: Vec<&str> = top.iter().map(|c| c.name.as_str()).collect();
    assert_eq!(names, vec!["h", "c", "e", "d", "a"]);
    assert!(top_by_gdp(&rows, 0).is_empty());
    let few = top_by_gdp(&vec![row("x", 1, None), row("y", 1, Some(-3))], 5);
    assert_eq!(few.len(), 1);
    assert_eq!(few[0].name, "y");
}

#[test]
fn get_missing_country_is_not_found() {
    let store = CountryStore::new();
    let e = get_country_by_name(&store, "Nope").err().unwrap();
    assert_eq!(e.status_code(), 404);
    assert_eq!(e.error_body(), "{\"error\":\"Country 'Nope' not found\"}");
}

#[test]
fn delete_missing_leaves_count_unchanged() {
    let mut store = CountryStore::new();
    apply_refresh(&mut store, &vec![country("A", 1, None)], &RateTable::new(), &vec![MULTIPLIER_MIN], Timestamp { millis: 0 })
        .ok()
        .unwrap();
    let e = delete_country_by_name(&mut store, "Nope").err().unwrap();
    assert_eq!(e.status_code(), 404);
    assert_eq!(store.len(), 1);
}

#[test]
fn delete_existing_removes_exactly_one() {
    let mut store = CountryStore::new();
    let cs = vec![country("A", 1, None), country("B", 2, None), country("C", 3, None)];
    apply_refresh(&mut store, &cs, &RateTable::new(), &vec![MULTIPLIER_MIN; 3], Timestamp { millis: 0 })
        .ok()
        .unwrap();
    assert!(delete_country_by_name(&mut store, "B").is_ok());
    assert_eq!(store.len(), 2);
    assert!(get_country_by_name(&store, "B").is_err());
    assert!(delete_country_by_name(&mut store, "B").is_err());
    let names: Vec<&str> = store.records().iter().map(|c| c.name.as_str()).collect();
    assert_eq!(names, vec!["A", "C"]);
}

#[test]
fn rate_table_later_insert_wins() {
    let mut t = RateTable::new();
    t.insert("EUR".to_string(), 900_000);
    t.insert("GBP".to_string(), 800_000);
    t.insert("EUR".to_string(), 950_000);
    assert_eq!(t.get(&"EUR".to_string()), Some(950_000));
    assert_eq!(t.get(&"GBP".to_string()), Some(800_000));
    assert_eq!(t.get(&"USD".to_string()), None);
}
