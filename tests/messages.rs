use country_cache::config::{parse_port, refresh_response, ConfigError};
use country_cache::error::{not_found_message, AppError};
use country_cache::models::{AppStatus, Config, Country, Timestamp};
use country_cache::report::{digits_text, int_to_text, money_to_text, summary_lines};

#[test]
fn not_found_body_and_status() {
    let e = AppError::NotFound(not_found_message("Nope"));
    assert_eq!(e.status_code(), 404);
    assert_eq!(e.error_body(), "{\"error\":\"Country 'Nope' not found\"}");
}

#[test]
fn not_found_body_escapes_quotes() {
    let e = AppError::NotFound(not_found_message("Say \"hi\""));
    assert_eq!(e.error_body(), "{\"error\":\"Country 'Say \\\"hi\\\"' not found\"}");
}

#[test]
fn upstream_failure_body_names_source() {
    let e = AppError::ApiError { source: "timed out".to_string(), api_name: "RestCountries".to_string() };
    assert_eq!(e.status_code(), 503);
    assert_eq!(
        e.error_body(),
        "{\"details\":\"Could not fetch data from RestCountries: timed out\",\"error\":\"External data source unavailable\"}"
    );
}

#[test]
fn internal_failures_hide_detail() {
    let db = AppError::DatabaseError("secret table".to_string());
    assert_eq!(db.status_code(), 500);
    assert_eq!(db.error_body(), "{\"error\":\"Internal server error\"}");
    let img = AppError::ImageError("font missing".to_string());
    assert_eq!(img.status_code(), 500);
    assert_eq!(img.error_body(), "{\"error\":\"Image generation failed\"}");
    let other = AppError::Internal("boom".to_string());
    assert_eq!(other.status_code(), 500);
    assert_eq!(other.error_body(), "{\"error\":\"Internal server error\"}");
}

#[test]
fn validation_body_lists_details() {
    let e = AppError::ValidationError(vec![
        ("name".to_string(), "is required".to_string()),
        ("population".to_string(), "must be a number".to_string()),
    ]);
    assert_eq!(e.status_code(), 400);
    assert_eq!(
        e.error_body(),
        "{\"details\":{\"name\":\"is required\",\"population\":\"must be a number\"},\"error\":\"Validation failed\"}"
    );
    let empty = AppError::ValidationError(vec![]);
    assert_eq!(empty.error_body(), "{\"details\":{},\"error\":\"Validation failed\"}");
}

#[test]
fn number_texts() {
    assert_eq!(digits_text(0), "0");
    assert_eq!(digits_text(1234567890), "1234567890");
    assert_eq!(int_to_text(-42), "-42");
    assert_eq!(int_to_text(i128::MIN), "-170141183460469231731687303715884105728");
    assert_eq!(money_to_text(12345), "$123.45");
    assert_eq!(money_to_text(7), "$0.07");
    assert_eq!(money_to_text(-150), "$-1.50");
    assert_eq!(money_to_text(75_000_000_000), "$750000000.00");
}

#[test]
fn summary_lines_layout() {
    let status = AppStatus { total_countries: 250, last_refreshed_at: Some(Timestamp { millis: 1_700_000_000_100 }) };
    let top = vec![
        Country {
            name: "Testland".to_string(),
            capital: None,
            region: None,
            population: 1,
            currency_code: None,
            exchange_rate: None,
            estimated_gdp: Some(75_000_000_000),
            flag_url: None,
            last_refreshed_at: Timestamp { millis: 0 },
        },
        Country {
            name: "Oddland".to_string(),
            capital: None,
            region: None,
            population: 1,
            currency_code: None,
            exchange_rate: None,
            estimated_gdp: None,
            flag_url: None,
            last_refreshed_at: Timestamp { millis: 0 },
        },
    ];
    let lines = summary_lines(&status, &top);
    assert_eq!(
        lines,
        vec![
            "Country Data Summary".to_string(),
            "Total Countries: 250".to_string(),
            "Last Refresh: 2023-11-14 22:13:20 UTC".to_string(),
            "Top 5 by Estimated GDP:".to_string(),
            "1. Testland ($750000000.00)".to_string(),
            "2. Oddland (N/A)".to_string(),
        ]
    );
    let never = summary_lines(&AppStatus { total_countries: 0, last_refreshed_at: None }, &vec![]);
    assert_eq!(never[2], "Last Refresh: Never");
    assert_eq!(never.len(), 4);
}

#[test]
fn ports_parse() {
    assert_eq!(parse_port("8080"), Some(8080));
    assert_eq!(parse_port("+80"), Some(80));
    assert_eq!(parse_port("0"), Some(0));
    assert_eq!(parse_port("65535"), Some(65535));
    assert_eq!(parse_port("65536"), None);
    assert_eq!(parse_port("99999999999"), None);
    assert_eq!(parse_port(""), None);
    assert_eq!(parse_port("+"), None);
    assert_eq!(parse_port("80a"), None);
    assert_eq!(parse_port("-1"), None);
}

#[test]
fn config_from_parts() {
    let c = Config::from_parts(Some("mysql://db".to_string()), None).ok().unwrap();
    assert_eq!(c.port, 8080);
    assert_eq!(c.database_url, "mysql://db");
    let c = Config::from_parts(Some("mysql://db".to_string()), Some("9000".to_string())).ok().unwrap();
    assert_eq!(c.port, 9000);
    assert_eq!(Config::from_parts(None, None).err(), Some(ConfigError::MissingDatabaseUrl));
    assert_eq!(
        Config::from_parts(Some("x".to_string()), Some("port".to_string())).err(),
        Some(ConfigError::InvalidPort)
    );
}

#[test]
fn refresh_report() {
    let at = Timestamp { millis: 1_000 };
    let r = refresh_response(&AppStatus { total_countries: 7, last_refreshed_at: Some(at) });
    assert_eq!(r.status, "success");
    assert_eq!(r.countries_processed, 7);
    assert_eq!(r.last_refreshed_at, at);
}
