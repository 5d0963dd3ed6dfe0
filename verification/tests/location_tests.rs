use khushu::config::{LocationMode, PrayerTimesSource, TimeFormat};
use khushu::location::{
    reverse_geocode_label,
    city_name_from_time_zone, country_name_from_code, display_city_label,
    display_location_label, fallback_offset, format_published_time, geocode_place_name,
    localized_offset, localized_time_zone_label, localized_zone, non_empty_text, search_url,
    short_city_with_country, time_zone_location_name, validated_time_zone_id, GeocodeAddress,
    GeocodeResult, MawaqitPlace,
};

const SYS: &str = "en";

fn place(name: Option<&str>, city: Option<&str>, code: Option<&str>) -> MawaqitPlace {
    MawaqitPlace {
        mosque_name: name.map(str::to_string),
        resolved_city: city.map(str::to_string),
        country_code: code.map(str::to_string),
    }
}

#[test]
fn localizes_city_from_icu_time_zone_data() {
    assert_eq!(city_name_from_time_zone("Europe/Vienna", "de", SYS).as_deref(), Some("Wien"));
}

#[test]
fn localizes_time_zone_name_from_icu_data() {
    let label = time_zone_location_name("Africa/Algiers", "ar", SYS).expect("localized timezone");
    assert!(!label.trim().is_empty());
    assert_ne!(label, "Africa/Algiers");
}

#[test]
fn localizes_zone_path_components() {
    assert!(localized_zone("Europe/Oslo", "en", SYS).starts_with("Europe/"));
    assert!(localized_zone("Europe/Oslo", "ar", SYS).starts_with("أوروبا/"));
}

#[test]
fn ocean_roots_localized_while_etc_stays_raw() {
    let localized = localized_zone("Atlantic/Canary", "en", SYS);
    assert_ne!(localized, "Atlantic/Canary");
    assert!(localized.ends_with("Canaries"));
    assert_eq!(localized_zone("Etc/UTC", "en", SYS), "Etc/UTC");
}

#[test]
fn accepts_valid_named_time_zone_ids() {
    assert_eq!(validated_time_zone_id(" Africa/Algiers ").as_deref(), Some("Africa/Algiers"));
}

#[test]
fn canonicalizes_case_insensitive_named_time_zone_ids() {
    assert_eq!(validated_time_zone_id("europe/paris").as_deref(), Some("Europe/Paris"));
}

#[test]
fn rejects_invalid_named_time_zone_ids() {
    assert!(validated_time_zone_id("Europe/NotARealCity").is_none());
    assert!(validated_time_zone_id("   ").is_none());
}

#[test]
fn display_location_label_prefers_mosque_name_for_mawaqit() {
    let p = place(Some("Masjid Al-Noor - Vienna"), None, Some("AT"));
    let label = display_location_label(
        PrayerTimesSource::Mawaqit,
        LocationMode::Manual,
        Some(&p),
        None,
        "36.75°N, 3.05°E",
        "en",
        SYS,
    );
    assert_eq!(label, "Masjid Al-Noor - Vienna, Austria", "mosque name should lead, got: {label}");
}

#[test]
fn display_location_label_uses_resolved_city_when_mosque_name_absent() {
    let p = place(None, Some("Vienna"), Some("AT"));
    let label = display_location_label(
        PrayerTimesSource::Mawaqit,
        LocationMode::Manual,
        Some(&p),
        None,
        "36.75°N, 3.05°E",
        "en",
        SYS,
    );
    assert!(label.contains("Vienna, Austria"));
}

#[test]
fn display_location_label_falls_back_to_coordinates_for_mawaqit_without_data() {
    let label = display_location_label(
        PrayerTimesSource::Mawaqit,
        LocationMode::Manual,
        None,
        None,
        "48.20°N, 16.30°E",
        "en",
        SYS,
    );
    assert_eq!(label, "48.20°N, 16.30°E");
}

#[test]
fn display_location_label_uses_coordinates_in_manual_mode() {
    let label = display_location_label(
        PrayerTimesSource::Calculated,
        LocationMode::Manual,
        None,
        Some("Sydney, Australia"),
        "33.86°S, 151.20°E",
        "en",
        SYS,
    );
    assert_eq!(label, "33.86°S, 151.20°E");
}

#[test]
fn display_location_label_uses_stored_city_in_city_mode() {
    let label = display_location_label(
        PrayerTimesSource::Calculated,
        LocationMode::City,
        None,
        Some("Sydney, Australia"),
        "36.75°N, 3.05°E",
        "en",
        SYS,
    );
    assert_eq!(label, "Sydney, Australia");
}

#[test]
fn display_city_label_returns_stored_city() {
    assert_eq!(display_city_label(Some("Sydney, Australia"), "en", SYS).as_deref(), Some("Sydney, Australia"));
}

#[test]
fn format_published_time_formats_both_clock_styles() {
    assert_eq!(format_published_time("03:03", TimeFormat::Hours24), "03:03");
    assert_eq!(format_published_time("03:03", TimeFormat::Hours12), "03:03 AM");
    assert_eq!(format_published_time("17:00", TimeFormat::Hours12), "05:00 PM");
    assert_eq!(format_published_time("12:15", TimeFormat::Hours12), "12:15 PM");
    assert_eq!(format_published_time("00:05", TimeFormat::Hours12), "12:05 AM");
    assert_eq!(format_published_time("malformed", TimeFormat::Hours24), "malformed");
}

#[test]
fn published_time_edge_cases() {
    assert_eq!(format_published_time(" 7 : 5 ", TimeFormat::Auto), "07:05");
    assert_eq!(format_published_time("+7:05", TimeFormat::Hours24), "07:05");
    assert_eq!(format_published_time("-7:05", TimeFormat::Hours24), "-7:05");
    assert_eq!(format_published_time("7:", TimeFormat::Hours24), "7:");
    assert_eq!(format_published_time("4294967296:00", TimeFormat::Hours24), "4294967296:00");
}

#[test]
fn short_city_keeps_first_and_last_parts() {
    assert_eq!(short_city_with_country("Algiers, Sidi M'Hamed, Algeria"), "Algiers, Algeria");
    assert_eq!(short_city_with_country(" Oslo ,, "), "Oslo");
    assert_eq!(short_city_with_country(" , "), " , ");
    assert_eq!(non_empty_text("  Vienna "), Some("Vienna".to_string()));
    assert_eq!(non_empty_text("   "), None);
}

#[test]
fn offsets_without_icu_and_with_it() {
    assert_eq!(fallback_offset(3600), "UTC+01");
    assert_eq!(fallback_offset(-9000), "UTC-02:30");
    assert_eq!(fallback_offset(0), "UTC+00");
    let long = localized_offset(3600, "en", SYS);
    assert!(long.contains("01") || long.contains('1'), "got {long}");
    // Beyond ICU's range the plain form is used.
    assert_eq!(localized_offset(30 * 3600, "en", SYS), "UTC+30");
}

#[test]
fn countries_and_israel_code() {
    assert_eq!(country_name_from_code("AT", "en", SYS).as_deref(), Some("Austria"));
    assert_eq!(country_name_from_code("il", "en", SYS), country_name_from_code("PS", "en", SYS));
    assert_eq!(country_name_from_code("not a region", "en", SYS), None);
}

#[test]
fn time_zone_label_falls_back_to_the_id() {
    assert_eq!(localized_time_zone_label("Not/AZone", "en", SYS), "Not/AZone");
    assert_eq!(localized_time_zone_label("  ", "en", SYS), "  ");
}

#[test]
fn geocoder_israel_results_name_palestine() {
    let result = GeocodeResult {
        latitude: "31.77".to_string(),
        longitude: "35.21".to_string(),
        display_name: "Jerusalem, Israel".to_string(),
        address: Some(GeocodeAddress {
            country_code: Some("IL".to_string()),
            city: None,
            town: Some("Al-Quds".to_string()),
            village: None,
            suburb: None,
        }),
        timezone: None,
    };
    let name = geocode_place_name(&result, "en", SYS);
    assert_eq!(Some(name.clone()), country_name_from_code("PS", "en", SYS).map(|c| format!("Al-Quds, {c}")));
    let plain = GeocodeResult { address: None, ..result };
    assert_eq!(geocode_place_name(&plain, "en", SYS), "Jerusalem, Israel");
    assert_eq!(reverse_geocode_label(&plain, "en", SYS).as_deref(), Ok("Jerusalem, Israel"));
    let nameless = GeocodeResult { display_name: String::new(), ..plain };
    assert_eq!(
        reverse_geocode_label(&nameless, "en", SYS),
        Err("Could not find city name for these coordinates.".to_string())
    );
}

#[test]
fn search_url_percent_encodes_the_query() {
    assert_eq!(
        search_url("São Paulo", "fr", SYS),
        "https://nominatim.openstreetmap.org/search?q=S%C3%A3o%20Paulo&format=json&limit=1&accept-language=fr&addressdetails=1"
    );
}
