//! Tests for timezone identifier resolution.

use chrono_tz::Tz;
use meeting_engine::parse_ical_timezone;

fn zone(tz: Tz) -> Option<String> {
    Some(tz.name().to_string())
}

#[test]
fn test_tz_iana_us_timezones() {
    assert_eq!(parse_ical_timezone("America/Los_Angeles"), zone(Tz::America__Los_Angeles));
    assert_eq!(parse_ical_timezone("America/New_York"), zone(Tz::America__New_York));
    assert_eq!(parse_ical_timezone("America/Chicago"), zone(Tz::America__Chicago));
    assert_eq!(parse_ical_timezone("America/Denver"), zone(Tz::America__Denver));
    assert_eq!(parse_ical_timezone("America/Phoenix"), zone(Tz::America__Phoenix));
    assert_eq!(parse_ical_timezone("America/Detroit"), zone(Tz::America__Detroit));
    assert_eq!(
        parse_ical_timezone("America/Indiana/Indianapolis"),
        zone(Tz::America__Indiana__Indianapolis)
    );
    assert_eq!(parse_ical_timezone("America/Anchorage"), zone(Tz::America__Anchorage));
}

#[test]
fn test_tz_iana_european_timezones() {
    assert_eq!(parse_ical_timezone("Europe/London"), zone(Tz::Europe__London));
    assert_eq!(parse_ical_timezone("Europe/Paris"), zone(Tz::Europe__Paris));
    assert_eq!(parse_ical_timezone("Europe/Berlin"), zone(Tz::Europe__Berlin));
    assert_eq!(parse_ical_timezone("Europe/Amsterdam"), zone(Tz::Europe__Amsterdam));
    assert_eq!(parse_ical_timezone("Europe/Rome"), zone(Tz::Europe__Rome));
    assert_eq!(parse_ical_timezone("Europe/Madrid"), zone(Tz::Europe__Madrid));
}

#[test]
fn test_tz_iana_asian_timezones() {
    assert_eq!(parse_ical_timezone("Asia/Tokyo"), zone(Tz::Asia__Tokyo));
    assert_eq!(parse_ical_timezone("Asia/Shanghai"), zone(Tz::Asia__Shanghai));
    assert_eq!(parse_ical_timezone("Asia/Singapore"), zone(Tz::Asia__Singapore));
    assert_eq!(parse_ical_timezone("Asia/Hong_Kong"), zone(Tz::Asia__Hong_Kong));
    assert_eq!(parse_ical_timezone("Asia/Kolkata"), zone(Tz::Asia__Kolkata));
    assert_eq!(parse_ical_timezone("Asia/Dubai"), zone(Tz::Asia__Dubai));
}

#[test]
fn test_tz_iana_pacific_oceania_timezones() {
    assert_eq!(parse_ical_timezone("Pacific/Honolulu"), zone(Tz::Pacific__Honolulu));
    assert_eq!(parse_ical_timezone("Pacific/Auckland"), zone(Tz::Pacific__Auckland));
    assert_eq!(parse_ical_timezone("Australia/Sydney"), zone(Tz::Australia__Sydney));
    assert_eq!(parse_ical_timezone("Australia/Melbourne"), zone(Tz::Australia__Melbourne));
}

#[test]
fn test_tz_utc_variants() {
    assert_eq!(parse_ical_timezone("UTC"), zone(Tz::UTC));
    assert_eq!(parse_ical_timezone("Etc/UTC"), zone(Tz::UTC));
}

#[test]
fn test_tz_windows_us_aliases() {
    // Pacific
    assert_eq!(parse_ical_timezone("Pacific Standard Time"), zone(Tz::America__Los_Angeles));
    assert_eq!(parse_ical_timezone("Pacific Daylight Time"), zone(Tz::America__Los_Angeles));
    // Eastern
    assert_eq!(parse_ical_timezone("Eastern Standard Time"), zone(Tz::America__New_York));
    assert_eq!(parse_ical_timezone("Eastern Daylight Time"), zone(Tz::America__New_York));
    // Central
    assert_eq!(parse_ical_timezone("Central Standard Time"), zone(Tz::America__Chicago));
    assert_eq!(parse_ical_timezone("Central Daylight Time"), zone(Tz::America__Chicago));
    // Mountain
    assert_eq!(parse_ical_timezone("Mountain Standard Time"), zone(Tz::America__Denver));
    assert_eq!(parse_ical_timezone("Mountain Daylight Time"), zone(Tz::America__Denver));
}

#[test]
fn test_tz_edge_cases() {
    // Unknown timezones should return None
    assert_eq!(parse_ical_timezone("Unknown/Timezone"), None);
    assert_eq!(parse_ical_timezone(""), None);
    assert_eq!(parse_ical_timezone("not a timezone"), None);

    // IANA timezone IDs are parsed case-insensitively
    assert_eq!(parse_ical_timezone("america/los_angeles"), zone(Tz::America__Los_Angeles));
    assert_eq!(parse_ical_timezone("AMERICA/LOS_ANGELES"), zone(Tz::America__Los_Angeles));
    assert_eq!(parse_ical_timezone("europe/london"), zone(Tz::Europe__London));
    assert_eq!(parse_ical_timezone("Asia/TOKYO"), zone(Tz::Asia__Tokyo));
}

#[test]
fn test_tz_additional_iana_timezones() {
    // Americas
    assert_eq!(parse_ical_timezone("America/Toronto"), zone(Tz::America__Toronto));
    assert_eq!(parse_ical_timezone("America/Sao_Paulo"), zone(Tz::America__Sao_Paulo));

    // Europe
    assert_eq!(parse_ical_timezone("Europe/Moscow"), zone(Tz::Europe__Moscow));

    // Asia
    assert_eq!(parse_ical_timezone("Asia/Seoul"), zone(Tz::Asia__Seoul));

    // Africa
    assert_eq!(parse_ical_timezone("Africa/Cairo"), zone(Tz::Africa__Cairo));
}

#[test]
fn test_tz_windows_international_aliases() {
    // UK - "GMT Standard Time" is the Windows name for UK time (observes BST)
    assert_eq!(parse_ical_timezone("GMT Standard Time"), zone(Tz::Europe__London));

    // China
    assert_eq!(parse_ical_timezone("China Standard Time"), zone(Tz::Asia__Shanghai));

    // Japan
    assert_eq!(parse_ical_timezone("Tokyo Standard Time"), zone(Tz::Asia__Tokyo));

    // India - CLDR uses the old IANA name "Asia/Calcutta"
    assert_eq!(parse_ical_timezone("India Standard Time"), zone(Tz::Asia__Calcutta));

    // Australia
    assert_eq!(parse_ical_timezone("AUS Eastern Standard Time"), zone(Tz::Australia__Sydney));
}

#[test]
fn test_tz_windows_extended_coverage() {
    // US additional
    assert_eq!(parse_ical_timezone("US Mountain Standard Time"), zone(Tz::America__Phoenix));
    assert_eq!(parse_ical_timezone("US Eastern Standard Time"), zone(Tz::America__Indianapolis));
    assert_eq!(parse_ical_timezone("Alaskan Standard Time"), zone(Tz::America__Anchorage));
    assert_eq!(parse_ical_timezone("Hawaiian Standard Time"), zone(Tz::Pacific__Honolulu));

    // Europe additional
    assert_eq!(parse_ical_timezone("Romance Standard Time"), zone(Tz::Europe__Paris));
    assert_eq!(parse_ical_timezone("W. Europe Standard Time"), zone(Tz::Europe__Berlin));
    assert_eq!(parse_ical_timezone("Russian Standard Time"), zone(Tz::Europe__Moscow));

    // Asia additional
    assert_eq!(parse_ical_timezone("Korea Standard Time"), zone(Tz::Asia__Seoul));
    assert_eq!(parse_ical_timezone("Singapore Standard Time"), zone(Tz::Asia__Singapore));
    assert_eq!(parse_ical_timezone("Arabian Standard Time"), zone(Tz::Asia__Dubai));

    // Pacific/Oceania additional
    assert_eq!(parse_ical_timezone("New Zealand Standard Time"), zone(Tz::Pacific__Auckland));
    assert_eq!(parse_ical_timezone("E. Australia Standard Time"), zone(Tz::Australia__Brisbane));
    assert_eq!(parse_ical_timezone("W. Australia Standard Time"), zone(Tz::Australia__Perth));

    // Americas (non-US)
    assert_eq!(parse_ical_timezone("E. South America Standard Time"), zone(Tz::America__Sao_Paulo));
    // CLDR uses "America/Buenos_Aires" not "America/Argentina/Buenos_Aires"
    assert_eq!(parse_ical_timezone("Argentina Standard Time"), zone(Tz::America__Buenos_Aires));

    // Africa
    assert_eq!(parse_ical_timezone("Egypt Standard Time"), zone(Tz::Africa__Cairo));
    assert_eq!(parse_ical_timezone("South Africa Standard Time"), zone(Tz::Africa__Johannesburg));
}

#[test]
fn test_tz_abbreviations() {
    // These ARE valid IANA zones (legacy/deprecated but recognized)
    assert_eq!(parse_ical_timezone("EST"), zone(Tz::EST)); // Fixed offset -5
    assert_eq!(parse_ical_timezone("MST"), zone(Tz::MST)); // Fixed offset -7
    assert_eq!(parse_ical_timezone("HST"), zone(Tz::HST)); // Fixed offset -10
    assert_eq!(parse_ical_timezone("GMT"), zone(Tz::GMT)); // Same as UTC
    assert_eq!(parse_ical_timezone("CET"), zone(Tz::CET)); // Central European
    assert_eq!(parse_ical_timezone("MET"), zone(Tz::MET)); // Middle European

    // Non-standard abbreviations handled by the fallback table
    // US
    assert_eq!(parse_ical_timezone("PST"), zone(Tz::America__Los_Angeles));
    assert_eq!(parse_ical_timezone("PDT"), zone(Tz::America__Los_Angeles));
    assert_eq!(parse_ical_timezone("EDT"), zone(Tz::America__New_York));
    assert_eq!(parse_ical_timezone("CDT"), zone(Tz::America__Chicago));
    assert_eq!(parse_ical_timezone("MDT"), zone(Tz::America__Denver));
    // Europe
    assert_eq!(parse_ical_timezone("BST"), zone(Tz::Europe__London));
    assert_eq!(parse_ical_timezone("CEST"), zone(Tz::Europe__Berlin));
    // Asia
    assert_eq!(parse_ical_timezone("JST"), zone(Tz::Asia__Tokyo));
    assert_eq!(parse_ical_timezone("KST"), zone(Tz::Asia__Seoul));
    assert_eq!(parse_ical_timezone("SGT"), zone(Tz::Asia__Singapore));
    // Pacific/Oceania
    assert_eq!(parse_ical_timezone("NZST"), zone(Tz::Pacific__Auckland));
    assert_eq!(parse_ical_timezone("NZDT"), zone(Tz::Pacific__Auckland));
    assert_eq!(parse_ical_timezone("AEST"), zone(Tz::Australia__Sydney));
    assert_eq!(parse_ical_timezone("AEDT"), zone(Tz::Australia__Sydney));
    assert_eq!(parse_ical_timezone("AWST"), zone(Tz::Australia__Perth));
    // UTC
    assert_eq!(parse_ical_timezone("Z"), zone(Tz::UTC));

    // Ambiguous abbreviations are NOT handled - they return None
    assert_eq!(parse_ical_timezone("CST"), None); // US Central or China?
    assert_eq!(parse_ical_timezone("IST"), None); // India, Ireland, or Israel?
}

#[test]
fn test_tz_dst_transitions() {
    // Timezones observing DST parse correctly; DST handling happens at
    // the datetime level.
    let la_tz = parse_ical_timezone("America/Los_Angeles");
    assert!(la_tz.is_some());
    assert_eq!(la_tz, zone(Tz::America__Los_Angeles));

    // Timezones that don't observe DST
    let arizona_tz = parse_ical_timezone("America/Phoenix");
    assert_eq!(arizona_tz, zone(Tz::America__Phoenix)); // No DST in Arizona

    let utc_tz = parse_ical_timezone("UTC");
    assert_eq!(utc_tz, zone(Tz::UTC)); // UTC never has DST

    // European DST (different dates than US)
    let london_tz = parse_ical_timezone("Europe/London");
    assert_eq!(london_tz, zone(Tz::Europe__London));

    // Windows timezone names for DST-observing zones
    let eastern_std = parse_ical_timezone("Eastern Standard Time");
    let eastern_day = parse_ical_timezone("Eastern Daylight Time");
    assert_eq!(eastern_std, zone(Tz::America__New_York));
    assert_eq!(eastern_day, zone(Tz::America__New_York)); // Both map to same tz
}
