use lumend::location::{
    lookup_in_tables, lookup_zone, tables_searchable_for, zone_from_link, zone_from_tz,
    zone_searchable, Angle, Iso6709,
};

const TABLE: &str = "# comment line\n\
NL\t+5222+00454\tEurope/Amsterdam\n\
US\t+404251-0740023\tAmerica/New_York\tEastern (most areas)\n\
AU\t-3352+15113\tAustralia/Sydney\tNew South Wales (most areas)\n";

fn degrees(a: &Angle) -> f64 {
    let sign = if a.negative { -1.0 } else { 1.0 };
    sign * (a.degrees as f64 + a.minutes as f64 / 60.0 + a.seconds as f64 / 3600.0)
}

fn coordinates(c: &Iso6709) -> (f64, f64) {
    (degrees(&c.latitude), degrees(&c.longitude))
}

#[test]
fn parses_minutes_form() {
    let (lat, lon) = coordinates(&lookup_zone(TABLE, "Europe/Amsterdam").unwrap());
    assert!((lat - 52.3667).abs() < 1e-3);
    assert!((lon - 4.9).abs() < 1e-3);
}

#[test]
fn parses_seconds_form_and_negative_longitude() {
    let (lat, lon) = coordinates(&lookup_zone(TABLE, "America/New_York").unwrap());
    assert!((lat - 40.7142).abs() < 1e-3);
    assert!((lon + 74.0064).abs() < 1e-3);
}

#[test]
fn southern_hemisphere() {
    let (lat, lon) = coordinates(&lookup_zone(TABLE, "Australia/Sydney").unwrap());
    assert!(lat < -33.0 && lon > 151.0);
}

#[test]
fn falls_back_to_zone_tab_for_merged_zones() {
    let zone1970 = "BE,LU,NL\t+5050+00420\tEurope/Brussels\n".to_owned();
    let zone_tab = "NL\t+5222+00454\tEurope/Amsterdam\n".to_owned();
    let (lat, _) = coordinates(&lookup_in_tables(&[zone1970, zone_tab], "Europe/Amsterdam").unwrap());
    assert!((lat - 52.3667).abs() < 1e-3);
}

#[test]
fn unknown_zone_is_none() {
    assert_eq!(lookup_zone(TABLE, "Mars/Olympus"), None);
}

#[test]
fn zone_fields_are_read_exactly() {
    let c = lookup_zone(TABLE, "America/New_York").unwrap();
    assert_eq!(
        c,
        Iso6709 {
            latitude: Angle { negative: false, degrees: 40, minutes: 42, seconds: 51 },
            longitude: Angle { negative: true, degrees: 74, minutes: 0, seconds: 23 },
        }
    );
}

#[test]
fn comments_crlf_and_bad_coordinates() {
    let table = "#X\t+0101+00101\tA/B\r\n\
XX\t+12x4+01234\tA/B\r\n\
YY\t+1234+01234\tA/B\r\n\
ZZ\t+1111+01111\tA/B";
    let c = lookup_zone(table, "A/B").unwrap();
    assert_eq!((c.latitude.degrees, c.latitude.minutes), (12, 34));
    assert_eq!(lookup_zone("ZZ\t+1111+01111\tA/B\r", "A/B"), None);
    assert_eq!(lookup_zone("", "A/B"), None);
    assert_eq!(lookup_zone("ZZ\t+1111+01111", "+01111"), None);
}

#[test]
fn zone_from_localtime_link() {
    assert_eq!(
        zone_from_link("/usr/share/zoneinfo/Europe/Amsterdam").as_deref(),
        Some("Europe/Amsterdam")
    );
    assert_eq!(
        zone_from_link("../usr/share/zoneinfo/posix/Asia/Tokyo").as_deref(),
        Some("Asia/Tokyo")
    );
    assert_eq!(zone_from_link("/etc/foo"), None);
}

#[test]
fn zone_from_tz_variable() {
    assert_eq!(zone_from_tz(":Europe/Paris").as_deref(), Some("Europe/Paris"));
    assert_eq!(zone_from_tz("::Asia/Tokyo").as_deref(), Some("Asia/Tokyo"));
    assert_eq!(zone_from_tz("UTC"), None);
    assert_eq!(
        zone_from_link("/a/zoneinfo/posix/posix/UTC").as_deref(),
        Some("UTC")
    );
}

#[test]
fn tables_that_cannot_be_searched_are_told_apart() {
    assert!(zone_searchable(TABLE, "Europe/Amsterdam"));
    assert!(zone_searchable(TABLE, "Mars/Olympus"));
    // an empty coordinate field on the zone's line cannot be sliced past its sign
    assert!(!zone_searchable("XX\t\tA/B\n", "A/B"));
    // nor can one that starts with a character wider than a byte
    assert!(!zone_searchable("XX\t\u{e9}+01+001\tA/B\n", "A/B"));
    // a line before the zone's line with usable coordinates ends the search first
    assert!(zone_searchable("YY\t+1234+01234\tA/B\nXX\t\tA/B\n", "A/B"));
    // other zones' lines are never sliced
    assert!(zone_searchable("XX\t\tC/D\n", "A/B"));
    let tables = vec!["XX\t\tA/B\n".to_string(), TABLE.to_string()];
    assert!(!tables_searchable_for(&tables, "A/B"));
    assert!(tables_searchable_for(&tables, "Europe/Amsterdam"));
    let tables = vec![TABLE.to_string(), "XX\t\tEurope/Amsterdam\n".to_string()];
    assert!(tables_searchable_for(&tables, "Europe/Amsterdam"));
    let c = lookup_in_tables(&tables, "Europe/Amsterdam").unwrap();
    assert_eq!((c.latitude.degrees, c.latitude.minutes), (52, 22));
}
