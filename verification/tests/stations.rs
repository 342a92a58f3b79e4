use meusic::stations::{id_for_time, initials, new_id, new_station, seed_stations, station_hue};

#[test]
fn station_initials() {
    assert_eq!(initials("Gen FM"), "GF");
    assert_eq!(initials("gen fm"), "GF");
    assert_eq!(initials("hello world again"), "HW");
    assert_eq!(initials("rock"), "R");
    assert_eq!(initials("a-b"), "AB");
    assert_eq!(initials("  !! "), "?");
    assert_eq!(initials(""), "?");
    assert_eq!(initials("\u{e9}lan vital"), "\u{c9}V");
    assert_eq!(initials("stra\u{df}e"), "S");
    assert_eq!(initials("\u{df}x y"), "SSY");
}

#[test]
fn ids_from_time() {
    assert_eq!(id_for_time(0), "st-0");
    assert_eq!(id_for_time(255), "st-ff");
    assert_eq!(id_for_time(0x1234abcd), "st-1234abcd");
    let id = new_id();
    assert!(id.starts_with("st-"));
    assert!(id.len() > 3);
    assert!(id[3..].chars().all(|c| c.is_ascii_hexdigit() && !c.is_ascii_uppercase()));
}

#[test]
fn new_station_trims() {
    let s = new_station("  Gen FM ", " http://x.example/live \n");
    assert_eq!(s.name, "Gen FM");
    assert_eq!(s.url, "http://x.example/live");
    assert!(s.id.starts_with("st-"));
}

#[test]
fn seeds_get_numbered_ids() {
    let s = seed_stations(vec![
        ("A".to_string(), "u1".to_string()),
        ("B".to_string(), "u2".to_string()),
    ]);
    assert_eq!(s.len(), 2);
    assert_eq!((s[0].id.as_str(), s[0].name.as_str(), s[0].url.as_str()), ("seed-0", "A", "u1"));
    assert_eq!((s[1].id.as_str(), s[1].name.as_str(), s[1].url.as_str()), ("seed-1", "B", "u2"));
    assert!(seed_stations(Vec::new()).is_empty());
}

#[test]
fn station_hues() {
    assert_eq!(station_hue(""), 0);
    assert_eq!(station_hue("a"), 97);
    assert_eq!(station_hue("ab"), 225);
    assert_eq!(station_hue("Gen FM"), station_hue("Gen FM"));
    let long = "x".repeat(1000);
    assert!(station_hue(&long) < 360);
}
