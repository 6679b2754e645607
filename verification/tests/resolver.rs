use toggle_florp::Color;
use toggle_florp::dispatch::is_random_identifier;
use toggle_florp::hashing::calculate_hash;
use toggle_florp::literal::parse_value;

#[test]
fn new_and_accessors() {
    let c = Color::new(1, 2, 3);
    assert_eq!(c.r(), 1);
    assert_eq!(c.g(), 2);
    assert_eq!(c.b(), 3);
    assert_eq!(c, Color(1, 2, 3));
}

#[test]
fn hash_is_deterministic() {
    let a = Color::from_hash("some user");
    let b = Color::from_hash("some user");
    assert_eq!(a, b);
    let owned = String::from("some user");
    assert_eq!(Color::from_hash(&owned), a);
    assert_eq!(Color::from_hash(""), Color::from_hash(""));
}

#[test]
fn hash_collision_rate_is_low() {
    let mut seen: Vec<(u8, u8, u8)> = Vec::new();
    for i in 0..10_000u32 {
        let c = Color::from_hash(&format!("user{}", i));
        seen.push((c.r(), c.g(), c.b()));
    }
    seen.sort();
    let mut collisions: u32 = 0;
    for i in 1..seen.len() {
        if seen[i] == seen[i - 1] {
            collisions += 1;
        }
    }
    // under 1% of 10,000 distinct short strings may collide
    assert!(collisions < 100, "too many collisions: {}", collisions);
}

#[test]
fn literal_round_trip_spaces() {
    let c: Color = "12 34 56".parse().unwrap();
    assert_eq!(c, Color(12, 34, 56));
}

#[test]
fn literal_round_trip_sampled() {
    let samples = [0u8, 1, 7, 9, 10, 42, 99, 100, 128, 200, 255];
    for &r in &samples {
        for &g in &samples {
            for &b in &samples {
                let msg = format!("{} {} {}", r, g, b);
                let c: Color = msg.parse().unwrap();
                assert_eq!(c, Color(r, g, b));
            }
        }
    }
}

#[test]
fn separator_tolerance() {
    assert_eq!("12,34,56".parse::<Color>().unwrap(), Color(12, 34, 56));
    assert_eq!("12-34-56".parse::<Color>().unwrap(), Color(12, 34, 56));
    assert_eq!("rgb(12,34,56)".parse::<Color>().unwrap(), Color(12, 34, 56));
}

#[test]
fn extra_values_are_ignored() {
    assert_eq!("1 2 3 4 5".parse::<Color>().unwrap(), Color(1, 2, 3));
}

#[test]
fn oversized_token_is_rejected() {
    let res = "12 34 999".parse::<Color>();
    assert_eq!(res.unwrap_err(), "\"12 34 999\" is not parsable!");
    // dispatch then falls through past the identifiers to the hash path
    assert!(!is_random_identifier("12 34 999"));
    let resolved = Color::from_message("12 34 999");
    assert_eq!(resolved, Color::from_hash("12 34 999"));
}

#[test]
fn oversized_token_is_dropped_not_fatal() {
    // the out-of-range token is skipped; later tokens still count
    assert_eq!("999 1 2 3".parse::<Color>().unwrap(), Color(1, 2, 3));
    // a long undelimited digit string is one oversized token, not chunks
    let res = "123456789".parse::<Color>();
    assert_eq!(res.unwrap_err(), "\"123456789\" is not parsable!");
}

#[test]
fn error_message_carries_trimmed_input() {
    let res = "  hello world  ".parse::<Color>();
    assert_eq!(res.unwrap_err(), "\"hello world\" is not parsable!");
}

#[test]
fn trigger_exactness() {
    assert!(is_random_identifier("random"));
    assert!(is_random_identifier("RANDOM"));
    assert!(is_random_identifier(" random "));
    assert!(is_random_identifier("r"));
    assert!(is_random_identifier("Rand"));
    assert!(!is_random_identifier("randomize"));
    assert!(!is_random_identifier("rando"));
    assert_eq!(Color::from_message("randomize"), Color::from_hash("randomize"));
}

#[test]
fn literal_takes_precedence() {
    assert_eq!(Color::from_message("1 2 3"), Color(1, 2, 3));
    // even when the digits sit inside a would-be identifier context
    assert_eq!(Color::from_message(" 0, 0, 0 "), Color(0, 0, 0));
}

#[test]
fn empty_input_routes_to_hash() {
    assert_eq!("".parse::<Color>().unwrap_err(), "\"\" is not parsable!");
    assert_eq!("   ".parse::<Color>().unwrap_err(), "\"\" is not parsable!");
    assert!(!is_random_identifier(""));
    assert!(!is_random_identifier("   "));
    assert_eq!(Color::from_message(""), Color::from_hash(""));
    assert_eq!(Color::from_message("   "), Color::from_hash("   "));
}

#[test]
fn hash_case_and_whitespace_sensitive() {
    // the hash path sees the original, un-normalized message
    let plain = Color::from_message("someuser!");
    assert_eq!(plain, Color::from_hash("someuser!"));
    assert_eq!(Color::from_message(" someuser! "), Color::from_hash(" someuser! "));
}

#[test]
fn channels_come_from_hash_word() {
    for s in ["", "a", "some user", "SOME USER", "florp"] {
        let w = calculate_hash(s);
        let c = Color::from_hash(s);
        assert_eq!(c.r(), ((w >> 24) & 0xff) as u8);
        assert_eq!(c.g(), ((w >> 16) & 0xff) as u8);
        assert_eq!(c.b(), ((w >> 8) & 0xff) as u8);
        // the low byte of the word reaches no channel
    }
}

#[test]
fn parse_value_accepts_byte_tokens() {
    assert_eq!(parse_value("0"), Ok(0));
    assert_eq!(parse_value("7"), Ok(7));
    assert_eq!(parse_value("007"), Ok(7));
    assert_eq!(parse_value("255"), Ok(255));
}

#[test]
fn parse_value_accepts_a_leading_plus_sign() {
    // exactly as standard u8 parsing does
    assert_eq!(parse_value("+7"), Ok(7));
    assert_eq!(parse_value("+007"), Ok(7));
    assert_eq!(parse_value("+255"), Ok(255));
    assert_eq!("+7".parse::<u8>(), Ok(7));
}

#[test]
fn parse_value_rejects_bad_tokens() {
    assert_eq!(parse_value(""), Err(""));
    assert_eq!(parse_value("256"), Err("256"));
    assert_eq!(parse_value("999"), Err("999"));
    assert_eq!(parse_value("1a"), Err("1a"));
    assert_eq!(parse_value("12345678901234567890"), Err("12345678901234567890"));
    assert_eq!(parse_value("+"), Err("+"));
    assert_eq!(parse_value("++5"), Err("++5"));
    assert_eq!(parse_value("+256"), Err("+256"));
    assert_eq!(parse_value("5+"), Err("5+"));
    assert_eq!(parse_value("-5"), Err("-5"));
}

#[test]
fn random_always_yields_a_color() {
    // nothing is promised of the channels; the call must simply succeed
    let _ = Color::random();
    let _ = Color::from_message("random");
}
