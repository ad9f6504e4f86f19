use calldrop::duration::{from_string_duration, parse_duration};

fn parse(text: &str) -> Option<u64> {
    let owned = from_string_duration(text.to_string());
    assert_eq!(owned, parse_duration(text));
    owned
}

#[test]
fn reads_hours_minutes_seconds() {
    assert_eq!(parse("1:2:3"), Some(3723));
    assert_eq!(parse("0:0:0"), Some(0));
    assert_eq!(parse("0:0:10"), Some(10));
    assert_eq!(parse("0:1:00"), Some(60));
    assert_eq!(parse("10:00:00"), Some(36000));
    assert_eq!(parse("2:30:45"), Some(2 * 3600 + 30 * 60 + 45));
}

#[test]
fn minutes_and_seconds_are_not_held_to_sixty() {
    assert_eq!(parse("0:90:90"), Some(5490));
    assert_eq!(parse("0:60:0"), Some(3600));
    assert_eq!(parse("0:0:3600"), Some(3600));
    assert_eq!(parse("0:1000:100000"), Some(160000));
}

#[test]
fn leading_zeros_do_not_matter() {
    assert_eq!(parse("01:02:03"), Some(3723));
    assert_eq!(parse("000:000:007"), Some(7));
    assert_eq!(parse("0000000000000000000000001:0:0"), Some(3600));
}

#[test]
fn weighted_sum_holds_on_a_grid_of_values() {
    let samples: [u64; 9] = [0, 1, 9, 10, 59, 60, 61, 99, 12345];
    for &hours in samples.iter() {
        for &minutes in samples.iter() {
            for &seconds in samples.iter() {
                let text = format!("{}:{}:{}", hours, minutes, seconds);
                assert_eq!(parse(&text), Some(hours * 3600 + minutes * 60 + seconds));
            }
        }
    }
}

#[test]
fn a_plus_sign_may_lead_a_part() {
    assert_eq!(parse("+1:+2:+3"), Some(3723));
    assert_eq!(parse("+0:0:+5"), Some(5));
}

#[test]
fn a_lone_or_doubled_plus_sign_is_no_number() {
    assert_eq!(parse("+:0:0"), None);
    assert_eq!(parse("0:+:0"), None);
    assert_eq!(parse("++1:0:0"), None);
    assert_eq!(parse("1+:0:0"), None);
    assert_eq!(parse("1:2:3+"), None);
}

#[test]
fn parts_after_the_third_are_ignored() {
    assert_eq!(parse("1:2:3:4"), Some(3723));
    assert_eq!(parse("1:2:3:"), Some(3723));
    assert_eq!(parse("1:2:3:not a number"), Some(3723));
    assert_eq!(parse("0:90:90:::"), Some(5490));
}

#[test]
fn fewer_than_three_parts_fail() {
    assert_eq!(parse(""), None);
    assert_eq!(parse("10"), None);
    assert_eq!(parse("1:2"), None);
    assert_eq!(parse(":"), None);
    assert_eq!(parse("12:"), None);
}

#[test]
fn a_part_that_is_no_number_fails() {
    assert_eq!(parse("abc:0:0"), None);
    assert_eq!(parse("0:abc:0"), None);
    assert_eq!(parse("0:0:abc"), None);
    assert_eq!(parse("1:2:x"), None);
    assert_eq!(parse("1.5:0:0"), None);
    assert_eq!(parse("0x10:0:0"), None);
    assert_eq!(parse("1e3:0:0"), None);
    assert_eq!(parse("1_000:0:0"), None);
}

#[test]
fn an_empty_part_fails() {
    assert_eq!(parse("::"), None);
    assert_eq!(parse("1::3"), None);
    assert_eq!(parse(":2:3"), None);
    assert_eq!(parse("1:2:"), None);
}

#[test]
fn a_negative_part_fails() {
    assert_eq!(parse("-1:0:0"), None);
    assert_eq!(parse("0:-0:0"), None);
    assert_eq!(parse("0:0:-5"), None);
}

#[test]
fn blanks_are_not_trimmed() {
    assert_eq!(parse(" 1:2:3"), None);
    assert_eq!(parse("1:2:3 "), None);
    assert_eq!(parse("1: 2:3"), None);
    assert_eq!(parse("1:2:3\n"), None);
}

#[test]
fn digits_of_other_scripts_are_no_digits() {
    assert_eq!(parse("\u{0661}:0:0"), None);
    assert_eq!(parse("0:\u{ff11}:0"), None);
    assert_eq!(parse("0:0:\u{0967}"), None);
    assert_eq!(parse("1\u{ff1a}2\u{ff1a}3"), None);
}

#[test]
fn text_beyond_ascii_is_cut_at_its_colons() {
    assert_eq!(parse("1:2:3:\u{00e9}t\u{00e9}"), Some(3723));
    assert_eq!(parse("\u{00e9}:2:3"), None);
}

#[test]
fn a_part_beyond_64_bits_fails() {
    assert_eq!(parse("0:0:18446744073709551615"), Some(u64::MAX));
    assert_eq!(parse("0:0:18446744073709551616"), None);
    assert_eq!(parse("0:0:99999999999999999999"), None);
    assert_eq!(parse("0:0:184467440737095516150"), None);
    assert_eq!(parse("18446744073709551616:0:0"), None);
}

#[test]
fn a_total_beyond_64_bits_fails() {
    assert_eq!(parse("5124095576030431:0:15"), Some(u64::MAX));
    assert_eq!(parse("5124095576030431:0:16"), None);
    assert_eq!(parse("5124095576030432:0:0"), None);
    assert_eq!(parse("0:307445734561825860:15"), Some(u64::MAX));
    assert_eq!(parse("0:307445734561825860:16"), None);
    assert_eq!(parse("0:307445734561825861:0"), None);
    assert_eq!(parse("18446744073709551615:18446744073709551615:18446744073709551615"), None);
    assert_eq!(parse("1:0:18446744073709551615"), None);
}

/// The same reading by the standard library's own splitting and number parsing.
fn by_the_standard_library(text: &str) -> Option<u64> {
    let mut parts = text.split(':');
    let hours: u64 = parts.next()?.parse().ok()?;
    let minutes: u64 = parts.next()?.parse().ok()?;
    let seconds: u64 = parts.next()?.parse().ok()?;
    hours.checked_mul(3600)?.checked_add(minutes.checked_mul(60)?)?.checked_add(seconds)
}

#[test]
fn agrees_with_the_standard_library_on_joined_pieces() {
    let pieces = [
        "", "0", "1", "09", "90", "007", "+3", "+", "++4", "-1", "-", "a", "1a", "a1", " 1", "1 ",
        "1.0", "18446744073709551615", "18446744073709551616", "5124095576030431",
        "5124095576030432", "307445734561825860", "\u{0663}", "\u{00bd}", "\u{ff15}",
    ];
    let mut texts: Vec<String> = Vec::new();
    for a in pieces.iter() {
        texts.push(a.to_string());
        for b in pieces.iter() {
            texts.push(format!("{}:{}", a, b));
            for c in pieces.iter() {
                texts.push(format!("{}:{}:{}", a, b, c));
                texts.push(format!("{}:{}:{}:", a, b, c));
                texts.push(format!("{}:{}:{}:{}", a, b, c, a));
            }
        }
    }
    assert_eq!(texts.len(), 25 + 25 * 25 + 3 * 25 * 25 * 25);
    let mut accepted = 0;
    for text in texts.iter() {
        let read = parse_duration(text);
        assert_eq!(read, by_the_standard_library(text), "on {:?}", text);
        if read.is_some() {
            accepted += 1;
        }
    }
    assert!(accepted > 0);
}
