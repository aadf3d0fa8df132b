use idmon::speed::{choose_scale, parse_speed, size_unit, speed_from, unit_factor, Speed};

fn value(s: &Speed) -> f64 {
    s.digits.parse::<f64>().unwrap_or(0.0) * s.factor as f64
}

#[test]
fn speeds_are_read_with_their_units() {
    for (text, digits, factor) in [
        ("1.5MB/s", "1.5", 1 << 20),
        ("12 kb/s", "12", 1 << 10),
        ("2 Gb", "2", 1 << 30),
        ("7B", "7", 1),
        ("7 b/s", "7", 1),
        ("at 3.25\u{2003}MB/s now", "3.25", 1 << 20),
        ("1.2.3KB", "1.2.3", 1 << 10),
        ("5 6KB", "6", 1 << 10),
    ] {
        let s = parse_speed(text);
        assert_eq!((s.digits.as_str(), s.factor), (digits, factor), "{text}");
    }
}

#[test]
fn text_without_a_speed_is_no_speed() {
    for text in ["", "fast", "12", "KB/s", "12 TB/s", "12 K"] {
        let s = parse_speed(text);
        assert_eq!((s.digits.as_str(), s.factor), ("0", 1), "{text}");
        assert_eq!(value(&s), 0.0);
    }
}

#[test]
fn speeds_stand_for_bytes_per_second() {
    assert_eq!(value(&parse_speed("1.5MB/s")), 1_572_864.0);
    assert_eq!(value(&parse_speed("0KB/s")), 0.0);
    assert_eq!(value(&parse_speed("2gb/s")), 2_147_483_648.0);
    assert_eq!(value(&parse_speed("1.2.3KB")), 0.0);
}

#[test]
fn groups_make_a_speed() {
    let s = speed_from(Some(("3".to_string(), "MB/S".to_string())));
    assert_eq!((s.digits.as_str(), s.factor), ("3", 0x10_0000));
    let s = speed_from(None);
    assert_eq!((s.digits.as_str(), s.factor), ("0", 1));
    assert_eq!(unit_factor("B"), 1);
    assert_eq!(unit_factor("KB"), 1024);
    assert_eq!(unit_factor("GB/S"), 1 << 30);
    let t = s.copy();
    assert_eq!((t.digits, t.factor), (s.digits, s.factor));
}

#[test]
fn scales_change_at_powers_of_1024() {
    assert_eq!(choose_scale(0), (1, "B"));
    assert_eq!(choose_scale(1023), (1, "B"));
    assert_eq!(choose_scale(1024), (1024, "KB"));
    assert_eq!(choose_scale((1 << 20) - 1), (1024, "KB"));
    assert_eq!(choose_scale(1 << 20), (1 << 20, "MB"));
    assert_eq!(choose_scale((1 << 30) - 1), (1 << 20, "MB"));
    assert_eq!(choose_scale(1 << 30), (1 << 30, "GB"));
    assert_eq!(choose_scale(u64::MAX), (1 << 30, "GB"));
}

#[test]
fn sizes_change_unit_at_powers_of_1024() {
    let signs = ["B", "KB", "MB", "GB", "TB", "PB"];
    for i in 0..6u32 {
        let unit = 1024u64.pow(i);
        assert_eq!(size_unit(unit), (unit, signs[i as usize]));
        if i > 0 {
            assert_eq!(size_unit(unit - 1), (unit / 1024, signs[i as usize - 1]));
        }
    }
    assert_eq!(size_unit(0), (1, "B"));
    assert_eq!(size_unit(u64::MAX), (1 << 50, "PB"));
}

#[test]
fn shown_amounts_are_moderate() {
    for bytes in [0u64, 1, 1023, 1024, 123_456_789, (1 << 60) - 1] {
        let (unit, _) = size_unit(bytes);
        assert!(bytes / unit < 1024);
        assert!(unit == 1 || bytes >= unit);
    }
}

/// The number and the unit of the first speed in a text, found by trying all places.
fn first_speed(t: &[char]) -> Option<(String, String)> {
    let n = t.len();
    for i in 0..n {
        for j in i + 1..=n {
            for k in j..n {
                for b in k..n.min(k + 2) {
                    let number = t[i..j].iter().all(|c| c.is_ascii_digit() || *c == '.');
                    let space = t[j..k].iter().all(|c| c.is_whitespace());
                    let unit = t[b] == 'B' && (b == k || "KMG".contains(t[k]));
                    if number && space && unit {
                        let end = if t[b + 1..].starts_with(&['/', 'S']) { b + 3 } else { b + 1 };
                        return Some((t[i..j].iter().collect(), t[k..end].iter().collect()));
                    }
                }
            }
        }
    }
    None
}

#[test]
fn the_first_speed_counts() {
    let letters = ['1', '.', ' ', 'K', 'B', '/', 'S'];
    let mut texts = vec![String::from("1")];
    for _ in 0..4 {
        let longer: Vec<String> = texts
            .iter()
            .flat_map(|t| letters.iter().map(move |c| format!("{t}{c}")))
            .collect();
        texts = longer;
        for t in texts.iter().step_by(3) {
            let chars: Vec<char> = t.chars().collect();
            let (found, stated) = (parse_speed(t), speed_from(first_speed(&chars)));
            assert_eq!((found.digits, found.factor), (stated.digits, stated.factor), "{t:?}");
        }
    }
}

#[test]
fn letter_case_and_per_second_do_not_matter() {
    for text in ["1.5MB", "at 12 kB", "7b", "x", "3 K 4gB"] {
        let s = parse_speed(text);
        for other in [text.to_ascii_lowercase(), text.to_ascii_uppercase()] {
            let o = parse_speed(&other);
            assert_eq!((o.digits.as_str(), o.factor), (s.digits.as_str(), s.factor));
        }
        if text.ends_with(['B', 'b']) {
            let o = parse_speed(&format!("{text}/s"));
            assert_eq!((o.digits.as_str(), o.factor), (s.digits.as_str(), s.factor));
        }
    }
}

#[test]
fn each_unit_is_1024_times_the_one_before() {
    for d in ["1", "12.5", ".", "0"] {
        let speeds: Vec<Speed> =
            ["B", "KB", "MB", "GB"].iter().map(|u| parse_speed(&format!("{d}{u}"))).collect();
        for i in 0..4 {
            assert_eq!((speeds[i].digits.as_str(), speeds[i].factor), (d, 1 << (10 * i)));
        }
    }
}

#[test]
fn letters_outside_ascii_are_capitals_too() {
    assert_eq!(parse_speed("\u{fc} 5kb").factor, 1024);
    assert_eq!(parse_speed("5\u{212a}B").factor, 1);
    assert_eq!(parse_speed("5\u{212a}B").digits, "0");
}

#[test]
fn shown_and_charted_units_agree() {
    for x in [0u64, 1, 1023, 1024, 1 << 20, (1 << 30) - 1, 1 << 30, (1 << 40) - 1] {
        assert_eq!(size_unit(x), choose_scale(x));
    }
    assert_ne!(size_unit(1 << 40), choose_scale(1 << 40));
    for x in [1u64, 1023, 1024, 5000, (1 << 50) - 1] {
        for more in [1024 * x, 1024 * x + 1023] {
            assert_eq!(size_unit(more).0, 1024 * size_unit(x).0);
        }
    }
}
