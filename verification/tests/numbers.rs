use predict_agent::double::{share_of, whole_exceeds, whole_of, Double};
use predict_agent::json::Json;
use predict_agent::numerals::{
    even_percent_of, fill_rate_of, fixed0_of, fixed2_of, price_notation_of, rounded_percent_of,
};
use predict_agent::text::{
    contains, digit, fold, lines_of, parse_integer, push_decimal, signed_decimal_of, space, trim_of, truncate_str,
};

fn d(x: f64) -> Double {
    Double::from_bits(x.to_bits())
}

struct Chance(u64);

impl Chance {
    fn next(&mut self) -> u64 {
        self.0 = self.0.wrapping_mul(6364136223846793005).wrapping_add(1442695040888963407);
        self.0 ^ (self.0 >> 29)
    }
}

fn samples() -> Vec<f64> {
    let mut list = vec![
        0.0, -0.0, 0.5, 1.5, 2.5, -0.5, 0.005, 0.015, 0.125, 0.375, 1.0, 0.01, 0.99, 1e15, 1e22,
        1e300, -1e300, f64::MIN_POSITIVE, f64::MAX, 5e-324, f64::INFINITY, f64::NEG_INFINITY,
        f64::NAN, 99.995, 38_000.0, 12345.678, 18446744073709551615.0, 18446744073709551616.0,
    ];
    let mut chance = Chance(7);
    for _ in 0..2000 {
        let n = chance.next();
        list.push((n % 1_000_000) as f64 / 100.0);
        list.push((n % 1_000_003) as f64 / 1000.0 - 300.0);
        list.push(f64::from_bits(n));
    }
    list
}

#[test]
fn order_is_that_of_doubles() {
    let list = samples();
    for (i, &a) in list.iter().enumerate().step_by(7) {
        for &b in list.iter().skip(i % 5).step_by(31) {
            assert_eq!(d(a).less(d(b)), a < b, "{a} {b}");
            assert_eq!(d(a).at_least(d(b)), a >= b, "{a} {b}");
        }
    }
}

#[test]
fn clamping_is_that_of_doubles() {
    for a in samples() {
        assert_eq!(d(a).clamp_unit().bits, a.clamp(0.0, 1.0).to_bits(), "{a}");
    }
}

#[test]
fn whole_parts_are_those_of_doubles() {
    for a in samples() {
        assert_eq!(whole_of(d(a)), a as u64, "{a}");
        for n in [0u32, 1, 100, 100_000, u32::MAX] {
            assert_eq!(whole_exceeds(n, d(a)), (n as f64) > a, "{n} {a}");
        }
    }
}

#[test]
fn shares_are_those_of_doubles() {
    for a in samples() {
        for f in [0.04, 0.05, 0.06, 0.07, 0.10, 0.15, 0.20, 0.25, 0.30, 0.35, 0.40, 0.50] {
            assert_eq!(share_of(d(a), d(f)), (a * f).floor() as u64, "{a} {f}");
        }
    }
}

#[test]
fn notations_are_those_of_the_formatter() {
    for a in samples() {
        assert_eq!(fixed0_of(d(a)), format!("{a:.0}"));
        assert_eq!(fixed2_of(d(a)), format!("{a:.2}"));
    }
}

#[test]
fn prices_are_written_as_the_formatter_does() {
    let mut chance = Chance(3);
    for n in 0..20_000u64 {
        let a = if n < 99 {
            (n + 1) as f64 / 100.0
        } else {
            0.01 + (chance.next() % 1_000_000_007) as f64 / 1_000_000_007.0 * 0.98
        };
        if (0.01..=0.99).contains(&a) {
            let shown = price_notation_of(d(a));
            assert_eq!(shown, format!("{a}"));
            assert_eq!(shown.parse::<f64>().unwrap(), a);
        }
    }
}

#[test]
fn prices_between_two_notations_are_written_up() {
    assert_eq!(price_notation_of(d(65537.0 / 131072.0)), "0.5000076293945313");
    for bits in 10..54u32 {
        let whole = (bits as f64).exp2();
        let mut chance = Chance(bits as u64);
        for _ in 0..500 {
            let a = (chance.next() as f64 / u64::MAX as f64 * whole).floor() / whole;
            if (0.01..=0.99).contains(&a) {
                assert_eq!(price_notation_of(d(a)), format!("{a}"));
            }
        }
    }
    for odd in (1311..129_761u32).step_by(2) {
        let a = odd as f64 / 131_072.0;
        assert_eq!(price_notation_of(d(a)), format!("{a}"));
    }
}

#[test]
fn percentages_are_those_of_doubles() {
    for whole in 1..200u64 {
        for part in 0..=whole {
            let rate = part as f64 / whole as f64;
            assert_eq!(rounded_percent_of(part, whole), (rate * 100.0).round() as u64);
            assert_eq!(even_percent_of(part, whole).to_string(), format!("{:.0}", rate * 100.0));
        }
    }
    let mut chance = Chance(11);
    for _ in 0..20_000 {
        let whole = (chance.next() >> (chance.next() % 60)) as i64 & i64::MAX;
        let filled = (chance.next() >> (chance.next() % 60)) as i64;
        if whole > 0 {
            let expected = (filled as f64 / whole as f64 * 100.0) as i64;
            assert_eq!(fill_rate_of(filled, whole), expected, "{filled} {whole}");
        }
    }
}

#[test]
fn white_space_and_digits_are_those_of_char() {
    for code in 0..=0x10ffffu32 {
        if let Some(ch) = char::from_u32(code) {
            assert_eq!(space(ch), ch.is_whitespace(), "{code:x}");
            assert_eq!(digit(ch), ch.is_ascii_digit(), "{code:x}");
        }
    }
}

#[test]
fn integers_are_read_and_written() {
    let read = |s: &str| parse_integer(&s.chars().collect::<Vec<char>>());
    for s in [
        "", "-", "+", "0", "-0", "+7", "007", "2147483647", "2147483648", "-2147483648",
        "-2147483649", "99999999999999999999", "1 ", " 1", "1a", "٣",
    ] {
        assert_eq!(read(s), s.parse::<i32>().ok(), "{s}");
    }
    for n in [0u64, 9, 10, 12345, u64::MAX] {
        let mut text = String::from("n=");
        push_decimal(&mut text, n);
        assert_eq!(text, format!("n={n}"));
    }
    for n in [0i64, -1, 42, i64::MIN, i64::MAX] {
        assert_eq!(signed_decimal_of(n), n.to_string());
    }
}

#[test]
fn texts_are_cut_as_strings_are() {
    for s in ["", "a", "a\n", "a\r\nb", "\n\n", "a\rb\r", "x\r\n\r\n", "é→\u{1F600}\n z"] {
        let chars: Vec<char> = s.chars().collect();
        let lines: Vec<String> = lines_of(&chars).iter().map(|l| l.iter().collect()).collect();
        assert_eq!(lines, s.lines().collect::<Vec<_>>());
        assert_eq!(trim_of(&chars).iter().collect::<String>(), s.trim());
    }
    assert!(contains("abcabd", "abd") && contains("x", "") && !contains("ab", "abc"));
}

#[test]
fn truncation_counts_characters() {
    assert_eq!(truncate_str("→→→", 3), "→→→");
    assert_eq!(truncate_str("→→→x", 3), "→→→");
    assert_eq!(truncate_str("abc", 0), "");
}

#[test]
fn only_ascii_letters_are_folded() {
    let chars: Vec<char> = "AZaz@[É—\u{212A}".chars().collect();
    assert_eq!(fold(&chars).iter().collect::<String>(), "azaz@[É—\u{212A}");
}

#[test]
fn json_numbers_have_three_readings() {
    let read = |s: &str| Json::parse(s).unwrap();
    assert_eq!(read("7").as_u64(), Some(7));
    assert_eq!(read("7").as_i64(), Some(7));
    assert_eq!(read("7").as_double(), Some(d(7.0)));
    assert_eq!(read("-7").as_u64(), None);
    assert_eq!(read("-7").as_i64(), Some(-7));
    assert_eq!(read("18446744073709551615").as_i64(), None);
    assert_eq!(read("0.25").as_u64(), None);
    assert_eq!(read("0.25").as_double(), Some(d(0.25)));
    assert_eq!(Json::integer(-3).as_double(), Some(d(-3.0)));
    assert_eq!(Json::integer(-3).as_u64(), None);
    assert_eq!(Json::integer(3).as_u64(), Some(3));
    assert_eq!(Json::count(u64::MAX).as_i64(), None);
    assert_eq!(Json::count(9).as_double(), Some(d(9.0)));
    assert_eq!(Json::from_double(d(0.2)).as_double(), Some(d(0.2)));
}

#[test]
fn json_trees_are_walked() {
    let value = Json::parse(r#"{"a": {"b": [true, null, "x"]}, "n": -1}"#).unwrap();
    let list = value.get("a").unwrap().array_at("b").unwrap();
    assert_eq!(list.len(), 3);
    assert_eq!(list[0].as_bool(), Some(true));
    assert!(list[1].is_null());
    assert_eq!(list[2].as_str().map(|s| s.as_str()), Some("x"));
    assert!(value.get("missing").is_none());
    assert!(list[0].get("b").is_none());
    assert_eq!(value.i64_or("n", 5), -1);
    assert_eq!(value.i64_or("m", 5), 5);
    assert_eq!(value.copy().get("a").unwrap().array_at("b").unwrap().len(), 3);
    assert!(Json::parse("{").is_none());
    assert!(Json::parse("{} x").is_none());
    let taken = Json::from_value(serde_json::Value::from(vec![1, 2]));
    assert_eq!(taken.as_array().unwrap()[1].as_i64(), Some(2));
}

#[test]
fn integers_have_the_nearest_double() {
    for n in [0i64, 7, -7, i64::MAX, i64::MIN, (1 << 53) + 1, -(1 << 53) - 1] {
        assert_eq!(Json::integer(n).as_double(), Some(d(n as f64)), "{n}");
        assert_eq!(Json::integer(n).as_i64(), Some(n));
    }
    for n in [0u64, 7, u64::MAX, (1 << 54) + 2, (1 << 54) + 6] {
        assert_eq!(Json::count(n).as_double(), Some(d(n as f64)), "{n}");
        assert_eq!(Json::count(n).as_u64(), Some(n));
    }
}

#[test]
fn nested_values_keep_their_shape() {
    let source = r#"{"b":[1,{"c":null},"x"],"a":{"d":[true,[]],"e":-2.5}}"#;
    let json = Json::parse(source).unwrap();
    let items = json.array_at("b").unwrap();
    assert_eq!(items.len(), 3);
    assert_eq!(items[0].as_u64(), Some(1));
    assert!(matches!(items[1].get("c"), Some(Json::Null)));
    assert!(matches!(&items[2], Json::Str(s) if s == "x"));
    let inner = json.get("a").unwrap();
    assert_eq!(inner.array_at("d").unwrap().len(), 2);
    assert_eq!(inner.double_at("e"), Some(d(-2.5)));
}
