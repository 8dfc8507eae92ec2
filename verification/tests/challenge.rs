use predict_agent::challenge::{
    challenge_answer, challenge_text, classify_challenge_kind, classify_words,
    extract_challenge_answer, first_number_before_hour, parse_departure_hour, parse_timezone_offset, read_inventory,
    read_timezone, solve_challenge_answer, solve_inventory_challenge, solve_timezone_challenge,
    strip_challenge_answer, with_challenge_answer,
};
use predict_agent::json::Json;
use predict_agent::words::{
    challenge_tokens, first_number_after_sequence, is_number_token, last_number_before_token,
    number_word_value, parse_number_token_or_words, read_number, Reading,
};

fn strings(list: &[&str]) -> Vec<String> {
    list.iter().map(|s| s.to_string()).collect()
}

fn json(source: &str) -> Json {
    Json::parse(source).unwrap()
}

#[test]
fn inventory_challenge_word_form() {
    let text = "Inventory began at 511 units; ninety-four sold; 189 received from suppliers.";
    assert_eq!(solve_inventory_challenge(text), Some(511 - 94 + 189));
}

#[test]
fn inventory_challenge_numeric_form() {
    let text = "Inventory began at 200 units; 30 sold; 50 received.";
    assert_eq!(solve_inventory_challenge(text), Some(200 - 30 + 50));
}

#[test]
fn inventory_challenge_full_word_form() {
    let text = "Inventory began at five hundred eleven units; ninety-four sold; one hundred eighty nine received from suppliers.";
    assert_eq!(solve_inventory_challenge(text), Some(511 - 94 + 189));
}

#[test]
fn timezone_challenge_words_ahead() {
    let text = "Flight departs at 14 local hour. Destination is three hours ahead.";
    assert_eq!(solve_timezone_challenge(text), Some(17));
}

#[test]
fn timezone_challenge_words_behind_wrap() {
    let text = "Flight departs at 2 local hour. Destination is five hours behind.";
    assert_eq!(solve_timezone_challenge(text), Some(21));
}

#[test]
fn extract_challenge_answer_canonical_form() {
    let r = "BTC up reasoning here.\nChallenge answer: 42.";
    assert_eq!(extract_challenge_answer(r).as_deref(), Some("42"));
}

#[test]
fn extract_challenge_answer_short_form() {
    let r = "BTC up reasoning here.\nChallenge: 7";
    assert_eq!(extract_challenge_answer(r).as_deref(), Some("7"));
}

#[test]
fn extract_challenge_answer_missing() {
    let r = "BTC up reasoning here. No answer.";
    assert_eq!(extract_challenge_answer(r), None);
}

#[test]
fn with_challenge_answer_keeps_both_forms() {
    let r = with_challenge_answer("BTC reasoning.", "99");
    assert!(r.contains("Challenge answer: 99."));
    assert!(r.contains("Challenge: 99"));
}

#[test]
fn inventory_is_read_in_any_case() {
    let text = "INVENTORY BEGAN AT TEN UNITS; TWO SOLD; THREE RECEIVED";
    assert_eq!(solve_inventory_challenge(text), Some(11));
    assert_eq!(read_inventory(text), Reading::Missing);
    assert_eq!(read_inventory(&text.to_lowercase()), Reading::Value(11));
}

#[test]
fn inventory_falls_back_to_other_words() {
    let text = "The inventory began with 20 crates. 5 were sold. Then 7 came from suppliers.";
    assert_eq!(solve_inventory_challenge(text), Some(22));
    assert_eq!(solve_inventory_challenge("inventory began 3, nothing sold, 4 received"), Some(4));
    assert_eq!(solve_inventory_challenge("inventory began at 9; 4 sold; 1 received"), None, "9 and 4 stand side by side");
    assert_eq!(solve_inventory_challenge("The weather is fine."), None);
}

#[test]
fn inventory_out_of_range_is_an_overflow() {
    let lower = "inventory began at 2147483647 units; 1 sold; hundred hundred hundred hundred hundred received";
    assert_eq!(read_inventory(lower), Reading::Overflow);
    let lower = "inventory began at 2147483647 units; 0 sold; 1 received";
    assert_eq!(read_inventory(lower), Reading::Overflow);
    let challenge = json(&format!("{{\"prompt\": \"{lower}\"}}"));
    assert_eq!(challenge_answer(&challenge), None);
}

#[test]
fn timezone_reads_digits_and_needs_a_direction() {
    let text = "Train departs at 23 (local hour). The destination is 4 hours ahead.";
    assert_eq!(solve_timezone_challenge(text), Some(22), "the last number before the first hour is 23");
    let text = "Destination is 4 hours ahead. It departs at 23 local hour.";
    assert_eq!(solve_timezone_challenge(text), Some(3));
    let text = "destination: 4 hours ahead; local hour; departs at 23 sharp";
    assert_eq!(solve_timezone_challenge(text), Some(3));
    let text = "destination: 4 hours away; local hour; departs at 23 sharp";
    assert_eq!(solve_timezone_challenge(text), None);
    assert_eq!(read_timezone("destination, local hour, departs at 2147483647, 9 hours ahead"), Reading::Missing);
    assert_eq!(
        read_timezone("9 hours ahead, destination, local hour, departs at 2147483647"),
        Reading::Overflow
    );
}

#[test]
fn departure_hour_is_the_digits_after_the_phrase() {
    assert_eq!(parse_departure_hour("it departs at 14:30"), Some(14));
    assert_eq!(parse_departure_hour("it departs at noon"), None);
    assert_eq!(parse_departure_hour("departs at 99999999999"), None);
    assert_eq!(parse_departure_hour("arrives at 5"), None);
}

#[test]
fn timezone_offset_prefers_words() {
    assert_eq!(parse_timezone_offset("twelve hours ahead"), Some(12));
    assert_eq!(parse_timezone_offset("7 hours behind"), Some(-7));
    assert_eq!(parse_timezone_offset("zero hours ahead and behind"), Some(0));
    assert_eq!(parse_timezone_offset("3 hours later"), None);
    assert_eq!(parse_timezone_offset("ahead by many minutes"), None);
    assert_eq!(parse_timezone_offset("5 one hour ahead"), Some(1));
}

#[test]
fn last_number_before_hour_is_found() {
    assert_eq!(first_number_before_hour("12 and 34 then hours"), Some(34));
    assert_eq!(first_number_before_hour("56hour 78"), Some(56));
    assert_eq!(first_number_before_hour("hour 78"), None);
    assert_eq!(first_number_before_hour("7 99999999999 hours"), None);
    assert_eq!(first_number_before_hour("no such word"), None);
}

#[test]
fn tokens_are_runs_of_letters_and_digits() {
    assert_eq!(
        challenge_tokens("ninety-four, é 5x; \t(ok)"),
        strings(&["ninety", "four", "5x", "ok"])
    );
    assert!(challenge_tokens("—…").is_empty());
}

#[test]
fn number_words_have_values() {
    assert_eq!(number_word_value("zero"), Some(0));
    assert_eq!(number_word_value("nineteen"), Some(19));
    assert_eq!(number_word_value("ninety"), Some(90));
    assert_eq!(number_word_value("hundred"), Some(100));
    assert_eq!(number_word_value("thousand"), Some(1000));
    assert_eq!(number_word_value("and"), None);
    assert_eq!(number_word_value("Ten"), None);
    assert!(is_number_token("-12"));
    assert!(is_number_token("+12"));
    assert!(is_number_token("forty"));
    assert!(!is_number_token("12x"));
    assert!(!is_number_token(""));
}

#[test]
fn number_words_add_up() {
    assert_eq!(parse_number_token_or_words(&strings(&["511"])), Some(511));
    assert_eq!(
        parse_number_token_or_words(&strings(&["two", "thousand", "five", "hundred", "and", "eleven"])),
        Some(2511)
    );
    assert_eq!(parse_number_token_or_words(&strings(&["hundred"])), Some(100));
    assert_eq!(parse_number_token_or_words(&strings(&["thousand", "thousand"])), Some(2000));
    assert_eq!(parse_number_token_or_words(&strings(&["and"])), None);
    assert_eq!(parse_number_token_or_words(&strings(&["5", "6"])), None);
    assert_eq!(parse_number_token_or_words(&[]), None);
    let many = strings(&["hundred", "hundred", "hundred", "hundred", "hundred"]);
    assert_eq!(read_number(&many), Reading::Overflow);
}

#[test]
fn numbers_are_read_beside_words() {
    let tokens = strings(&["it", "began", "at", "five", "hundred", "eleven", "units"]);
    assert_eq!(first_number_after_sequence(&tokens, &["began", "at"]), Some(511));
    assert_eq!(first_number_after_sequence(&tokens, &["units"]), None);
    assert_eq!(first_number_after_sequence(&tokens, &["missing"]), None);
    assert_eq!(first_number_after_sequence(&tokens, &[]), None);
    let tokens = strings(&["and", "ninety", "four", "were", "sold", "7"]);
    assert_eq!(last_number_before_token(&tokens, "sold"), Some(94));
    assert_eq!(last_number_before_token(&tokens, "and"), None);
    assert_eq!(last_number_before_token(&tokens, "gone"), None);
}

#[test]
fn answer_lines_are_stripped() {
    let r = "First.\n  CHALLENGE ANSWER: 5.\r\nSecond.\nchallenge: 6\nNo challenge: 7";
    assert_eq!(strip_challenge_answer(r), "First.\nSecond.\nNo challenge: 7");
    assert_eq!(strip_challenge_answer(""), "");
}

#[test]
fn answers_are_written_behind_the_trimmed_rest() {
    assert_eq!(
        with_challenge_answer("  Up.\nChallenge: 1\n\n", "12"),
        "Up.\nChallenge answer: 12.\nChallenge: 12"
    );
    assert_eq!(with_challenge_answer("", "3"), "\nChallenge answer: 3.\nChallenge: 3");
}

#[test]
fn written_answers_are_read_back() {
    for r in ["BTC up.", "", "Challenge answer: 5.\nBTC", "So Challenge answer: unknown"] {
        assert_eq!(extract_challenge_answer(&with_challenge_answer(r, "77")).as_deref(), Some("77"));
    }
    let own = with_challenge_answer("I say Challenge answer: 5 here", "77");
    assert_eq!(extract_challenge_answer(&own).as_deref(), Some("5"));
    let stale = "Up.\n CHALLENGE: 3\nchallenge answer: 4.\nDown —\n\tChallenge answer: 5 and Challenge: 6";
    assert_eq!(extract_challenge_answer(&with_challenge_answer(stale, "77")).as_deref(), Some("77"));
    let loud = with_challenge_answer("x CHALLENGE ANSWER: n CHALLENGE: n", "99");
    assert_eq!(extract_challenge_answer(&loud).as_deref(), Some("99"));
    let silent = with_challenge_answer("No Challenge answer: none, no Challenge: none", "77");
    assert_eq!(extract_challenge_answer(&silent), None);
}

#[test]
fn answers_are_found_behind_white_space() {
    assert_eq!(extract_challenge_answer("challenge answer:\n\t 8x").as_deref(), Some("8"));
    assert_eq!(extract_challenge_answer("Challenge answer: x. Challenge: 9").as_deref(), Some("9"));
    assert_eq!(extract_challenge_answer("CHALLENGE ANSWER: 42.").as_deref(), Some("42"));
    assert_eq!(extract_challenge_answer("— so cHALLENGE:\t7").as_deref(), Some("7"));
    assert_eq!(extract_challenge_answer("Challenges: 7"), None);
    let twice = "I get the challenge answer: six. Challenge answer: 6.";
    assert_eq!(extract_challenge_answer(twice).as_deref(), Some("6"));
    let usual = "CHALLENGE ANSWER: 1. challenge answer: 2. Challenge: 3";
    assert_eq!(extract_challenge_answer(usual).as_deref(), Some("2"));
}

#[test]
fn challenges_are_answered_from_either_key() {
    let inventory = json(r#"{"challenge": "Inventory began at 9 units; 4 sold; 1 received"}"#);
    assert_eq!(challenge_text(&inventory).map(|s| s.as_str()), Some("Inventory began at 9 units; 4 sold; 1 received"));
    assert_eq!(solve_challenge_answer(&inventory).as_deref(), Some("6"));
    assert_eq!(challenge_answer(&inventory).as_deref(), Some("6"));
    let timezone = json(r#"{"prompt": "departs at 2 local hour, destination five hours behind", "challenge": "x"}"#);
    assert_eq!(challenge_answer(&timezone).as_deref(), Some("21"));
    let negative = json(r#"{"prompt": "Inventory began at 1 unit; 4 sold; 1 received"}"#);
    assert_eq!(challenge_answer(&negative).as_deref(), Some("-2"));
    assert_eq!(challenge_answer(&json(r#"{"prompt": 5}"#)), None);
    assert_eq!(challenge_answer(&json(r#"{"prompt": "What is it?"}"#)), None);
}

#[test]
fn challenges_are_classified() {
    let kind = |s: &str| classify_challenge_kind(&json(s));
    assert_eq!(kind("{}"), "missing");
    assert_eq!(kind(r#"{"prompt": "Inventory began, sold, RECEIVED"}"#), "inventory");
    assert_eq!(kind(r#"{"prompt": "Local hour at the Destination"}"#), "timezone");
    assert_eq!(kind(r#"{"prompt": "split the REWARD"}"#), "reward_split");
    assert_eq!(kind(r#"{"prompt": "how many tickets"}"#), "market_math");
    assert_eq!(kind(r#"{"prompt": "hello"}"#), "unknown");
}

#[test]
fn lowercase_words_tell_the_kind() {
    assert_eq!(classify_words("local hour at the destination"), "timezone");
    assert_eq!(classify_words("LOCAL HOUR at the DESTINATION"), "unknown");
    assert_eq!(classify_words("split the reward"), "reward_split");
    assert_eq!(classify_words("tickets"), "market_math");
}

#[test]
fn second_answers_replace_the_first() {
    for r in ["BTC up.", "", "  a\n\n Challenge: 9\n b \n", "—\nCHALLENGE ANSWER: x"] {
        for a in ["12", "", "é.", "x\ry"] {
            let once = with_challenge_answer(r, a);
            assert_eq!(with_challenge_answer(&once, "34"), with_challenge_answer(r, "34"));
            assert_eq!(with_challenge_answer(&once, a), once);
        }
    }
}

#[test]
fn behind_turns_the_offset_round() {
    for t in [
        "five hours ahead", "12 hours ahead", "aheadahead 3ahead4 hours", "ahead", "no hour ahead",
        "eleven hour aahead", "99999999999 hour ahead", "nine hours ahead",
    ] {
        let x = parse_timezone_offset(t);
        assert!(x.map_or(true, |v| v >= 0));
        assert_eq!(parse_timezone_offset(&t.replace("ahead", "behind")), x.map(|v| -v), "{t}");
    }
    assert_eq!(parse_timezone_offset("12 hours ahead"), Some(12));
}
