use lessons::game::judge;
use lessons::game::parse_u32;
use lessons::game::pick_secret;
use lessons::game::Judgement;

#[test]
fn parse_accepts_plain_and_signed_numbers() {
    assert_eq!(parse_u32("42"), Some(42));
    assert_eq!(parse_u32("+7"), Some(7));
    assert_eq!(parse_u32("0"), Some(0));
    assert_eq!(parse_u32("4294967295"), Some(u32::MAX));
}

#[test]
fn parse_rejects_what_is_not_a_small_number() {
    assert_eq!(parse_u32(""), None);
    assert_eq!(parse_u32("+"), None);
    assert_eq!(parse_u32("-3"), None);
    assert_eq!(parse_u32("12a"), None);
    assert_eq!(parse_u32("4294967296"), None);
    assert_eq!(parse_u32("99999999999999999999"), None);
    assert_eq!(parse_u32(" 5"), None);
}

#[test]
fn judge_matches_std_parsing() {
    for text in ["42", "+7", "0", "4294967295", "", "-3", "12a", "007"] {
        assert_eq!(parse_u32(text), text.parse::<u32>().ok(), "on {:?}", text);
    }
}

#[test]
fn judge_places_the_secret() {
    assert_eq!(judge(50, "75"), Judgement::SecretBelow);
    assert_eq!(judge(50, "25"), Judgement::SecretAbove);
    assert_eq!(judge(50, "50"), Judgement::Win);
    assert_eq!(judge(50, "fifty"), Judgement::Invalid);
}

#[test]
fn secret_is_always_in_range() {
    for _ in 0..100 {
        let s = pick_secret();
        assert!((1..=100).contains(&s));
    }
}
