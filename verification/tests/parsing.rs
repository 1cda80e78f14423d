use klondike::parse::{parse_card, parse_deck};

fn token_for(code: u8) -> String {
    let ranks = [
        "A", "2", "3", "4", "5", "6", "7", "8", "9", "T", "J", "Q", "K",
    ];
    let suits = ["C", "D", "H", "S"];
    format!("{}{}", ranks[(code % 13) as usize], suits[(code / 13) as usize])
}

#[test]
fn parse_card_basics() {
    assert_eq!(parse_card("AC"), Some(0));
    assert_eq!(parse_card("AS"), Some(39));
    assert_eq!(parse_card("TD"), Some(13 + 9));
    assert_eq!(parse_card("KC"), Some(12));
    assert_eq!(parse_card(" qh "), Some(26 + 11));
    assert_eq!(parse_card("aS"), Some(39));
    assert_eq!(parse_card("1C"), None);
    assert_eq!(parse_card("A"), None);
    assert_eq!(parse_card(""), None);
    assert_eq!(parse_card("AXQS"), None);
}

#[test]
fn parse_deck_round_trip() {
    let tokens: Vec<String> = (0..52u8).map(token_for).collect();
    let refs: Vec<&str> = tokens.iter().map(|s| s.as_str()).collect();
    let deck = parse_deck(&refs).expect("full deck");
    assert_eq!(deck.len(), 52);
    for (i, &c) in deck.iter().enumerate() {
        assert_eq!(c, i as u8);
    }
}

#[test]
fn parse_deck_rejects_bad_input() {
    let tokens: Vec<String> = (0..51u8).map(token_for).collect();
    let refs: Vec<&str> = tokens.iter().map(|s| s.as_str()).collect();
    assert!(parse_deck(&refs).is_none());

    let mut tokens: Vec<String> = (0..52u8).map(token_for).collect();
    tokens[17] = "ZZ".to_owned();
    let refs: Vec<&str> = tokens.iter().map(|s| s.as_str()).collect();
    assert!(parse_deck(&refs).is_none());
}
