//! Rank and suit notation used by the quiz drivers.

use poker_kata::utils::{Rank, Suit};

#[test]
fn rank_parses_every_letter() {
    assert_eq!(Rank::from_str("A").unwrap(), Rank::Ace);
    assert_eq!(Rank::from_str("2").unwrap(), Rank::Two);
    assert_eq!(Rank::from_str("9").unwrap(), Rank::Nine);
    assert_eq!(Rank::from_str("T").unwrap(), Rank::Ten);
    assert_eq!(Rank::from_str("J").unwrap(), Rank::Jack);
    assert_eq!(Rank::from_str("Q").unwrap(), Rank::Queen);
    assert_eq!(Rank::from_str("K").unwrap(), Rank::King);
}

#[test]
fn rank_rejects_other_strings() {
    assert!(Rank::from_str("1").is_err());
    assert!(Rank::from_str("10").is_err());
    assert!(Rank::from_str("").is_err());
    assert!(Rank::from_str("ace").is_err());
}

#[test]
fn rank_symbol_round_trip() {
    let ranks = [
        Rank::Ace,
        Rank::Two,
        Rank::Three,
        Rank::Four,
        Rank::Five,
        Rank::Six,
        Rank::Seven,
        Rank::Eight,
        Rank::Nine,
        Rank::Ten,
        Rank::Jack,
        Rank::Queen,
        Rank::King,
    ];
    for r in ranks.iter() {
        let symbol = r.symbol();
        assert_eq!(Rank::from_str(symbol.as_str()).unwrap(), *r);
    }
}

#[test]
fn suit_parses_glyphs() {
    assert_eq!(Suit::from_str("\u{2663}").unwrap(), Suit::Clubs);
    assert_eq!(Suit::from_str("\u{2666}").unwrap(), Suit::Diamonds);
    assert_eq!(Suit::from_str("\u{2665}").unwrap(), Suit::Hearts);
    assert_eq!(Suit::from_str("\u{2660}").unwrap(), Suit::Spades);
    assert!(Suit::from_str("x").is_err());
}

#[test]
fn suit_parses_names() {
    assert_eq!(Suit::from_name("clubs").unwrap(), Suit::Clubs);
    assert_eq!(Suit::from_name("diamonds").unwrap(), Suit::Diamonds);
    assert_eq!(Suit::from_name("hearts").unwrap(), Suit::Hearts);
    assert_eq!(Suit::from_name("spades").unwrap(), Suit::Spades);
    assert!(Suit::from_name("stars").is_err());
}

#[test]
fn suit_glyph_round_trip() {
    let suits = [Suit::Clubs, Suit::Diamonds, Suit::Hearts, Suit::Spades];
    for s in suits.iter() {
        let glyph = s.glyph();
        assert_eq!(Suit::from_str(glyph.as_str()).unwrap(), *s);
    }
}
