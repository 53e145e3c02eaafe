//! Rank and suit notation for the quiz drivers: one-letter rank symbols,
//! suit glyphs and suit names.

use vstd::prelude::*;

use crate::strutil::str_eq;

verus! {

/// Rank of a card in the quiz notation.
#[derive(Debug, Clone, Copy, Eq, PartialEq, Structural)]
pub enum Rank {
    Ace,
    Two,
    Three,
    Four,
    Five,
    Six,
    Seven,
    Eight,
    Nine,
    Ten,
    Jack,
    Queen,
    King,
}

/// The rank a one-letter symbol stands for, if any.
pub open spec fn spec_parse_rank(s: Seq<char>) -> Option<Rank> {
    if s == "A"@ {
        Some(Rank::Ace)
    } else if s == "2"@ {
        Some(Rank::Two)
    } else if s == "3"@ {
        Some(Rank::Three)
    } else if s == "4"@ {
        Some(Rank::Four)
    } else if s == "5"@ {
        Some(Rank::Five)
    } else if s == "6"@ {
        Some(Rank::Six)
    } else if s == "7"@ {
        Some(Rank::Seven)
    } else if s == "8"@ {
        Some(Rank::Eight)
    } else if s == "9"@ {
        Some(Rank::Nine)
    } else if s == "T"@ {
        Some(Rank::Ten)
    } else if s == "J"@ {
        Some(Rank::Jack)
    } else if s == "Q"@ {
        Some(Rank::Queen)
    } else if s == "K"@ {
        Some(Rank::King)
    } else {
        None
    }
}

/// The one-letter symbol of a rank.
pub open spec fn spec_rank_letter(r: Rank) -> Seq<char> {
    match r {
        Rank::Ace => "A"@,
        Rank::Two => "2"@,
        Rank::Three => "3"@,
        Rank::Four => "4"@,
        Rank::Five => "5"@,
        Rank::Six => "6"@,
        Rank::Seven => "7"@,
        Rank::Eight => "8"@,
        Rank::Nine => "9"@,
        Rank::Ten => "T"@,
        Rank::Jack => "J"@,
        Rank::Queen => "Q"@,
        Rank::King => "K"@,
    }
}

impl Rank {
    /// Parse the one-letter notation: "A", "2" through "9", "T", "J", "Q",
    /// "K". Any other string is rejected.
    pub fn from_str(s: &str) -> (r: Result<Rank, String>)
        ensures
            match r {
                Ok(v) => spec_parse_rank(s@) == Some(v),
                Err(_) => spec_parse_rank(s@) is None,
            },
    {
        if str_eq(s, "A") {
            Ok(Rank::Ace)
        } else if str_eq(s, "2") {
            Ok(Rank::Two)
        } else if str_eq(s, "3") {
            Ok(Rank::Three)
        } else if str_eq(s, "4") {
            Ok(Rank::Four)
        } else if str_eq(s, "5") {
            Ok(Rank::Five)
        } else if str_eq(s, "6") {
            Ok(Rank::Six)
        } else if str_eq(s, "7") {
            Ok(Rank::Seven)
        } else if str_eq(s, "8") {
            Ok(Rank::Eight)
        } else if str_eq(s, "9") {
            Ok(Rank::Nine)
        } else if str_eq(s, "T") {
            Ok(Rank::Ten)
        } else if str_eq(s, "J") {
            Ok(Rank::Jack)
        } else if str_eq(s, "Q") {
            Ok(Rank::Queen)
        } else if str_eq(s, "K") {
            Ok(Rank::King)
        } else {
            let mut e = String::from_str("Invalid rank: ");
            e.append(s);
            Err(e)
        }
    }

    /// The one-letter symbol of this rank.
    pub fn symbol(&self) -> (out: String)
        ensures
            out@ == spec_rank_letter(*self),
    {
        String::from_str(
            match *self {
                Rank::Ace => "A",
                Rank::Two => "2",
                Rank::Three => "3",
                Rank::Four => "4",
                Rank::Five => "5",
                Rank::Six => "6",
                Rank::Seven => "7",
                Rank::Eight => "8",
                Rank::Nine => "9",
                Rank::Ten => "T",
                Rank::Jack => "J",
                Rank::Queen => "Q",
                Rank::King => "K",
            },
        )
    }
}

/// Suit of a card. Identity is the tag alone; glyph and name are derived.
#[derive(Debug, Clone, Copy, Eq, PartialEq, Structural, Hash)]
pub enum Suit {
    Diamonds,
    Hearts,
    Clubs,
    Spades,
}

/// The suit a glyph stands for, if any.
pub open spec fn spec_parse_suit(s: Seq<char>) -> Option<Suit> {
    if s == "\u{2663}"@ {
        Some(Suit::Clubs)
    } else if s == "\u{2666}"@ {
        Some(Suit::Diamonds)
    } else if s == "\u{2665}"@ {
        Some(Suit::Hearts)
    } else if s == "\u{2660}"@ {
        Some(Suit::Spades)
    } else {
        None
    }
}

/// The suit an English name stands for, if any.
pub open spec fn spec_parse_suit_name(s: Seq<char>) -> Option<Suit> {
    if s == "clubs"@ {
        Some(Suit::Clubs)
    } else if s == "diamonds"@ {
        Some(Suit::Diamonds)
    } else if s == "hearts"@ {
        Some(Suit::Hearts)
    } else if s == "spades"@ {
        Some(Suit::Spades)
    } else {
        None
    }
}

/// The glyph of a suit.
pub open spec fn spec_suit_glyph(s: Suit) -> Seq<char> {
    match s {
        Suit::Clubs => "\u{2663}"@,
        Suit::Diamonds => "\u{2666}"@,
        Suit::Hearts => "\u{2665}"@,
        Suit::Spades => "\u{2660}"@,
    }
}

impl Suit {
    /// Parse a suit glyph. Any other string is rejected.
    pub fn from_str(s: &str) -> (r: Result<Suit, String>)
        ensures
            match r {
                Ok(v) => spec_parse_suit(s@) == Some(v),
                Err(_) => spec_parse_suit(s@) is None,
            },
    {
        if str_eq(s, "\u{2663}") {
            Ok(Suit::Clubs)
        } else if str_eq(s, "\u{2666}") {
            Ok(Suit::Diamonds)
        } else if str_eq(s, "\u{2665}") {
            Ok(Suit::Hearts)
        } else if str_eq(s, "\u{2660}") {
            Ok(Suit::Spades)
        } else {
            let mut e = String::from_str("Invalid rank: ");
            e.append(s);
            Err(e)
        }
    }

    /// Parse an English suit name, "clubs" through "spades". Any other
    /// string is rejected.
    pub fn from_name(s: &str) -> (r: Result<Suit, String>)
        ensures
            match r {
                Ok(v) => spec_parse_suit_name(s@) == Some(v),
                Err(_) => spec_parse_suit_name(s@) is None,
            },
    {
        if str_eq(s, "clubs") {
            Ok(Suit::Clubs)
        } else if str_eq(s, "diamonds") {
            Ok(Suit::Diamonds)
        } else if str_eq(s, "hearts") {
            Ok(Suit::Hearts)
        } else if str_eq(s, "spades") {
            Ok(Suit::Spades)
        } else {
            let mut e = String::from_str("Invalid rank: ");
            e.append(s);
            Err(e)
        }
    }

    /// The glyph of this suit.
    pub fn glyph(&self) -> (out: String)
        ensures
            out@ == spec_suit_glyph(*self),
    {
        String::from_str(
            match *self {
                Suit::Clubs => "\u{2663}",
                Suit::Diamonds => "\u{2666}",
                Suit::Hearts => "\u{2665}",
                Suit::Spades => "\u{2660}",
            },
        )
    }
}

} // verus!
