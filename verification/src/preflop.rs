//! The pre-flop opening-range quiz: a scenario parsed from one
//! comma-separated line, the action it expects, and the check of a
//! learner's answer.

use vstd::prelude::*;
use vstd::string::StrSliceExecFns;

use crate::strutil::{field_end, field_start, lemma_split_commas, spec_trim, split_commas, str_eq,
    trim_range};
use crate::utils::{spec_parse_rank, spec_rank_letter, Rank};

verus! {

/// Where the scenario's hero sits.
#[derive(Debug, PartialEq, Eq, Structural)]
enum TablePosition {
    Early,
    Middle,
    Late,
}

/// The action a scenario expects.
#[derive(Debug, PartialEq, Eq, Structural, Clone, Copy)]
enum Action {
    Raise(StackSize),
    Call,
    Fold,
}

/// How deep the hero's stack is in the scenario.
#[derive(Debug, Clone, Copy, Eq, PartialEq, Structural)]
pub enum StackSize {
    Short,
    Medium,
    Deep,
    Any,
}

/// Whether the hero's two cards share a suit.
#[derive(Debug, PartialEq, Eq, Structural, Clone, Copy)]
enum SuitCombination {
    Suited,
    Offsuit,
}

spec fn spec_parse_position(s: Seq<char>) -> Option<TablePosition> {
    if s == "early"@ {
        Some(TablePosition::Early)
    } else if s == "middle"@ {
        Some(TablePosition::Middle)
    } else if s == "late"@ {
        Some(TablePosition::Late)
    } else {
        None
    }
}

spec fn spec_parse_paction(s: Seq<char>) -> Option<Action> {
    if s == "r"@ {
        Some(Action::Raise(StackSize::Short))
    } else if s == "f"@ {
        Some(Action::Fold)
    } else if s == "c"@ {
        Some(Action::Call)
    } else {
        None
    }
}

/// The stack size a one-letter notation stands for, if any.
pub open spec fn spec_parse_stack(s: Seq<char>) -> Option<StackSize> {
    if s == "s"@ {
        Some(StackSize::Short)
    } else if s == "m"@ {
        Some(StackSize::Medium)
    } else if s == "d"@ {
        Some(StackSize::Deep)
    } else if s == "a"@ {
        Some(StackSize::Any)
    } else {
        None
    }
}

spec fn spec_parse_combo(s: Seq<char>) -> Option<SuitCombination> {
    if s == "s"@ {
        Some(SuitCombination::Suited)
    } else if s == "o"@ {
        Some(SuitCombination::Offsuit)
    } else {
        None
    }
}

/// The word the quiz prints for a stack size.
pub open spec fn spec_stack_word(s: StackSize) -> Seq<char> {
    match s {
        StackSize::Short => "short"@,
        StackSize::Medium => "medium"@,
        StackSize::Deep => "deep"@,
        StackSize::Any => "any"@,
    }
}

impl StackSize {
    /// Parse the one-letter notation "s", "m", "d" or "a". Any other
    /// string is rejected.
    pub fn from_str(s: &str) -> (r: Result<StackSize, String>)
        ensures
            match r {
                Ok(v) => spec_parse_stack(s@) == Some(v),
                Err(_) => spec_parse_stack(s@) is None,
            },
    {
        if str_eq(s, "s") {
            Ok(StackSize::Short)
        } else if str_eq(s, "m") {
            Ok(StackSize::Medium)
        } else if str_eq(s, "d") {
            Ok(StackSize::Deep)
        } else if str_eq(s, "a") {
            Ok(StackSize::Any)
        } else {
            let mut e = String::from_str("Invalid stack size: ");
            e.append(s);
            Err(e)
        }
    }

    /// The word the quiz prints for this stack size.
    pub fn word(&self) -> (out: String)
        ensures
            out@ == spec_stack_word(*self),
    {
        String::from_str(
            match *self {
                StackSize::Short => "short",
                StackSize::Medium => "medium",
                StackSize::Deep => "deep",
                StackSize::Any => "any",
            },
        )
    }
}

/// One quiz scenario: seat, the hero's two card ranks, suitedness, the
/// expected action and the stack depth, as parsed from one CSV line.
#[derive(Debug)]
pub struct Context {
    table_position: TablePosition,
    card_1: Rank,
    card_2: Rank,
    suit_combination: SuitCombination,
    action: Action,
    stack_size: StackSize,
}

/// The scenario a comma-separated line stands for, if any: exactly six
/// fields, each trimmed and read in its own notation.
pub closed spec fn spec_parse_context(s: Seq<char>) -> Option<Context> {
    let parts = split_commas(s);
    if parts.len() != 6 {
        None
    } else {
        match (
            spec_parse_position(spec_trim(parts[0])),
            spec_parse_rank(spec_trim(parts[1])),
            spec_parse_rank(spec_trim(parts[2])),
            spec_parse_combo(spec_trim(parts[3])),
            spec_parse_paction(spec_trim(parts[4])),
            spec_parse_stack(spec_trim(parts[5])),
        ) {
            (Some(tp), Some(c1), Some(c2), Some(sc), Some(ac), Some(ss)) => Some(
                Context {
                    table_position: tp,
                    card_1: c1,
                    card_2: c2,
                    suit_combination: sc,
                    action: ac,
                    stack_size: ss,
                },
            ),
            _ => None,
        }
    }
}

/// Does the trimmed answer name exactly the scenario's expected action?
pub closed spec fn spec_assess(c: Context, s: Seq<char>) -> bool {
    spec_parse_paction(spec_trim(s)) == Some(c.action)
}

/// The word the quiz prints for the scenario's expected action.
pub closed spec fn spec_expected_action(c: Context) -> Seq<char> {
    match c.action {
        Action::Raise(_) => "raise"@,
        Action::Call => "call"@,
        Action::Fold => "fold"@,
    }
}

spec fn spec_position_word(t: TablePosition) -> Seq<char> {
    match t {
        TablePosition::Early => "early"@,
        TablePosition::Middle => "middle"@,
        TablePosition::Late => "late"@,
    }
}

spec fn spec_combo_word(t: SuitCombination) -> Seq<char> {
    match t {
        SuitCombination::Suited => "suited"@,
        SuitCombination::Offsuit => "offsuit"@,
    }
}

/// The one-line description of a scenario, e.g. "early pos, A8 suited,
/// short stack".
pub closed spec fn spec_describe(c: Context) -> Seq<char> {
    spec_position_word(c.table_position) + " pos, "@ + spec_rank_letter(c.card_1)
        + spec_rank_letter(c.card_2) + " "@ + spec_combo_word(c.suit_combination) + ", "@
        + spec_stack_word(c.stack_size) + " stack"@
}

fn parse_position(p: &str) -> (r: Option<TablePosition>)
    ensures
        r == spec_parse_position(p@),
{
    if str_eq(p, "early") {
        Some(TablePosition::Early)
    } else if str_eq(p, "middle") {
        Some(TablePosition::Middle)
    } else if str_eq(p, "late") {
        Some(TablePosition::Late)
    } else {
        None
    }
}

fn parse_paction(p: &str) -> (r: Option<Action>)
    ensures
        r == spec_parse_paction(p@),
{
    if str_eq(p, "r") {
        Some(Action::Raise(StackSize::Short))
    } else if str_eq(p, "f") {
        Some(Action::Fold)
    } else if str_eq(p, "c") {
        Some(Action::Call)
    } else {
        None
    }
}

fn parse_combo(p: &str) -> (r: Option<SuitCombination>)
    ensures
        r == spec_parse_combo(p@),
{
    if str_eq(p, "s") {
        Some(SuitCombination::Suited)
    } else if str_eq(p, "o") {
        Some(SuitCombination::Offsuit)
    } else {
        None
    }
}

fn parse_stack(p: &str) -> (r: Option<StackSize>)
    ensures
        r == spec_parse_stack(p@),
{
    if str_eq(p, "s") {
        Some(StackSize::Short)
    } else if str_eq(p, "m") {
        Some(StackSize::Medium)
    } else if str_eq(p, "d") {
        Some(StackSize::Deep)
    } else if str_eq(p, "a") {
        Some(StackSize::Any)
    } else {
        None
    }
}

impl Context {
    /// Read one scenario from a comma-separated line of six fields:
    /// position, two card ranks, suitedness, expected action, stack size.
    /// Returns the first field's error when one fails to parse, and rejects
    /// lines with any other number of fields.
    pub fn from_str(s: &str) -> (r: Result<Context, String>)
        ensures
            match r {
                Ok(c) => spec_parse_context(s@) == Some(c),
                Err(_) => spec_parse_context(s@) is None,
            },
    {
        let n = s.unicode_len();
        let mut pos: Vec<usize> = Vec::new();
        let mut i: usize = 0;
        while i < n
            invariant
                i <= n,
                n == s@.len(),
                forall|k: int|
                    0 <= k < pos@.len() ==> #[trigger] pos@[k] < i && s@[pos@[k] as int] == ',',
                forall|k1: int, k2: int|
                    0 <= k1 < k2 < pos@.len() ==> #[trigger] pos@[k1] < #[trigger] pos@[k2],
                forall|j: int|
                    0 <= j < i && s@[j] == ',' ==> exists|k: int|
                        0 <= k < pos@.len() && #[trigger] pos@[k] as int == j,
            decreases n - i,
        {
            let ghost old_pos = pos@;
            if s.get_char(i) == ',' {
                pos.push(i);
                proof {
                    assert forall|j: int|
                        0 <= j < i + 1 && s@[j] == ',' implies exists|k: int|
                        0 <= k < pos@.len() && #[trigger] pos@[k] as int == j by {
                        if j == i {
                            assert(pos@[pos@.len() - 1] as int == j);
                        } else {
                            let k = choose|k: int|
                                0 <= k < old_pos.len() && #[trigger] old_pos[k] as int == j;
                            assert(pos@[k] as int == j);
                        }
                    }
                }
            }
            i = i + 1;
        }
        let ghost ipos = Seq::new(pos@.len() as nat, |k: int| pos@[k] as int);
        proof {
            assert forall|j: int| 0 <= j < s@.len() && s@[j] == ',' implies ipos.contains(j) by {
                let k = choose|k: int| 0 <= k < pos@.len() && pos@[k] as int == j;
                assert(ipos[k] == j);
            }
            lemma_split_commas(s@, ipos);
        }
        if pos.len() != 5 {
            return Err(String::from_str("Invalid string format"));
        }
        let p0 = pos[0];
        let p1 = pos[1];
        let p2 = pos[2];
        let p3 = pos[3];
        let p4 = pos[4];
        let ghost parts = split_commas(s@);
        proof {
            assert(parts[0] == s@.subrange(field_start(ipos, 0), field_end(s@, ipos, 0)));
            assert(parts[1] == s@.subrange(field_start(ipos, 1), field_end(s@, ipos, 1)));
            assert(parts[2] == s@.subrange(field_start(ipos, 2), field_end(s@, ipos, 2)));
            assert(parts[3] == s@.subrange(field_start(ipos, 3), field_end(s@, ipos, 3)));
            assert(parts[4] == s@.subrange(field_start(ipos, 4), field_end(s@, ipos, 4)));
            assert(parts[5] == s@.subrange(field_start(ipos, 5), field_end(s@, ipos, 5)));
        }
        let (a0, b0) = trim_range(s, 0, p0);
        let part0 = s.substring_char(a0, b0);
        let table_position = match parse_position(part0) {
            Some(v) => v,
            None => {
                let mut e = String::from_str("Invalid table position: ");
                e.append(part0);
                return Err(e);
            },
        };
        let (a1, b1) = trim_range(s, p0 + 1, p1);
        let part1 = s.substring_char(a1, b1);
        let card_1 = match Rank::from_str(part1) {
            Ok(v) => v,
            Err(e) => {
                return Err(e);
            },
        };
        let (a2, b2) = trim_range(s, p1 + 1, p2);
        let part2 = s.substring_char(a2, b2);
        let card_2 = match Rank::from_str(part2) {
            Ok(v) => v,
            Err(e) => {
                return Err(e);
            },
        };
        let (a3, b3) = trim_range(s, p2 + 1, p3);
        let part3 = s.substring_char(a3, b3);
        let suit_combination = match parse_combo(part3) {
            Some(v) => v,
            None => {
                let mut e = String::from_str("Invalid suit combination: ");
                e.append(part3);
                return Err(e);
            },
        };
        let (a4, b4) = trim_range(s, p3 + 1, p4);
        let part4 = s.substring_char(a4, b4);
        let action = match parse_paction(part4) {
            Some(v) => v,
            None => {
                let mut e = String::from_str("Invalid action: ");
                e.append(part4);
                return Err(e);
            },
        };
        let (a5, b5) = trim_range(s, p4 + 1, n);
        let part5 = s.substring_char(a5, b5);
        let stack_size = match parse_stack(part5) {
            Some(v) => v,
            None => {
                let mut e = String::from_str("Invalid stack size: ");
                e.append(part5);
                return Err(e);
            },
        };
        Ok(
            Context {
                table_position,
                card_1,
                card_2,
                suit_combination,
                action,
                stack_size,
            },
        )
    }

    /// Check a learner's answer: true exactly when the trimmed answer
    /// names the scenario's expected action.
    pub fn assess(&self, action: &str) -> (r: bool)
        ensures
            r == spec_assess(*self, action@),
    {
        let n = action.unicode_len();
        let (a, b) = trim_range(action, 0, n);
        let part = action.substring_char(a, b);
        proof {
            assert(action@.subrange(0, n as int) =~= action@);
        }
        match parse_paction(part) {
            Some(act) => act == self.action,
            None => false,
        }
    }

    /// The word for the action this scenario expects: "raise", "call" or
    /// "fold".
    pub fn get_expected_action(&self) -> (out: &str)
        ensures
            out@ == spec_expected_action(*self),
    {
        match self.action {
            Action::Raise(_) => "raise",
            Action::Call => "call",
            Action::Fold => "fold",
        }
    }

    /// Describe this scenario in one line, e.g. "early pos, A8 suited,
    /// short stack".
    pub fn describe(&self) -> (out: String)
        ensures
            out@ == spec_describe(*self),
    {
        let mut out = String::from_str(
            match self.table_position {
                TablePosition::Early => "early",
                TablePosition::Middle => "middle",
                TablePosition::Late => "late",
            },
        );
        out.append(" pos, ");
        let c1 = self.card_1.symbol();
        out.append(c1.as_str());
        let c2 = self.card_2.symbol();
        out.append(c2.as_str());
        out.append(" ");
        out.append(
            match self.suit_combination {
                SuitCombination::Suited => "suited",
                SuitCombination::Offsuit => "offsuit",
            },
        );
        out.append(", ");
        let sw = self.stack_size.word();
        out.append(sw.as_str());
        out.append(" stack");
        out
    }
}

} // verus!
