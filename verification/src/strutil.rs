//! Small verified string helpers: equality, whitespace trimming and
//! splitting at commas, shared by the parsing modules.

use vstd::prelude::*;
use vstd::string::StrSliceExecFns;

verus! {

/// Are two strings equal, character for character?
pub fn str_eq(a: &str, b: &str) -> (r: bool)
    ensures
        r == (a@ == b@),
{
    let la = a.unicode_len();
    let lb = b.unicode_len();
    if la != lb {
        proof {
            if a@ == b@ {
                assert(a@.len() == b@.len());
            }
        }
        return false;
    }
    let mut i: usize = 0;
    while i < la
        invariant
            i <= la,
            la == a@.len(),
            la == b@.len(),
            forall|k: int| 0 <= k < i ==> a@[k] == b@[k],
        decreases la - i,
    {
        if a.get_char(i) != b.get_char(i) {
            proof {
                if a@ == b@ {
                    assert(a@[i as int] == b@[i as int]);
                }
            }
            return false;
        }
        i = i + 1;
    }
    proof {
        assert(a@ =~= b@);
    }
    true
}

/// The characters that `str::trim` strips: the Unicode White_Space set.
pub open spec fn is_space_char(c: char) -> bool {
    ||| c == ' '
    ||| c == '\t'
    ||| c == '\n'
    ||| c == '\u{b}'
    ||| c == '\u{c}'
    ||| c == '\r'
    ||| c == '\u{85}'
    ||| c == '\u{a0}'
    ||| c == '\u{1680}'
    ||| c == '\u{2000}'
    ||| c == '\u{2001}'
    ||| c == '\u{2002}'
    ||| c == '\u{2003}'
    ||| c == '\u{2004}'
    ||| c == '\u{2005}'
    ||| c == '\u{2006}'
    ||| c == '\u{2007}'
    ||| c == '\u{2008}'
    ||| c == '\u{2009}'
    ||| c == '\u{200a}'
    ||| c == '\u{2028}'
    ||| c == '\u{2029}'
    ||| c == '\u{202f}'
    ||| c == '\u{205f}'
    ||| c == '\u{3000}'
}

/// Is the character one that trimming strips?
fn is_space(c: char) -> (b: bool)
    ensures
        b == is_space_char(c),
{
    match c {
        ' ' | '\t' | '\n' | '\u{b}' | '\u{c}' | '\r' | '\u{85}' | '\u{a0}' | '\u{1680}'
            | '\u{2000}' | '\u{2001}' | '\u{2002}' | '\u{2003}' | '\u{2004}' | '\u{2005}'
            | '\u{2006}' | '\u{2007}' | '\u{2008}' | '\u{2009}' | '\u{200a}' | '\u{2028}'
            | '\u{2029}' | '\u{202f}' | '\u{205f}' | '\u{3000}' => true,
        _ => false,
    }
}

/// The sequence without its leading whitespace.
pub open spec fn trim_front(s: Seq<char>) -> Seq<char>
    decreases s.len(),
{
    if s.len() > 0 && is_space_char(s[0]) {
        trim_front(s.skip(1))
    } else {
        s
    }
}

/// The sequence without its trailing whitespace.
pub open spec fn trim_back(s: Seq<char>) -> Seq<char>
    decreases s.len(),
{
    if s.len() > 0 && is_space_char(s.last()) {
        trim_back(s.drop_last())
    } else {
        s
    }
}

/// The sequence without leading and trailing whitespace, as `str::trim`
/// leaves it.
pub open spec fn spec_trim(s: Seq<char>) -> Seq<char> {
    trim_back(trim_front(s))
}

/// Bounds of the trimmed part of `s` between `lo` and `hi`: the range that
/// remains once whitespace is stripped from both ends.
pub fn trim_range(s: &str, lo: usize, hi: usize) -> (r: (usize, usize))
    requires
        lo <= hi <= s@.len(),
    ensures
        lo <= r.0 <= r.1 <= hi,
        s@.subrange(r.0 as int, r.1 as int) == spec_trim(s@.subrange(lo as int, hi as int)),
{
    let mut i: usize = lo;
    while i < hi && is_space(s.get_char(i))
        invariant
            lo <= i <= hi,
            hi <= s@.len(),
            trim_front(s@.subrange(lo as int, hi as int)) == trim_front(
                s@.subrange(i as int, hi as int),
            ),
        decreases hi - i,
    {
        proof {
            assert(s@.subrange(i as int, hi as int).skip(1) =~= s@.subrange(
                i + 1 as int,
                hi as int,
            ));
        }
        i = i + 1;
    }
    proof {
        assert(trim_front(s@.subrange(i as int, hi as int)) == s@.subrange(i as int, hi as int));
    }
    let mut j: usize = hi;
    while j > i && is_space(s.get_char(j - 1))
        invariant
            i <= j <= hi,
            hi <= s@.len(),
            trim_back(s@.subrange(i as int, hi as int)) == trim_back(
                s@.subrange(i as int, j as int),
            ),
        decreases j,
    {
        proof {
            assert(s@.subrange(i as int, j as int).drop_last() =~= s@.subrange(
                i as int,
                j - 1 as int,
            ));
        }
        j = j - 1;
    }
    proof {
        assert(trim_back(s@.subrange(i as int, j as int)) == s@.subrange(i as int, j as int));
    }
    (i, j)
}

/// Index of the first comma, or the length when there is none.
pub open spec fn first_comma(s: Seq<char>) -> int
    decreases s.len(),
{
    if s.len() == 0 {
        0
    } else if s[0] == ',' {
        0
    } else {
        1 + first_comma(s.skip(1))
    }
}

/// What the string splits into at its commas, as `str::split(',')` yields
/// it: one part more than there are commas, the commas themselves dropped.
pub open spec fn split_commas(s: Seq<char>) -> Seq<Seq<char>>
    decreases s.len(),
    via split_commas_decreases
{
    let i = first_comma(s);
    if i >= s.len() {
        seq![s]
    } else {
        seq![s.subrange(0, i)] + split_commas(s.skip(i + 1))
    }
}

#[via_fn]
proof fn split_commas_decreases(s: Seq<char>) {
    lemma_first_comma(s);
}

proof fn lemma_first_comma(s: Seq<char>)
    ensures
        0 <= first_comma(s) <= s.len(),
        first_comma(s) < s.len() ==> s[first_comma(s)] == ',',
        forall|j: int| 0 <= j < first_comma(s) ==> s[j] != ',',
    decreases s.len(),
{
    if s.len() > 0 && s[0] != ',' {
        lemma_first_comma(s.skip(1));
        assert forall|j: int| 0 <= j < first_comma(s) implies s[j] != ',' by {
            if j > 0 {
                assert(s.skip(1)[j - 1] == s[j]);
            }
        }
        if first_comma(s) < s.len() {
            assert(s.skip(1)[first_comma(s) - 1] == s[first_comma(s)]);
        }
    }
}

/// Start of field `k` when the commas sit at the positions in `pos`.
pub open spec fn field_start(pos: Seq<int>, k: int) -> int {
    if k == 0 {
        0
    } else {
        pos[k - 1] + 1
    }
}

/// End of field `k` when the commas sit at the positions in `pos`.
pub open spec fn field_end(s: Seq<char>, pos: Seq<int>, k: int) -> int {
    if k == pos.len() {
        s.len() as int
    } else {
        pos[k]
    }
}

/// Splitting at commas yields exactly the stretches between the comma
/// positions, given the full sorted list of those positions.
pub proof fn lemma_split_commas(s: Seq<char>, pos: Seq<int>)
    requires
        forall|k: int| 0 <= k < pos.len() ==> 0 <= #[trigger] pos[k] < s.len() && s[pos[k]] == ',',
        forall|k1: int, k2: int| 0 <= k1 < k2 < pos.len() ==> #[trigger] pos[k1] < #[trigger] pos[k2],
        forall|j: int| 0 <= j < s.len() && s[j] == ',' ==> pos.contains(j),
    ensures
        split_commas(s).len() == pos.len() + 1,
        forall|k: int|
            0 <= k <= pos.len() ==> #[trigger] split_commas(s)[k] == s.subrange(
                field_start(pos, k),
                field_end(s, pos, k),
            ),
    decreases pos.len(),
{
    lemma_first_comma(s);
    let fc = first_comma(s);
    if pos.len() == 0 {
        assert(fc >= s.len()) by {
            if fc < s.len() {
                assert(pos.contains(fc));
            }
        }
        assert(split_commas(s) =~= seq![s]);
        assert(s.subrange(0, s.len() as int) =~= s);
    } else {
        let q0 = pos[0];
        assert(fc == q0) by {
            assert(s[q0] == ',');
            if fc < q0 {
                assert(s[fc] == ',');
                assert(pos.contains(fc));
                let k = choose|k: int| 0 <= k < pos.len() && pos[k] == fc;
                if k > 0 {
                    assert(pos[0] < pos[k]);
                }
            }
            if fc > q0 {
                assert(s[q0] != ',');
            }
        }
        let s2 = s.skip(q0 + 1);
        let pos2 = Seq::new((pos.len() - 1) as nat, |k: int| pos[k + 1] - q0 - 1);
        assert forall|k: int| 0 <= k < pos2.len() implies 0 <= #[trigger] pos2[k] < s2.len()
            && s2[pos2[k]] == ',' by {
            assert(pos[0] < pos[k + 1]);
            assert(s2[pos2[k]] == s[pos[k + 1]]);
        }
        assert forall|j: int| 0 <= j < s2.len() && s2[j] == ',' implies pos2.contains(j) by {
            assert(s[j + q0 + 1] == s2[j]);
            assert(pos.contains(j + q0 + 1));
            let k = choose|k: int| 0 <= k < pos.len() && pos[k] == j + q0 + 1;
            assert(k > 0) by {
                if k == 0 {
                    assert(pos[0] == j + q0 + 1);
                }
            }
            assert(pos2[k - 1] == j);
        }
        lemma_split_commas(s2, pos2);
        assert(split_commas(s) == seq![s.subrange(0, q0)] + split_commas(s2));
        assert forall|k: int| 0 <= k <= pos.len() implies #[trigger] split_commas(s)[k]
            == s.subrange(field_start(pos, k), field_end(s, pos, k)) by {
            if k == 0 {
                assert(split_commas(s)[0] == s.subrange(0, q0));
            } else {
                assert(split_commas(s)[k] == split_commas(s2)[k - 1]);
                assert(split_commas(s2)[k - 1] == s2.subrange(
                    field_start(pos2, k - 1),
                    field_end(s2, pos2, k - 1),
                ));
                assert(s2.subrange(field_start(pos2, k - 1), field_end(s2, pos2, k - 1)) =~= s
                    .subrange(field_start(pos, k), field_end(s, pos, k)));
            }
        }
    }
}

} // verus!
