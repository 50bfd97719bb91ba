//! Translating the narrative-dice shorthand into the core grammar.

use vstd::prelude::*;
use vstd::string::StringSliceAdditionalSpecFns;
use crate::dice_errors::RollError;
use crate::dice_re::{lower_spec, is_digit_spec, digits_end, digits_value, lemma_digits_end_unique,
    lemma_digits_value_nonneg_pub};
use crate::numtext::{u8_to_string, dec_digits};

verus! {

/// Whether a byte names a narrative die kind: `b s a d p c`.
pub open spec fn is_kind_byte(b: u8) -> bool {
    b == 98 || b == 115 || b == 97 || b == 100 || b == 112 || b == 99
}

/// The side count of a narrative die kind.
pub open spec fn kind_sides(k: u8) -> u8 {
    if k == 98 || k == 115 {
        6
    } else if k == 97 || k == 100 {
        8
    } else {
        12
    }
}

/// Where the run of plain spaces and tabs starting at `i` ends.
pub open spec fn blanks_end(s: Seq<u8>, i: int) -> int
    decreases s.len() - i,
{
    if 0 <= i < s.len() && (s[i] == 32 || s[i] == 9) {
        blanks_end(s, i + 1)
    } else {
        i
    }
}

/// The scan that stops at the first non-blank finds `blanks_end`.
proof fn lemma_blanks_end_unique(s: Seq<u8>, i: int, j: int)
    requires
        0 <= i <= j <= s.len(),
        forall|k: int| i <= k < j ==> (#[trigger] s[k]) == 32 || s[k] == 9,
        j < s.len() ==> !(s[j] == 32 || s[j] == 9),
    ensures
        j == blanks_end(s, i),
    decreases j - i,
{
    if i < j {
        lemma_blanks_end_unique(s, i + 1, j);
    }
}

/// The kind/count pairs of a narrative-dice command from position `i` on:
/// whitespace skipped, then a kind letter, optional blanks, and its count;
/// `None` when anything else appears or a count passes 255.
pub open spec fn genesys_pairs(s: Seq<u8>, i: int) -> Option<Seq<(u8, u8)>>
    decreases s.len() - i, 1int,
{
    if i < 0 || i > s.len() {
        None
    } else if i == s.len() {
        Some(Seq::empty())
    } else {
        let b = lower_spec(s[i]);
        if b == 32 || b == 9 || b == 10 || b == 13 {
            genesys_pairs(s, i + 1)
        } else if is_kind_byte(b) {
            let j = blanks_end(s, i + 1);
            if 0 <= j < s.len() && is_digit_spec(s[j]) {
                let e = digits_end(s, j);
                if digits_value(s, j, e) > 255 {
                    None
                } else {
                    pairs_cons(s, (b, digits_value(s, j, e) as u8), e, i)
                }
            } else {
                None
            }
        } else {
            None
        }
    }
}

/// One recognized pair followed by the scan of the rest.
pub open spec fn pairs_cons(s: Seq<u8>, pair: (u8, u8), next: int, i: int) -> Option<
    Seq<(u8, u8)>,
>
    decreases s.len() - i, 0int,
{
    if i < next <= s.len() {
        match genesys_pairs(s, next) {
            Some(rest) => Some(seq![pair] + rest),
            None => None,
        }
    } else {
        None
    }
}

/// The letter written for a kind byte.
pub open spec fn kind_letter(k: u8) -> Seq<char> {
    if k == 98 {
        "b"@
    } else if k == 115 {
        "s"@
    } else if k == 97 {
        "a"@
    } else if k == 100 {
        "d"@
    } else if k == 112 {
        "p"@
    } else {
        "c"@
    }
}

/// One translated pair: `NdSgK`.
pub open spec fn pair_text(pair: (u8, u8)) -> Seq<char> {
    dec_digits(pair.1 as nat) + "d"@ + dec_digits(kind_sides(pair.0) as nat) + "g"@
        + kind_letter(pair.0)
}

/// The translated command: the pairs joined with the merge operator.
pub open spec fn pairs_text(ps: Seq<(u8, u8)>) -> Seq<char>
    decreases ps.len(),
{
    if ps.len() == 0 {
        Seq::empty()
    } else if ps.len() == 1 {
        pair_text(ps[0])
    } else {
        pairs_text(ps.drop_last()) + "&"@ + pair_text(ps.last())
    }
}

/// Translate a narrative-dice command like `a2 p2 d3` into the core
/// grammar: each `kind`×`count` pair becomes a pool of that kind's die —
/// boost and setback are six-sided, ability and difficulty eight-sided,
/// proficiency and challenge twelve-sided — converted through the kind's
/// symbol table, and the pools are merged. The kinds may come in any
/// order, may repeat, and may be separated by any amount of whitespace; a
/// count past 255 or a stray character fails.
#[verifier::rlimit(60)]
pub fn genesys(command: &str) -> (r: Result<String, RollError>)
    ensures
        r is Ok <==> (command.is_ascii() && (genesys_pairs(command.spec_bytes(), 0) matches Some(
            ps,
        ) && ps.len() > 0)),
        r matches Ok(out) ==> (genesys_pairs(command.spec_bytes(), 0) matches Some(ps) && out@
            == pairs_text(ps)),
{
    proof {
        reveal_strlit("d");
        reveal_strlit("g");
        reveal_strlit("&");
        reveal_strlit("6");
        reveal_strlit("8");
        reveal_strlit("12");
        reveal_strlit("b");
        reveal_strlit("s");
        reveal_strlit("a");
        reveal_strlit("p");
        reveal_strlit("c");
    }
    if !command.is_ascii() {
        return Err(RollError::SymbolError(String::from_str(command)));
    }
    let bytes = command.as_bytes_vec();
    proof {
        broadcast use vstd::string::is_ascii_spec_bytes;

        assert(bytes@.len() == command@.len());
    }
    let n = bytes.len();
    let mut out = String::new();
    let mut any = false;
    let ghost mut acc: Seq<(u8, u8)> = Seq::empty();
    let mut i: usize = 0;
    proof {
        match genesys_pairs(bytes@, 0) {
            Some(rest) => {
                assert(acc + rest =~= rest);
            },
            None => {},
        }
    }
    while i < n
        invariant
            bytes@ == command.spec_bytes(),
            n == bytes@.len(),
            i <= n,
            any <==> acc.len() > 0,
            out@ == pairs_text(acc),
            match genesys_pairs(bytes@, i as int) {
                Some(rest) => genesys_pairs(bytes@, 0) == Some(acc + rest),
                None => genesys_pairs(bytes@, 0) is None,
            },
        decreases n - i,
    {
        let b = to_lower(bytes[i]);
        if b == 32 || b == 9 || b == 10 || b == 13 {
            proof {
                assert(genesys_pairs(bytes@, i as int) == genesys_pairs(bytes@, i + 1));
            }
            i = i + 1;
        } else if b == 98 || b == 115 || b == 97 || b == 100 || b == 112 || b == 99 {
            // b s a d p c
            let ghost start = i;
            i = i + 1;
            // Skip spaces between the kind and its count.
            while i < n && (bytes[i] == 32 || bytes[i] == 9)
                invariant
                    n == bytes@.len(),
                    start < i <= n,
                    forall|k: int| start + 1 <= k < i ==> (#[trigger] bytes@[k]) == 32
                        || bytes@[k] == 9,
                decreases n - i,
            {
                i = i + 1;
            }
            proof {
                lemma_blanks_end_unique(bytes@, start + 1, i as int);
            }
            if i >= n || bytes[i] < 48 || bytes[i] > 57 {
                proof {
                    assert(genesys_pairs(bytes@, start as int) is None);
                }
                return Err(RollError::NumericParseError);
            }
            let ghost j0 = i;
            let mut count: u32 = (bytes[i] - 48) as u32;
            let mut over = false;
            i = i + 1;
            proof {
                assert(digits_value(bytes@, j0 as int, j0 as int) == 0);
                assert(digits_value(bytes@, j0 as int, j0 + 1) == (bytes@[j0 as int] - 48));
            }
            while i < n && 48 <= bytes[i] && bytes[i] <= 57
                invariant
                    n == bytes@.len(),
                    j0 < i <= n,
                    count <= 255 || over,
                    count <= 65535,
                    forall|k: int| j0 <= k < i ==> is_digit_spec(#[trigger] bytes@[k]),
                    !over ==> count == digits_value(bytes@, j0 as int, i as int),
                    over ==> digits_value(bytes@, j0 as int, i as int) > 255,
                decreases n - i,
            {
                proof {
                    lemma_digits_value_nonneg_pub(bytes@, j0 as int, i as int);
                    assert(digits_value(bytes@, j0 as int, i + 1) == digits_value(
                        bytes@,
                        j0 as int,
                        i as int,
                    ) * 10 + (bytes@[i as int] - 48));
                }
                if count > 255 {
                    over = true;
                    count = 256;
                } else {
                    count = count * 10 + (bytes[i] - 48) as u32;
                    if count > 255 {
                        over = true;
                        count = 256;
                    }
                }
                i = i + 1;
            }
            proof {
                lemma_digits_end_unique(bytes@, j0 as int, i as int);
            }
            if over {
                proof {
                    assert(genesys_pairs(bytes@, start as int) is None);
                }
                return Err(RollError::NumericParseError);
            }
            if any {
                out.append("&");
            }
            out.append(u8_to_string(count as u8).as_str());
            out.append("d");
            if b == 98 || b == 115 {
                out.append("6");
            } else if b == 97 || b == 100 {
                out.append("8");
            } else {
                out.append("12");
            }
            out.append("g");
            if b == 98 {
                out.append("b");
            } else if b == 115 {
                out.append("s");
            } else if b == 97 {
                out.append("a");
            } else if b == 100 {
                out.append("d");
            } else if b == 112 {
                out.append("p");
            } else {
                out.append("c");
            }
            proof {
                reveal_strlit("d");
                reveal_strlit("g");
                reveal_strlit("&");
                reveal_strlit("6");
                reveal_strlit("8");
                reveal_strlit("12");
                reveal_strlit("b");
                reveal_strlit("s");
                reveal_strlit("a");
                reveal_strlit("p");
                reveal_strlit("c");
                assert(dec_digits(1) =~= seq!['1']);
                assert(dec_digits(6) =~= "6"@);
                assert(dec_digits(8) =~= "8"@);
                assert(dec_digits(12) =~= "12"@);
                let pair = (b, count as u8);
                let ghost acc0 = acc;
                acc = acc.push(pair);
                assert(acc.drop_last() =~= acc0);
                assert(out@ =~= pairs_text(acc));
                assert(genesys_pairs(bytes@, start as int) == pairs_cons(
                    bytes@,
                    pair,
                    i as int,
                    start as int,
                ));
                match genesys_pairs(bytes@, i as int) {
                    Some(rest) => {
                        assert(acc0 + (seq![pair] + rest) =~= acc + rest);
                    },
                    None => {},
                }
            }
            any = true;
        } else {
            proof {
                assert(genesys_pairs(bytes@, i as int) is None);
            }
            return Err(RollError::SymbolError(String::from_str(command)));
        }
    }
    proof {
        assert(genesys_pairs(bytes@, n as int) == Some(Seq::<(u8, u8)>::empty()));
        assert(acc + Seq::<(u8, u8)>::empty() =~= acc);
    }
    if !any {
        return Err(RollError::SymbolError(String::from_str(command)));
    }
    Ok(out)
}

/// Lowercase an ASCII letter byte; other bytes pass through.
fn to_lower(b: u8) -> (r: u8)
    ensures
        65 <= b <= 90 ==> r == b + 32,
        !(65 <= b <= 90) ==> r == b,
{
    if 65 <= b && b <= 90 {
        b + 32
    } else {
        b
    }
}

} // verus!
