//! The tally of narrative symbols a converted pool shows.

use vstd::prelude::*;
use crate::genesymbols::GeneSymbol;
use crate::numtext::{u128_to_string, dec_digits};

verus! {

/// How often `sym` occurs in one die's symbol list.
pub open spec fn count_in_row(row: Seq<GeneSymbol>, sym: GeneSymbol) -> int
    decreases row.len(),
{
    if row.len() == 0 {
        0
    } else {
        count_in_row(row.drop_last(), sym) + if row.last() == sym {
            1int
        } else {
            0int
        }
    }
}

/// How often `sym` occurs over all dice's symbol lists.
pub open spec fn count_symbol(rows: Seq<Seq<GeneSymbol>>, sym: GeneSymbol) -> int
    decreases rows.len(),
{
    if rows.len() == 0 {
        0
    } else {
        count_symbol(rows.drop_last(), sym) + count_in_row(rows.last(), sym)
    }
}

/// The total number of symbols over all dice.
pub open spec fn total_symbols(rows: Seq<Seq<GeneSymbol>>) -> int
    decreases rows.len(),
{
    if rows.len() == 0 {
        0
    } else {
        total_symbols(rows.drop_last()) + rows.last().len()
    }
}

/// The per-die symbol lists of a vector, as a sequence of sequences.
pub open spec fn rows_view(res: Seq<Vec<GeneSymbol>>) -> Seq<Seq<GeneSymbol>> {
    res.map_values(|row: Vec<GeneSymbol>| row@)
}

/// When every row holds at most `c` symbols, the total is bounded by rows
/// times `c`.
pub proof fn lemma_total_symbols_bound(rows: Seq<Seq<GeneSymbol>>, c: int)
    requires
        c >= 0,
        forall|i: int| 0 <= i < rows.len() ==> (#[trigger] rows[i]).len() <= c,
    ensures
        total_symbols(rows) <= rows.len() * c,
    decreases rows.len(),
{
    if rows.len() == 0 {
    } else {
        assert(forall|i: int|
            0 <= i < rows.drop_last().len() ==> (#[trigger] rows.drop_last()[i]).len() <= c);
        lemma_total_symbols_bound(rows.drop_last(), c);
        assert(rows.len() * c == (rows.len() - 1) * c + c) by (nonlinear_arith);
    }
}

/// A prefix holds at most as many symbols as the whole.
proof fn lemma_total_symbols_prefix(rows: Seq<Seq<GeneSymbol>>, i: int)
    requires
        0 <= i <= rows.len(),
    ensures
        0 <= total_symbols(rows.subrange(0, i)) <= total_symbols(rows),
    decreases rows.len() - i,
{
    if i == rows.len() {
        assert(rows.subrange(0, i) =~= rows);
        lemma_total_symbols_nonneg(rows);
    } else {
        lemma_total_symbols_prefix(rows, i + 1);
        lemma_total_symbols_nonneg(rows.subrange(0, i));
        assert(rows.subrange(0, i + 1).drop_last() =~= rows.subrange(0, i));
        assert(rows.subrange(0, i + 1).last() == rows[i]);
    }
}

proof fn lemma_total_symbols_nonneg(rows: Seq<Seq<GeneSymbol>>)
    ensures
        0 <= total_symbols(rows),
    decreases rows.len(),
{
    if rows.len() > 0 {
        lemma_total_symbols_nonneg(rows.drop_last());
    }
}

/// The tally of each narrative symbol over one converted pool.
#[derive(Clone, Copy, Debug, PartialEq, Eq, Structural)]
pub struct GenesysValue {
    pub successes: u32,
    pub advantages: u32,
    pub triumphs: u32,
    pub failures: u32,
    pub threats: u32,
    pub despairs: u32,
}

impl GenesysValue {
    /// Count every symbol of every die's symbol list.
    pub fn new(res: &Vec<Vec<GeneSymbol>>) -> (v: GenesysValue)
        requires
            total_symbols(rows_view(res@)) <= u32::MAX,
        ensures
            v.successes == count_symbol(rows_view(res@), GeneSymbol::Success),
            v.advantages == count_symbol(rows_view(res@), GeneSymbol::Advantage),
            v.triumphs == count_symbol(rows_view(res@), GeneSymbol::Triumph),
            v.failures == count_symbol(rows_view(res@), GeneSymbol::Failure),
            v.threats == count_symbol(rows_view(res@), GeneSymbol::Threat),
            v.despairs == count_symbol(rows_view(res@), GeneSymbol::Despair),
    {
        let ghost rows = rows_view(res@);
        let mut v = GenesysValue {
            successes: 0,
            advantages: 0,
            triumphs: 0,
            failures: 0,
            threats: 0,
            despairs: 0,
        };
        let mut i: usize = 0;
        while i < res.len()
            invariant
                total_symbols(rows) <= u32::MAX,
                rows == rows_view(res@),
                rows.len() == res@.len(),
                forall|k: int| 0 <= k < rows.len() ==> (#[trigger] rows[k]) == res@[k]@,
                i <= rows.len(),
                v.successes == count_symbol(rows.subrange(0, i as int), GeneSymbol::Success),
                v.advantages == count_symbol(rows.subrange(0, i as int), GeneSymbol::Advantage),
                v.triumphs == count_symbol(rows.subrange(0, i as int), GeneSymbol::Triumph),
                v.failures == count_symbol(rows.subrange(0, i as int), GeneSymbol::Failure),
                v.threats == count_symbol(rows.subrange(0, i as int), GeneSymbol::Threat),
                v.despairs == count_symbol(rows.subrange(0, i as int), GeneSymbol::Despair),
                v.successes + v.advantages + v.triumphs + v.failures + v.threats + v.despairs
                    == total_symbols(rows.subrange(0, i as int)),
            decreases rows.len() - i,
        {
            let row = &res[i];
            let ghost rowseq = rows[i as int];
            let mut j: usize = 0;
            proof {
                lemma_total_symbols_prefix(rows, i + 1);
                assert(rows.subrange(0, i + 1).drop_last() =~= rows.subrange(0, i as int));
                assert(rows.subrange(0, i + 1).last() == rows[i as int]);
                assert(rowseq.subrange(0, 0) =~= Seq::<GeneSymbol>::empty());
            }
            while j < row.len()
                invariant
                    j <= rowseq.len(),
                    rowseq == row@,
                    v.successes == count_symbol(rows.subrange(0, i as int), GeneSymbol::Success)
                        + count_in_row(rowseq.subrange(0, j as int), GeneSymbol::Success),
                    v.advantages == count_symbol(
                        rows.subrange(0, i as int),
                        GeneSymbol::Advantage,
                    ) + count_in_row(rowseq.subrange(0, j as int), GeneSymbol::Advantage),
                    v.triumphs == count_symbol(rows.subrange(0, i as int), GeneSymbol::Triumph)
                        + count_in_row(rowseq.subrange(0, j as int), GeneSymbol::Triumph),
                    v.failures == count_symbol(rows.subrange(0, i as int), GeneSymbol::Failure)
                        + count_in_row(rowseq.subrange(0, j as int), GeneSymbol::Failure),
                    v.threats == count_symbol(rows.subrange(0, i as int), GeneSymbol::Threat)
                        + count_in_row(rowseq.subrange(0, j as int), GeneSymbol::Threat),
                    v.despairs == count_symbol(rows.subrange(0, i as int), GeneSymbol::Despair)
                        + count_in_row(rowseq.subrange(0, j as int), GeneSymbol::Despair),
                    v.successes + v.advantages + v.triumphs + v.failures + v.threats + v.despairs
                        == total_symbols(rows.subrange(0, i as int)) + j,
                    total_symbols(rows.subrange(0, i as int)) + rowseq.len() <= total_symbols(
                        rows,
                    ),
                    total_symbols(rows) <= u32::MAX,
                decreases rowseq.len() - j,
            {
                proof {
                    assert(rowseq.subrange(0, j + 1).drop_last() =~= rowseq.subrange(
                        0,
                        j as int,
                    ));
                    assert(rowseq.subrange(0, j + 1).last() == rowseq[j as int]);
                }
                match row[j] {
                    GeneSymbol::Success => {
                        v.successes = v.successes + 1;
                    },
                    GeneSymbol::Advantage => {
                        v.advantages = v.advantages + 1;
                    },
                    GeneSymbol::Triumph => {
                        v.triumphs = v.triumphs + 1;
                    },
                    GeneSymbol::Failure => {
                        v.failures = v.failures + 1;
                    },
                    GeneSymbol::Threat => {
                        v.threats = v.threats + 1;
                    },
                    GeneSymbol::Despair => {
                        v.despairs = v.despairs + 1;
                    },
                }
                j = j + 1;
            }
            proof {
                assert(rowseq.subrange(0, rowseq.len() as int) =~= rowseq);
            }
            i = i + 1;
        }
        proof {
            assert(rows.subrange(0, rows.len() as int) =~= rows);
        }
        v
    }

    /// Element-wise sum of two tallies, or `None` when a count overflows.
    pub fn checked_add(&self, other: &GenesysValue) -> (r: Option<GenesysValue>)
        ensures
            r matches Some(v) ==> {
                &&& v.successes == self.successes + other.successes
                &&& v.advantages == self.advantages + other.advantages
                &&& v.triumphs == self.triumphs + other.triumphs
                &&& v.failures == self.failures + other.failures
                &&& v.threats == self.threats + other.threats
                &&& v.despairs == self.despairs + other.despairs
            },
            r is None ==> (self.successes + other.successes > u32::MAX || self.advantages
                + other.advantages > u32::MAX || self.triumphs + other.triumphs > u32::MAX
                || self.failures + other.failures > u32::MAX || self.threats + other.threats
                > u32::MAX || self.despairs + other.despairs > u32::MAX),
    {
        let successes = match self.successes.checked_add(other.successes) {
            Some(v) => v,
            None => return None,
        };
        let advantages = match self.advantages.checked_add(other.advantages) {
            Some(v) => v,
            None => return None,
        };
        let triumphs = match self.triumphs.checked_add(other.triumphs) {
            Some(v) => v,
            None => return None,
        };
        let failures = match self.failures.checked_add(other.failures) {
            Some(v) => v,
            None => return None,
        };
        let threats = match self.threats.checked_add(other.threats) {
            Some(v) => v,
            None => return None,
        };
        let despairs = match self.despairs.checked_add(other.despairs) {
            Some(v) => v,
            None => return None,
        };
        Some(GenesysValue { successes, advantages, triumphs, failures, threats, despairs })
    }

    /// The tally as text: each symbol name with its count.
    pub fn render(&self) -> (r: String)
        ensures
            r@ == tally_text(*self),
    {
        proof {
            reveal_strlit("Success: ");
            reveal_strlit(", Advantage: ");
            reveal_strlit(", Triumph: ");
            reveal_strlit(", Failure: ");
            reveal_strlit(", Threat: ");
            reveal_strlit(", Despair: ");
        }
        let mut s = String::from_str("Success: ");
        s.append(u128_to_string(self.successes as u128).as_str());
        s.append(", Advantage: ");
        s.append(u128_to_string(self.advantages as u128).as_str());
        s.append(", Triumph: ");
        s.append(u128_to_string(self.triumphs as u128).as_str());
        s.append(", Failure: ");
        s.append(u128_to_string(self.failures as u128).as_str());
        s.append(", Threat: ");
        s.append(u128_to_string(self.threats as u128).as_str());
        s.append(", Despair: ");
        s.append(u128_to_string(self.despairs as u128).as_str());
        proof {
            assert(s@ =~= tally_text(*self));
        }
        s
    }
}

/// The tally as text: each symbol name with its count.
pub open spec fn tally_text(g: GenesysValue) -> Seq<char> {
    "Success: "@ + dec_digits(g.successes as nat) + ", Advantage: "@ + dec_digits(
        g.advantages as nat,
    ) + ", Triumph: "@ + dec_digits(g.triumphs as nat) + ", Failure: "@ + dec_digits(
        g.failures as nat,
    ) + ", Threat: "@ + dec_digits(g.threats as nat) + ", Despair: "@ + dec_digits(
        g.despairs as nat,
    )
}

} // verus!
