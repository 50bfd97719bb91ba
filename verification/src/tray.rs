//! The bounded per-conversation roll history, and the dispatcher that
//! sends a command to the dice pipeline or to the arithmetic evaluator.

use vstd::prelude::*;
use crate::calculator;
use crate::dice_errors::RollError;
use crate::parser;
use crate::roll::{breakdown_text, Operation, Roll};
use crate::roll_value::{value_text, RollValue};

verus! {

/// The one-line reply for an accepted roll: the command in backticks, any
/// comment in parentheses, the total in bold, and the compact breakdown.
pub open spec fn accepted_text(
    command: Seq<char>,
    comment: Seq<char>,
    result: RollValue,
    ops: Seq<Operation>,
) -> Seq<char> {
    seq!['`'] + command + (if comment.len() > 0 {
        "` ("@ + comment + ")"@
    } else {
        seq!['`']
    }) + ": **"@ + value_text(result) + "** ("@ + breakdown_text(ops) + ")"@
}

/// Whether `c` is a decimal digit character.
pub open spec fn digit_char_at(c: char) -> bool {
    '0' <= c <= '9'
}

/// Whether the text holds a dice expression: a digit, `d` (either case),
/// and another digit in a row.
pub open spec fn has_dice_pattern(s: Seq<char>) -> bool {
    exists|i: int|
        0 <= i && i + 2 < s.len() && digit_char_at(#[trigger] s[i]) && (s[i + 1] == 'd' || s[i
            + 1] == 'D') && digit_char_at(s[i + 2])
}

/// Scan for a dice expression in the command text.
pub fn contains_dice(text: &str) -> (r: bool)
    ensures
        r == has_dice_pattern(text@),
{
    let n = text.unicode_len();
    if n < 3 {
        return false;
    }
    let mut i: usize = 0;
    while i < n - 2
        invariant
            3 <= n,
            n == text@.len(),
            forall|k: int|
                0 <= k < i ==> !(digit_char_at(#[trigger] text@[k]) && (text@[k + 1] == 'd'
                    || text@[k + 1] == 'D') && digit_char_at(text@[k + 2])),
        decreases n - i,
    {
        let c0 = text.get_char(i);
        let c1 = text.get_char(i + 1);
        let c2 = text.get_char(i + 2);
        if ('0' <= c0 && c0 <= '9') && (c1 == 'd' || c1 == 'D') && ('0' <= c2 && c2 <= '9') {
            return true;
        }
        i = i + 1;
    }
    false
}

/// The bounded FIFO history of accepted rolls for one conversation, and
/// the entry point that processes a raw command.
#[derive(Debug)]
pub struct Tray {
    rolls: Vec<Roll>,
    capacity: usize,
}

impl Tray {
    /// The history never exceeds its capacity, and every stored roll is
    /// well-formed.
    pub open spec fn wf(&self) -> bool {
        &&& self.spec_rolls().len() <= self.spec_capacity()
        &&& self.spec_capacity() >= 1
        &&& forall|i: int| 0 <= i < self.spec_rolls().len() ==> (#[trigger] self.spec_rolls()[i]).wf()
    }

    /// The stored rolls, oldest first.
    pub closed spec fn spec_rolls(&self) -> Seq<Roll> {
        self.rolls@
    }

    /// The bound on how many rolls are kept.
    pub closed spec fn spec_capacity(&self) -> int {
        self.capacity as int
    }

    /// A tray remembering one roll, like the default conversation history.
    pub fn new() -> (t: Tray)
        ensures
            t.spec_rolls().len() == 0,
            t.spec_capacity() == 1,
            t.wf(),
    {
        Tray { rolls: Vec::new(), capacity: 1 }
    }

    /// A tray remembering up to `capacity` rolls.
    pub fn with_capacity(capacity: usize) -> (t: Tray)
        requires
            capacity >= 1,
        ensures
            t.spec_rolls().len() == 0,
            t.spec_capacity() == capacity,
            t.wf(),
    {
        Tray { rolls: Vec::new(), capacity }
    }

    /// How many rolls are currently stored.
    pub fn len(&self) -> (r: usize)
        ensures
            r == self.spec_rolls().len(),
    {
        self.rolls.len()
    }

    /// Read access to the stored rolls, oldest first.
    pub fn rolls(&self) -> (r: &Vec<Roll>)
        ensures
            r@ == self.spec_rolls(),
    {
        &self.rolls
    }

    /// Process one command: with no dice expression in it, the whole
    /// command goes to the arithmetic evaluator (an evaluator failure is
    /// reported as a successful, descriptive reply, and the history is
    /// untouched); with dice, the command runs the dice pipeline and the
    /// resulting roll enters the history, evicting the oldest entry first
    /// when the tray is full.
    pub fn process_roll_command(&mut self, roll_command: &str) -> (r: Result<String, RollError>)
        requires
            old(self).wf(),
        ensures
            final(self).wf(),
            !has_dice_pattern(roll_command@) ==> *final(self) == *old(self) && r is Ok,
            has_dice_pattern(roll_command@) && r is Ok ==> {
                &&& final(self).spec_rolls().len() <= final(self).spec_capacity()
                &&& final(self).spec_rolls().len() >= 1
                &&& final(self).spec_rolls().last().spec_command() == roll_command@
                &&& final(self).spec_rolls().drop_last() == if old(self).spec_rolls().len() < old(
                    self,
                ).spec_capacity() {
                    old(self).spec_rolls()
                } else {
                    old(self).spec_rolls().drop_first()
                }
            },
            has_dice_pattern(roll_command@) ==> (r matches Ok(reply) ==> reply@ == accepted_text(
                roll_command@,
                Seq::<char>::empty(),
                final(self).spec_rolls().last().spec_result(),
                final(self).spec_rolls().last().spec_operations(),
            )),
            r is Err ==> *final(self) == *old(self),
    {
        if !contains_dice(roll_command) {
            let calc_result = match calculator::evaluate(roll_command) {
                Ok(res) => res,
                Err(why) => {
                    let mut m = String::from_str("I don't know how to calculate that! ");
                    m.append(why.message().as_str());
                    m
                },
            };
            proof {
                reveal_strlit("I don't know how to calculate that! ");
            }
            return Ok(calc_result);
        }
        let outcome = self.add_roll_from_command(roll_command, "", "", 0);
        proof {
            reveal_strlit("");
            assert(""@ =~= Seq::<char>::empty());
        }
        outcome
    }

    /// Resolve a command and append the accepted roll, evicting the oldest
    /// entry first when the tray is full. The history changes only when
    /// the whole command succeeds, and only by the one appended roll.
    pub fn add_roll_from_command(
        &mut self,
        roll_command: &str,
        comment: &str,
        roller: &str,
        timestamp: u64,
    ) -> (r: Result<String, RollError>)
        requires
            old(self).wf(),
        ensures
            final(self).wf(),
            final(self).spec_capacity() == old(self).spec_capacity(),
            r is Ok ==> {
                &&& final(self).spec_rolls().len() <= final(self).spec_capacity()
                &&& final(self).spec_rolls().len() >= 1
                &&& final(self).spec_rolls().last().spec_command() == roll_command@
                &&& final(self).spec_rolls().drop_last() == if old(self).spec_rolls().len() < old(
                    self,
                ).spec_capacity() {
                    old(self).spec_rolls()
                } else {
                    old(self).spec_rolls().drop_first()
                }
            },
            r matches Ok(reply) ==> reply@ == accepted_text(
                roll_command@,
                comment@,
                final(self).spec_rolls().last().spec_result(),
                final(self).spec_rolls().last().spec_operations(),
            ),
            r is Err ==> *final(self) == *old(self),
    {
        let (value, operations) = match parser::resolve_command(roll_command) {
            Ok(v) => v,
            Err(e) => return Err(e),
        };
        let roll = Roll::new(
            String::from_str(roll_command),
            String::from_str(comment),
            String::from_str(roller),
            timestamp,
            value,
            operations,
        );
        let rendered = Self::render_accepted(roll_command, comment, &roll);
        if self.rolls.len() >= self.capacity {
            let ghost before = self.rolls@;
            let _evicted = self.rolls.remove(0);
            proof {
                assert(self.rolls@ =~= before.drop_first());
            }
        }
        let ghost kept = self.rolls@;
        self.rolls.push(roll);
        proof {
            assert(self.rolls@.drop_last() =~= kept);
        }
        Ok(rendered)
    }

    /// Resolve a command and store the roll, without rendering a reply.
    pub fn add_roll_from_string(&mut self, roll_command: &str) -> (r: Result<(), RollError>)
        requires
            old(self).wf(),
        ensures
            final(self).wf(),
            r is Ok ==> {
                &&& final(self).spec_rolls().len() <= final(self).spec_capacity()
                &&& final(self).spec_rolls().len() >= 1
                &&& final(self).spec_rolls().last().spec_command() == roll_command@
                &&& final(self).spec_rolls().drop_last() == if old(self).spec_rolls().len() < old(
                    self,
                ).spec_capacity() {
                    old(self).spec_rolls()
                } else {
                    old(self).spec_rolls().drop_first()
                }
            },
            r is Err ==> *final(self) == *old(self),
    {
        match self.add_roll_from_command(roll_command, "", "", 0) {
            Ok(_) => Ok(()),
            Err(e) => Err(e),
        }
    }

    /// The most recent roll; fails exactly when the history is empty.
    pub fn get_newest_roll(&self) -> (r: Result<&Roll, RollError>)
        ensures
            self.spec_rolls().len() > 0 ==> (r matches Ok(roll) && *roll
                == self.spec_rolls().last()),
            self.spec_rolls().len() == 0 <==> r == Err::<&Roll, RollError>(
                RollError::RetrieveError,
            ),
    {
        if self.rolls.len() == 0 {
            Err(RollError::RetrieveError)
        } else {
            Ok(&self.rolls[self.rolls.len() - 1])
        }
    }

    /// Re-resolve the most recent roll's command with fresh randomness and
    /// replace it in place; fails with a retrieve error when the history
    /// is empty, leaving everything untouched on any failure.
    pub fn reroll_latest(&mut self) -> (r: Result<String, RollError>)
        requires
            old(self).wf(),
        ensures
            final(self).wf(),
            final(self).spec_capacity() == old(self).spec_capacity(),
            old(self).spec_rolls().len() == 0 ==> r == Err::<String, RollError>(
                RollError::RetrieveError,
            ),
            r is Ok ==> {
                &&& final(self).spec_rolls().len() == old(self).spec_rolls().len()
                &&& final(self).spec_rolls().drop_last() == old(self).spec_rolls().drop_last()
                &&& final(self).spec_rolls().last().spec_command() == old(
                    self,
                ).spec_rolls().last().spec_command()
            },
            r matches Ok(reply) ==> reply@ == value_text(
                final(self).spec_rolls().last().spec_result(),
            ),
            r is Err ==> *final(self) == *old(self),
    {
        if self.rolls.len() == 0 {
            return Err(RollError::RetrieveError);
        }
        let idx = self.rolls.len() - 1;
        let command = self.rolls[idx].command().clone();
        let comment = self.rolls[idx].comment().clone();
        let roller = self.rolls[idx].roller().clone();
        let timestamp = self.rolls[idx].timestamp();
        let (value, operations) = match parser::resolve_command(command.as_str()) {
            Ok(v) => v,
            Err(e) => return Err(e),
        };
        let roll = Roll::new(command, comment, roller, timestamp, value, operations);
        let rendered = roll.render_result();
        let ghost before = self.rolls@;
        self.rolls.set(idx, roll);
        proof {
            assert(self.rolls@.drop_last() =~= before.drop_last());
        }
        Ok(rendered)
    }

    /// The one-line reply for an accepted roll: the command, any comment,
    /// the total, and the compact breakdown.
    fn render_accepted(command: &str, comment: &str, roll: &Roll) -> (r: String)
        requires
            roll.wf(),
        ensures
            r@ == accepted_text(command@, comment@, roll.spec_result(), roll.spec_operations()),
    {
        proof {
            reveal_strlit("`");
            reveal_strlit("` (");
            reveal_strlit(")");
            reveal_strlit(": **");
            reveal_strlit("** (");
        }
        let mut s = String::from_str("`");
        s.append(command);
        if comment.unicode_len() > 0 {
            s.append("` (");
            s.append(comment);
            s.append(")");
        } else {
            s.append("`");
        }
        s.append(": **");
        s.append(roll.render_result().as_str());
        s.append("** (");
        s.append(roll.render_breakdown().as_str());
        s.append(")");
        proof {
            assert(s@ =~= accepted_text(
                command@,
                comment@,
                roll.spec_result(),
                roll.spec_operations(),
            ));
        }
        s
    }
}

} // verus!
