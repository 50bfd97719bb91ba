//! One accepted roll: the command, who rolled it, the resolved value, and
//! the rendered provenance of every operation, kept for later breakdowns.

use vstd::prelude::*;
use crate::roll_value::{RollValue, value_text};

verus! {

/// One resolved operation's rendering: the terse, argument-level line and
/// the per-die breakdown, captured at resolution time.
#[derive(Clone, Debug)]
pub struct Operation {
    pub description: String,
    pub verbose: String,
}

/// One accepted command with its resolved value and provenance. Immutable
/// after creation.
#[derive(Debug)]
pub struct Roll {
    command: String,
    comment: String,
    roller: String,
    timestamp: u64,
    result: RollValue,
    operations: Vec<Operation>,
}

impl Roll {
    /// The command text the roll was made from.
    pub closed spec fn spec_command(&self) -> Seq<char> {
        self.command@
    }

    /// The value is well-formed.
    pub open spec fn wf(&self) -> bool {
        self.spec_result().wf()
    }

    /// The resolved value.
    pub closed spec fn spec_result(&self) -> RollValue {
        self.result
    }

    /// Record a resolved roll.
    pub fn new(
        command: String,
        comment: String,
        roller: String,
        timestamp: u64,
        result: RollValue,
        operations: Vec<Operation>,
    ) -> (r: Roll)
        requires
            result.wf(),
        ensures
            r.spec_command() == command@,
            r.spec_result() == result,
            r.spec_operations() == operations@,
            r.wf(),
    {
        Roll { command, comment, roller, timestamp, result, operations }
    }

    /// The command text.
    pub fn command(&self) -> (r: &String)
        ensures
            r@ == self.spec_command(),
    {
        &self.command
    }

    /// The comment attached to the command.
    pub fn comment(&self) -> &String {
        &self.comment
    }

    /// Who rolled.
    pub fn roller(&self) -> &String {
        &self.roller
    }

    /// When the roll was accepted, as the caller counts time.
    pub fn timestamp(&self) -> u64 {
        self.timestamp
    }

    /// The resolved value.
    pub fn result(&self) -> (r: &RollValue)
        ensures
            *r == self.spec_result(),
    {
        &self.result
    }

    /// The rendered provenance, one entry per resolved operation.
    pub fn operations(&self) -> &Vec<Operation> {
        &self.operations
    }

    /// The value as text: exactly `value_text` of the stored result.
    pub fn render_result(&self) -> (r: String)
        requires
            self.wf(),
        ensures
            r@ == value_text(self.spec_result()),
    {
        self.result.render()
    }

    /// The recorded per-operation renderings, as a sequence.
    pub closed spec fn spec_operations(&self) -> Seq<Operation> {
        self.operations@
    }

    /// The compact breakdown: every operation's terse line, joined.
    pub fn render_breakdown(&self) -> (r: String)
        ensures
            r@ == breakdown_text(self.spec_operations()),
    {
        let mut s = String::new();
        let mut i: usize = 0;
        proof {
            assert(self.operations@.subrange(0, 0) =~= Seq::<Operation>::empty());
            assert(s@ =~= breakdown_text(self.operations@.subrange(0, 0)));
        }
        while i < self.operations.len()
            invariant
                i <= self.operations@.len(),
                s@ == breakdown_text(self.operations@.subrange(0, i as int)),
                self.operations@ == self.spec_operations(),
            decreases self.operations@.len() - i,
        {
            proof {
                reveal_strlit("; ");
                assert(self.operations@.subrange(0, i + 1).drop_last() =~= self.operations@
                    .subrange(0, i as int));
                assert(self.operations@.subrange(0, i + 1).last() == self.operations@[i as int]);
            }
            if i > 0 {
                s.append("; ");
            }
            s.append(self.operations[i].description.as_str());
            proof {
                assert(s@ =~= breakdown_text(self.operations@.subrange(0, i + 1)));
            }
            i = i + 1;
        }
        proof {
            assert(self.operations@.subrange(0, self.operations@.len() as int)
                =~= self.operations@);
        }
        s
    }
}

/// The terse lines of the recorded operations, joined with `; `.
pub open spec fn breakdown_text(ops: Seq<Operation>) -> Seq<char>
    decreases ops.len(),
{
    if ops.len() == 0 {
        Seq::empty()
    } else if ops.len() == 1 {
        ops[0].description@
    } else {
        breakdown_text(ops.drop_last()) + seq![';', ' '] + ops.last().description@
    }
}

} // verus!
