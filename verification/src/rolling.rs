//! Conversation identities and the store mapping each conversation to its
//! tray.

use vstd::prelude::*;
use crate::dice_errors::RollError;
use crate::tray::Tray;

verus! {

/// Which conversation a command came from: a private channel or a guild.
/// Used only as a mapping key.
#[derive(Clone, Copy, Debug, PartialEq, Eq, Hash)]
pub enum TrayId {
    Private(u64),
    Guild(Option<u64>),
}

/// The identity of the conversation a message belongs to: its private
/// channel when it is private, else its guild.
pub fn make_tray_id(is_private: bool, channel_id: u64, guild_id: Option<u64>) -> (r: TrayId)
    ensures
        is_private ==> r == TrayId::Private(channel_id),
        !is_private ==> r == TrayId::Guild(guild_id),
{
    if is_private {
        TrayId::Private(channel_id)
    } else {
        TrayId::Guild(guild_id)
    }
}

/// Whether two identities name the same conversation.
fn same_id(a: &TrayId, b: &TrayId) -> (r: bool)
    ensures
        r == (a == b),
{
    match (a, b) {
        (TrayId::Private(x), TrayId::Private(y)) => x == y,
        (TrayId::Guild(x), TrayId::Guild(y)) => match (x, y) {
            (Some(u), Some(v)) => u == v,
            (None, None) => true,
            _ => false,
        },
        _ => false,
    }
}

/// The store of trays, one per conversation. Trays are owned by the map
/// and never shared outside it; a tray is created lazily on the first
/// command of its conversation.
pub struct TrayMap {
    entries: Vec<(TrayId, Tray)>,
}

impl TrayMap {
    /// Every stored tray keeps its invariant.
    pub open spec fn wf(&self) -> bool {
        forall|i: int| 0 <= i < self.spec_entries().len() ==> (#[trigger] self.spec_entries()[i]).1.wf()
    }

    /// The stored conversations and their trays.
    pub closed spec fn spec_entries(&self) -> Seq<(TrayId, Tray)> {
        self.entries@
    }

    /// An empty store.
    pub fn new() -> (m: TrayMap)
        ensures
            m.spec_entries().len() == 0,
            m.wf(),
    {
        TrayMap { entries: Vec::new() }
    }

    /// Where the conversation's tray is stored, if it exists yet.
    fn position(&self, id: &TrayId) -> (r: Option<usize>)
        ensures
            r matches Some(i) ==> i < self.spec_entries().len() && self.spec_entries()[i as int].0
                == *id,
    {
        let mut i: usize = 0;
        while i < self.entries.len()
            invariant
                i <= self.spec_entries().len(),
            decreases self.spec_entries().len() - i,
        {
            if same_id(&self.entries[i].0, id) {
                return Some(i);
            }
            i = i + 1;
        }
        None
    }

    /// Process a command in its conversation's tray, creating the tray on
    /// first use: at most the addressed conversation's tray changes, every
    /// other entry stays as it was, and a conversation seen for the first
    /// time gains one entry at the end.
    pub fn process(&mut self, id: TrayId, command: &str) -> (r: Result<String, RollError>)
        requires
            old(self).wf(),
        ensures
            final(self).wf(),
            final(self).spec_entries().len() == old(self).spec_entries().len() || final(self).spec_entries().len() == old(self).spec_entries().len() + 1,
            forall|k: int|
                0 <= k < old(self).spec_entries().len() ==> (#[trigger] final(self).spec_entries()[k]).0 == old(self).spec_entries()[k].0,
            forall|k: int|
                0 <= k < old(self).spec_entries().len() && old(self).spec_entries()[k].0 != id
                    ==> (#[trigger] final(self).spec_entries()[k]) == old(self).spec_entries()[k],
            final(self).spec_entries().len() == old(self).spec_entries().len() + 1 ==> final(self).spec_entries().last().0 == id,
    {
        match self.position(&id) {
            Some(i) => {
                let ghost before = self.entries@;
                let (stored_id, mut tray) = self.entries.remove(i);
                let ghost removed = self.entries@;
                let result = tray.process_roll_command(command);
                self.entries.insert(i, (stored_id, tray));
                proof {
                    assert forall|k: int|
                        0 <= k < self.entries@.len() implies (#[trigger] self.entries@[k]).1.wf()
                            && self.entries@[k].0 == before[k].0 && (k != i
                            ==> self.entries@[k] == before[k]) by {
                        if k < i {
                            assert(self.entries@[k] == before[k]);
                        } else if k > i {
                            assert(self.entries@[k] == removed[k - 1]);
                            assert(removed[k - 1] == before[k]);
                        }
                    }
                }
                result
            },
            None => {
                let ghost before = self.entries@;
                let mut tray = Tray::new();
                let result = tray.process_roll_command(command);
                self.entries.push((id, tray));
                proof {
                    assert forall|k: int|
                        0 <= k < self.entries@.len() implies (#[trigger] self.entries@[k]).1.wf()
                            && (k < before.len() ==> self.entries@[k] == before[k]) by {
                        if k < before.len() {
                            assert(self.entries@[k] == before[k]);
                        }
                    }
                }
                result
            },
        }
    }

    /// Reroll the latest roll of the conversation, if its tray exists: at
    /// most the addressed conversation's tray changes, and no entry is
    /// added or removed.
    pub fn reroll_latest(&mut self, id: &TrayId) -> (r: Result<String, RollError>)
        requires
            old(self).wf(),
        ensures
            final(self).wf(),
            final(self).spec_entries().len() == old(self).spec_entries().len(),
            forall|k: int|
                0 <= k < old(self).spec_entries().len() ==> (#[trigger] final(self).spec_entries()[k]).0 == old(self).spec_entries()[k].0,
            forall|k: int|
                0 <= k < old(self).spec_entries().len() && old(self).spec_entries()[k].0 != *id
                    ==> (#[trigger] final(self).spec_entries()[k]) == old(self).spec_entries()[k],
    {
        match self.position(id) {
            Some(i) => {
                let ghost before = self.entries@;
                let (stored_id, mut tray) = self.entries.remove(i);
                let ghost removed = self.entries@;
                let result = tray.reroll_latest();
                self.entries.insert(i, (stored_id, tray));
                proof {
                    assert forall|k: int|
                        0 <= k < self.entries@.len() implies (#[trigger] self.entries@[k]).1.wf()
                            && self.entries@[k].0 == before[k].0 && (k != i
                            ==> self.entries@[k] == before[k]) by {
                        if k < i {
                            assert(self.entries@[k] == before[k]);
                        } else if k > i {
                            assert(self.entries@[k] == removed[k - 1]);
                            assert(removed[k - 1] == before[k]);
                        }
                    }
                }
                result
            },
            None => Err(RollError::RetrieveError),
        }
    }

    /// Read access to the conversation's tray, if it exists yet.
    pub fn get_tray(&self, id: &TrayId) -> (r: Option<&Tray>)
        requires
            self.wf(),
        ensures
            r matches Some(t) ==> t.wf(),
    {
        match self.position(id) {
            Some(i) => Some(&self.entries[i].1),
            None => None,
        }
    }
}

} // verus!
