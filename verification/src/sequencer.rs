//! The sequencer set: rotation among members, a force-inclusion queue, and
//! recorded slashing events.

use vstd::prelude::*;

use crate::codec::copy_bytes;

verus! {

/// Where a batch stands: posted to availability or still pending.
#[derive(Debug)]
pub struct BatchStatus {
    pub batch_id: u64,
    pub posted: bool,
    pub blob_id: Option<u64>,
}

/// One sequencer's registration.
#[derive(Debug)]
pub struct SequencerInfo {
    pub id: Vec<u8>,
    pub stake: u128,
    pub endpoint: Vec<u8>,
}

/// How the active sequencer rotates.
#[derive(Debug, Clone, Copy, PartialEq, Eq, Structural)]
pub enum RotationPolicy {
    RoundRobin,
}

/// A recorded sequencer misbehaviour.
#[derive(Debug)]
pub struct SlashEvent {
    pub sequencer_id: Vec<u8>,
    pub reason: Vec<u8>,
}

/// The sequencer roster with its rotation policy, force-inclusion queue and
/// slashing log.
pub struct SequencerSet {
    pub members: Vec<SequencerInfo>,
    pub policy: RotationPolicy,
    pub force_include: Vec<u64>,
    pub slashing_events: Vec<SlashEvent>,
}

impl SequencerSet {
    /// A set over the given members.
    pub fn new(members: Vec<SequencerInfo>, policy: RotationPolicy) -> (r: SequencerSet)
        ensures
            r.members == members,
            r.policy == policy,
            r.force_include@.len() == 0,
            r.slashing_events@.len() == 0,
    {
        SequencerSet { members, policy, force_include: Vec::new(), slashing_events: Vec::new() }
    }

    /// The member whose turn the round is; round-robin by position.
    pub fn active_leader(&self, round: u64) -> (r: Option<&SequencerInfo>)
        ensures
            match r {
                Some(m) => self.members@.len() > 0 && *m == self.members@[(
                round as int) % (self.members@.len() as int)],
                None => self.members@.len() == 0,
            },
    {
        let n = self.members.len();
        if n == 0 {
            return None;
        }
        let ix = (round % (n as u64)) as usize;
        proof {
            assert((round as int) % (n as int) < n as int);
        }
        Some(&self.members[ix])
    }

    /// How many members the set holds.
    pub fn member_count(&self) -> (r: usize)
        ensures
            r == self.members@.len(),
    {
        self.members.len()
    }

    /// Queues a blob for forced inclusion.
    pub fn enqueue_force_include(&mut self, blob_id: u64)
        ensures
            final(self).force_include@ == old(self).force_include@.push(blob_id),
            final(self).members == old(self).members,
            final(self).slashing_events == old(self).slashing_events,
    {
        self.force_include.push(blob_id);
    }

    /// Takes the oldest forced-inclusion entry.
    pub fn pop_force_include(&mut self) -> (r: Option<u64>)
        ensures
            match r {
                Some(id) => old(self).force_include@.len() > 0 && id == old(
                    self,
                ).force_include@.first() && final(self).force_include@ == old(
                    self,
                ).force_include@.drop_first(),
                None => old(self).force_include@.len() == 0 && *final(self) == *old(self),
            },
            final(self).members == old(self).members,
    {
        if self.force_include.len() == 0 {
            return None;
        }
        let id = self.force_include.remove(0);
        proof {
            assert(self.force_include@ =~= old(self).force_include@.drop_first());
        }
        Some(id)
    }

    /// Records a slashing event against a sequencer.
    pub fn slash(&mut self, sequencer_id: &Vec<u8>, reason: &Vec<u8>)
        ensures
            final(self).slashing_events@.len() == old(self).slashing_events@.len() + 1,
            final(self).slashing_events@.last().sequencer_id@ == sequencer_id@,
            final(self).slashing_events@.last().reason@ == reason@,
            final(self).members == old(self).members,
            final(self).force_include == old(self).force_include,
    {
        let mut sid: Vec<u8> = Vec::new();
        copy_bytes(&mut sid, sequencer_id);
        let mut rsn: Vec<u8> = Vec::new();
        copy_bytes(&mut rsn, reason);
        proof {
            assert(sid@ =~= sequencer_id@);
            assert(rsn@ =~= reason@);
        }
        self.slashing_events.push(SlashEvent { sequencer_id: sid, reason: rsn });
    }
}

} // verus!
