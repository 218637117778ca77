//! One packet-number space: its permissions, its recovery and its end.
use vstd::prelude::*;

use crate::base::signals::Signals;
use crate::transport::assembly::Epoch;
use crate::transport::keys::{ArcKeys, KeyState};
use crate::transport::records::{due, lose_all, unexpired, ArcSendJournal, SentRecord};

verus! {

/// Whether loss is reported to a space's journal. It starts once, and once retired it never
/// starts again.
#[derive(Clone, Copy, Debug, PartialEq, Eq, Structural)]
pub enum ArcFeedback {
    Pending,
    Running,
    Retired,
}

impl ArcFeedback {
    /// Attaches the journal of a space that is ready.
    pub fn start(&mut self)
        ensures
            *final(self) == if *old(self) is Pending { ArcFeedback::Running } else { *old(self) },
    {
        if let ArcFeedback::Pending = *self {
            *self = ArcFeedback::Running;
        }
    }

    /// Ends recovery for good.
    pub fn retire(&mut self)
        ensures
            *final(self) == ArcFeedback::Retired,
    {
        *self = ArcFeedback::Retired;
    }

    /// Reports the loss of packets; returns the frames to send again.
    pub fn may_loss<T: Copy>(&self, journal: &mut ArcSendJournal<T>, pns: &Vec<u64>) -> (frames: Vec<T>)
        requires
            old(journal).wf(),
        ensures
            final(journal).wf(),
            if *self is Running {
                &&& (final(journal).records(), frames@) == lose_all(old(journal).records(), pns@)
                &&& final(journal).same_numbers(old(journal))
            } else {
                *final(journal) == *old(journal) && frames@ == Seq::<T>::empty()
            },
    {
        match *self {
            ArcFeedback::Running => journal.mark_lost(pns),
            _ => Vec::new(),
        }
    }
}

/// A packet-number space with its keys and its journal of sent packets.
pub struct Space<K, T> {
    pub epoch: Epoch,
    pub keys: ArcKeys<K>,
    pub send_journal: ArcSendJournal<T>,
    pub receiving: bool,
    pub sending: bool,
}

impl<K, T: Copy> Space<K, T> {
    pub fn new(epoch: Epoch) -> (space: Self)
        ensures
            space.epoch == epoch,
            space.keys.state == KeyState::<K>::Pending,
            space.send_journal.wf(),
            space.send_journal.records() == Seq::<SentRecord<T>>::empty(),
            space.send_journal.next_pn == 0,
            space.send_journal.largest_acked == 0,
            space.send_journal.skipped_pns@ == Seq::<u64>::empty(),
            space.send_journal.slots@.len() == 0,
            space.send_journal.next_frame() == 0,
            space.receiving && space.sending,
    {
        Space {
            epoch,
            keys: ArcKeys::new_pending(),
            send_journal: ArcSendJournal::new(),
            receiving: true,
            sending: true,
        }
    }

    /// Handles the deadlines that have come by `now`, as long as the space may send. Returns the
    /// frames to send again.
    pub fn on_tick(&mut self, now: u64) -> (frames: Vec<T>)
        requires
            old(self).send_journal.wf(),
        ensures
            final(self).send_journal.wf(),
            final(self).epoch == old(self).epoch,
            final(self).keys == old(self).keys,
            final(self).receiving == old(self).receiving,
            final(self).sending == old(self).sending,
            if old(self).sending {
                let journal = old(self).send_journal;
                let (records, lost) = lose_all(journal.records(), due(journal.deadlines@, now));
                &&& final(self).send_journal.records() == unexpired(records, now)
                &&& final(self).send_journal.same_numbers(&journal)
                &&& frames@ == lost
            } else {
                final(self).send_journal == old(self).send_journal && frames@ == Seq::<T>::empty()
            },
    {
        if self.sending {
            self.send_journal.on_tick(now)
        } else {
            Vec::new()
        }
    }

    pub fn can_receive(&self) -> (can: bool)
        ensures
            can == self.receiving,
    {
        self.receiving
    }

    pub fn can_send(&self) -> (can: bool)
        ensures
            can == self.sending,
    {
        self.sending
    }

    pub fn stop_receiving(&mut self)
        ensures
            *final(self) == (Space { receiving: false, ..*old(self) }),
    {
        self.receiving = false;
    }

    /// Stops sending; returns what to wake.
    pub fn stop_sending(&mut self) -> (wake: Signals)
        ensures
            *final(self) == (Space { sending: false, ..*old(self) }),
            wake == Signals::every(),
    {
        self.sending = false;
        Signals::all()
    }

    /// Gives the space up for good; returns who waited for its keys.
    pub fn retire(&mut self) -> (waiter: Option<u64>)
        ensures
            !final(self).receiving,
            !final(self).sending,
            final(self).keys.state == KeyState::<K>::Retired,
            final(self).epoch == old(self).epoch,
            final(self).send_journal == old(self).send_journal,
            waiter == old(self).keys.state.waiter(),
    {
        self.stop_receiving();
        self.stop_sending();
        self.keys.retire()
    }
}

} // verus!
