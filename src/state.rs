//! The cell that consumers read: the latest snapshot and a bounded,
//! oldest-first list of recent anomalies.
use vstd::prelude::*;
use crate::types::{Anomaly, SystemMetrics};

verus! {

/// How many recent anomalies are kept.
pub const ANOMALY_CAPACITY: usize = 100;

/// The last `ANOMALY_CAPACITY` entries of `s`, or all of them when there are
/// fewer.
pub open spec fn kept(s: Seq<Anomaly>) -> Seq<Anomaly> {
    if s.len() <= ANOMALY_CAPACITY {
        s
    } else {
        s.subrange(s.len() - ANOMALY_CAPACITY, s.len() as int)
    }
}

/// The latest snapshot and the recent anomalies, oldest first.
pub struct CurrentState {
    latest: Option<SystemMetrics>,
    recent_anomalies: Vec<Anomaly>,
}

impl CurrentState {
    pub closed spec fn latest_snapshot(&self) -> Option<SystemMetrics> {
        self.latest
    }

    pub closed spec fn recent(&self) -> Seq<Anomaly> {
        self.recent_anomalies@
    }

    pub open spec fn wf(&self) -> bool {
        self.recent().len() <= ANOMALY_CAPACITY
    }

    pub fn new() -> (r: CurrentState)
        ensures
            r.latest_snapshot() is None,
            r.recent() == Seq::<Anomaly>::empty(),
            r.wf(),
    {
        CurrentState { latest: None, recent_anomalies: Vec::new() }
    }

    /// Replaces the latest snapshot wholesale.
    pub fn replace_current(&mut self, snapshot: SystemMetrics)
        ensures
            final(self).latest_snapshot() == Some(snapshot),
            final(self).recent() == old(self).recent(),
    {
        self.latest = Some(snapshot);
    }

    /// Appends `anomalies` after the recent ones, then drops the oldest
    /// until at most `ANOMALY_CAPACITY` remain.
    pub fn append_anomalies(&mut self, anomalies: Vec<Anomaly>)
        ensures
            final(self).recent() == kept(old(self).recent() + anomalies@),
            final(self).latest_snapshot() == old(self).latest_snapshot(),
            final(self).wf(),
    {
        let mut added = anomalies;
        self.recent_anomalies.append(&mut added);
        let len = self.recent_anomalies.len();
        if len > ANOMALY_CAPACITY {
            let tail = self.recent_anomalies.split_off(len - ANOMALY_CAPACITY);
            self.recent_anomalies = tail;
        }
    }

    /// The latest snapshot, if one was published.
    pub fn latest(&self) -> (r: &Option<SystemMetrics>)
        ensures
            *r == self.latest_snapshot(),
    {
        &self.latest
    }

    /// The recent anomalies, oldest first.
    pub fn recent_anomalies(&self) -> (r: &Vec<Anomaly>)
        ensures
            r@ == self.recent(),
    {
        &self.recent_anomalies
    }
}

/// The anomaly buffer never holds more than `ANOMALY_CAPACITY` entries, and
/// eviction is oldest-first: what is kept is the newest part of everything
/// appended, in order.
pub proof fn lemma_recent_bounded_oldest_first(recent: Seq<Anomaly>, added: Seq<Anomaly>)
    ensures
        kept(recent + added).len() <= ANOMALY_CAPACITY,
        kept(recent + added).len() == if recent.len() + added.len() <= ANOMALY_CAPACITY {
            recent.len() + added.len()
        } else {
            ANOMALY_CAPACITY as nat
        },
        kept(recent + added) == (recent + added).subrange(
            (recent + added).len() - kept(recent + added).len(),
            (recent + added).len() as int,
        ),
{
    let s = recent + added;
    if s.len() <= ANOMALY_CAPACITY {
        assert(s.subrange(0, s.len() as int) =~= s);
    }
}

} // verus!
