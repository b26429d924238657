//! The record of which exploit run captured which flag, and when.

use vstd::prelude::*;
use crate::order::{ascending, lemma_insert_ascending, lemma_slot, lemma_slot_unique, slot};

verus! {

/// The exploit run that produced a capture.
#[derive(Clone, Copy, Debug, PartialEq, Eq, Structural)]
pub struct ExploitRun {
    pub run_id: u64,
    pub target_team_id: i32,
    pub exploit_id: u64,
}

/// One observation of a flag by one exploit run.
#[derive(Clone, Copy, Debug, PartialEq, Eq, Structural)]
pub struct FlagOccurence {
    /// Handle of the flag that was seen (again).
    pub flag_id: u64,
    /// Time of when the flag was stolen.
    pub collection_time: u64,
    /// The exploit run which got this flag.
    pub exploit_run: ExploitRun,
}

/// Mathematical value of a [`FlagOccurence`].
pub struct OccurrenceView {
    pub flag_id: nat,
    pub collection_time: u64,
    pub exploit_run: ExploitRun,
}

impl View for FlagOccurence {
    type V = OccurrenceView;

    open spec fn view(&self) -> OccurrenceView {
        OccurrenceView {
            flag_id: self.flag_id as nat,
            collection_time: self.collection_time,
            exploit_run: self.exploit_run,
        }
    }
}

/// The values of a sequence of occurrences.
pub open spec fn occurrence_views(entries: Seq<FlagOccurence>) -> Seq<OccurrenceView> {
    Seq::new(entries.len(), |i: int| entries[i]@)
}

/// The collection times of a sequence of occurrences.
pub open spec fn times(s: Seq<OccurrenceView>) -> Seq<u64> {
    Seq::new(s.len(), |i: int| s[i].collection_time)
}

/// `s` with `o` put behind the last occurrence that is not younger.
pub open spec fn placed(s: Seq<OccurrenceView>, o: OccurrenceView) -> Seq<OccurrenceView> {
    s.insert(slot(times(s), o.collection_time), o)
}

/// The captures of one flag, oldest first; captures of the same time stay in
/// the order in which they were appended.
pub open spec fn history(entries: Seq<OccurrenceView>, flag_id: nat) -> Seq<OccurrenceView>
    decreases entries.len(),
{
    if entries.len() == 0 {
        Seq::empty()
    } else if entries.last().flag_id == flag_id {
        placed(history(entries.drop_last(), flag_id), entries.last())
    } else {
        history(entries.drop_last(), flag_id)
    }
}

/// How many entries refer to the flag.
pub open spec fn references(entries: Seq<OccurrenceView>, flag_id: nat) -> nat
    decreases entries.len(),
{
    if entries.len() == 0 {
        0
    } else if entries.last().flag_id == flag_id {
        references(entries.drop_last(), flag_id) + 1
    } else {
        references(entries.drop_last(), flag_id)
    }
}

/// A history holds one occurrence for each entry that refers to the flag,
/// each of them refers to it, and they are ordered by collection time.
pub proof fn law_history_is_ordered(entries: Seq<OccurrenceView>, flag_id: nat)
    ensures
        history(entries, flag_id).len() == references(entries, flag_id),
        ascending(times(history(entries, flag_id))),
        forall|i: int|
            0 <= i < history(entries, flag_id).len() ==> {
                &&& (#[trigger] history(entries, flag_id)[i]).flag_id == flag_id
                &&& entries.contains(history(entries, flag_id)[i])
            },
    decreases entries.len(),
{
    if entries.len() > 0 {
        let rest = entries.drop_last();
        let last = entries.last();
        law_history_is_ordered(rest, flag_id);
        let h = history(rest, flag_id);
        assert forall|i: int| 0 <= i < h.len() implies entries.contains(#[trigger] h[i]) by {
            let k = choose|k: int| 0 <= k < rest.len() && rest[k] == h[i];
            assert(entries[k] == h[i]);
        }
        if last.flag_id == flag_id {
            let s = slot(times(h), last.collection_time);
            lemma_slot(times(h), last.collection_time);
            lemma_insert_ascending(times(h), last.collection_time);
            assert(times(placed(h, last)) =~= times(h).insert(s, last.collection_time));
            assert(entries[entries.len() - 1] == last);
        }
    }
}

/// Append-only ledger of captures.
#[derive(Debug)]
pub struct OccurrenceLedger {
    entries: Vec<FlagOccurence>,
}

impl View for OccurrenceLedger {
    type V = Seq<OccurrenceView>;

    closed spec fn view(&self) -> Seq<OccurrenceView> {
        occurrence_views(self.entries@)
    }
}

impl OccurrenceLedger {
    /// An empty ledger.
    pub fn new() -> (ledger: OccurrenceLedger)
        ensures
            ledger@ == Seq::<OccurrenceView>::empty(),
    {
        let ledger = OccurrenceLedger { entries: Vec::new() };
        proof {
            assert(ledger@ =~= Seq::<OccurrenceView>::empty());
        }
        ledger
    }

    /// A ledger that holds the given captures, in the order in which they
    /// arrived.
    pub fn from_entries(entries: Vec<FlagOccurence>) -> (ledger: OccurrenceLedger)
        ensures
            ledger@ == occurrence_views(entries@),
    {
        OccurrenceLedger { entries }
    }

    /// All captures, in the order in which they arrived.
    pub fn entries(&self) -> (out: Vec<FlagOccurence>)
        ensures
            occurrence_views(out@) == self@,
    {
        let mut out: Vec<FlagOccurence> = Vec::new();
        let n: usize = self.entries.len();
        let mut i: usize = 0;
        while i < n
            invariant
                i <= n,
                n == self.entries@.len(),
                out@ == self.entries@.take(i as int),
            decreases n - i,
        {
            out.push(self.entries[i]);
            proof {
                assert(out@ =~= self.entries@.take(i + 1));
            }
            i += 1;
        }
        proof {
            assert(self.entries@.take(n as int) =~= self.entries@);
        }
        out
    }

    /// Number of captures recorded.
    pub fn len(&self) -> (n: usize)
        ensures
            n == self@.len(),
    {
        self.entries.len()
    }

    /// Records one more capture of the flag `flag_id`.
    pub fn append(&mut self, flag_id: u64, exploit_run: ExploitRun, collection_time: u64)
        ensures
            final(self)@ == old(self)@.push(
                (OccurrenceView { flag_id: flag_id as nat, collection_time, exploit_run }),
            ),
    {
        self.entries.push(FlagOccurence { flag_id, collection_time, exploit_run });
        proof {
            assert(self@ =~= old(self)@.push(
                (OccurrenceView { flag_id: flag_id as nat, collection_time, exploit_run }),
            ));
        }
    }

    /// All captures of one flag, ordered by collection time.
    pub fn occurrences_for(&self, flag_id: u64) -> (out: Vec<FlagOccurence>)
        ensures
            occurrence_views(out@) == history(self@, flag_id as nat),
    {
        let ghost all = occurrence_views(self.entries@);
        let mut out: Vec<FlagOccurence> = Vec::new();
        let n: usize = self.entries.len();
        let mut i: usize = 0;
        proof {
            assert(occurrence_views(out@) =~= history(all.take(0), flag_id as nat));
        }
        while i < n
            invariant
                i <= n,
                n == self.entries@.len(),
                all == occurrence_views(self.entries@),
                occurrence_views(out@) == history(all.take(i as int), flag_id as nat),
            decreases n - i,
        {
            let o: FlagOccurence = self.entries[i];
            proof {
                assert(all.take(i + 1).drop_last() =~= all.take(i as int));
                assert(all.take(i + 1).last() == o@);
            }
            if o.flag_id == flag_id {
                let ghost prev = occurrence_views(out@);
                let mut j: usize = out.len();
                while j > 0 && out[j - 1].collection_time > o.collection_time
                    invariant
                        j <= out@.len(),
                        prev == occurrence_views(out@),
                        forall|k: int| j <= k < out@.len() ==> times(prev)[k] > o.collection_time,
                    decreases j,
                {
                    j -= 1;
                }
                proof {
                    lemma_slot_unique(times(prev), o.collection_time, j as int);
                }
                out.insert(j, o);
                proof {
                    assert(occurrence_views(out@) =~= prev.insert(j as int, o@));
                }
            }
            i += 1;
        }
        proof {
            assert(all.take(n as int) =~= all);
        }
        out
    }
}

} // verus!
