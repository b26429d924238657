//! The submission engine: intake of captures, batches on a fixed cadence,
//! reconciliation of the endpoint's answers, and the expiration sweep.

use vstd::prelude::*;
use vstd::string::StringSliceAdditionalSpecFns;
use crate::flag::{
    report_of, scores_points, Flag, FlagState, FlagView, Policy, Reconciled, Verdict,
};
use crate::ledger::{occurrence_views, ExploitRun, FlagOccurence};
use crate::normalize::{copy_bytes, normalize, normalized, CasePolicy};
use crate::pattern::{compiles, match_pattern, pattern_compiles, pattern_match};
use crate::store::{
    batch_of, distinct, lemma_pending, lookup, pending, views_of, FlagStore, StoreView,
};

verus! {

/// Everything the engine is configured with.
#[derive(Debug)]
pub struct Config {
    /// Time between two batches.
    pub tick_length: u64,
    /// Time after the first capture before a pending flag expires.
    pub scoring_window: u64,
    /// Largest number of flags in one batch.
    pub batch_size: usize,
    /// Number of retries granted after the first failed attempt.
    pub max_retries: u32,
    /// Our own team in the CTF.
    pub own_team_id: i32,
    /// NOP team by event organizers.
    pub nop_team_id: i32,
    /// Do we get points for exploiting the NOP team?
    pub nop_team_grants_points: bool,
    /// How letter case enters a flag's identity.
    pub case_policy: CasePolicy,
    /// Regular expression that a normalized flag value must match, if any.
    pub flag_value_pattern: Option<String>,
}

impl Config {
    /// Can the configured pattern be used? It can if there is none, or if it
    /// is a regular expression that compiles.
    pub open spec fn usable_pattern(self) -> bool {
        match self.flag_value_pattern {
            Some(p) => compiles(p@),
            None => true,
        }
    }

    /// Tests the configured pattern, so that a configuration whose pattern
    /// does not compile can be refused before an engine is made of it.
    pub fn has_usable_pattern(&self) -> (r: bool)
        ensures
            r == self.usable_pattern(),
    {
        match &self.flag_value_pattern {
            Some(p) => pattern_compiles(p.as_str()),
            None => true,
        }
    }
}

/// Why a capture was turned away.
#[derive(Clone, Copy, Debug, PartialEq, Eq, Structural)]
pub enum CaptureError {
    /// The value is empty once normalized.
    Empty,
    /// The value does not match the configured pattern.
    Malformed,
    /// The configured pattern is no valid regular expression.
    BadPattern,
}

/// A failure of a whole submission attempt.
#[derive(Clone, Copy, Debug, PartialEq, Eq, Structural)]
pub enum SubmissionFailure {
    /// Connection trouble, a timeout, an answer that cannot be read.
    Retryable,
    /// The endpoint refuses the batch for good.
    Permanent,
}

/// What the endpoint's reply means for one flag of the batch.
#[derive(Clone, Copy, Debug, PartialEq, Eq, Structural)]
pub enum Answer {
    /// The endpoint judged the flag.
    Verdict(Verdict),
    /// The attempt failed.
    Failure { retryable: bool },
}

/// The whole reply as seen in contracts.
pub enum ReplyView {
    Verdicts(Seq<Verdict>),
    Failure(SubmissionFailure),
}

/// The contract's view of a reply.
pub open spec fn reply_view(reply: Result<Vec<Verdict>, SubmissionFailure>) -> ReplyView {
    match reply {
        Ok(verdicts) => ReplyView::Verdicts(verdicts@),
        Err(failure) => ReplyView::Failure(failure),
    }
}

/// The answer for the flag at position `i` of a batch of `n` flags. Verdicts
/// count only if there is one for each flag; otherwise the reply cannot be
/// read and is a retryable failure of the whole batch.
pub open spec fn answer_at(reply: ReplyView, n: nat, i: int) -> Answer {
    match reply {
        ReplyView::Verdicts(verdicts) => if verdicts.len() == n && 0 <= i < n {
            Answer::Verdict(verdicts[i])
        } else {
            Answer::Failure { retryable: true }
        },
        ReplyView::Failure(failure) => Answer::Failure {
            retryable: failure == SubmissionFailure::Retryable,
        },
    }
}

/// A flag after an answer for an attempt made at `at`.
pub open spec fn answered(f: FlagView, policy: Policy, answer: Answer, at: u64) -> FlagView {
    match answer {
        Answer::Verdict(verdict) => f.judge(policy, verdict, at),
        Answer::Failure { retryable } => f.fail(policy, retryable, at),
    }
}

/// The store after an answer for the flag `value`.
pub open spec fn store_answered(s: StoreView, value: Seq<u8>, answer: Answer, at: u64)
    -> StoreView {
    match answer {
        Answer::Verdict(verdict) => s.judge(value, verdict, at),
        Answer::Failure { retryable } => s.fail(value, retryable, at),
    }
}

/// What is reported of an answer for the flag `value`.
pub open spec fn report_for(s: StoreView, value: Seq<u8>, answer: Answer, at: u64) -> Reconciled {
    match lookup(s.flags, value) {
        Some(f) => report_of(f, answered(f, s.policy, answer, at), s.policy),
        None => Reconciled::Unknown,
    }
}

/// The store after the answers for the first `n` flags of the batch, applied
/// one by one in the order of the batch.
pub open spec fn applied(s: StoreView, batch: Seq<Seq<u8>>, reply: ReplyView, at: u64, n: nat)
    -> StoreView
    decreases n,
{
    if n == 0 {
        s
    } else {
        store_answered(
            applied(s, batch, reply, at, (n - 1) as nat),
            batch[n - 1],
            answer_at(reply, batch.len(), n - 1),
            at,
        )
    }
}

/// The values of a sequence of flags.
pub open spec fn values_of(flags: Seq<FlagView>) -> Seq<Seq<u8>> {
    Seq::new(flags.len(), |i: int| flags[i].value)
}

/// The contents of a batch.
pub open spec fn byte_strings(batch: Seq<Vec<u8>>) -> Seq<Seq<u8>> {
    Seq::new(batch.len(), |i: int| batch[i]@)
}

/// The instant `d` after `now`, held at the largest instant there is.
pub open spec fn later(now: u64, d: u64) -> u64 {
    if now + d <= u64::MAX {
        (now + d) as u64
    } else {
        u64::MAX
    }
}

/// The store that holds the given records under the given configuration.
pub open spec fn restored(config: Config, flags: Seq<Flag>, occurrences: Seq<FlagOccurence>)
    -> StoreView {
    StoreView {
        policy: Policy { scoring_window: config.scoring_window, max_retries: config.max_retries },
        case_policy: config.case_policy,
        flags: views_of(flags),
        ledger: occurrence_views(occurrences),
    }
}

/// Mathematical value of an [`Engine`].
pub struct EngineView {
    pub tick_length: u64,
    pub batch_size: usize,
    pub own_team_id: i32,
    pub nop_team_id: i32,
    pub nop_team_grants_points: bool,
    pub pattern: Option<Seq<char>>,
    pub store: StoreView,
    /// The batch that was handed out and not yet reconciled.
    pub in_flight: Option<Seq<Seq<u8>>>,
    /// The earliest instant at which the next batch is drawn.
    pub next_tick: u64,
}

impl EngineView {
    /// The store is well-formed and no value occurs twice in the batch in
    /// flight.
    pub open spec fn wf(self) -> bool {
        &&& self.store.wf()
        &&& match self.in_flight {
            Some(batch) => distinct(batch),
            None => true,
        }
    }

    /// What to make of a capture, given its normalized value and the outcome
    /// of matching it against the pattern: `Ok` says whether the flag is new.
    pub open spec fn capture_result(self, value: Seq<u8>, matched: Option<bool>) -> Result<
        bool,
        CaptureError,
    > {
        if value.len() == 0 {
            Err(CaptureError::Empty)
        } else if matched.is_none() {
            Err(CaptureError::BadPattern)
        } else if matched == Some(false) {
            Err(CaptureError::Malformed)
        } else {
            Ok(lookup(self.store.flags, value).is_none())
        }
    }

    /// The engine after a capture.
    pub open spec fn capture(
        self,
        value: Seq<u8>,
        matched: Option<bool>,
        run: ExploitRun,
        time: u64,
    ) -> EngineView {
        if self.capture_result(value, matched).is_ok() {
            EngineView { store: self.store.record(value, time, run), ..self }
        } else {
            self
        }
    }

    /// The outcome of matching `value` against the configured pattern; with
    /// no pattern every value passes.
    pub open spec fn matched(self, value: Seq<u8>) -> Option<bool> {
        match self.pattern {
            Some(p) => pattern_match(p, value),
            None => Some(true),
        }
    }

    /// Can the pattern of this engine be used: is there none, or one that
    /// compiles?
    pub open spec fn usable_pattern(self) -> bool {
        match self.pattern {
            Some(p) => compiles(p),
            None => true,
        }
    }

    /// A batch is drawn at `now`: none is in flight and the cadence allows it.
    pub open spec fn due(self, now: u64) -> bool {
        self.in_flight.is_none() && now >= self.next_tick
    }

    /// The batch that a tick would draw.
    pub open spec fn drawn(self) -> Seq<Seq<u8>> {
        values_of(batch_of(self.store.flags, self.store.policy, self.batch_size as nat))
    }

    /// The engine after a tick at `now`.
    pub open spec fn tick(self, now: u64) -> EngineView {
        if !self.due(now) {
            self
        } else {
            EngineView {
                next_tick: later(now, self.tick_length),
                in_flight: if self.drawn().len() == 0 {
                    None
                } else {
                    Some(self.drawn())
                },
                ..self
            }
        }
    }

    /// The engine after the reply to the batch in flight.
    pub open spec fn reconcile(self, reply: ReplyView, now: u64) -> EngineView {
        match self.in_flight {
            Some(batch) => EngineView {
                store: applied(self.store, batch, reply, now, batch.len()),
                in_flight: None,
                ..self
            },
            None => self,
        }
    }

    /// The engine after an expiration sweep at `now`.
    pub open spec fn sweep(self, now: u64) -> EngineView {
        EngineView { store: self.store.sweep(now), ..self }
    }
}

/// The flag lifecycle and submission engine.
#[derive(Debug)]
pub struct Engine {
    tick_length: u64,
    batch_size: usize,
    own_team_id: i32,
    nop_team_id: i32,
    nop_team_grants_points: bool,
    pattern: Option<String>,
    store: FlagStore,
    in_flight: Option<Vec<Vec<u8>>>,
    next_tick: u64,
}

impl View for Engine {
    type V = EngineView;

    closed spec fn view(&self) -> EngineView {
        EngineView {
            tick_length: self.tick_length,
            batch_size: self.batch_size,
            own_team_id: self.own_team_id,
            nop_team_id: self.nop_team_id,
            nop_team_grants_points: self.nop_team_grants_points,
            pattern: match self.pattern {
                Some(p) => Some(p@),
                None => None,
            },
            store: self.store@,
            in_flight: match self.in_flight {
                Some(batch) => Some(byte_strings(batch@)),
                None => None,
            },
            next_tick: self.next_tick,
        }
    }
}

fn instant_after(now: u64, d: u64) -> (r: u64)
    ensures
        r == later(now, d),
{
    if now <= u64::MAX - d {
        now + d
    } else {
        u64::MAX
    }
}

fn answer_for(reply: &Result<Vec<Verdict>, SubmissionFailure>, n: usize, i: usize) -> (a: Answer)
    requires
        i < n,
    ensures
        a == answer_at(reply_view(*reply), n as nat, i as int),
{
    match reply {
        Ok(verdicts) => if verdicts.len() == n {
            Answer::Verdict(verdicts[i])
        } else {
            Answer::Failure { retryable: true }
        },
        Err(SubmissionFailure::Retryable) => Answer::Failure { retryable: true },
        Err(SubmissionFailure::Permanent) => Answer::Failure { retryable: false },
    }
}

impl Engine {
    /// An engine with no flags, started at `start`: the first batch is drawn
    /// one tick later. The pattern is taken as it is configured; one that
    /// does not compile turns every capture away, so test the configuration
    /// with [`Config::has_usable_pattern`] first.
    pub fn new(config: Config, start: u64) -> (engine: Engine)
        ensures
            engine@.wf(),
            engine@ == (EngineView {
                tick_length: config.tick_length,
                batch_size: config.batch_size,
                own_team_id: config.own_team_id,
                nop_team_id: config.nop_team_id,
                nop_team_grants_points: config.nop_team_grants_points,
                pattern: match config.flag_value_pattern {
                    Some(p) => Some(p@),
                    None => None,
                },
                store: StoreView {
                    policy: Policy {
                        scoring_window: config.scoring_window,
                        max_retries: config.max_retries,
                    },
                    case_policy: config.case_policy,
                    flags: Seq::empty(),
                    ledger: Seq::empty(),
                },
                in_flight: None,
                next_tick: later(start, config.tick_length),
            }),
    {
        let policy = Policy {
            scoring_window: config.scoring_window,
            max_retries: config.max_retries,
        };
        Engine {
            tick_length: config.tick_length,
            batch_size: config.batch_size,
            own_team_id: config.own_team_id,
            nop_team_id: config.nop_team_id,
            nop_team_grants_points: config.nop_team_grants_points,
            pattern: config.flag_value_pattern,
            store: FlagStore::new(policy, config.case_policy),
            in_flight: None,
            next_tick: instant_after(start, config.tick_length),
        }
    }

    /// An engine started at `start` on records that were kept elsewhere: the
    /// flags in the order of the store, the captures in the order of their
    /// arrival. No batch is in flight, so a flag whose answer never came is
    /// drawn again, and one that was settled is not. Records that no store
    /// could have held are turned away.
    pub fn restore(
        config: Config,
        flags: Vec<Flag>,
        occurrences: Vec<FlagOccurence>,
        start: u64,
    ) -> (r: Option<Engine>)
        ensures
            match r {
                Some(engine) => engine@.wf() && engine@ == (EngineView {
                    tick_length: config.tick_length,
                    batch_size: config.batch_size,
                    own_team_id: config.own_team_id,
                    nop_team_id: config.nop_team_id,
                    nop_team_grants_points: config.nop_team_grants_points,
                    pattern: match config.flag_value_pattern {
                        Some(p) => Some(p@),
                        None => None,
                    },
                    store: restored(config, flags@, occurrences@),
                    in_flight: None,
                    next_tick: later(start, config.tick_length),
                }),
                None => !restored(config, flags@, occurrences@).wf(),
            },
    {
        let policy = Policy {
            scoring_window: config.scoring_window,
            max_retries: config.max_retries,
        };
        match FlagStore::restore(policy, config.case_policy, flags, occurrences) {
            Some(store) => Some(
                Engine {
                    tick_length: config.tick_length,
                    batch_size: config.batch_size,
                    own_team_id: config.own_team_id,
                    nop_team_id: config.nop_team_id,
                    nop_team_grants_points: config.nop_team_grants_points,
                    pattern: config.flag_value_pattern,
                    store,
                    in_flight: None,
                    next_tick: instant_after(start, config.tick_length),
                },
            ),
            None => None,
        }
    }

    /// The flag store, for queries.
    pub fn store(&self) -> (store: &FlagStore)
        ensures
            store@ == self@.store,
    {
        &self.store
    }

    /// Does a flag in `state` count for points under this configuration?
    pub fn scores(&self, state: FlagState) -> (r: bool)
        ensures
            r == (state == FlagState::Valid || (state == FlagState::NOPTeam
                && self@.nop_team_grants_points)),
    {
        scores_points(state, self.nop_team_grants_points)
    }

    /// Is `team_id` a team whose flags gain nothing: our own, or the NOP team
    /// where it grants no points?
    pub fn is_pointless_target(&self, team_id: i32) -> (r: bool)
        ensures
            r == (team_id == self@.own_team_id || (team_id == self@.nop_team_id
                && !self@.nop_team_grants_points)),
    {
        team_id == self.own_team_id || (team_id == self.nop_team_id
            && !self.nop_team_grants_points)
    }

    /// Is a batch handed out and not yet reconciled?
    pub fn is_in_flight(&self) -> (r: bool)
        ensures
            r == self@.in_flight.is_some(),
    {
        self.in_flight.is_some()
    }

    /// Takes in a capture whose normalized value is `value` and whose match
    /// against the configured pattern gave `matched`. An empty value, a value
    /// that does not match and a pattern that does not compile are turned
    /// away; any other capture is recorded, and `Ok` says whether the flag was
    /// seen for the first time.
    pub fn accept_capture(
        &mut self,
        value: Vec<u8>,
        matched: Option<bool>,
        run: ExploitRun,
        collection_time: u64,
    ) -> (r: Result<bool, CaptureError>)
        requires
            old(self)@.wf(),
        ensures
            final(self)@.wf(),
            r == old(self)@.capture_result(value@, matched),
            final(self)@ == old(self)@.capture(value@, matched, run, collection_time),
    {
        if value.len() == 0 {
            return Err(CaptureError::Empty);
        }
        match matched {
            None => Err(CaptureError::BadPattern),
            Some(false) => Err(CaptureError::Malformed),
            Some(true) => {
                let (_, is_new) = self.store.record_value(value, run, collection_time);
                Ok(is_new)
            },
        }
    }

    /// Takes in one capture from an exploit run: the value is normalized,
    /// checked against the configured pattern, and recorded. Where the
    /// pattern can be used (see [`Config::has_usable_pattern`]) a capture is
    /// turned away only for its value.
    pub fn submit_capture(&mut self, flag_value: &str, run: ExploitRun, collection_time: u64) -> (r:
        Result<bool, CaptureError>)
        requires
            old(self)@.wf(),
        ensures
            final(self)@.wf(),
            r == old(self)@.capture_result(
                normalized(flag_value.spec_bytes(), old(self)@.store.case_policy),
                old(self)@.matched(
                    normalized(flag_value.spec_bytes(), old(self)@.store.case_policy),
                ),
            ),
            final(self)@ == old(self)@.capture(
                normalized(flag_value.spec_bytes(), old(self)@.store.case_policy),
                old(self)@.matched(
                    normalized(flag_value.spec_bytes(), old(self)@.store.case_policy),
                ),
                run,
                collection_time,
            ),
            old(self)@.usable_pattern() ==> r != Err::<bool, CaptureError>(
                CaptureError::BadPattern,
            ),
    {
        let value = normalize(flag_value.as_bytes(), self.store.case_policy());
        let matched = match &self.pattern {
            Some(p) => match_pattern(p.as_str(), value.as_slice()),
            None => Some(true),
        };
        self.accept_capture(value, matched, run, collection_time)
    }

    /// One tick of the batcher at `now`. Nothing happens while a batch is in
    /// flight or before the cadence allows the next one. Otherwise up to
    /// `batch_size` eligible flags are drawn, oldest first; if there are any,
    /// their values are returned as the batch to submit, which is in flight
    /// until it is reconciled.
    pub fn tick(&mut self, now: u64) -> (batch: Option<Vec<Vec<u8>>>)
        requires
            old(self)@.wf(),
        ensures
            final(self)@.wf(),
            final(self)@ == old(self)@.tick(now),
            match batch {
                Some(b) => old(self)@.due(now) && byte_strings(b@) == old(self)@.drawn() && b@.len()
                    > 0,
                None => !old(self)@.due(now) || old(self)@.drawn().len() == 0,
            },
    {
        if self.in_flight.is_some() || now < self.next_tick {
            return None;
        }
        self.next_tick = instant_after(now, self.tick_length);
        let flags = self.store.list_pending(self.batch_size);
        let n: usize = flags.len();
        if n == 0 {
            proof {
                assert(old(self)@.drawn() =~= Seq::<Seq<u8>>::empty());
            }
            return None;
        }
        let mut kept: Vec<Vec<u8>> = Vec::new();
        let mut out: Vec<Vec<u8>> = Vec::new();
        let mut i: usize = 0;
        while i < n
            invariant
                i <= n,
                n == flags@.len(),
                kept@.len() == i,
                out@.len() == i,
                forall|k: int| 0 <= k < i ==> (#[trigger] kept@[k])@ == flags@[k]@.value,
                forall|k: int| 0 <= k < i ==> (#[trigger] out@[k])@ == flags@[k]@.value,
            decreases n - i,
        {
            kept.push(copy_bytes(flags[i].value.as_slice()));
            out.push(copy_bytes(flags[i].value.as_slice()));
            i += 1;
        }
        proof {
            let before = old(self)@;
            assert(byte_strings(kept@) =~= before.drawn());
            assert(byte_strings(out@) =~= before.drawn());
            lemma_pending(before.store.flags, before.store.policy);
            let all = pending(before.store.flags, before.store.policy);
            let batch = batch_of(before.store.flags, before.store.policy, before.batch_size as nat);
            assert forall|a: int, b: int| 0 <= a < b < before.drawn().len() implies before.drawn()[a]
                != before.drawn()[b] by {
                assert(batch[a] == all[a]);
                assert(batch[b] == all[b]);
            }
        }
        self.in_flight = Some(kept);
        Some(out)
    }

    /// Reconciles the endpoint's reply, received at `now`, with the batch in
    /// flight. The answer for each flag is applied in the order of the batch:
    /// its verdict where there is one for each flag, a failed attempt
    /// otherwise. Returns what became of each flag, position by position;
    /// with no batch in flight nothing happens.
    pub fn reconcile(&mut self, reply: Result<Vec<Verdict>, SubmissionFailure>, now: u64) -> (out:
        Vec<Reconciled>)
        requires
            old(self)@.wf(),
        ensures
            final(self)@.wf(),
            final(self)@ == old(self)@.reconcile(reply_view(reply), now),
            match old(self)@.in_flight {
                Some(batch) => {
                    &&& out@.len() == batch.len()
                    &&& forall|i: int|
                        0 <= i < batch.len() ==> (#[trigger] out@[i]) == report_for(
                            applied(old(self)@.store, batch, reply_view(reply), now, i as nat),
                            batch[i],
                            answer_at(reply_view(reply), batch.len(), i),
                            now,
                        )
                },
                None => out@.len() == 0,
            },
    {
        let ghost before = self@;
        let ghost rv = reply_view(reply);
        let taken = self.in_flight.take();
        let mut out: Vec<Reconciled> = Vec::new();
        match taken {
            None => {},
            Some(batch) => {
                let ghost values = byte_strings(batch@);
                let n: usize = batch.len();
                let mut i: usize = 0;
                while i < n
                    invariant
                        i <= n,
                        n == batch@.len(),
                        values == byte_strings(batch@),
                        rv == reply_view(reply),
                        self@.wf(),
                        self@ == (EngineView {
                            store: applied(before.store, values, rv, now, i as nat),
                            in_flight: None,
                            ..before
                        }),
                        out@.len() == i,
                        forall|k: int|
                            0 <= k < i ==> (#[trigger] out@[k]) == report_for(
                                applied(before.store, values, rv, now, k as nat),
                                values[k],
                                answer_at(rv, n as nat, k),
                                now,
                            ),
                    decreases n - i,
                {
                    let answer = answer_for(&reply, n, i);
                    let report = match answer {
                        Answer::Verdict(verdict) => self.store.apply_verdict(
                            batch[i].as_slice(),
                            verdict,
                            now,
                        ),
                        Answer::Failure { retryable } => self.store.apply_failure(
                            batch[i].as_slice(),
                            retryable,
                            now,
                        ),
                    };
                    out.push(
                        match report {
                            Ok(r) => r,
                            Err(_) => Reconciled::Unknown,
                        },
                    );
                    i += 1;
                }
            },
        }
        out
    }

    /// Retires every flag that is still eligible for submission and whose
    /// scoring window has closed at `now`, whether or not it was ever
    /// submitted.
    pub fn sweep(&mut self, now: u64)
        requires
            old(self)@.wf(),
        ensures
            final(self)@.wf(),
            final(self)@ == old(self)@.sweep(now),
    {
        self.store.sweep(now);
    }
}

} // verus!
