use vstd::prelude::*;

use crate::scan::{batch_ranges, batched, ScanPriority, ScanRange};

verus! {

/// Default number of blocks downloaded and scanned at one time.
pub const BATCH_SIZE: u32 = 10000;

/// Default number of blocks rewound below the height of a continuity error.
pub const REWIND_MARGIN: u32 = 10;

/// The height to rewind to after a continuity error at `at_height`:
/// `margin` blocks lower, but not below zero.
pub open spec fn rewind_target(at_height: nat, margin: nat) -> nat {
    if at_height >= margin {
        (at_height - margin) as nat
    } else {
        0
    }
}

/// Picks the height to rewind to after a continuity error detected at
/// `at_height`.
pub fn rewind_height(at_height: u32, margin: u32) -> (r: u32)
    ensures
        r as nat == rewind_target(at_height as nat, margin as nat),
{
    at_height.saturating_sub(margin)
}

/// A continuity error at `h` rewinds to `h - 10` clamped at zero: never to a
/// negative height and never above `h`.
pub proof fn lemma_rewind_bounds(h: nat)
    ensures
        rewind_target(h, REWIND_MARGIN as nat) <= h,
        h >= 10 ==> rewind_target(h, REWIND_MARGIN as nat) == h - 10,
        h < 10 ==> rewind_target(h, REWIND_MARGIN as nat) == 0,
{
}

/// The chain tip to record from the height the remote service reports: refused
/// when it does not fit a block height.
pub fn tip_height(reported: u64) -> (r: Option<u32>)
    ensures
        r is Some <==> reported <= u32::MAX,
        r is Some ==> r->0 == reported,
{
    if reported <= 4294967295 {
        Some(reported as u32)
    } else {
        None
    }
}

/// The first and last height to request for downloading `range`, both
/// included; `None` for an empty range, which needs no request.
pub fn request_bounds(range: &ScanRange) -> (r: Option<(u64, u64)>)
    ensures
        r is Some <==> range.start < range.end,
        r is Some ==> r == Some((range.start as u64, (range.end - 1) as u64)),
{
    if range.start < range.end {
        Some((range.start as u64, (range.end - 1) as u64))
    } else {
        None
    }
}

/// Whether the suggestions `latest`, asked for after `scanned` was scanned,
/// start with a range of higher priority than `scanned`.
pub open spec fn spec_suggestions_changed(scanned: ScanRange, latest: Seq<ScanRange>) -> bool {
    latest.len() > 0 && latest[0].priority.spec_rank() > scanned.priority.spec_rank()
}

/// Decides whether scanning `scanned` made the earlier suggestions stale,
/// given the suggestions `latest` that the wallet gives after the scan.
pub fn suggestions_changed(scanned: &ScanRange, latest: &Vec<ScanRange>) -> (r: bool)
    ensures
        r == spec_suggestions_changed(*scanned, latest@),
{
    if latest.len() > 0 {
        latest[0].priority.outranks(&scanned.priority)
    } else {
        false
    }
}

/// Whether a list of suggestions calls for verification first.
pub open spec fn starts_with_verify(rs: Seq<ScanRange>) -> bool {
    rs.len() > 0 && rs[0].priority == ScanPriority::Verify
}

/// The range to verify before anything else: the first suggestion, when it
/// has `Verify` priority.
pub fn range_to_verify(suggested: &Vec<ScanRange>) -> (r: Option<ScanRange>)
    ensures
        r is Some <==> starts_with_verify(suggested@),
        r is Some ==> r->0 == suggested@[0],
{
    if suggested.len() > 0 && suggested[0].priority == ScanPriority::Verify {
        Some(suggested[0])
    } else {
        None
    }
}

/// What came of scanning a range of cached blocks.
#[derive(Clone, Debug)]
pub enum ScanOutcome {
    /// The scan succeeded; `latest` holds the suggestions the wallet gives
    /// after it.
    Scanned { latest: Vec<ScanRange> },
    /// The cached chain does not continue the wallet's view at `at_height`.
    ContinuityError { at_height: u32 },
    /// Any other scan error: fatal to the run.
    Failed,
}

/// What the surrounding driver reports back after performing an action.
#[derive(Clone, Debug)]
pub enum Event {
    Started,
    SubtreeRootsUpdated,
    ChainTipUpdated,
    Suggested(Vec<ScanRange>),
    Downloaded,
    Scanned(ScanOutcome),
    Rewound,
}

/// What the driver must do next.
#[derive(Clone, Copy, Debug, PartialEq, Eq, Structural)]
pub enum Action {
    /// Fetch the commitment-tree checkpoints and store them in the wallet.
    UpdateSubtreeRoots,
    /// Fetch the remote chain tip and store it in the wallet.
    UpdateChainTip,
    /// Ask the wallet for its suggested scan ranges.
    SuggestRanges,
    /// Download the blocks of the range into the cache, overwriting.
    Download(ScanRange),
    /// Scan the cached blocks of the range.
    Scan(ScanRange),
    /// Truncate the wallet and the cache to the height, deleting the cached
    /// blocks above it.
    Rewind(u32),
    /// The run is complete.
    Finish,
    /// The run stops with an error.
    Fail,
}

/// Where the orchestration stands.
#[derive(Clone, Copy, Debug, PartialEq, Eq, Structural)]
pub enum Phase {
    Idle,
    UpdatingRoots,
    UpdatingTip,
    /// Awaiting suggestions, verification not yet settled.
    Verifying,
    VerifyDownloading(ScanRange),
    VerifyScanning(ScanRange),
    /// Awaiting the suggestions to slice into batches.
    Planning,
    BatchDownloading,
    BatchScanning,
    /// Rewinding after a continuity error; verification restarts next.
    Rewinding,
    Done,
    Failed,
}

/// The state of a run, as a mathematical value.
pub struct SyncState {
    pub phase: Phase,
    pub batches: Seq<ScanRange>,
    pub next: nat,
    pub batch_size: u32,
    pub margin: u32,
}

impl SyncState {
    pub open spec fn with_phase(self, phase: Phase) -> SyncState {
        SyncState { phase, ..self }
    }
}

/// The transition of the orchestration: the state after `e` and the action
/// the driver performs next.
pub open spec fn transition(s: SyncState, e: Event) -> (SyncState, Action) {
    let fail = (s.with_phase(Phase::Failed), Action::Fail);
    match (s.phase, e) {
        (Phase::Idle, Event::Started) => (s.with_phase(Phase::UpdatingRoots), Action::UpdateSubtreeRoots),
        (Phase::UpdatingRoots, Event::SubtreeRootsUpdated) => (s.with_phase(Phase::UpdatingTip), Action::UpdateChainTip),
        (Phase::UpdatingTip, Event::ChainTipUpdated) => (s.with_phase(Phase::Verifying), Action::SuggestRanges),
        (Phase::Verifying, Event::Suggested(rs)) => {
            if starts_with_verify(rs@) {
                (s.with_phase(Phase::VerifyDownloading(rs@[0])), Action::Download(rs@[0]))
            } else {
                (s.with_phase(Phase::Planning), Action::SuggestRanges)
            }
        },
        (Phase::VerifyDownloading(r), Event::Downloaded) => (s.with_phase(Phase::VerifyScanning(r)), Action::Scan(r)),
        (Phase::VerifyScanning(r), Event::Scanned(outcome)) => match outcome {
            ScanOutcome::Scanned { latest } => {
                if spec_suggestions_changed(r, latest@) {
                    (s.with_phase(Phase::Verifying), Action::SuggestRanges)
                } else {
                    (s.with_phase(Phase::Planning), Action::SuggestRanges)
                }
            },
            ScanOutcome::ContinuityError { at_height } => (
                s.with_phase(Phase::Rewinding),
                Action::Rewind(rewind_target(at_height as nat, s.margin as nat) as u32),
            ),
            ScanOutcome::Failed => fail,
        },
        (Phase::Rewinding, Event::Rewound) => (s.with_phase(Phase::Verifying), Action::SuggestRanges),
        (Phase::Planning, Event::Suggested(rs)) => {
            let bs = batched(rs@, s.batch_size as nat);
            if bs.len() == 0 {
                (SyncState { phase: Phase::Done, batches: bs, next: 0, ..s }, Action::Finish)
            } else {
                (SyncState { phase: Phase::BatchDownloading, batches: bs, next: 0, ..s }, Action::Download(bs[0]))
            }
        },
        (Phase::BatchDownloading, Event::Downloaded) => (s.with_phase(Phase::BatchScanning), Action::Scan(s.batches[s.next as int])),
        (Phase::BatchScanning, Event::Scanned(outcome)) => match outcome {
            ScanOutcome::Scanned { latest } => {
                if spec_suggestions_changed(s.batches[s.next as int], latest@) {
                    (s.with_phase(Phase::UpdatingRoots), Action::UpdateSubtreeRoots)
                } else if s.next + 1 < s.batches.len() {
                    (
                        SyncState { phase: Phase::BatchDownloading, next: s.next + 1, ..s },
                        Action::Download(s.batches[s.next + 1 as int]),
                    )
                } else {
                    (SyncState { phase: Phase::Done, next: s.next + 1, ..s }, Action::Finish)
                }
            },
            ScanOutcome::ContinuityError { at_height } => (
                s.with_phase(Phase::Rewinding),
                Action::Rewind(rewind_target(at_height as nat, s.margin as nat) as u32),
            ),
            ScanOutcome::Failed => fail,
        },
        _ => fail,
    }
}

/// While verification is pending, a suggestion list whose first range has
/// `Verify` priority has exactly that range downloaded and then scanned before
/// any other range; a list without one moves on to batch planning, and the
/// only range ever downloaded while verifying has `Verify` priority.
pub proof fn lemma_verify_first(s: SyncState, rs: Vec<ScanRange>)
    requires
        s.phase == Phase::Verifying,
    ensures
        starts_with_verify(rs@) ==> transition(s, Event::Suggested(rs)).1 == Action::Download(rs@[0])
            && transition(transition(s, Event::Suggested(rs)).0, Event::Downloaded).1 == Action::Scan(
            rs@[0],
        ),
        !starts_with_verify(rs@) ==> transition(s, Event::Suggested(rs)).0.phase == Phase::Planning
            && transition(s, Event::Suggested(rs)).1 == Action::SuggestRanges,
        forall|r: ScanRange|
            transition(s, Event::Suggested(rs)).1 == Action::Download(r) ==> r.priority
                == ScanPriority::Verify,
{
}

/// A continuity error reported while verifying or scanning a batch makes the
/// orchestrator rewind to `h - margin` clamped at zero, never above `h`; with
/// the default margin that is `h - 10`. Once rewound, verification restarts.
pub proof fn lemma_continuity_error_rewinds(s: SyncState, h: u32)
    requires
        s.phase is VerifyScanning || s.phase == Phase::BatchScanning,
    ensures
        ({
            let a = transition(s, Event::Scanned(ScanOutcome::ContinuityError { at_height: h })).1;
            &&& a == Action::Rewind(rewind_target(h as nat, s.margin as nat) as u32)
            &&& rewind_target(h as nat, s.margin as nat) <= h
            &&& s.margin == REWIND_MARGIN && h >= 10 ==> a == Action::Rewind((h - 10) as u32)
            &&& s.margin == REWIND_MARGIN && h < 10 ==> a == Action::Rewind(0)
        }),
        ({
            let t = transition(s, Event::Scanned(ScanOutcome::ContinuityError { at_height: h })).0;
            transition(t, Event::Rewound) == (s.with_phase(Phase::Verifying), Action::SuggestRanges)
        }),
{
}

/// A batch scan whose suggestions outrank the batch abandons the pass and
/// starts a new cycle, which refreshes the subtree roots and then the chain
/// tip before asking for suggestions again.
pub proof fn lemma_changed_suggestions_restart(s: SyncState, latest: Vec<ScanRange>)
    requires
        s.phase == Phase::BatchScanning,
        spec_suggestions_changed(s.batches[s.next as int], latest@),
    ensures
        ({
            let (t1, a1) = transition(s, Event::Scanned(ScanOutcome::Scanned { latest }));
            let (t2, a2) = transition(t1, Event::SubtreeRootsUpdated);
            let (t3, a3) = transition(t2, Event::ChainTipUpdated);
            &&& a1 == Action::UpdateSubtreeRoots
            &&& a2 == Action::UpdateChainTip
            &&& a3 == Action::SuggestRanges
            &&& t3.phase == Phase::Verifying
        }),
{
}

/// Whether the state lies in a pass over batches.
pub open spec fn in_scan_pass(s: SyncState) -> bool {
    s.phase == Phase::BatchDownloading || s.phase == Phase::BatchScanning
}

/// The number of reports left before a pass over batches ends, when no
/// report invalidates it.
pub open spec fn pass_measure(s: SyncState) -> nat {
    if s.phase == Phase::BatchDownloading {
        (2 * (s.batches.len() - s.next)) as nat
    } else if s.phase == Phase::BatchScanning {
        (2 * (s.batches.len() - s.next) - 1) as nat
    } else {
        0
    }
}

/// Whether `e` reports an action of a pass over batches without invalidating
/// the pass: a finished download, or a scan after which the suggestions do
/// not outrank the scanned batch.
pub open spec fn continues_pass(s: SyncState, e: Event) -> bool {
    match e {
        Event::Downloaded => s.phase == Phase::BatchDownloading,
        Event::Scanned(ScanOutcome::Scanned { latest }) => s.phase == Phase::BatchScanning
            && !spec_suggestions_changed(s.batches[s.next as int], latest@),
        _ => false,
    }
}

/// A pass over the batches of a suggestion list starts with `2 * n` reports
/// to go for `n` batches, and each report that does not invalidate it brings
/// it strictly closer to the end, which is `Done`: a pass terminates after at
/// most two reports per batch.
pub proof fn lemma_scan_pass_terminates(s: SyncState, e: Event)
    requires
        state_wf(s),
    ensures
        s.phase == Phase::Planning ==> match e {
            Event::Suggested(rs) => {
                let t = transition(s, e).0;
                &&& t.batches == batched(rs@, s.batch_size as nat)
                &&& pass_measure(t) == 2 * t.batches.len()
                &&& in_scan_pass(t) || t.phase == Phase::Done
            },
            _ => true,
        },
        in_scan_pass(s) && continues_pass(s, e) ==> {
            let t = transition(s, e).0;
            &&& state_wf(t)
            &&& in_scan_pass(t) || t.phase == Phase::Done
            &&& pass_measure(t) < pass_measure(s)
        },
{
}

/// Whether report `e` in state `s` is a batch scan after which the
/// suggestions outrank the scanned batch, which abandons the pass.
pub open spec fn invalidates_pass(s: SyncState, e: Event) -> bool {
    s.phase == Phase::BatchScanning && match e {
        Event::Scanned(ScanOutcome::Scanned { latest }) => spec_suggestions_changed(
            s.batches[s.next as int],
            latest@,
        ),
        _ => false,
    }
}

/// The state after the reports `es` from `s`, with the number of cycles
/// started along the way (each starts by refreshing the subtree roots) and
/// the number of reports that abandoned a pass over batches.
pub open spec fn run(s: SyncState, es: Seq<Event>) -> (SyncState, nat, nat)
    decreases es.len(),
{
    if es.len() == 0 {
        (s, 0, 0)
    } else {
        let (s1, cycles, abandoned) = run(s, es.drop_last());
        let (s2, a) = transition(s1, es.last());
        (
            s2,
            if a == Action::UpdateSubtreeRoots {
                cycles + 1
            } else {
                cycles
            },
            if invalidates_pass(s1, es.last()) {
                abandoned + 1
            } else {
                abandoned
            },
        )
    }
}

proof fn lemma_run_cycles(s: SyncState, es: Seq<Event>)
    requires
        s.phase == Phase::Idle,
    ensures
        run(s, es).1 + (if run(s, es).0.phase == Phase::Idle { 1nat } else { 0nat }) <= 1 + run(
            s,
            es,
        ).2,
    decreases es.len(),
{
    if es.len() > 0 {
        lemma_run_cycles(s, es.drop_last());
    }
}

/// Every cycle but the first starts after a batch scan whose suggestions
/// outrank the batch; a rewind does not start a new cycle. So over any
/// reports from a fresh run, the number of cycles is at most one more than
/// the number of such scans, and a run whose wallet stops raising the
/// priority of its suggestions runs a bounded number of cycles, each pass of
/// which ends (see `lemma_scan_pass_terminates`).
pub proof fn lemma_cycles_bounded(s: SyncState, es: Seq<Event>)
    requires
        s.phase == Phase::Idle,
    ensures
        run(s, es).1 <= 1 + run(s, es).2,
{
    lemma_run_cycles(s, es);
}

/// The orchestration of a sync run as a state machine: it decides, from what
/// the driver reports, which action comes next.
pub struct Orchestrator {
    pub phase: Phase,
    pub batches: Vec<ScanRange>,
    pub next: usize,
    pub batch_size: u32,
    pub margin: u32,
}

impl View for Orchestrator {
    type V = SyncState;

    open spec fn view(&self) -> SyncState {
        SyncState {
            phase: self.phase,
            batches: self.batches@,
            next: self.next as nat,
            batch_size: self.batch_size,
            margin: self.margin,
        }
    }
}

/// A state is well formed when the batch cursor stays within the batches,
/// and points at one while a batch is being downloaded or scanned.
pub open spec fn state_wf(s: SyncState) -> bool {
    &&& s.next <= s.batches.len()
    &&& (s.phase == Phase::BatchDownloading || s.phase == Phase::BatchScanning) ==> s.next
        < s.batches.len()
}

impl Orchestrator {
    pub open spec fn wf(&self) -> bool {
        state_wf(self@)
    }

    /// A run that has not started, slicing ranges into batches of
    /// `batch_size` blocks and rewinding `margin` blocks below a continuity
    /// error.
    pub fn new(batch_size: u32, margin: u32) -> (r: Orchestrator)
        ensures
            r.wf(),
            r@ == (SyncState { phase: Phase::Idle, batches: Seq::empty(), next: 0, batch_size, margin }),
    {
        Orchestrator { phase: Phase::Idle, batches: Vec::new(), next: 0, batch_size, margin }
    }

    pub fn is_finished(&self) -> (r: bool)
        ensures
            r == (self.phase == Phase::Done || self.phase == Phase::Failed),
    {
        match self.phase {
            Phase::Done | Phase::Failed => true,
            _ => false,
        }
    }

    fn fail(&mut self) -> (a: Action)
        requires
            old(self).wf(),
        ensures
            final(self)@ == old(self)@.with_phase(Phase::Failed),
            a == Action::Fail,
    {
        self.phase = Phase::Failed;
        Action::Fail
    }

    /// Takes the driver's report `event` of the last action and returns the
    /// next action.
    pub fn step(&mut self, event: Event) -> (a: Action)
        requires
            old(self).wf(),
        ensures
            final(self).wf(),
            (final(self)@, a) == transition(old(self)@, event),
    {
        match event {
            Event::Started => match self.phase {
                Phase::Idle => {
                    self.phase = Phase::UpdatingRoots;
                    Action::UpdateSubtreeRoots
                },
                _ => self.fail(),
            },
            Event::SubtreeRootsUpdated => match self.phase {
                Phase::UpdatingRoots => {
                    self.phase = Phase::UpdatingTip;
                    Action::UpdateChainTip
                },
                _ => self.fail(),
            },
            Event::ChainTipUpdated => match self.phase {
                Phase::UpdatingTip => {
                    self.phase = Phase::Verifying;
                    Action::SuggestRanges
                },
                _ => self.fail(),
            },
            Event::Suggested(rs) => match self.phase {
                Phase::Verifying => match range_to_verify(&rs) {
                    Some(r) => {
                        self.phase = Phase::VerifyDownloading(r);
                        Action::Download(r)
                    },
                    None => {
                        self.phase = Phase::Planning;
                        Action::SuggestRanges
                    },
                },
                Phase::Planning => {
                    let bs = batch_ranges(&rs, self.batch_size);
                    self.batches = bs;
                    self.next = 0;
                    if self.batches.len() == 0 {
                        self.phase = Phase::Done;
                        Action::Finish
                    } else {
                        self.phase = Phase::BatchDownloading;
                        Action::Download(self.batches[0])
                    }
                },
                _ => self.fail(),
            },
            Event::Downloaded => match self.phase {
                Phase::VerifyDownloading(r) => {
                    self.phase = Phase::VerifyScanning(r);
                    Action::Scan(r)
                },
                Phase::BatchDownloading => {
                    self.phase = Phase::BatchScanning;
                    Action::Scan(self.batches[self.next])
                },
                _ => self.fail(),
            },
            Event::Scanned(outcome) => match self.phase {
                Phase::VerifyScanning(r) => match outcome {
                    ScanOutcome::Scanned { latest } => {
                        if suggestions_changed(&r, &latest) {
                            self.phase = Phase::Verifying;
                        } else {
                            self.phase = Phase::Planning;
                        }
                        Action::SuggestRanges
                    },
                    ScanOutcome::ContinuityError { at_height } => {
                        self.phase = Phase::Rewinding;
                        Action::Rewind(rewind_height(at_height, self.margin))
                    },
                    ScanOutcome::Failed => self.fail(),
                },
                Phase::BatchScanning => match outcome {
                    ScanOutcome::Scanned { latest } => {
                        proof {
                            assert(self.next < self.batches.len());
                        }
                        let cur = self.batches[self.next];
                        if suggestions_changed(&cur, &latest) {
                            self.phase = Phase::UpdatingRoots;
                            Action::UpdateSubtreeRoots
                        } else if self.next + 1 < self.batches.len() {
                            self.next = self.next + 1;
                            self.phase = Phase::BatchDownloading;
                            Action::Download(self.batches[self.next])
                        } else {
                            self.next = self.next + 1;
                            self.phase = Phase::Done;
                            Action::Finish
                        }
                    },
                    ScanOutcome::ContinuityError { at_height } => {
                        self.phase = Phase::Rewinding;
                        Action::Rewind(rewind_height(at_height, self.margin))
                    },
                    ScanOutcome::Failed => self.fail(),
                },
                _ => self.fail(),
            },
            Event::Rewound => match self.phase {
                Phase::Rewinding => {
                    self.phase = Phase::Verifying;
                    Action::SuggestRanges
                },
                _ => self.fail(),
            },
        }
    }
}

} // verus!
