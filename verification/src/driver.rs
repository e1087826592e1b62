//! The approved-participant set together with its write-behind driver: the
//! state machine that decides when a replication attempt starts, coalesces
//! bursts of mutations into one follow-up attempt, schedules bounded
//! jittered retries, and gives up when the retry budget is exhausted.
//!
//! The driver never performs the network exchange itself. It hands each
//! decided attempt to the host through [`ApprovedUsers::take_start`] and
//! learns of the attempt's terminal outcome through
//! [`ApprovedUsers::tick`]; both calls are synchronous and never block.

use vstd::prelude::*;

use crate::attempt::AttemptOutcome;
use crate::backoff::{backoff_delay_ms, in_backoff_window};
use crate::payload::views_of;

verus! {

/// How many retries one mutation episode may use after its original attempt
/// failed; once exceeded, the driver gives up until the next mutation.
pub const MAX_RETRIES: u8 = 3;

/// Where snapshots are replicated to; fixed for the lifetime of the set.
pub enum PersistenceMode {
    /// Replication is disabled; mutations are only kept in memory.
    Off,
    /// Snapshots are sent by PUT to this endpoint, tagged with this room id.
    Uri { uri: String, room_id: String },
}

impl View for PersistenceMode {
    type V = Option<(Seq<char>, Seq<char>)>;

    open spec fn view(&self) -> Option<(Seq<char>, Seq<char>)> {
        match self {
            PersistenceMode::Off => None,
            PersistenceMode::Uri { uri, room_id } => Some((uri@, room_id@)),
        }
    }
}

impl From<Option<(String, String)>> for PersistenceMode {
    fn from(value: Option<(String, String)>) -> (r: Self) {
        match value {
            Some((uri, room_id)) => PersistenceMode::Uri { uri, room_id },
            None => PersistenceMode::Off,
        }
    }
}

impl vstd::std_specs::convert::FromSpecImpl<Option<(String, String)>> for PersistenceMode {
    open spec fn obeys_from_spec() -> bool {
        true
    }

    open spec fn from_spec(v: Option<(String, String)>) -> Self {
        match v {
            Some((uri, room_id)) => PersistenceMode::Uri { uri, room_id },
            None => PersistenceMode::Off,
        }
    }
}

/// One decided replication attempt, for the host to perform: the snapshot it
/// must carry and how long to wait before sending it.
pub struct StartRequest {
    /// The membership at the instant the attempt was decided; later
    /// mutations do not alter it.
    pub users: Vec<String>,
    /// Milliseconds the host must wait before sending the request.
    pub delay_ms: u64,
}

/// Abstract form of a decided attempt.
#[verifier::ext_equal]
pub ghost struct PendingView {
    /// The snapshot the attempt carries, as a set of identifiers.
    pub payload: Set<Seq<char>>,
    /// The scheduled delay before the request goes out.
    pub delay_ms: u64,
}

impl View for StartRequest {
    type V = PendingView;

    open spec fn view(&self) -> PendingView {
        PendingView { payload: views_of(self.users@).to_set(), delay_ms: self.delay_ms }
    }
}

/// Abstract state of the set together with its driver.
#[verifier::ext_equal]
pub ghost struct DriverView {
    /// Current membership.
    pub members: Set<Seq<char>>,
    /// The configured replication target, as endpoint and room id, or
    /// `None` when replication is disabled.
    pub target: Option<(Seq<char>, Seq<char>)>,
    /// Whether an attempt is outstanding: decided, running, or waiting out
    /// a retry delay.
    pub busy: bool,
    /// Whether a mutation arrived while an attempt was outstanding.
    pub dirty: bool,
    /// Failures counted toward the retry budget in the current episode.
    pub retries: u8,
    /// An attempt decided but not yet handed to the host.
    pub pending: Option<PendingView>,
}

impl DriverView {
    /// Whether a replication target is configured at all.
    pub open spec fn enabled(self) -> bool {
        self.target is Some
    }
}

/// What one call to `tick` observed and did; the host's observability
/// signals hang off these.
#[derive(Clone, Copy, Debug, PartialEq, Eq, Structural)]
pub enum TickReport {
    /// No attempt is outstanding.
    Idle,
    /// The outstanding attempt has not finished yet.
    Running,
    /// The attempt succeeded and nothing was pending: the driver settled.
    Persisted,
    /// A mutation had arrived during the attempt: a fresh attempt carrying
    /// the newest snapshot was decided immediately.
    FollowUp,
    /// The attempt failed; another attempt was scheduled after a jittered
    /// exponential backoff delay.
    RetryScheduled,
    /// The retry budget is exhausted; the driver stops deciding attempts
    /// until the next mutation.
    GaveUp,
    /// The exchange could not complete at all; deliberately not retried.
    TransportDropped,
    /// The attempt finished without an observable result; an internal
    /// anomaly, not retried.
    Anomaly,
}

/// The driver state after settling with no attempt outstanding.
pub open spec fn settled(pre: DriverView, retries: u8) -> DriverView {
    DriverView { busy: false, dirty: false, retries, pending: None, ..pre }
}

/// How a tick that reaps a finished attempt transforms the driver state.
pub open spec fn tick_step(
    pre: DriverView,
    outcome: AttemptOutcome,
    post: DriverView,
    report: TickReport,
) -> bool {
    &&& post.members == pre.members
    &&& post.target == pre.target
    &&& if pre.dirty {
        // a mutation arrived during the attempt: whatever the outcome, start
        // exactly one follow-up carrying the newest snapshot, immediately
        &&& report == TickReport::FollowUp
        &&& post == (DriverView {
            dirty: false,
            busy: true,
            retries: 0u8,
            pending: Some(PendingView { payload: pre.members, delay_ms: 0u64 }),
            ..pre
        })
    } else {
        match outcome {
            AttemptOutcome::Success => {
                report == TickReport::Persisted && post == settled(pre, 0u8)
            },
            AttemptOutcome::Rejected => {
                if pre.retries < MAX_RETRIES {
                    &&& report == TickReport::RetryScheduled
                    &&& post.busy
                    &&& !post.dirty
                    &&& post.retries == pre.retries + 1
                    &&& post.pending matches Some(p) && p.payload == pre.members
                        && in_backoff_window(post.retries as nat, p.delay_ms as int)
                } else {
                    report == TickReport::GaveUp && post == settled(pre, (pre.retries + 1) as u8)
                }
            },
            AttemptOutcome::TransportFailure => {
                report == TickReport::TransportDropped && post == settled(pre, pre.retries)
            },
            AttemptOutcome::NoResult => {
                report == TickReport::Anomaly && post == settled(pre, pre.retries)
            },
        }
    }
}

/// How the driver reacts to a mutation that actually changed the membership
/// to `now`: idle and enabled, it decides a fresh attempt at once; busy, it
/// only records that a follow-up is owed; disabled, it keeps the membership
/// and never decides an attempt.
pub open spec fn mutation_step(pre: DriverView, now: Set<Seq<char>>, post: DriverView) -> bool {
    if !pre.enabled() {
        post == (DriverView { members: now, retries: 0u8, ..pre })
    } else if pre.busy {
        post == (DriverView { members: now, dirty: true, ..pre })
    } else {
        post == (DriverView {
            members: now,
            target: pre.target,
            busy: true,
            dirty: false,
            retries: 0u8,
            pending: Some(PendingView { payload: now, delay_ms: 0u64 }),
        })
    }
}

/// The host accepted a decided attempt and launched it.
pub open spec fn launch_step(pre: DriverView, post: DriverView) -> bool {
    &&& pre.busy
    &&& pre.pending is Some
    &&& post == (DriverView { pending: None, ..pre })
}

/// The host could not launch the decided attempt (no background context):
/// the attempt is skipped and the driver falls back to idle; the very next
/// mutation re-arms replication.
pub open spec fn skip_step(pre: DriverView, post: DriverView) -> bool {
    &&& pre.pending is Some
    &&& post == (DriverView { pending: None, busy: false, dirty: false, ..pre })
}

/// Law: a mutation on an idle, enabled driver makes it busy and decides an
/// immediate attempt whose payload equals the full membership as the
/// mutation left it, with a fresh retry budget.
pub proof fn lemma_idle_mutation_starts_attempt(
    pre: DriverView,
    now: Set<Seq<char>>,
    post: DriverView,
)
    requires
        pre.enabled(),
        !pre.busy,
        mutation_step(pre, now, post),
    ensures
        post.busy,
        post.retries == 0,
        post.pending == Some(PendingView { payload: now, delay_ms: 0u64 }),
{
}

/// Law: after a successful attempt with no pending mutation the driver
/// settles: it is no longer busy, decides no further attempt, and the retry
/// counter is reset.
pub proof fn lemma_success_settles(pre: DriverView, post: DriverView, report: TickReport)
    requires
        !pre.dirty,
        tick_step(pre, AttemptOutcome::Success, post, report),
    ensures
        report == TickReport::Persisted,
        !post.busy,
        post.pending is None,
        post.retries == 0,
{
}

/// Law: after a successful attempt with a pending mutation a fresh attempt
/// is decided immediately (delay zero), carrying the newest membership,
/// with the retry counter reset.
pub proof fn lemma_success_with_pending_mutation(
    pre: DriverView,
    post: DriverView,
    report: TickReport,
)
    requires
        pre.dirty,
        tick_step(pre, AttemptOutcome::Success, post, report),
    ensures
        report == TickReport::FollowUp,
        post.busy,
        post.retries == 0,
        post.pending == Some(PendingView { payload: pre.members, delay_ms: 0u64 }),
{
}

/// Law: a rejected attempt, while the retry budget is not yet exhausted,
/// bumps the retry counter by exactly one and schedules the next attempt no
/// earlier than `2^n` and strictly before `2^(n+1)` seconds later, where
/// `n` is the new retry count.
pub proof fn lemma_retry_backoff_window(pre: DriverView, post: DriverView, report: TickReport)
    requires
        !pre.dirty,
        pre.retries < MAX_RETRIES,
        tick_step(pre, AttemptOutcome::Rejected, post, report),
    ensures
        report == TickReport::RetryScheduled,
        post.retries == pre.retries + 1,
        post.pending matches Some(p) && p.payload == pre.members && in_backoff_window(
            post.retries as nat,
            p.delay_ms as int,
        ),
{
}

/// Law: one mutation episode gets one original attempt and three retries;
/// the fourth consecutive rejection makes the driver give up, with no
/// further attempt decided until the next mutation.
pub proof fn lemma_retry_budget_exhaustion(
    v0: DriverView,
    v1: DriverView,
    v2: DriverView,
    v3: DriverView,
    v4: DriverView,
    v5: DriverView,
    v6: DriverView,
    v7: DriverView,
    r1: TickReport,
    r2: TickReport,
    r3: TickReport,
    r4: TickReport,
)
    requires
        v0.busy && !v0.dirty && v0.pending is None && v0.retries == 0,
        tick_step(v0, AttemptOutcome::Rejected, v1, r1),
        launch_step(v1, v2),
        tick_step(v2, AttemptOutcome::Rejected, v3, r2),
        launch_step(v3, v4),
        tick_step(v4, AttemptOutcome::Rejected, v5, r3),
        launch_step(v5, v6),
        tick_step(v6, AttemptOutcome::Rejected, v7, r4),
    ensures
        r1 == TickReport::RetryScheduled,
        r2 == TickReport::RetryScheduled,
        r3 == TickReport::RetryScheduled,
        r4 == TickReport::GaveUp,
        !v7.busy,
        v7.pending is None,
{
}

/// Law: a transport-level failure never bumps the retry counter (so it
/// never lengthens the backoff delay sequence) and never causes a follow-up
/// attempt by itself.
pub proof fn lemma_transport_failure_not_retried(
    pre: DriverView,
    post: DriverView,
    report: TickReport,
)
    requires
        !pre.dirty,
        tick_step(pre, AttemptOutcome::TransportFailure, post, report),
    ensures
        report == TickReport::TransportDropped,
        post.retries == pre.retries,
        post.pending is None,
        !post.busy,
{
}

/// Law: mutations that arrive while an attempt is outstanding decide no
/// second attempt themselves; whatever the outstanding attempt's outcome,
/// exactly one follow-up is then decided, and its payload is the membership
/// as left by every mutation applied before it starts.
pub proof fn lemma_mutations_coalesce(
    pre: DriverView,
    m1: Set<Seq<char>>,
    v1: DriverView,
    m2: Set<Seq<char>>,
    v2: DriverView,
    outcome: AttemptOutcome,
    post: DriverView,
    report: TickReport,
)
    requires
        pre.enabled() && pre.busy && pre.pending is None,
        mutation_step(pre, m1, v1),
        mutation_step(v1, m2, v2),
        tick_step(v2, outcome, post, report),
    ensures
        v1.pending is None && v2.pending is None,
        report == TickReport::FollowUp,
        post.pending == Some(PendingView { payload: m2, delay_ms: 0u64 }),
        post.retries == 0,
        post.busy,
{
}

proof fn lemma_to_set_push<A>(s: Seq<A>, x: A)
    ensures
        s.push(x).to_set() =~= s.to_set().insert(x),
{
    assert forall|y: A| s.push(x).to_set().contains(y) implies s.to_set().insert(x).contains(
        y,
    ) by {
        let i = choose|i: int| 0 <= i < s.push(x).len() && s.push(x)[i] == y;
        if i < s.len() {
            assert(s[i] == y);
        }
    }
    assert forall|y: A| s.to_set().insert(x).contains(y) implies s.push(x).to_set().contains(
        y,
    ) by {
        if s.to_set().contains(y) {
            let i = choose|i: int| 0 <= i < s.len() && s[i] == y;
            assert(s.push(x)[i] == y);
        } else {
            assert(s.push(x)[s.len() as int] == x);
        }
    }
}

proof fn lemma_to_set_remove_unique<A>(s: Seq<A>, i: int)
    requires
        s.no_duplicates(),
        0 <= i < s.len(),
    ensures
        s.remove(i).to_set() =~= s.to_set().remove(s[i]),
        s.remove(i).no_duplicates(),
{
    assert forall|y: A| s.remove(i).to_set().contains(y) implies s.to_set().remove(s[i]).contains(
        y,
    ) by {
        let j = choose|j: int| 0 <= j < s.remove(i).len() && s.remove(i)[j] == y;
        let k = if j < i {
            j
        } else {
            j + 1
        };
        assert(s[k] == y);
        assert(k != i);
    }
    assert forall|y: A| s.to_set().remove(s[i]).contains(y) implies s.remove(i).to_set().contains(
        y,
    ) by {
        let k = choose|k: int| 0 <= k < s.len() && s[k] == y;
        assert(k != i);
        let j = if k < i {
            k
        } else {
            k - 1
        };
        assert(s.remove(i)[j] == y);
    }
    assert forall|p: int, q: int|
        0 <= p < s.remove(i).len() && 0 <= q < s.remove(i).len() && p != q implies s.remove(i)[p]
        != s.remove(i)[q] by {
        let p0 = if p < i {
            p
        } else {
            p + 1
        };
        let q0 = if q < i {
            q
        } else {
            q + 1
        };
        assert(s.remove(i)[p] == s[p0]);
        assert(s.remove(i)[q] == s[q0]);
    }
}

fn clone_ids(v: &Vec<String>) -> (r: Vec<String>)
    ensures
        r@ == v@,
{
    let mut r: Vec<String> = Vec::new();
    let mut i: usize = 0;
    while i < v.len()
        invariant
            i <= v@.len(),
            r@ == v@.take(i as int),
        decreases v@.len() - i,
    {
        r.push(v[i].clone());
        proof {
            assert(v@.take(i as int + 1) =~= v@.take(i as int).push(v@[i as int]));
        }
        i = i + 1;
    }
    proof {
        assert(v@.take(v@.len() as int) =~= v@);
    }
    r
}

fn find_id(v: &Vec<String>, value: &String) -> (r: Option<usize>)
    ensures
        match r {
            Some(i) => i < v@.len() && v@[i as int]@ == value@ && views_of(v@).to_set().contains(
                value@,
            ),
            None => !views_of(v@).to_set().contains(value@),
        },
{
    let mut i: usize = 0;
    while i < v.len()
        invariant
            i <= v@.len(),
            forall|j: int| 0 <= j < i ==> v@[j]@ != value@,
        decreases v@.len() - i,
    {
        if v[i] == *value {
            proof {
                assert(views_of(v@)[i as int] == value@);
                assert(views_of(v@).contains(value@));
            }
            return Some(i);
        }
        i = i + 1;
    }
    proof {
        assert(!views_of(v@).contains(value@)) by {
            if views_of(v@).contains(value@) {
                let j = choose|j: int|
                    0 <= j < views_of(v@).len() && views_of(v@)[j] == value@;
                assert(v@[j]@ == value@);
            }
        }
    }
    None
}

/// The authoritative set of approved identifiers for one room, together
/// with its write-behind driver. Intended for a single owner: the host
/// serializes all calls into it.
pub struct ApprovedUsers {
    set: Vec<String>,
    in_flight: bool,
    modified: bool,
    persistence_mode: PersistenceMode,
    retry_count: u8,
    pending_start: Option<StartRequest>,
}

impl View for ApprovedUsers {
    type V = DriverView;

    closed spec fn view(&self) -> DriverView {
        DriverView {
            members: views_of(self.set@).to_set(),
            target: self.persistence_mode@,
            busy: self.in_flight,
            dirty: self.modified,
            retries: self.retry_count,
            pending: match self.pending_start {
                Some(r) => Some(r@),
                None => None,
            },
        }
    }
}

impl ApprovedUsers {
    /// Internal consistency: the member list holds no duplicate identifier,
    /// a follow-up is only owed and an attempt only decided while one is
    /// outstanding, a disabled target never has one outstanding, and the
    /// retry counter stays within budget while one is.
    pub closed spec fn wf(self) -> bool {
        &&& views_of(self.set@).no_duplicates()
        &&& (self@.dirty ==> self@.busy)
        &&& (self@.pending is Some ==> self@.busy)
        &&& (!self@.enabled() ==> !self@.busy && !self@.dirty)
        &&& (self@.busy ==> self@.retries <= MAX_RETRIES)
    }

    /// Creates the set seeded with the given identifiers (duplicates
    /// collapse) and an idle driver aimed at the given target; `None`
    /// disables replication.
    pub fn new(users: Vec<String>, uri_and_room_id: Option<(String, String)>) -> (r: Self)
        ensures
            r.wf(),
            r@.members == views_of(users@).to_set(),
            r@.target == (match uri_and_room_id {
                Some((uri, room_id)) => Some((uri@, room_id@)),
                None => None::<(Seq<char>, Seq<char>)>,
            }),
            !r@.busy,
            !r@.dirty,
            r@.retries == 0,
            r@.pending is None,
    {
        let mut set: Vec<String> = Vec::new();
        let mut i: usize = 0;
        while i < users.len()
            invariant
                i <= users@.len(),
                views_of(set@).no_duplicates(),
                views_of(set@).to_set() == views_of(users@.take(i as int)).to_set(),
            decreases users@.len() - i,
        {
            proof {
                assert(views_of(users@.take(i as int + 1)) =~= views_of(
                    users@.take(i as int),
                ).push(users@[i as int]@));
                lemma_to_set_push(views_of(users@.take(i as int)), users@[i as int]@);
            }
            match find_id(&set, &users[i]) {
                Some(_) => {
                    proof {
                        assert(views_of(users@.take(i as int + 1)).to_set() =~= views_of(
                            set@,
                        ).to_set());
                    }
                },
                None => {
                    let ghost old_set = set@;
                    set.push(users[i].clone());
                    proof {
                        assert(views_of(set@) =~= views_of(old_set).push(users@[i as int]@));
                        lemma_to_set_push(views_of(old_set), users@[i as int]@);
                        assert(views_of(set@).no_duplicates()) by {
                            assert(forall|j: int|
                                0 <= j < views_of(old_set).len() ==> views_of(old_set)[j]
                                    != users@[i as int]@);
                        }
                        assert(views_of(set@).to_set() =~= views_of(
                            users@.take(i as int + 1),
                        ).to_set());
                    }
                },
            }
            i = i + 1;
        }
        proof {
            assert(users@.take(users@.len() as int) =~= users@);
        }
        ApprovedUsers {
            set,
            in_flight: false,
            modified: false,
            persistence_mode: PersistenceMode::from(uri_and_room_id),
            retry_count: 0,
            pending_start: None,
        }
    }

    /// Pure membership test.
    pub fn contains(&self, value: &String) -> (r: bool)
        ensures
            r == self@.members.contains(value@),
    {
        find_id(&self.set, value).is_some()
    }

    /// Whether no identifier is approved.
    pub fn is_empty(&self) -> (r: bool)
        ensures
            r == self@.members.is_empty(),
    {
        let r = self.set.len() == 0;
        proof {
            if self.set@.len() == 0 {
                assert(views_of(self.set@).to_set() =~= Set::<Seq<char>>::empty()) by {
                    assert forall|y: Seq<char>| !views_of(self.set@).to_set().contains(y) by {
                        assert(!views_of(self.set@).contains(y));
                    }
                }
            } else {
                assert(views_of(self.set@)[0] == self.set@[0]@);
                assert(views_of(self.set@).contains(self.set@[0]@));
                assert(self@.members.contains(self.set@[0]@));
            }
        }
        r
    }

    /// Whether an attempt is outstanding; the host keeps polling `tick`
    /// while this holds.
    pub fn is_busy(&self) -> (r: bool)
        ensures
            r == self@.busy,
    {
        self.in_flight
    }

    /// Failures counted toward the retry budget in the current episode.
    pub fn retry_count(&self) -> (r: u8)
        ensures
            r == self@.retries,
    {
        self.retry_count
    }

    /// The configured replication target.
    pub fn mode(&self) -> (r: &PersistenceMode)
        ensures
            r@ == self@.target,
    {
        &self.persistence_mode
    }

    /// Decides a replication attempt carrying the current membership, to go
    /// out after `delay_ms`; does nothing when the target is disabled.
    fn start(&mut self, delay_ms: u64)
        requires
            old(self).wf(),
            old(self)@.retries <= MAX_RETRIES,
        ensures
            final(self).wf(),
            final(self)@.members == old(self)@.members,
            final(self)@.target == old(self)@.target,
            final(self)@.dirty == old(self)@.dirty,
            final(self)@.retries == old(self)@.retries,
            !old(self)@.enabled() ==> *final(self) == *old(self),
            old(self)@.enabled() ==> final(self)@.busy && final(self)@.pending == Some(
                PendingView { payload: old(self)@.members, delay_ms },
            ),
    {
        let enabled = match &self.persistence_mode {
            PersistenceMode::Off => false,
            PersistenceMode::Uri { .. } => true,
        };
        if enabled {
            let snapshot = clone_ids(&self.set);
            self.pending_start = Some(StartRequest { users: snapshot, delay_ms });
            self.in_flight = true;
        }
    }

    /// Reacts to a mutation that actually changed the membership: start an
    /// attempt at once when idle, otherwise only note that a follow-up is
    /// owed.
    fn notify_modified(&mut self)
        requires
            old(self).wf(),
        ensures
            final(self).wf(),
            mutation_step(old(self)@, old(self)@.members, final(self)@),
    {
        if self.in_flight {
            self.modified = true;
        } else {
            self.retry_count = 0;
            self.start(0);
        }
    }

    /// Adds an identifier and reports whether it was newly added. A genuine
    /// addition notifies the driver; adding an identifier already present
    /// is a complete no-op and never starts an attempt.
    pub fn insert(&mut self, value: String) -> (r: bool)
        requires
            old(self).wf(),
        ensures
            final(self).wf(),
            r == !old(self)@.members.contains(value@),
            !r ==> *final(self) == *old(self),
            r ==> mutation_step(old(self)@, old(self)@.members.insert(value@), final(self)@),
    {
        let ghost vv = value@;
        match find_id(&self.set, &value) {
            Some(_) => false,
            None => {
                let ghost old_set = self.set@;
                self.set.push(value);
                proof {
                    assert(views_of(self.set@) =~= views_of(old_set).push(vv));
                    lemma_to_set_push(views_of(old_set), vv);
                    assert(views_of(self.set@).no_duplicates()) by {
                        assert(forall|j: int|
                            0 <= j < views_of(old_set).len() ==> views_of(old_set)[j] != vv);
                    }
                }
                self.notify_modified();
                true
            },
        }
    }

    /// Removes an identifier and reports whether it was present. A genuine
    /// removal notifies the driver; removing an identifier not present is a
    /// complete no-op and never starts an attempt.
    pub fn remove(&mut self, value: &String) -> (r: bool)
        requires
            old(self).wf(),
        ensures
            final(self).wf(),
            r == old(self)@.members.contains(value@),
            !r ==> *final(self) == *old(self),
            r ==> mutation_step(old(self)@, old(self)@.members.remove(value@), final(self)@),
    {
        match find_id(&self.set, value) {
            None => false,
            Some(i) => {
                proof {
                    lemma_to_set_remove_unique(views_of(self.set@), i as int);
                }
                let ghost old_set = self.set@;
                self.set.remove(i);
                proof {
                    assert(views_of(self.set@) =~= views_of(old_set).remove(i as int));
                }
                self.notify_modified();
                true
            },
        }
    }

    /// Hands the host the attempt the driver decided on, if any. The host
    /// says whether it can run background work at all: when it cannot, the
    /// decided attempt is skipped and the driver falls back to idle, to be
    /// re-armed by the very next mutation.
    pub fn take_start(&mut self, runtime_available: bool) -> (r: Option<StartRequest>)
        requires
            old(self).wf(),
        ensures
            final(self).wf(),
            old(self)@.pending is None ==> *final(self) == *old(self) && r is None,
            old(self)@.pending is Some && runtime_available ==> launch_step(
                old(self)@,
                final(self)@,
            ) && (r matches Some(req) && req@ == old(self)@.pending->Some_0),
            old(self)@.pending is Some && !runtime_available ==> skip_step(
                old(self)@,
                final(self)@,
            ) && r is None,
    {
        if self.pending_start.is_some() {
            let req = self.pending_start.take();
            if runtime_available {
                req
            } else {
                self.in_flight = false;
                self.modified = false;
                None
            }
        } else {
            None
        }
    }

    /// Polls the driver with what the host observed of the launched
    /// attempt: `None` while it has not finished, or its terminal outcome.
    /// Interprets the outcome, decides the coalesced follow-up or a backoff
    /// retry, gives up past the retry budget, or settles.
    pub fn tick(&mut self, completion: Option<AttemptOutcome>) -> (report: TickReport)
        requires
            old(self).wf(),
        ensures
            final(self).wf(),
            if old(self)@.busy && old(self)@.pending is None && completion is Some {
                tick_step(old(self)@, completion->Some_0, final(self)@, report)
            } else {
                *final(self) == *old(self) && report == (if old(self)@.busy {
                    TickReport::Running
                } else {
                    TickReport::Idle
                })
            },
    {
        if !self.in_flight {
            return TickReport::Idle;
        }
        if self.pending_start.is_some() {
            // the decided attempt was never handed out, so nothing can have
            // finished; the host has nothing to report yet
            return TickReport::Running;
        }
        match completion {
            None => TickReport::Running,
            Some(outcome) => {
                if self.modified {
                    self.modified = false;
                    self.retry_count = 0;
                    self.start(0);
                    TickReport::FollowUp
                } else {
                    match outcome {
                        AttemptOutcome::Success => {
                            self.in_flight = false;
                            self.retry_count = 0;
                            TickReport::Persisted
                        },
                        AttemptOutcome::Rejected => {
                            if self.retry_count < MAX_RETRIES {
                                self.retry_count = self.retry_count + 1;
                                let d = backoff_delay_ms(self.retry_count);
                                self.start(d);
                                TickReport::RetryScheduled
                            } else {
                                self.retry_count = self.retry_count + 1;
                                self.in_flight = false;
                                TickReport::GaveUp
                            }
                        },
                        AttemptOutcome::TransportFailure => {
                            self.in_flight = false;
                            TickReport::TransportDropped
                        },
                        AttemptOutcome::NoResult => {
                            self.in_flight = false;
                            TickReport::Anomaly
                        },
                    }
                }
            },
        }
    }
}

} // verus!
