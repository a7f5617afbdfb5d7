//! Uploading one large file in parts: which part to send next, when the parts can be put together,
//! and when the upload has to be called off.
use vstd::prelude::*;

use crate::ranking::{arranged, is_ranking, precedes};
use crate::text::decimal;
use crate::transfer::{assemble_parts, part_keys, uploaded_part, UploadedPart};
use crate::upload::{failure, Blame, Failure, UploadError, MPU_PART_CONCURRENCY};

verus! {

/// How far an upload in parts has come.
#[derive(Clone, Copy, PartialEq, Eq, Structural, Debug)]
pub enum Phase {
    /// Parts are on their way, or wait to be put together.
    Active,
    /// The server has put the parts together.
    Completed,
    /// The server was told to forget the parts.
    Aborted,
}

/// What to do next.
pub enum MultipartAction {
    /// Send the part with this number.
    Start(u64),
    /// Wait for a part that is on its way.
    Wait,
    /// Ask the server to put the parts together.
    Complete,
    /// Ask the server to forget the parts.
    Abort,
    /// Nothing: the file has arrived.
    Succeed,
    /// Nothing: the upload has failed.
    Fail,
}

/// What has happened.
pub enum MultipartEvent {
    /// The part that was to be sent is on its way.
    Started,
    /// The server has accepted a part.
    PartAccepted { number: u64, etag: String },
    /// A part could not be sent.
    PartFailed { number: u64, error: UploadError },
    /// The server has put the parts together.
    CompleteAccepted,
    /// The server did not put the parts together.
    CompleteFailed(UploadError),
    /// The server was told to forget the parts, whatever it answered.
    Aborted,
}

/// An upload in parts.
pub struct MultipartUpload {
    session: String,
    num_parts: u64,
    started: u64,
    waiting: Vec<u64>,
    collected: Vec<(u64, String)>,
    failed: Option<UploadError>,
    phase: Phase,
}

/// What an upload in parts knows.
pub struct MultipartView {
    /// The server's name for the upload.
    pub session: Seq<char>,
    pub num_parts: int,
    /// How many parts have been sent off; they are sent in order.
    pub started: int,
    /// The numbers of the parts that are on their way.
    pub waiting: Seq<int>,
    /// The parts that were accepted, in the order of their arrival, each with its tag.
    pub collected: Seq<(int, Seq<char>)>,
    /// The first failure.
    pub failed: Option<Failure>,
    pub phase: Phase,
}

/// `f`, with the upload's session where the server is to blame.
pub open spec fn noted(f: Failure, session: Seq<char>) -> Failure {
    if f.blame is Server {
        Failure { session: Some(session), ..f }
    } else {
        f
    }
}

/// What to do next. All parts are sent off before a failure counts.
pub open spec fn next_action(v: MultipartView) -> MultipartAction {
    if v.phase is Completed {
        MultipartAction::Succeed
    } else if v.phase is Aborted {
        MultipartAction::Fail
    } else if v.started < v.num_parts {
        if v.waiting.len() < MPU_PART_CONCURRENCY {
            MultipartAction::Start((v.started + 1) as u64)
        } else {
            MultipartAction::Wait
        }
    } else if v.failed is Some {
        MultipartAction::Abort
    } else if v.waiting.len() > 0 {
        MultipartAction::Wait
    } else {
        MultipartAction::Complete
    }
}

/// Whether the part with this number is on its way.
pub open spec fn awaits(v: MultipartView, number: u64) -> bool {
    v.phase is Active && v.waiting.contains(number as int)
}

/// The parts on their way but the one with this number.
pub open spec fn without(waiting: Seq<int>, number: int) -> Seq<int> {
    waiting.remove(waiting.index_of(number))
}

/// The upload after an event. What was not to be expected changes nothing.
pub open spec fn stepped(v: MultipartView, e: MultipartEvent) -> MultipartView {
    match e {
        MultipartEvent::Started => if next_action(v) is Start {
            MultipartView { started: v.started + 1, waiting: v.waiting.push(v.started + 1), ..v }
        } else {
            v
        },
        MultipartEvent::PartAccepted { number, etag } => if awaits(v, number) {
            MultipartView {
                waiting: without(v.waiting, number as int),
                collected: v.collected.push((number as int, etag@)),
                ..v
            }
        } else {
            v
        },
        MultipartEvent::PartFailed { number, error } => if awaits(v, number) {
            MultipartView {
                waiting: without(v.waiting, number as int),
                failed: if v.failed is Some {
                    v.failed
                } else {
                    Some(noted(error.deep_view(), v.session))
                },
                ..v
            }
        } else {
            v
        },
        MultipartEvent::CompleteAccepted => if next_action(v) is Complete {
            MultipartView { phase: Phase::Completed, ..v }
        } else {
            v
        },
        MultipartEvent::CompleteFailed(error) => if next_action(v) is Complete {
            MultipartView { failed: Some(noted(error.deep_view(), v.session)), ..v }
        } else {
            v
        },
        MultipartEvent::Aborted => if next_action(v) is Abort {
            MultipartView { phase: Phase::Aborted, ..v }
        } else {
            v
        },
    }
}

/// Every part that was sent off is on its way or was accepted, once, or failed; no more than a few
/// are on their way.
pub open spec fn consistent(v: MultipartView) -> bool {
    &&& 0 <= v.started <= v.num_parts <= u64::MAX
    &&& v.waiting.len() <= MPU_PART_CONCURRENCY
    &&& v.waiting.no_duplicates()
    &&& forall|k: int| 0 <= k < v.waiting.len() ==> 1 <= #[trigger] v.waiting[k] <= v.started
    &&& forall|k: int| 0 <= k < v.collected.len() ==> 1 <= (#[trigger] v.collected[k]).0 <= v.started
    &&& forall|a: int, b: int|
        0 <= a < b < v.collected.len() ==> (#[trigger] v.collected[a]).0 != (
        #[trigger] v.collected[b]).0
    &&& forall|a: int, b: int|
        0 <= a < v.waiting.len() && 0 <= b < v.collected.len() ==> #[trigger] v.waiting[a] != (
        #[trigger] v.collected[b]).0
    &&& v.failed is None ==> v.waiting.len() + v.collected.len() == v.started
    &&& v.phase is Completed ==> v.failed is None && v.started == v.num_parts && v.waiting.len()
        == 0
    &&& v.phase is Aborted ==> v.failed is Some && v.started == v.num_parts
}

/// No event makes an upload inconsistent: at no time are more parts on their way than may be, and
/// no part is sent or accepted twice.
pub proof fn steps_stay_consistent(v: MultipartView, e: MultipartEvent)
    requires
        consistent(v),
    ensures
        consistent(stepped(v, e)),
{
    let w = stepped(v, e);
    match e {
        MultipartEvent::PartAccepted { number, .. } => {
            if awaits(v, number) {
                removal_keeps(v.waiting, number as int);
                assert forall|a: int, b: int|
                    0 <= a < b < w.collected.len() implies (#[trigger] w.collected[a]).0 != (
                #[trigger] w.collected[b]).0 by {
                    if b == v.collected.len() {
                        let i = v.waiting.index_of(number as int);
                        assert(v.waiting[i] != v.collected[a].0);
                    }
                }
            }
        },
        MultipartEvent::PartFailed { number, .. } => {
            if awaits(v, number) {
                removal_keeps(v.waiting, number as int);
            }
        },
        _ => {},
    }
}

proof fn removal_keeps(s: Seq<int>, x: int)
    requires
        s.no_duplicates(),
        s.contains(x),
    ensures
        0 <= s.index_of(x) < s.len(),
        s[s.index_of(x)] == x,
        without(s, x).len() == s.len() - 1,
        without(s, x).no_duplicates(),
        forall|k: int|
            0 <= k < s.len() - 1 ==> s.contains(#[trigger] without(s, x)[k]) && without(s, x)[k]
                != x,
{
    let i = s.index_of(x);
    assert forall|k: int| 0 <= k < s.len() - 1 implies s.contains(#[trigger] without(s, x)[k])
        && without(s, x)[k] != x by {
        let j = if k < i {
            k
        } else {
            k + 1
        };
        assert(without(s, x)[k] == s[j]);
    }
}

/// What is still to be done.
pub open spec fn work_left(v: MultipartView) -> int {
    2 * (v.num_parts - v.started) + v.waiting.len() + (if v.failed is None {
        1int
    } else {
        0
    }) + (if v.phase is Active {
        1int
    } else {
        0
    })
}

/// Every event that changes anything brings the end of the upload closer.
pub proof fn events_bring_the_end_closer(v: MultipartView, e: MultipartEvent)
    requires
        consistent(v),
    ensures
        0 <= work_left(stepped(v, e)),
        stepped(v, e) != v ==> work_left(stepped(v, e)) < work_left(v),
{
    steps_stay_consistent(v, e);
    match e {
        MultipartEvent::PartAccepted { number, .. } => {
            if awaits(v, number) {
                removal_keeps(v.waiting, number as int);
            }
        },
        MultipartEvent::PartFailed { number, .. } => {
            if awaits(v, number) {
                removal_keeps(v.waiting, number as int);
            }
        },
        _ => {},
    }
}

/// The upload after the first `n` events.
pub open spec fn after(v: MultipartView, events: Seq<MultipartEvent>, n: int) -> MultipartView
    decreases n,
{
    if n <= 0 {
        v
    } else {
        stepped(after(v, events, n - 1), events[n - 1])
    }
}

/// How often the upload was called off in the first `n` events.
pub open spec fn abortions(v: MultipartView, events: Seq<MultipartEvent>, n: int) -> int
    decreases n,
{
    if n <= 0 {
        0
    } else {
        abortions(v, events, n - 1) + (if next_action(after(v, events, n - 1)) is Abort
            && events[n - 1] is Aborted {
            1int
        } else {
            0
        })
    }
}

/// A new upload.
pub open spec fn fresh(session: Seq<char>, num_parts: u64) -> MultipartView {
    MultipartView {
        session,
        num_parts: num_parts as int,
        started: 0,
        waiting: Seq::empty(),
        collected: Seq::empty(),
        failed: None,
        phase: Phase::Active,
    }
}

/// An upload that fails was called off exactly once. One that succeeds, or goes on, never was, and
/// one that succeeds had no failure.
pub proof fn failed_uploads_are_called_off(
    session: Seq<char>,
    num_parts: u64,
    events: Seq<MultipartEvent>,
    n: int,
)
    requires
        0 <= n <= events.len(),
    ensures
        ({
            let v = after(fresh(session, num_parts), events, n);
            &&& consistent(v)
            &&& next_action(v) is Fail ==> v.failed is Some && abortions(
                fresh(session, num_parts),
                events,
                n,
            ) == 1
            &&& next_action(v) is Succeed ==> v.failed is None
            &&& !(next_action(v) is Fail) ==> abortions(fresh(session, num_parts), events, n) == 0
        }),
    decreases n,
{
    if n > 0 {
        failed_uploads_are_called_off(session, num_parts, events, n - 1);
        steps_stay_consistent(after(fresh(session, num_parts), events, n - 1), events[n - 1]);
    }
}

proof fn counting_up(s: Seq<int>, n: int)
    requires
        s.len() == n,
        forall|k: int| 0 <= k < n ==> 1 <= #[trigger] s[k] <= n,
        forall|a: int, b: int| 0 <= a < b < n ==> #[trigger] s[a] < #[trigger] s[b],
    ensures
        forall|k: int| 0 <= k < n ==> #[trigger] s[k] == k + 1,
{
    assert forall|k: int| 0 <= k < n implies #[trigger] s[k] == k + 1 by {
        counts_from_below(s, n, k);
        counts_from_above(s, n, k);
    }
}

proof fn counts_from_below(s: Seq<int>, n: int, k: int)
    requires
        s.len() == n,
        0 <= k < n,
        forall|k: int| 0 <= k < n ==> 1 <= #[trigger] s[k] <= n,
        forall|a: int, b: int| 0 <= a < b < n ==> #[trigger] s[a] < #[trigger] s[b],
    ensures
        s[k] >= k + 1,
    decreases k,
{
    if k > 0 {
        counts_from_below(s, n, k - 1);
        assert(s[k - 1] < s[k]);
    }
}

proof fn counts_from_above(s: Seq<int>, n: int, k: int)
    requires
        s.len() == n,
        0 <= k < n,
        forall|k: int| 0 <= k < n ==> 1 <= #[trigger] s[k] <= n,
        forall|a: int, b: int| 0 <= a < b < n ==> #[trigger] s[a] < #[trigger] s[b],
    ensures
        s[k] <= k + 1,
    decreases n - k,
{
    if k < n - 1 {
        counts_from_above(s, n, k + 1);
        assert(s[k] < s[k + 1]);
    }
}

/// What the accepted parts are ordered by.
pub open spec fn collected_keys(collected: Seq<(int, Seq<char>)>) -> Seq<u128> {
    Seq::new(collected.len(), |k: int| (u32::MAX - (collected[k].0 as u32)) as u128)
}

/// When the server is asked to put the parts together, it is handed every part once, in the order
/// of the file.
pub proof fn completes_with_every_part_in_order(v: MultipartView, order: Seq<int>, k: int)
    requires
        consistent(v),
        next_action(v) is Complete,
        v.num_parts <= u32::MAX,
        is_ranking(collected_keys(v.collected), order),
        0 <= k < v.num_parts,
    ensures
        order.len() == v.num_parts,
        v.collected[order[k]].0 == k + 1,
{
    let keys = collected_keys(v.collected);
    let n = v.num_parts;
    let s = Seq::new(order.len(), |j: int| v.collected[order[j]].0);
    assert forall|a: int, b: int| 0 <= a < b < n implies #[trigger] s[a] < #[trigger] s[b] by {
        let i = order[a];
        let j = order[b];
        assert(precedes(keys, i, j));
        if i < j {
            assert(v.collected[i].0 != v.collected[j].0);
        } else {
            assert(v.collected[j].0 != v.collected[i].0);
        }
    }
    counting_up(s, n);
    assert(s[k] == k + 1);
}

impl View for MultipartUpload {
    type V = MultipartView;

    closed spec fn view(&self) -> MultipartView {
        MultipartView {
            session: self.session@,
            num_parts: self.num_parts as int,
            started: self.started as int,
            waiting: Seq::new(self.waiting@.len(), |k: int| self.waiting@[k] as int),
            collected: Seq::new(
                self.collected@.len(),
                |k: int| (self.collected@[k].0 as int, self.collected@[k].1@),
            ),
            failed: match self.failed {
                Some(e) => Some(e.deep_view()),
                None => None,
            },
            phase: self.phase,
        }
    }
}

impl MultipartUpload {
    pub open spec fn wf(&self) -> bool {
        consistent(self@)
    }

    /// An upload in `num_parts` parts, none of which has been sent.
    pub fn begin(session: &str, num_parts: u64) -> (u: MultipartUpload)
        ensures
            u.wf(),
            u@ == fresh(session@, num_parts),
    {
        let u = MultipartUpload {
            session: session.to_owned(),
            num_parts,
            started: 0,
            waiting: Vec::new(),
            collected: Vec::new(),
            failed: None,
            phase: Phase::Active,
        };
        assert(u@.waiting =~= Seq::empty());
        assert(u@.collected =~= Seq::empty());
        u
    }

    /// What to do next.
    pub fn action(&self) -> (a: MultipartAction)
        requires
            self.wf(),
        ensures
            a == next_action(self@),
    {
        match self.phase {
            Phase::Completed => MultipartAction::Succeed,
            Phase::Aborted => MultipartAction::Fail,
            Phase::Active => {
                if self.started < self.num_parts {
                    if self.waiting.len() < MPU_PART_CONCURRENCY {
                        MultipartAction::Start(self.started + 1)
                    } else {
                        MultipartAction::Wait
                    }
                } else if self.failed.is_some() {
                    MultipartAction::Abort
                } else if self.waiting.len() > 0 {
                    MultipartAction::Wait
                } else {
                    MultipartAction::Complete
                }
            },
        }
    }

    fn take_waiting(&mut self, number: u64) -> (found: bool)
        requires
            old(self).wf(),
        ensures
            found == awaits(old(self)@, number),
            found ==> final(self)@ == (MultipartView {
                waiting: without(old(self)@.waiting, number as int),
                ..old(self)@
            }),
            !found ==> final(self)@ == old(self)@,
    {
        if self.phase != Phase::Active {
            return false;
        }
        let ghost before = self@;
        let mut k: usize = 0;
        while k < self.waiting.len()
            invariant
                0 <= k <= self.waiting@.len(),
                before == self@,
                before == old(self)@,
                consistent(before),
                before.phase is Active,
                forall|j: int| 0 <= j < k ==> self.waiting@[j] != number,
            decreases self.waiting@.len() - k,
        {
            if self.waiting[k] == number {
                assert(before.waiting[k as int] == number as int);
                proof {
                    removal_keeps(before.waiting, number as int);
                    assert(before.waiting.index_of(number as int) == k);
                }
                self.waiting.remove(k);
                assert(self@.waiting =~= without(before.waiting, number as int));
                assert(self@.collected =~= before.collected);
                return true;
            }
            k += 1;
        }
        proof {
            assert(self@.waiting.len() == self.waiting@.len());
            if self@.waiting.contains(number as int) {
                let j = choose|j: int|
                    0 <= j < self@.waiting.len() && self@.waiting[j] == number as int;
                assert(self.waiting@[j] == number);
            }
        }
        false
    }

    /// Takes note of what has happened.
    pub fn record(&mut self, event: MultipartEvent)
        requires
            old(self).wf(),
        ensures
            final(self).wf(),
            final(self)@ == stepped(old(self)@, event),
    {
        let ghost before = self@;
        proof {
            steps_stay_consistent(before, event);
        }
        let action = self.action();
        match event {
            MultipartEvent::Started => {
                if let MultipartAction::Start(number) = action {
                    self.started = number;
                    self.waiting.push(number);
                    assert(self@.waiting =~= before.waiting.push(before.started + 1));
                    assert(self@.collected =~= before.collected);
                }
            },
            MultipartEvent::PartAccepted { number, etag } => {
                if self.take_waiting(number) {
                    let ghost taken = self@;
                    let ghost tag = etag@;
                    self.collected.push((number, etag));
                    assert(self@.collected =~= taken.collected.push((number as int, tag)));
                    assert(self@.waiting =~= taken.waiting);
                }
            },
            MultipartEvent::PartFailed { number, error } => {
                if self.take_waiting(number) {
                    let ghost taken = self@;
                    if self.failed.is_none() {
                        self.failed = Some(error.with_session(self.session.as_str()));
                    }
                    assert(self@.collected =~= taken.collected);
                    assert(self@.waiting =~= taken.waiting);
                }
            },
            MultipartEvent::CompleteAccepted => {
                if let MultipartAction::Complete = action {
                    self.phase = Phase::Completed;
                    assert(self@.collected =~= before.collected);
                    assert(self@.waiting =~= before.waiting);
                }
            },
            MultipartEvent::CompleteFailed(error) => {
                if let MultipartAction::Complete = action {
                    self.failed = Some(error.with_session(self.session.as_str()));
                    assert(self@.collected =~= before.collected);
                    assert(self@.waiting =~= before.waiting);
                }
            },
            MultipartEvent::Aborted => {
                if let MultipartAction::Abort = action {
                    self.phase = Phase::Aborted;
                    assert(self@.collected =~= before.collected);
                    assert(self@.waiting =~= before.waiting);
                }
            },
        }
    }

    /// The accepted parts in the order of the file, or why there are not enough of them.
    pub fn parts_in_order(&self) -> (r: Result<Vec<UploadedPart>, UploadError>)
        ensures
            match r {
                Ok(out) => self@.collected.len() == self@.num_parts && out@.len()
                    == self@.num_parts && exists|order: Seq<int>| #[trigger]
                    is_ranking(collected_keys(self@.collected), order) && forall|k: int|
                        0 <= k < out@.len() ==> (#[trigger] out@[k]).part_number
                            == self@.collected[order[k]].0 as u32 && out@[k].etag@
                            == self@.collected[order[k]].1,
                Err(e) => self@.collected.len() != self@.num_parts && e.deep_view() == failure(
                    Blame::Nobody,
                    "part_count_mismatch"@,
                    "Expected "@ + decimal(self@.num_parts as nat) + " parts but collected "@
                        + decimal(self@.collected.len()) + " — refusing to /complete"@,
                ),
            },
    {
        let mut parts: Vec<UploadedPart> = Vec::new();
        let mut k: usize = 0;
        while k < self.collected.len()
            invariant
                0 <= k <= self.collected@.len(),
                parts@.len() == k,
                forall|j: int|
                    0 <= j < k ==> (#[trigger] parts@[j]).part_number == self.collected@[j].0 as u32
                        && parts@[j].etag@ == self.collected@[j].1@,
            decreases self.collected@.len() - k,
        {
            parts.push(uploaded_part(self.collected[k].0, self.collected[k].1.as_str()));
            k += 1;
        }
        let ghost list = parts@;
        assert(self@.collected.len() == list.len());
        let r = assemble_parts(parts, self.num_parts);
        proof {
            if r is Ok {
                let order = choose|order: Seq<int>| #[trigger]
                    is_ranking(part_keys(list), order) && r->Ok_0@ == arranged(list, order);
                assert forall|j: int| 0 <= j < list.len() implies #[trigger] part_keys(list)[j]
                    == collected_keys(self@.collected)[j] by {
                    assert(list[j].part_number == self.collected@[j].0 as u32);
                }
                assert(part_keys(list) =~= collected_keys(self@.collected));
                assert(is_ranking(collected_keys(self@.collected), order));
            }
        }
        r
    }

    /// Why the upload failed, if it did.
    pub fn into_failure(self) -> (r: Option<UploadError>)
        ensures
            match r {
                Some(e) => self@.failed == Some(e.deep_view()),
                None => self@.failed is None,
            },
    {
        self.failed
    }
}

} // verus!
