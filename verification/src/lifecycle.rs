//! Ownership of long-running requests. Each state machine decides which
//! request owns the state and which cancellation flags must be raised; the
//! caller holds the state under a lock, raises the flags it is handed, and
//! keeps the results. A flag is any value the caller can later raise.
use vstd::prelude::*;
use std::sync::Arc;
use std::sync::atomic::{AtomicBool, Ordering};
use crate::snapshot::{CompressionTarget, ScanSnapshot};
use crate::types::{DirectoryView, SizeMetric};

verus! {

/// The request that currently owns a cancellable request state.
#[derive(Debug)]
pub struct ActiveRequest<F> {
    pub token: u64,
    pub request_id: u64,
    pub cancel: F,
}

/// At most one estimate or search runs at a time. Each start gets a fresh
/// token; a start supersedes the running request, an explicit cancellation
/// names the request by its wire id, and only the owner of the current token
/// may finish.
#[derive(Debug)]
pub struct CancellableRequests<F> {
    pub next_token: u64,
    pub active: Option<ActiveRequest<F>>,
}

/// The token and wire id of the active request, if any.
pub open spec fn active_ids<F>(active: Option<ActiveRequest<F>>) -> Option<(u64, u64)> {
    match active {
        Some(request) => Some((request.token, request.request_id)),
        None => None,
    }
}

/// The owner after finishing with `token`: cleared only when `token` is the
/// current owner's.
pub open spec fn after_finish(owner: Option<(u64, u64)>, token: u64) -> Option<(u64, u64)> {
    match owner {
        Some((current, request_id)) => if current == token {
            None
        } else {
            Some((current, request_id))
        },
        None => None,
    }
}

/// A newer request cannot be cleared by an older one: after a start, finishing
/// any earlier token leaves the new request the owner.
pub proof fn lemma_old_finish_keeps_new_owner(next_token: u64, request_id: u64, old_token: u64)
    requires
        old_token <= next_token < u64::MAX,
    ensures
        after_finish(Some(((next_token + 1) as u64, request_id)), old_token) == Some(
            ((next_token + 1) as u64, request_id),
        ),
{
}

/// After finishing its own token, a request can no longer be cancelled by
/// its wire id.
pub proof fn lemma_finished_request_is_gone(token: u64, request_id: u64)
    ensures
        after_finish(Some((token, request_id)), token) is None,
{
}

impl<F> CancellableRequests<F> {
    /// No request yet.
    pub fn new() -> (state: Self)
        ensures
            state.next_token == 0,
            state.active is None,
    {
        CancellableRequests { next_token: 0, active: None }
    }

    /// Starts a request with its cancellation flag. It gets the next token and
    /// becomes the owner; the flag of the request it supersedes, if any, is
    /// handed back to be raised.
    pub fn begin(&mut self, request_id: u64, cancel: F) -> (r: (u64, Option<F>))
        requires
            old(self).next_token < u64::MAX,
        ensures
            r.0 == old(self).next_token + 1,
            final(self).next_token == r.0,
            active_ids(final(self).active) == Some((r.0, request_id)),
            final(self).active.unwrap().cancel == cancel,
            r.1 == (match old(self).active {
                Some(previous) => Some(previous.cancel),
                None => None::<F>,
            }),
    {
        self.next_token = self.next_token + 1;
        let token = self.next_token;
        let previous = self.active.take();
        self.active = Some(ActiveRequest { token, request_id, cancel });
        let superseded = match previous {
            Some(previous) => Some(previous.cancel),
            None => None,
        };
        (token, superseded)
    }

    /// Cancels the running request when it has this wire id: its flag is
    /// handed back to be raised; any other id is refused.
    pub fn cancel(&self, request_id: u64) -> (flag: Option<&F>)
        ensures
            flag is Some <==> (self.active matches Some(active) && active.request_id == request_id),
            flag matches Some(f) ==> *f == self.active.unwrap().cancel,
    {
        match &self.active {
            Some(active) => if active.request_id == request_id {
                Some(&active.cancel)
            } else {
                None
            },
            None => None,
        }
    }

    /// Stops the running request, if any, handing its flag back to be raised.
    pub fn cancel_active(&mut self) -> (flag: Option<F>)
        ensures
            final(self).active is None,
            final(self).next_token == old(self).next_token,
            flag == (match old(self).active {
                Some(active) => Some(active.cancel),
                None => None::<F>,
            }),
    {
        match self.active.take() {
            Some(active) => Some(active.cancel),
            None => None,
        }
    }

    /// Releases ownership when `token` is the current owner's; a finished
    /// older request leaves a newer owner in place.
    pub fn finish(&mut self, token: u64)
        ensures
            active_ids(final(self).active) == after_finish(active_ids(old(self).active), token),
            final(self).active is Some ==> final(self).active == old(self).active,
            final(self).next_token == old(self).next_token,
    {
        let owned = match &self.active {
            Some(active) => active.token == token,
            None => false,
        };
        if owned {
            self.active = None;
        }
    }
}

/// A prepared compression plan kept for confirmation, with the generation
/// that prepared it.
#[derive(Debug)]
pub struct ActiveCompressionPlan<P> {
    pub generation: u64,
    pub plan_id: u64,
    pub plan: P,
}

/// At most one compression plan is prepared or kept at a time. Each start
/// opens a new generation with a fresh plan id and cancels the previous
/// preparation; only the current generation may store its plan, and a failed
/// or cleared generation can never be confirmed.
#[derive(Debug)]
pub struct CompressionPlans<P, F> {
    pub next_id: u64,
    pub generation: u64,
    pub active: Option<ActiveCompressionPlan<P>>,
    pub cancel: Option<F>,
}

impl<P, F> CompressionPlans<P, F> {
    /// No plan yet.
    pub fn new() -> (state: Self)
        ensures
            state.next_id == 0,
            state.generation == 0,
            state.active is None,
            state.cancel is None,
    {
        CompressionPlans { next_id: 0, generation: 0, active: None, cancel: None }
    }

    /// Starts preparing a plan: a new plan id and generation, no stored plan,
    /// and this flag as the current cancellation; the previous flag, if any,
    /// is handed back to be raised.
    pub fn begin(&mut self, cancel: F) -> (r: (u64, u64, Option<F>))
        requires
            old(self).next_id < u64::MAX,
            old(self).generation < u64::MAX,
        ensures
            r.0 == old(self).next_id + 1,
            r.1 == old(self).generation + 1,
            final(self).next_id == r.0,
            final(self).generation == r.1,
            final(self).active is None,
            final(self).cancel == Some(cancel),
            r.2 == old(self).cancel,
    {
        self.next_id = self.next_id + 1;
        self.generation = self.generation + 1;
        self.active = None;
        let previous = self.cancel.take();
        self.cancel = Some(cancel);
        (self.next_id, self.generation, previous)
    }

    /// Stores a prepared plan when its generation is still current, nothing
    /// is stored yet and it was not cancelled; otherwise the plan is refused.
    pub fn finish(&mut self, generation: u64, plan_id: u64, plan: P) -> (r: Result<(), String>)
        ensures
            final(self).next_id == old(self).next_id,
            final(self).generation == old(self).generation,
            final(self).cancel == old(self).cancel,
            r is Ok <==> (old(self).generation == generation && old(self).active is None
                && old(self).cancel is Some),
            r is Ok ==> final(self).active == Some(ActiveCompressionPlan { generation, plan_id, plan }),
            r matches Err(message) ==> *final(self) == *old(self) && message@
                == "That compression plan was superseded by a newer request."@,
    {
        if self.generation != generation || self.active.is_some() || self.cancel.is_none() {
            return Err("That compression plan was superseded by a newer request.".to_string());
        }
        self.active = Some(ActiveCompressionPlan { generation, plan_id, plan });
        Ok(())
    }

    /// Abandons a preparation that failed: when its generation is current and
    /// nothing is stored, the generation moves on and the current flag is
    /// handed back to be raised; a stale failure changes nothing.
    pub fn fail(&mut self, generation: u64) -> (flag: Option<F>)
        requires
            old(self).generation < u64::MAX,
        ensures
            final(self).next_id == old(self).next_id,
            final(self).active == old(self).active,
            if old(self).generation == generation && old(self).active is None {
                &&& final(self).generation == old(self).generation + 1
                &&& final(self).cancel is None
                &&& flag == old(self).cancel
            } else {
                &&& final(self).generation == old(self).generation
                &&& final(self).cancel == old(self).cancel
                &&& flag is None
            },
    {
        if self.generation == generation && self.active.is_none() {
            let flag = self.cancel.take();
            self.generation = self.generation + 1;
            flag
        } else {
            None
        }
    }

    /// The stored plan with this id, with its generation and the current
    /// flag; a plan that is not stored, or without a flag, is unavailable.
    pub fn get(&self, plan_id: u64) -> (r: Result<(u64, &P, &F), String>)
        ensures
            r is Ok <==> (self.active matches Some(active) && active.plan_id == plan_id
                && self.cancel is Some),
            r matches Ok((generation, plan, flag)) ==> generation == self.active.unwrap().generation
                && *plan == self.active.unwrap().plan && *flag == self.cancel.unwrap(),
            r matches Err(message) ==> message@ == "That compression plan is no longer available."@,
    {
        let active = match &self.active {
            Some(active) => if active.plan_id == plan_id {
                active
            } else {
                return Err("That compression plan is no longer available.".to_string());
            },
            None => {
                return Err("That compression plan is no longer available.".to_string());
            },
        };
        match &self.cancel {
            Some(flag) => Ok((active.generation, &active.plan, flag)),
            None => Err("That compression plan is no longer available.".to_string()),
        }
    }

    /// Whether this generation still holds the stored plan with this id.
    pub fn is_current(&self, generation: u64, plan_id: u64) -> (current: bool)
        ensures
            current == (self.generation == generation && (self.active matches Some(active)
                && active.plan_id == plan_id)),
    {
        self.generation == generation && match &self.active {
            Some(active) => active.plan_id == plan_id,
            None => false,
        }
    }

    /// Forgets any plan: the generation moves on, nothing is stored, and the
    /// current flag, if any, is handed back to be raised.
    pub fn clear(&mut self) -> (flag: Option<F>)
        requires
            old(self).generation < u64::MAX,
        ensures
            final(self).next_id == old(self).next_id,
            final(self).generation == old(self).generation + 1,
            final(self).active is None,
            final(self).cancel is None,
            flag == old(self).cancel,
    {
        self.generation = self.generation + 1;
        self.active = None;
        self.cancel.take()
    }

    /// The current generation.
    pub fn generation(&self) -> (generation: u64)
        ensures
            generation == self.generation,
    {
        self.generation
    }
}

/// A cleared or failed generation can never store or confirm a plan: once
/// the generation has moved past it, finishing it is refused and it is not
/// current.
pub proof fn lemma_stale_generation_is_refused<P, F>(
    state: CompressionPlans<P, F>,
    stale: u64,
    plan_id: u64,
)
    requires
        stale < state.generation,
    ensures
        !(state.generation == stale && state.active is None && state.cancel is Some),
        !(state.generation == stale && (state.active matches Some(active) && active.plan_id
            == plan_id)),
{
}

/// The scan that is running, with its cancellation flag.
#[derive(Debug)]
pub struct ActiveScan<F> {
    pub id: u64,
    pub cancel: F,
}

/// The completed scan kept for views, with its snapshot.
#[derive(Debug)]
pub struct CompletedScan<S> {
    pub id: u64,
    pub snapshot: S,
}

/// At most one scan runs and at most one completed snapshot is kept. A new
/// scan supersedes the running one and releases the kept snapshot; only the
/// running scan may install its snapshot.
#[derive(Debug)]
pub struct ScanLifecycle<S, F> {
    pub next_id: u64,
    pub active: Option<ActiveScan<F>>,
    pub completed: Option<CompletedScan<S>>,
}

impl<S, F> ScanLifecycle<S, F> {
    /// No scan yet.
    pub fn new() -> (state: Self)
        ensures
            state.next_id == 0,
            state.active is None,
            state.completed is None,
    {
        ScanLifecycle { next_id: 0, active: None, completed: None }
    }

    /// Starts a scan: it gets the next id and becomes the running scan; the
    /// superseded scan's flag is handed back to be raised and the kept
    /// snapshot is handed back to be released.
    pub fn begin(&mut self, cancel: F) -> (r: (u64, Option<F>, Option<S>))
        requires
            old(self).next_id < u64::MAX,
        ensures
            r.0 == old(self).next_id + 1,
            final(self).next_id == r.0,
            final(self).active == Some(ActiveScan { id: r.0, cancel }),
            final(self).completed is None,
            r.1 == (match old(self).active {
                Some(previous) => Some(previous.cancel),
                None => None::<F>,
            }),
            r.2 == (match old(self).completed {
                Some(completed) => Some(completed.snapshot),
                None => None::<S>,
            }),
    {
        self.next_id = self.next_id + 1;
        let id = self.next_id;
        let released = match self.completed.take() {
            Some(completed) => Some(completed.snapshot),
            None => None,
        };
        let previous = self.active.take();
        self.active = Some(ActiveScan { id, cancel });
        let superseded = match previous {
            Some(previous) => Some(previous.cancel),
            None => None,
        };
        (id, superseded, released)
    }

    /// Cancels the running scan when it has this id, handing its flag back to
    /// be raised.
    pub fn cancel(&self, id: u64) -> (flag: Option<&F>)
        ensures
            flag is Some <==> (self.active matches Some(active) && active.id == id),
            flag matches Some(f) ==> *f == self.active.unwrap().cancel,
    {
        match &self.active {
            Some(active) => if active.id == id {
                Some(&active.cancel)
            } else {
                None
            },
            None => None,
        }
    }

    /// Ends the running scan when it has this id.
    pub fn finish(&mut self, id: u64)
        ensures
            final(self).next_id == old(self).next_id,
            final(self).completed == old(self).completed,
            final(self).active == (match old(self).active {
                Some(active) => if active.id == id {
                    None
                } else {
                    Some(active)
                },
                None => None,
            }),
    {
        let owned = match &self.active {
            Some(active) => active.id == id,
            None => false,
        };
        if owned {
            self.active = None;
        }
    }

    /// Installs a finished scan's snapshot. A scan that is no longer running
    /// is refused and gets its snapshot back; the running scan stops running,
    /// and its snapshot is kept unless its first view failed, in which case
    /// it gets the view's error and its snapshot back.
    pub fn complete(&mut self, id: u64, snapshot: S, view_error: Option<String>) -> (r: Result<
        (),
        (String, S),
    >)
        ensures
            final(self).next_id == old(self).next_id,
            match old(self).active {
                Some(active) if active.id == id => {
                    &&& final(self).active is None
                    &&& match view_error {
                        Some(message) => r == Err::<(), (String, S)>((message, snapshot))
                            && final(self).completed == old(self).completed,
                        None => r is Ok && final(self).completed == Some(
                            CompletedScan { id, snapshot },
                        ),
                    }
                },
                _ => {
                    &&& *final(self) == *old(self)
                    &&& r matches Err((message, returned)) && returned == snapshot && message@
                        == "That scan was superseded by a newer request."@
                },
            },
    {
        let running = match &self.active {
            Some(active) => active.id == id,
            None => false,
        };
        if !running {
            return Err(("That scan was superseded by a newer request.".to_string(), snapshot));
        }
        self.active = None;
        match view_error {
            Some(message) => Err((message, snapshot)),
            None => {
                self.completed = Some(CompletedScan { id, snapshot });
                Ok(())
            },
        }
    }

    /// Releases the kept snapshot of this scan, handing it back; another
    /// scan's snapshot is not released.
    pub fn detach(&mut self, id: u64) -> (r: Result<Option<S>, String>)
        ensures
            final(self).next_id == old(self).next_id,
            final(self).active == old(self).active,
            match old(self).completed {
                Some(completed) => if completed.id == id {
                    r == Ok::<Option<S>, String>(Some(completed.snapshot)) && final(self).completed is None
                } else {
                    final(self).completed == old(self).completed && (r matches Err(message)
                        && message@ == "That scan is no longer available."@)
                },
                None => r == Ok::<Option<S>, String>(None) && final(self).completed is None,
            },
    {
        let matches = match &self.completed {
            Some(completed) => completed.id == id,
            None => {
                return Ok(None);
            },
        };
        if !matches {
            return Err("That scan is no longer available.".to_string());
        }
        match self.completed.take() {
            Some(completed) => Ok(Some(completed.snapshot)),
            None => Ok(None),
        }
    }

    /// The kept snapshot of this scan.
    pub fn snapshot(&self, id: u64) -> (r: Result<&S, String>)
        ensures
            r is Ok <==> (self.completed matches Some(completed) && completed.id == id),
            r matches Ok(s) ==> *s == self.completed.unwrap().snapshot,
            r matches Err(message) ==> message@ == "That scan is no longer available."@,
    {
        match &self.completed {
            Some(completed) => if completed.id == id {
                Ok(&completed.snapshot)
            } else {
                Err("That scan is no longer available.".to_string())
            },
            None => Err("That scan is no longer available.".to_string()),
        }
    }
}

} // verus!

verus! {

/// A fresh, lowered cancellation flag and a second handle to it.
fn fresh_flag() -> (flags: (Arc<AtomicBool>, Arc<AtomicBool>))
    ensures
        flags.0 == flags.1,
{
    let flag = Arc::new(AtomicBool::new(false));
    let handle = flag.clone();
    (flag, handle)
}

/// Raises a cancellation flag for the thread that polls it.
fn raise(flag: &Arc<AtomicBool>) {
    flag.store(true, Ordering::Relaxed);
}

/// The estimate request that owns savings estimation.
#[derive(Debug)]
pub struct EstimateState {
    pub requests: CancellableRequests<Arc<AtomicBool>>,
}

impl Default for EstimateState {
    fn default() -> (state: Self)
        ensures
            state.requests.next_token == 0,
            state.requests.active is None,
    {
        EstimateState { requests: CancellableRequests::new() }
    }
}

impl EstimateState {
    /// Starts an estimate and raises the flag of the one it supersedes.
    pub fn begin(&mut self, request_id: u64) -> (r: (u64, Arc<AtomicBool>))
        requires
            old(self).requests.next_token < u64::MAX,
        ensures
            r.0 == old(self).requests.next_token + 1,
            final(self).requests.next_token == r.0,
            active_ids(final(self).requests.active) == Some((r.0, request_id)),
    {
        let (flag, handle) = fresh_flag();
        let (token, superseded) = self.requests.begin(request_id, flag);
        if let Some(previous) = superseded {
            raise(&previous);
        }
        (token, handle)
    }

    /// Cancels the running estimate when it has this wire id.
    pub fn cancel(&self, request_id: u64) -> (cancelled: bool)
        ensures
            cancelled == (self.requests.active matches Some(active) && active.request_id
                == request_id),
    {
        match self.requests.cancel(request_id) {
            Some(flag) => {
                raise(flag);
                true
            },
            None => false,
        }
    }

    /// Cancels whatever estimate runs.
    pub fn cancel_active(&mut self)
        ensures
            final(self).requests.active is None,
            final(self).requests.next_token == old(self).requests.next_token,
    {
        if let Some(flag) = self.requests.cancel_active() {
            raise(&flag);
        }
    }

    /// Releases ownership for this token.
    pub fn finish(&mut self, token: u64)
        ensures
            active_ids(final(self).requests.active) == after_finish(
                active_ids(old(self).requests.active),
                token,
            ),
            final(self).requests.next_token == old(self).requests.next_token,
    {
        self.requests.finish(token);
    }
}

/// The folder search that owns searching.
#[derive(Debug)]
pub struct SearchState {
    pub requests: CancellableRequests<Arc<AtomicBool>>,
}

impl Default for SearchState {
    fn default() -> (state: Self)
        ensures
            state.requests.next_token == 0,
            state.requests.active is None,
    {
        SearchState { requests: CancellableRequests::new() }
    }
}

impl SearchState {
    /// Starts a search and raises the flag of the one it supersedes.
    pub fn begin(&mut self, request_id: u64) -> (r: (u64, Arc<AtomicBool>))
        requires
            old(self).requests.next_token < u64::MAX,
        ensures
            r.0 == old(self).requests.next_token + 1,
            final(self).requests.next_token == r.0,
            active_ids(final(self).requests.active) == Some((r.0, request_id)),
    {
        let (flag, handle) = fresh_flag();
        let (token, superseded) = self.requests.begin(request_id, flag);
        if let Some(previous) = superseded {
            raise(&previous);
        }
        (token, handle)
    }

    /// Cancels the running search when it has this wire id.
    pub fn cancel(&self, request_id: u64) -> (cancelled: bool)
        ensures
            cancelled == (self.requests.active matches Some(active) && active.request_id
                == request_id),
    {
        match self.requests.cancel(request_id) {
            Some(flag) => {
                raise(flag);
                true
            },
            None => false,
        }
    }

    /// Cancels whatever search runs.
    pub fn cancel_active(&mut self)
        ensures
            final(self).requests.active is None,
            final(self).requests.next_token == old(self).requests.next_token,
    {
        if let Some(flag) = self.requests.cancel_active() {
            raise(&flag);
        }
    }

    /// Releases ownership for this token.
    pub fn finish(&mut self, token: u64)
        ensures
            active_ids(final(self).requests.active) == after_finish(
                active_ids(old(self).requests.active),
                token,
            ),
            final(self).requests.next_token == old(self).requests.next_token,
    {
        self.requests.finish(token);
    }
}

/// The compression plan being prepared or kept for confirmation.
#[derive(Debug)]
pub struct CompressionPlanState<P> {
    pub plans: CompressionPlans<P, Arc<AtomicBool>>,
}

impl<P> Default for CompressionPlanState<P> {
    fn default() -> (state: Self)
        ensures
            state.plans.next_id == 0,
            state.plans.generation == 0,
            state.plans.active is None,
            state.plans.cancel is None,
    {
        CompressionPlanState { plans: CompressionPlans::new() }
    }
}

impl<P> CompressionPlanState<P> {
    /// Starts preparing a plan and raises the flag of the preparation it
    /// supersedes.
    pub fn begin(&mut self) -> (r: (u64, u64, Arc<AtomicBool>))
        requires
            old(self).plans.next_id < u64::MAX,
            old(self).plans.generation < u64::MAX,
        ensures
            r.0 == old(self).plans.next_id + 1,
            r.1 == old(self).plans.generation + 1,
            final(self).plans.next_id == r.0,
            final(self).plans.generation == r.1,
            final(self).plans.active is None,
            final(self).plans.cancel is Some,
    {
        let (flag, handle) = fresh_flag();
        let (plan_id, generation, previous) = self.plans.begin(flag);
        if let Some(previous) = previous {
            raise(&previous);
        }
        (plan_id, generation, handle)
    }

    /// Stores a prepared plan of the current generation.
    pub fn finish(&mut self, generation: u64, plan_id: u64, plan: P) -> (r: Result<(), String>)
        ensures
            final(self).plans.generation == old(self).plans.generation,
            final(self).plans.next_id == old(self).plans.next_id,
            final(self).plans.cancel == old(self).plans.cancel,
            r is Ok <==> (old(self).plans.generation == generation && old(self).plans.active is None
                && old(self).plans.cancel is Some),
            r is Ok ==> final(self).plans.active == Some(
                ActiveCompressionPlan { generation, plan_id, plan },
            ),
            r matches Err(message) ==> *final(self) == *old(self) && message@
                == "That compression plan was superseded by a newer request."@,
    {
        self.plans.finish(generation, plan_id, plan)
    }

    /// Abandons a failed preparation of the current generation and raises
    /// its flag; a stale failure changes nothing.
    pub fn fail(&mut self, generation: u64)
        requires
            old(self).plans.generation < u64::MAX,
        ensures
            final(self).plans.active == old(self).plans.active,
            final(self).plans.next_id == old(self).plans.next_id,
            final(self).plans.generation == (if old(self).plans.generation == generation
                && old(self).plans.active is None {
                old(self).plans.generation + 1
            } else {
                old(self).plans.generation as int
            }),
            old(self).plans.generation == generation && old(self).plans.active is None
                ==> final(self).plans.cancel is None,
            !(old(self).plans.generation == generation && old(self).plans.active is None)
                ==> *final(self) == *old(self),
    {
        if let Some(flag) = self.plans.fail(generation) {
            raise(&flag);
        }
    }

    /// Forgets any plan and raises the current flag.
    pub fn clear(&mut self)
        requires
            old(self).plans.generation < u64::MAX,
        ensures
            final(self).plans.next_id == old(self).plans.next_id,
            final(self).plans.generation == old(self).plans.generation + 1,
            final(self).plans.active is None,
            final(self).plans.cancel is None,
    {
        if let Some(flag) = self.plans.clear() {
            raise(&flag);
        }
    }

    /// The current generation.
    pub fn generation(&self) -> (generation: u64)
        ensures
            generation == self.plans.generation,
    {
        self.plans.generation()
    }
}

/// Whether the completed scan kept for views has this id.
pub open spec fn kept<S, F>(lifecycle: ScanLifecycle<S, F>, id: u64) -> bool {
    lifecycle.completed matches Some(completed) && completed.id == id
}

/// The running scan and the completed snapshot kept for views.
#[derive(Debug)]
pub struct ScanState {
    pub lifecycle: ScanLifecycle<Arc<ScanSnapshot>, Arc<AtomicBool>>,
}

impl Default for ScanState {
    fn default() -> (state: Self)
        ensures
            state.lifecycle.next_id == 0,
            state.lifecycle.active is None,
            state.lifecycle.completed is None,
    {
        ScanState { lifecycle: ScanLifecycle::new() }
    }
}

impl ScanState {
    /// Starts a scan, raises the flag of the scan it supersedes and hands
    /// back the released snapshot.
    pub fn begin(&mut self) -> (r: (u64, Arc<AtomicBool>, Option<Arc<ScanSnapshot>>))
        requires
            old(self).lifecycle.next_id < u64::MAX,
        ensures
            r.0 == old(self).lifecycle.next_id + 1,
            final(self).lifecycle.next_id == r.0,
            final(self).lifecycle.active matches Some(active) && active.id == r.0,
            final(self).lifecycle.completed is None,
            r.2 == (match old(self).lifecycle.completed {
                Some(completed) => Some(completed.snapshot),
                None => None::<Arc<ScanSnapshot>>,
            }),
    {
        let (flag, handle) = fresh_flag();
        let (id, superseded, released) = self.lifecycle.begin(flag);
        if let Some(previous) = superseded {
            raise(&previous);
        }
        (id, handle, released)
    }

    /// Cancels the running scan when it has this id.
    pub fn cancel(&self, id: u64) -> (cancelled: bool)
        ensures
            cancelled == (self.lifecycle.active matches Some(active) && active.id == id),
    {
        match self.lifecycle.cancel(id) {
            Some(flag) => {
                raise(flag);
                true
            },
            None => false,
        }
    }

    /// Ends the running scan when it has this id.
    pub fn finish(&mut self, id: u64)
        ensures
            final(self).lifecycle.completed == old(self).lifecycle.completed,
            final(self).lifecycle.active == (match old(self).lifecycle.active {
                Some(active) => if active.id == id {
                    None
                } else {
                    Some(active)
                },
                None => None,
            }),
    {
        self.lifecycle.finish(id);
    }

    /// Installs the running scan's snapshot and answers with the root's
    /// view; a superseded scan, or one whose root cannot be viewed, gets the
    /// reason and its snapshot back.
    pub fn complete(&mut self, id: u64, snapshot: ScanSnapshot) -> (r: Result<
        DirectoryView,
        (String, Arc<ScanSnapshot>),
    >)
        ensures
            r matches Ok(view) ==> {
                &&& (old(self).lifecycle.active matches Some(active) && active.id == id)
                &&& snapshot.directory_view_result(id, 0, SizeMetric::Allocated, Ok(view))
                &&& final(self).lifecycle.active is None
                &&& (final(self).lifecycle.completed matches Some(completed) && completed.id == id
                    && *completed.snapshot == snapshot)
            },
            r matches Err((message, returned)) ==> *returned == snapshot && (if old(
                self,
            ).lifecycle.active matches Some(active) && active.id == id {
                snapshot.directory_view_result(id, 0, SizeMetric::Allocated, Err(message))
                    && final(self).lifecycle.active is None
                    && final(self).lifecycle.completed == old(self).lifecycle.completed
                    && final(self).lifecycle.next_id == old(self).lifecycle.next_id
            } else {
                message@ == "That scan was superseded by a newer request."@ && *final(self)
                    == *old(self)
            }),
    {
        let shared = Arc::new(snapshot);
        let view = shared.directory_view(id, 0);
        let handle = shared.clone();
        let error = match &view {
            Ok(_) => None,
            Err(message) => Some(message.clone()),
        };
        match self.lifecycle.complete(id, shared, error) {
            Ok(()) => match view {
                Ok(view) => Ok(view),
                Err(message) => Err((message, handle)),
            },
            Err((message, returned)) => Err((message, returned)),
        }
    }

    /// Releases the kept snapshot of this scan.
    pub fn detach(&mut self, id: u64) -> (r: Result<Option<Arc<ScanSnapshot>>, String>)
        ensures
            final(self).lifecycle.active == old(self).lifecycle.active,
            match old(self).lifecycle.completed {
                Some(completed) => if completed.id == id {
                    r == Ok::<Option<Arc<ScanSnapshot>>, String>(Some(completed.snapshot))
                        && final(self).lifecycle.completed is None
                } else {
                    final(self).lifecycle.completed == old(self).lifecycle.completed && (r matches Err(
                        message,
                    ) && message@ == "That scan is no longer available."@)
                },
                None => r == Ok::<Option<Arc<ScanSnapshot>>, String>(None)
                    && final(self).lifecycle.completed is None,
            },
            final(self).lifecycle.next_id == old(self).lifecycle.next_id,
    {
        self.lifecycle.detach(id)
    }

    /// The kept snapshot of this scan.
    pub fn snapshot(&self, id: u64) -> (r: Result<Arc<ScanSnapshot>, String>)
        ensures
            r is Ok <==> (self.lifecycle.completed matches Some(completed) && completed.id == id),
            r matches Ok(s) ==> *s == *self.lifecycle.completed.unwrap().snapshot,
            r matches Err(message) ==> message@ == "That scan is no longer available."@,
    {
        match self.lifecycle.snapshot(id) {
            Ok(snapshot) => Ok(snapshot.clone()),
            Err(message) => Err(message),
        }
    }

    /// The view of a folder of the kept scan with this id.
    pub fn directory_view(&self, id: u64, node_id: u64, metric: SizeMetric) -> (r: Result<
        DirectoryView,
        String,
    >)
        ensures
            kept(self.lifecycle, id) ==> self.lifecycle.completed->0.snapshot.directory_view_result(
                id,
                node_id,
                metric,
                r,
            ),
            !kept(self.lifecycle, id) ==> (r matches Err(message) && message@
                == "That scan is no longer available."@),
    {
        let snapshot = self.snapshot(id)?;
        snapshot.directory_view_with_metric(id, node_id, metric)
    }

    /// The path of an item of the kept scan with this id, to reveal.
    pub fn reveal_path(&self, id: u64, node_id: u64) -> (r: Result<Vec<u8>, String>)
        ensures
            kept(self.lifecycle, id) ==> self.lifecycle.completed->0.snapshot.reveal_result(
                node_id,
                r,
            ),
            !kept(self.lifecycle, id) ==> (r matches Err(message) && message@
                == "That scan is no longer available."@),
    {
        let snapshot = self.snapshot(id)?;
        snapshot.reveal_path(node_id)
    }

    /// The root path of the kept scan with this id.
    pub fn root_path(&self, id: u64) -> (r: Result<Vec<u8>, String>)
        ensures
            kept(self.lifecycle, id) ==> (r matches Ok(path) && path@
                == self.lifecycle.completed->0.snapshot.spec_root_path()),
            !kept(self.lifecycle, id) ==> (r matches Err(message) && message@
                == "That scan is no longer available."@),
    {
        let snapshot = self.snapshot(id)?;
        Ok(snapshot.root_path())
    }

    /// The compression description of an item of the kept scan with this id.
    pub fn compression_target(&self, id: u64, node_id: u64) -> (r: Result<
        CompressionTarget,
        String,
    >)
        ensures
            kept(self.lifecycle, id) ==> self.lifecycle.completed->0.snapshot.compression_target_result(
                node_id,
                r,
            ),
            !kept(self.lifecycle, id) ==> (r matches Err(message) && message@
                == "That scan is no longer available."@),
    {
        let snapshot = self.snapshot(id)?;
        snapshot.compression_target(node_id)
    }
}

/// Discards a completed scan: its kept snapshot is handed back to be
/// released, and the estimate, search and plan that belong to its views are
/// stopped. A scan other than the kept one is refused and nothing changes;
/// with no kept scan there is nothing to release.
pub fn discard_scan_state<P>(
    scan_id: u64,
    scans: &mut ScanState,
    estimates: &mut EstimateState,
    searches: &mut SearchState,
    plans: &mut CompressionPlanState<P>,
) -> (r: Result<Option<Arc<ScanSnapshot>>, String>)
    requires
        old(plans).plans.generation < u64::MAX,
    ensures
        final(scans).lifecycle.active == old(scans).lifecycle.active,
        r is Err <==> (old(scans).lifecycle.completed matches Some(completed) && completed.id
            != scan_id),
        r matches Err(message) ==> {
            &&& message@ == "That scan is no longer available."@
            &&& final(scans).lifecycle.completed == old(scans).lifecycle.completed
            &&& *final(estimates) == *old(estimates)
            &&& *final(searches) == *old(searches)
            &&& *final(plans) == *old(plans)
        },
        r is Ok ==> {
            &&& r == Ok::<Option<Arc<ScanSnapshot>>, String>(
                match old(scans).lifecycle.completed {
                    Some(completed) => Some(completed.snapshot),
                    None => None,
                },
            )
            &&& final(scans).lifecycle.completed is None
            &&& final(estimates).requests.active is None
            &&& final(searches).requests.active is None
            &&& final(plans).plans.generation == old(plans).plans.generation + 1
            &&& final(plans).plans.active is None
            &&& final(plans).plans.cancel is None
        },
{
    let snapshot = scans.detach(scan_id)?;
    estimates.cancel_active();
    searches.cancel_active();
    plans.clear();
    Ok(snapshot)
}

} // verus!
