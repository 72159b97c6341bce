//! The adapter capability and the exclusive boundary around it.
//!
//! An [`Adapter`] supplies the three hooks of the request pipeline —
//! `precommit` rewrites the outgoing request, `postcommit` rewrites the
//! raw response, `notify` hears about each operation — and each
//! implementation pins its behaviour down with its own spec functions,
//! so callers reason exactly about what a given adapter does.  The
//! default adapter passes everything through unchanged.
//!
//! The embedded runtime the hooks call into is not safely reentrant, so
//! every hook invocation must hold the [`RuntimeBoundary`] exclusively
//! and give it back on every exit path, hook failure included; the
//! helpers at the bottom make that discipline a verified fact.

use vstd::prelude::*;

verus! {

use crate::node::HttpVerb;

/// A hook invocation failed inside caller-supplied code.  The pipeline
/// run it belongs to is abandoned; nothing else is harmed.
#[derive(Clone, Copy, PartialEq, Eq, Structural, Debug)]
pub struct HookError;

/// Which dispatcher operation a notify hook is told about.
#[derive(Clone, Copy, PartialEq, Eq, Structural, Debug)]
pub enum FsOp {
    Lookup,
    Getattr,
    Read,
    Readdir,
    Update,
}

/// The mutable input and output of the precommit stage: one outbound
/// exchange about to happen.  Header keys are expected to be unique.
#[derive(Clone, PartialEq, Eq, Debug)]
pub struct PendingRequest {
    pub verb: HttpVerb,
    pub headers: Vec<(String, String)>,
    pub url: String,
    pub body: String,
}

impl PendingRequest {
    /// The header mapping is a mapping: no key appears twice.
    pub open spec fn wf(&self) -> bool {
        forall|j: int, k: int|
            0 <= j < k < self.headers@.len() ==> self.headers@[j].0@ != self.headers@[k].0@
    }
}

/// What the transport stage brought back: a status in the full range
/// the protocol allows (100–599) and the raw body.
#[derive(Clone, PartialEq, Eq, Debug)]
pub struct Response {
    pub status: u16,
    pub body: String,
}

impl Response {
    /// Whether this status persists content into the table.
    pub open spec fn spec_is_success(&self) -> bool {
        200 <= self.status < 300
    }

    /// Tests for the success range (2xx).
    pub fn is_success(&self) -> (r: bool)
        ensures
            r == self.spec_is_success(),
    {
        200 <= self.status && self.status < 300
    }
}

/// The caller-supplied capability behind the pipeline.  Each hook is a
/// deterministic function of the adapter and its input, described by the
/// implementation's own spec functions; a hook may fail, and the core
/// degrades that to a [`HookError`] for the one call.
pub trait Adapter: Sized {
    /// What `precommit` answers for a given request.
    spec fn precommit_spec(&self, req: PendingRequest) -> Result<PendingRequest, HookError>;

    /// What `postcommit` answers for a given response.
    spec fn postcommit_spec(&self, resp: Response) -> Result<Response, HookError>;

    /// What `notify` answers for a given operation and path.
    spec fn notify_spec(&self, op: FsOp, path: Seq<char>) -> Result<(), HookError>;

    /// Every implementation owes this: a rewritten request still has
    /// unique header keys.
    proof fn precommit_preserves_wf(&self, req: PendingRequest)
        requires
            req.wf(),
            self.precommit_spec(req) is Ok,
        ensures
            self.precommit_spec(req)->Ok_0.wf(),
    ;

    /// First pipeline stage: may rewrite any field of the outbound
    /// request.
    fn precommit(&self, req: PendingRequest) -> (r: Result<PendingRequest, HookError>)
        ensures
            r == self.precommit_spec(req),
    ;

    /// Third pipeline stage: may rewrite the status and body before the
    /// outcome is persisted.
    fn postcommit(&self, resp: Response) -> (r: Result<Response, HookError>)
        ensures
            r == self.postcommit_spec(resp),
    ;

    /// Fire-and-forget notice that an operation is being dispatched.
    fn notify(&self, op: FsOp, path: &String) -> (r: Result<(), HookError>)
        ensures
            r == self.notify_spec(op, path@),
    ;
}

/// The adapter used when the caller installs nothing: every hook is the
/// identity, every notice succeeds.
pub struct DefaultAdapter;

impl Adapter for DefaultAdapter {
    open spec fn precommit_spec(&self, req: PendingRequest) -> Result<PendingRequest, HookError> {
        Ok(req)
    }

    open spec fn postcommit_spec(&self, resp: Response) -> Result<Response, HookError> {
        Ok(resp)
    }

    open spec fn notify_spec(&self, op: FsOp, path: Seq<char>) -> Result<(), HookError> {
        Ok(())
    }

    proof fn precommit_preserves_wf(&self, req: PendingRequest) {
    }

    fn precommit(&self, req: PendingRequest) -> (r: Result<PendingRequest, HookError>) {
        Ok(req)
    }

    fn postcommit(&self, resp: Response) -> (r: Result<Response, HookError>) {
        Ok(resp)
    }

    fn notify(&self, op: FsOp, path: &String) -> (r: Result<(), HookError>) {
        Ok(())
    }
}

/// With no override installed the pipeline transforms are identities:
/// precommit and postcommit answer their input verbatim, and notify
/// never fails.
pub proof fn lemma_default_adapter_identity(
    a: DefaultAdapter,
    req: PendingRequest,
    resp: Response,
    op: FsOp,
    path: Seq<char>,
)
    ensures
        a.precommit_spec(req) == Ok::<PendingRequest, HookError>(req),
        a.postcommit_spec(resp) == Ok::<Response, HookError>(resp),
        a.notify_spec(op, path) == Ok::<(), HookError>(()),
{
}

/// An adapter whose hooks always fail, standing in for caller code that
/// raises on every entry; useful to exercise the pipeline's hook-failure
/// path.
pub struct RejectingAdapter;

impl Adapter for RejectingAdapter {
    open spec fn precommit_spec(&self, req: PendingRequest) -> Result<PendingRequest, HookError> {
        Err(HookError)
    }

    open spec fn postcommit_spec(&self, resp: Response) -> Result<Response, HookError> {
        Err(HookError)
    }

    open spec fn notify_spec(&self, op: FsOp, path: Seq<char>) -> Result<(), HookError> {
        Err(HookError)
    }

    proof fn precommit_preserves_wf(&self, req: PendingRequest) {
    }

    fn precommit(&self, req: PendingRequest) -> (r: Result<PendingRequest, HookError>) {
        Err(HookError)
    }

    fn postcommit(&self, resp: Response) -> (r: Result<Response, HookError>) {
        Err(HookError)
    }

    fn notify(&self, op: FsOp, path: &String) -> (r: Result<(), HookError>) {
        Err(HookError)
    }
}

/// The exclusive gate in front of the embedded, non-reentrant runtime
/// the hooks call into.  Holding it is recorded in the value itself, so
/// acquire/release pairing is checked statically.
pub struct RuntimeBoundary {
    locked: bool,
}

impl RuntimeBoundary {
    /// Whether the boundary is currently held.
    pub closed spec fn is_locked(&self) -> bool {
        self.locked
    }

    /// A fresh, unheld boundary.
    pub fn new() -> (r: Self)
        ensures
            !r.is_locked(),
    {
        RuntimeBoundary { locked: false }
    }

    /// Takes exclusive hold of the runtime.
    pub fn acquire(&mut self)
        requires
            !old(self).is_locked(),
        ensures
            final(self).is_locked(),
    {
        self.locked = true;
    }

    /// Gives the runtime back.
    pub fn release(&mut self)
        requires
            old(self).is_locked(),
        ensures
            !final(self).is_locked(),
    {
        self.locked = false;
    }
}

/// Runs the precommit hook with the boundary held for exactly the
/// duration of the call, released again on success and failure alike.
pub fn call_precommit<A: Adapter>(
    adapter: &A,
    boundary: &mut RuntimeBoundary,
    req: PendingRequest,
) -> (r: Result<PendingRequest, HookError>)
    requires
        !old(boundary).is_locked(),
    ensures
        !final(boundary).is_locked(),
        r == adapter.precommit_spec(req),
{
    boundary.acquire();
    let r = adapter.precommit(req);
    boundary.release();
    r
}

/// Runs the postcommit hook under the boundary, like [`call_precommit`].
pub fn call_postcommit<A: Adapter>(
    adapter: &A,
    boundary: &mut RuntimeBoundary,
    resp: Response,
) -> (r: Result<Response, HookError>)
    requires
        !old(boundary).is_locked(),
    ensures
        !final(boundary).is_locked(),
        r == adapter.postcommit_spec(resp),
{
    boundary.acquire();
    let r = adapter.postcommit(resp);
    boundary.release();
    r
}

/// Runs the notify hook under the boundary, like [`call_precommit`].
pub fn call_notify<A: Adapter>(
    adapter: &A,
    boundary: &mut RuntimeBoundary,
    op: FsOp,
    path: &String,
) -> (r: Result<(), HookError>)
    requires
        !old(boundary).is_locked(),
    ensures
        !final(boundary).is_locked(),
        r == adapter.notify_spec(op, path@),
{
    boundary.acquire();
    let r = adapter.notify(op, path);
    boundary.release();
    r
}

} // verus!
