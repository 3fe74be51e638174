//! The command `full-recover`: copies the whole virgin volume to scratch.

use vstd::prelude::*;
use crate::chunks::{FULL_COPY_CHUNK_SIZE, aligned_up, slices};
use crate::commands::session::{
    Exchange, Question, Reply, ReplyView, Request, RequestView, answered, done, fits,
    lemma_history_grows, overwrites, request_view,
};
use crate::copy::{CopyEvent, CopyState, carries, law_full_copy_transfers_all};
use crate::error::{Error, already_mounted, not_initialized};
use crate::state::AppState;

verus! {

/// Where the command stands.
#[derive(Debug)]
pub enum FullRecoverStep {
    Root,
    Load,
    /// The state says mounted: see whether the dm-era device is there.
    DeviceExists,
    /// The state says mounted: see whether the filesystem is.
    IsMounted { device_exists: bool },
    ValidateVirgin,
    ValidateScratch,
    VirginSize,
    ScratchSize,
    Confirm,
    Copy,
    Hash,
    Save,
    Finished,
    Failed { error: Error },
}

/// A run of `full-recover`.
#[derive(Debug)]
pub struct FullRecover {
    pub yes: bool,
    pub step: FullRecoverStep,
    pub state: Option<AppState>,
    pub size: u64,
}

impl FullRecover {
    /// Whether the state is known not to be mounted any more.
    pub open spec fn cleared(self) -> bool {
        match self.step {
            FullRecoverStep::ValidateVirgin => true,
            FullRecoverStep::ValidateScratch => true,
            FullRecoverStep::VirginSize => true,
            FullRecoverStep::ScratchSize => true,
            FullRecoverStep::Confirm => true,
            FullRecoverStep::Copy => true,
            FullRecoverStep::Hash => true,
            FullRecoverStep::Save => true,
            FullRecoverStep::Finished => true,
            _ => false,
        }
    }

    /// What holds of a run at every moment.
    pub open spec fn wf(self) -> bool {
        &&& self.cleared() ==> self.state is Some && !self.state->0.is_mounted
        &&& self.step is DeviceExists || self.step is IsMounted ==> self.state is Some
    }

    /// The request to copy the whole volume.
    pub open spec fn copy_request(self) -> RequestView {
        RequestView::FullCopy { from: self.state->0.virgin, to: self.state->0.scratch }
    }

    /// What the run asks for next; nothing where it has ended.
    pub open spec fn next_request(self) -> Option<RequestView> {
        let s = self.state->0;
        match self.step {
            FullRecoverStep::Root => Some(RequestView::User),
            FullRecoverStep::Load => Some(RequestView::LoadState),
            FullRecoverStep::DeviceExists => Some(RequestView::DeviceExists { name: s.dm_era_name }),
            FullRecoverStep::IsMounted { device_exists } => Some(
                RequestView::IsMounted { mount_point: s.mount_point },
            ),
            FullRecoverStep::ValidateVirgin => Some(RequestView::ValidateDevice { path: s.virgin }),
            FullRecoverStep::ValidateScratch => Some(RequestView::ValidateDevice { path: s.scratch }),
            FullRecoverStep::VirginSize => Some(RequestView::DeviceSize { path: s.virgin }),
            FullRecoverStep::ScratchSize => Some(RequestView::DeviceSize { path: s.scratch }),
            FullRecoverStep::Confirm => Some(
                RequestView::Confirm { question: Question::FullRecover, skip: self.yes },
            ),
            FullRecoverStep::Copy => Some(self.copy_request()),
            FullRecoverStep::Hash => Some(RequestView::HashVolume { path: s.virgin }),
            FullRecoverStep::Save => Some(RequestView::SaveState { state: s }),
            FullRecoverStep::Finished => None,
            FullRecoverStep::Failed { error } => None,
        }
    }

    /// Whether the reply answers what was asked for.
    pub open spec fn accepts(self, reply: ReplyView) -> bool {
        self.next_request() matches Some(request) && fits(request, reply)
    }

    /// The run at another step.
    pub open spec fn at(self, step: FullRecoverStep) -> FullRecover {
        FullRecover { step, ..self }
    }

    /// The run after a step that is carried out or fails.
    pub open spec fn proceed(self, reply: ReplyView, step: FullRecoverStep) -> FullRecover {
        match reply {
            ReplyView::Failed { message } => self.at(
                FullRecoverStep::Failed { error: Error::Failed { message } },
            ),
            _ => self.at(step),
        }
    }

    /// The run after the reply.
    pub open spec fn after(self, reply: ReplyView) -> FullRecover {
        let s = self.state->0;
        match self.step {
            FullRecoverStep::Root => match reply {
                ReplyView::User { euid } => if euid == 0 {
                    self.at(FullRecoverStep::Load)
                } else {
                    self.at(FullRecoverStep::Failed { error: Error::NotRoot })
                },
                _ => self.proceed(reply, FullRecoverStep::Root),
            },
            FullRecoverStep::Load => match reply {
                ReplyView::Loaded { state: None } => self.at(
                    FullRecoverStep::Failed { error: Error::NotInitialized },
                ),
                ReplyView::Loaded { state: Some(loaded) } => FullRecover {
                    state: Some(loaded),
                    step: if loaded.is_mounted {
                        FullRecoverStep::DeviceExists
                    } else {
                        FullRecoverStep::ValidateVirgin
                    },
                    ..self
                },
                _ => self.proceed(reply, FullRecoverStep::Load),
            },
            FullRecoverStep::DeviceExists => match reply {
                ReplyView::Answer { yes } => self.at(
                    FullRecoverStep::IsMounted { device_exists: yes },
                ),
                _ => self.proceed(reply, FullRecoverStep::DeviceExists),
            },
            FullRecoverStep::IsMounted { device_exists } => match reply {
                ReplyView::Answer { yes } => if device_exists || yes {
                    self.at(FullRecoverStep::Failed { error: Error::AlreadyMounted })
                } else {
                    FullRecover {
                        state: Some(s.unmounted()),
                        step: FullRecoverStep::ValidateVirgin,
                        ..self
                    }
                },
                _ => self.proceed(reply, self.step),
            },
            FullRecoverStep::ValidateVirgin => self.proceed(
                reply,
                FullRecoverStep::ValidateScratch,
            ),
            FullRecoverStep::ValidateScratch => self.proceed(reply, FullRecoverStep::VirginSize),
            FullRecoverStep::VirginSize => match reply {
                ReplyView::Number { n } => FullRecover {
                    size: n,
                    step: FullRecoverStep::ScratchSize,
                    ..self
                },
                _ => self.proceed(reply, FullRecoverStep::VirginSize),
            },
            FullRecoverStep::ScratchSize => match reply {
                ReplyView::Number { n } => if n != self.size {
                    self.at(
                        FullRecoverStep::Failed {
                            error: Error::SizeMismatch {
                                virgin_size: self.size,
                                scratch_size: n,
                            },
                        },
                    )
                } else {
                    self.at(FullRecoverStep::Confirm)
                },
                _ => self.proceed(reply, self.step),
            },
            FullRecoverStep::Confirm => match reply {
                ReplyView::Answer { yes: true } => self.at(FullRecoverStep::Copy),
                ReplyView::Answer { yes: false } => self.at(
                    FullRecoverStep::Failed { error: Error::Cancelled },
                ),
                _ => self.proceed(reply, FullRecoverStep::Confirm),
            },
            FullRecoverStep::Copy => self.proceed(reply, FullRecoverStep::Hash),
            FullRecoverStep::Hash => match reply {
                ReplyView::Hash { hash } => FullRecover {
                    state: Some(s.with_hash(hash)),
                    step: FullRecoverStep::Save,
                    ..self
                },
                _ => self.proceed(reply, FullRecoverStep::Hash),
            },
            FullRecoverStep::Save => self.proceed(reply, FullRecoverStep::Finished),
            _ => self,
        }
    }

    /// A run of `full-recover`.
    pub fn new(yes: bool) -> (run: FullRecover)
        ensures
            run == (FullRecover { yes, step: FullRecoverStep::Root, state: None, size: 0 }),
            run.wf(),
    {
        FullRecover { yes, step: FullRecoverStep::Root, state: None, size: 0 }
    }

    /// What the run asks for next; nothing where it has ended.
    pub fn request(&self) -> (request: Option<Request>)
        requires
            self.wf(),
        ensures
            request_view(request) == self.next_request(),
    {
        match &self.step {
            FullRecoverStep::Root => {
                return Some(Request::User);
            },
            FullRecoverStep::Load => {
                return Some(Request::LoadState);
            },
            FullRecoverStep::Finished => {
                return None;
            },
            FullRecoverStep::Failed { error: _ } => {
                return None;
            },
            _ => {},
        }
        match &self.state {
            None => None,
            Some(s) => match &self.step {
                FullRecoverStep::DeviceExists => Some(
                    Request::DeviceExists { name: s.dm_era_name.clone() },
                ),
                FullRecoverStep::IsMounted { device_exists: _ } => Some(
                    Request::IsMounted { mount_point: s.mount_point.clone() },
                ),
                FullRecoverStep::ValidateVirgin => Some(
                    Request::ValidateDevice { path: s.virgin.clone() },
                ),
                FullRecoverStep::ValidateScratch => Some(
                    Request::ValidateDevice { path: s.scratch.clone() },
                ),
                FullRecoverStep::VirginSize => Some(Request::DeviceSize { path: s.virgin.clone() }),
                FullRecoverStep::ScratchSize => Some(
                    Request::DeviceSize { path: s.scratch.clone() },
                ),
                FullRecoverStep::Confirm => Some(
                    Request::Confirm { question: Question::FullRecover, skip: self.yes },
                ),
                FullRecoverStep::Copy => Some(
                    Request::FullCopy { from: s.virgin.clone(), to: s.scratch.clone() },
                ),
                FullRecoverStep::Hash => Some(Request::HashVolume { path: s.virgin.clone() }),
                FullRecoverStep::Save => Some(Request::SaveState { state: s.duplicate() }),
                _ => None,
            },
        }
    }

    fn go_to(self, step: FullRecoverStep) -> (run: FullRecover)
        ensures
            run == self.at(step),
    {
        FullRecover { step, ..self }
    }

    fn go_on(self, reply: Reply, step: FullRecoverStep) -> (run: FullRecover)
        ensures
            run == self.proceed(reply@, step),
    {
        match reply {
            Reply::Failed { message } => self.go_to(
                FullRecoverStep::Failed { error: Error::Failed { message } },
            ),
            _ => self.go_to(step),
        }
    }

    /// Takes the reply to what was asked for.
    pub fn advance(self, reply: Reply) -> (run: FullRecover)
        requires
            self.wf(),
            self.accepts(reply@),
        ensures
            run == self.after(reply@),
            run.wf(),
    {
        match &self.step {
            FullRecoverStep::Root => match reply {
                Reply::User { euid } => if euid == 0 {
                    self.go_to(FullRecoverStep::Load)
                } else {
                    self.go_to(FullRecoverStep::Failed { error: Error::NotRoot })
                },
                reply => self.go_on(reply, FullRecoverStep::Root),
            },
            FullRecoverStep::Load => match reply {
                Reply::Loaded { state } => match state {
                    None => self.go_to(FullRecoverStep::Failed { error: not_initialized() }),
                    Some(loaded) => {
                        let step = if loaded.is_mounted {
                            FullRecoverStep::DeviceExists
                        } else {
                            FullRecoverStep::ValidateVirgin
                        };
                        FullRecover { state: Some(loaded), step, ..self }
                    },
                },
                reply => self.go_on(reply, FullRecoverStep::Load),
            },
            FullRecoverStep::DeviceExists => match reply {
                Reply::Answer { yes } => self.go_to(
                    FullRecoverStep::IsMounted { device_exists: yes },
                ),
                reply => self.go_on(reply, FullRecoverStep::DeviceExists),
            },
            FullRecoverStep::IsMounted { device_exists } => {
                let device_exists = *device_exists;
                match reply {
                    Reply::Answer { yes } => if device_exists || yes {
                        self.go_to(FullRecoverStep::Failed { error: already_mounted() })
                    } else {
                        match self.state {
                            Some(mut s) => {
                                s.is_mounted = false;
                                s.current_era = None;
                                FullRecover {
                                    yes: self.yes,
                                    step: FullRecoverStep::ValidateVirgin,
                                    state: Some(s),
                                    size: self.size,
                                }
                            },
                            None => self,
                        }
                    },
                    reply => self.go_on(reply, FullRecoverStep::IsMounted { device_exists }),
                }
            },
            FullRecoverStep::ValidateVirgin => self.go_on(reply, FullRecoverStep::ValidateScratch),
            FullRecoverStep::ValidateScratch => self.go_on(reply, FullRecoverStep::VirginSize),
            FullRecoverStep::VirginSize => match reply {
                Reply::Number { n } => FullRecover {
                    size: n,
                    step: FullRecoverStep::ScratchSize,
                    ..self
                },
                reply => self.go_on(reply, FullRecoverStep::VirginSize),
            },
            FullRecoverStep::ScratchSize => match reply {
                Reply::Number { n } => if n != self.size {
                    let error = Error::SizeMismatch { virgin_size: self.size, scratch_size: n };
                    self.go_to(FullRecoverStep::Failed { error })
                } else {
                    self.go_to(FullRecoverStep::Confirm)
                },
                reply => self.go_on(reply, FullRecoverStep::ScratchSize),
            },
            FullRecoverStep::Confirm => match reply {
                Reply::Answer { yes } => if yes {
                    self.go_to(FullRecoverStep::Copy)
                } else {
                    self.go_to(FullRecoverStep::Failed { error: Error::Cancelled })
                },
                reply => self.go_on(reply, FullRecoverStep::Confirm),
            },
            FullRecoverStep::Copy => self.go_on(reply, FullRecoverStep::Hash),
            FullRecoverStep::Hash => match reply {
                Reply::Hash { hash } => match self.state {
                    Some(mut s) => {
                        s.virgin_superblock_hash = hash;
                        FullRecover {
                            yes: self.yes,
                            step: FullRecoverStep::Save,
                            state: Some(s),
                            size: self.size,
                        }
                    },
                    None => self,
                },
                reply => self.go_on(reply, FullRecoverStep::Hash),
            },
            FullRecoverStep::Save => self.go_on(reply, FullRecoverStep::Finished),
            _ => self,
        }
    }
}

// ---------------------------------------------------------------------------
// What every run keeps to
// ---------------------------------------------------------------------------

impl FullRecover {
    /// The run after some replies.
    pub open spec fn run(self, replies: Seq<ReplyView>) -> FullRecover
        decreases replies.len(),
    {
        if replies.len() == 0 {
            self
        } else {
            self.run(replies.drop_last()).after(replies.last())
        }
    }

    /// Whether each reply answers what was asked for when it came.
    pub open spec fn can_run(self, replies: Seq<ReplyView>) -> bool
        decreases replies.len(),
    {
        replies.len() > 0 ==> {
            &&& self.can_run(replies.drop_last())
            &&& self.run(replies.drop_last()).accepts(replies.last())
        }
    }

    /// What was asked for and replied.
    pub open spec fn history(self, replies: Seq<ReplyView>) -> Seq<Exchange>
        decreases replies.len(),
    {
        if replies.len() == 0 {
            Seq::empty()
        } else {
            self.history(replies.drop_last()).push(
                Exchange {
                    request: self.run(replies.drop_last()).next_request()->0,
                    reply: replies.last(),
                },
            )
        }
    }

    /// Whether the user has confirmed.
    pub open spec fn confirmed(self, h: Seq<Exchange>) -> bool {
        answered(
            h,
            RequestView::Confirm { question: Question::FullRecover, skip: self.yes },
            ReplyView::Answer { yes: true },
        )
    }

    /// Whether both volumes were found to have one size.
    pub open spec fn measured(self, h: Seq<Exchange>) -> bool {
        &&& answered(
            h,
            RequestView::DeviceSize { path: self.state->0.virgin },
            ReplyView::Number { n: self.size },
        )
        &&& answered(
            h,
            RequestView::DeviceSize { path: self.state->0.scratch },
            ReplyView::Number { n: self.size },
        )
    }

    /// Whether the state was loaded as unmounted, or both the dm-era device and the
    /// mount were found to be gone.
    pub open spec fn was_cleared(self, h: Seq<Exchange>) -> bool {
        let s = self.state->0;
        ||| exists|loaded: AppState| #[trigger]
            answered(h, RequestView::LoadState, ReplyView::Loaded { state: Some(loaded) })
                && !loaded.is_mounted
        ||| {
            &&& answered(
                h,
                RequestView::DeviceExists { name: s.dm_era_name },
                ReplyView::Answer { yes: false },
            )
            &&& answered(
                h,
                RequestView::IsMounted { mount_point: s.mount_point },
                ReplyView::Answer { yes: false },
            )
        }
    }

    /// Whether the state is the one that was loaded, unmounted where it was mounted, but
    /// for the superblock hash.
    pub open spec fn comes_from_loaded(self, h: Seq<Exchange>) -> bool {
        let s = self.state->0;
        exists|loaded: AppState| #[trigger]
            answered(h, RequestView::LoadState, ReplyView::Loaded { state: Some(loaded) }) && s == (
            if loaded.is_mounted {
                loaded.unmounted()
            } else {
                loaded
            }).with_hash(s.virgin_superblock_hash)
    }

    /// What is known of the past at every step.
    pub open spec fn facts(self, h: Seq<Exchange>) -> bool {
        let s = self.state->0;
        &&& self.cleared() ==> self.was_cleared(h) && self.comes_from_loaded(h)
        &&& self.step is DeviceExists || self.step is IsMounted ==> self.state->0.is_mounted
            && answered(h, RequestView::LoadState, ReplyView::Loaded { state: self.state })
        &&& self.step matches FullRecoverStep::IsMounted { device_exists } ==> !device_exists
            ==> answered(
            h,
            RequestView::DeviceExists { name: s.dm_era_name },
            ReplyView::Answer { yes: false },
        )
        &&& self.step is ScratchSize ==> answered(
            h,
            RequestView::DeviceSize { path: s.virgin },
            ReplyView::Number { n: self.size },
        )
        &&& self.step is Confirm || self.step is Copy || self.step is Hash || self.step is Save
            || self.step is Finished ==> self.measured(h)
        &&& self.step is Copy || self.step is Hash || self.step is Save || self.step is Finished
            ==> self.confirmed(h)
        &&& self.step is Hash || self.step is Save || self.step is Finished ==> done(
            h,
            self.copy_request(),
        )
        &&& self.step is Save || self.step is Finished ==> answered(
            h,
            RequestView::HashVolume { path: s.virgin },
            ReplyView::Hash { hash: s.virgin_superblock_hash },
        )
        &&& self.step is Finished ==> done(h, RequestView::SaveState { state: s })
        &&& !(self.step is Hash || self.step is Save || self.step is Finished || self.step
            is Failed) ==> forall|i: int|
            0 <= i < h.len() ==> overwrites((#[trigger] h[i]).request) is None
        &&& !(self.step is Finished || self.step is Failed) ==> forall|i: int|
            0 <= i < h.len() ==> !((#[trigger] h[i]).request is SaveState)
    }

    /// What holds of every request that was made.
    pub open spec fn discipline(self, h: Seq<Exchange>) -> bool {
        forall|i: int|
            0 <= i < h.len() ==> {
                let request = (#[trigger] h[i]).request;
                &&& overwrites(request) is Some ==> {
                    &&& self.state is Some
                    &&& request == self.copy_request()
                    &&& self.confirmed(h)
                    &&& self.measured(h)
                    &&& self.was_cleared(h)
                }
                &&& request is SaveState ==> {
                    &&& self.state is Some
                    &&& request == (RequestView::SaveState { state: self.state->0 })
                    &&& !self.state->0.is_mounted
                    &&& self.comes_from_loaded(h)
                    &&& done(h, self.copy_request())
                }
            }
    }
}

#[verifier::rlimit(60)]
proof fn lemma_step(v: FullRecover, h: Seq<Exchange>, reply: ReplyView)
    requires
        v.wf(),
        v.accepts(reply),
        v.facts(h),
        v.discipline(h),
    ensures
        v.after(reply).wf(),
        v.after(reply).facts(h.push(Exchange { request: v.next_request()->0, reply })),
        v.after(reply).discipline(h.push(Exchange { request: v.next_request()->0, reply })),
{
    let x = Exchange { request: v.next_request()->0, reply };
    lemma_history_grows(h, x);
    let g = h.push(x);
    let w = v.after(reply);
    if v.step is Load {
        if let ReplyView::Loaded { state: Some(loaded) } = reply {
            assert(answered(g, RequestView::LoadState, ReplyView::Loaded { state: Some(loaded) }));
        }
    }
    assert forall|i: int| 0 <= i < g.len() implies {
        let request = (#[trigger] g[i]).request;
        &&& overwrites(request) is Some ==> {
            &&& w.state is Some
            &&& request == w.copy_request()
            &&& w.confirmed(g)
            &&& w.measured(g)
            &&& w.was_cleared(g)
        }
        &&& request is SaveState ==> {
            &&& w.state is Some
            &&& request == (RequestView::SaveState { state: w.state->0 })
            &&& !w.state->0.is_mounted
            &&& w.comes_from_loaded(g)
            &&& done(g, w.copy_request())
        }
    } by {
        if i < h.len() {
            assert(g[i] == h[i]);
        } else {
            assert(g[i] == x);
        }
    }
}

proof fn lemma_full_recover(yes: bool, replies: Seq<ReplyView>)
    requires
        (FullRecover { yes, step: FullRecoverStep::Root, state: None, size: 0 }).can_run(replies),
    ensures
        ({
            let start = FullRecover { yes, step: FullRecoverStep::Root, state: None, size: 0 };
            let v = start.run(replies);
            let h = start.history(replies);
            v.wf() && v.facts(h) && v.discipline(h)
        }),
    decreases replies.len(),
{
    if replies.len() > 0 {
        lemma_full_recover(yes, replies.drop_last());
        let start = FullRecover { yes, step: FullRecoverStep::Root, state: None, size: 0 };
        lemma_step(
            start.run(replies.drop_last()),
            start.history(replies.drop_last()),
            replies.last(),
        );
    }
}

/// Only the scratch volume is overwritten, with the virgin volume, and only after the
/// user has confirmed it, both were found to have one size and nothing to be mounted. A
/// stale mounted state is cleared on the disk only by the one save that follows the copy,
/// so that a run that stops before can be repeated; what is saved is not mounted.
pub proof fn law_full_recover_saves_last(yes: bool, replies: Seq<ReplyView>, i: int)
    requires
        (FullRecover { yes, step: FullRecoverStep::Root, state: None, size: 0 }).can_run(replies),
        0 <= i < (FullRecover { yes, step: FullRecoverStep::Root, state: None, size: 0 }).history(
            replies,
        ).len(),
    ensures
        ({
            let start = FullRecover { yes, step: FullRecoverStep::Root, state: None, size: 0 };
            let v = start.run(replies);
            let h = start.history(replies);
            &&& overwrites(h[i].request) is Some ==> h[i].request == v.copy_request()
                && v.confirmed(h) && v.measured(h) && v.was_cleared(h)
            &&& h[i].request is SaveState ==> {
                &&& h[i].request == (RequestView::SaveState { state: v.state->0 })
                &&& !v.state->0.is_mounted
                &&& done(h, v.copy_request())
            }
        }),
{
    lemma_full_recover(yes, replies);
    let start = FullRecover { yes, step: FullRecoverStep::Root, state: None, size: 0 };
    let h = start.history(replies);
}

/// A run that has finished has copied the whole virgin volume to a scratch volume of the
/// same size, and saved the state that was loaded with the hash that virgin was found to
/// have.
pub proof fn law_full_recover_completes(yes: bool, replies: Seq<ReplyView>)
    requires
        (FullRecover { yes, step: FullRecoverStep::Root, state: None, size: 0 }).can_run(replies),
        (FullRecover { yes, step: FullRecoverStep::Root, state: None, size: 0 }).run(replies).step
            is Finished,
    ensures
        ({
            let start = FullRecover { yes, step: FullRecoverStep::Root, state: None, size: 0 };
            let v = start.run(replies);
            let h = start.history(replies);
            &&& v.measured(h)
            &&& done(h, v.copy_request())
            &&& answered(
                h,
                RequestView::HashVolume { path: v.state->0.virgin },
                ReplyView::Hash { hash: v.state->0.virgin_superblock_hash },
            )
            &&& done(h, RequestView::SaveState { state: v.state->0 })
            &&& v.comes_from_loaded(h)
        }),
{
    lemma_full_recover(yes, replies);
}

/// A run that has finished has made scratch equal to virgin. `volumes` are the two volumes
/// before the copy began, of the size that they were found to have, and `events` what
/// happened while it ran.
pub proof fn law_full_recover_leaves_equal_volumes(
    yes: bool,
    replies: Seq<ReplyView>,
    volumes: CopyState,
    events: Seq<CopyEvent>,
)
    requires
        (FullRecover { yes, step: FullRecoverStep::Root, state: None, size: 0 }).can_run(replies),
        ({
            let v = (FullRecover { yes, step: FullRecoverStep::Root, state: None, size: 0 }).run(
                replies,
            );
            &&& v.step is Finished
            &&& v.size <= u64::MAX - 4095
            &&& volumes.src.len() == v.size
            &&& volumes.dst.len() == v.size
            &&& carries(
                volumes,
                slices(0, aligned_up(v.size as nat), FULL_COPY_CHUNK_SIZE as nat),
            )
        }),
        volumes.fresh(),
        volumes.can_run(events),
        volumes.run(events).succeeded(),
    ensures
        ({
            let start = FullRecover { yes, step: FullRecoverStep::Root, state: None, size: 0 };
            let v = start.run(replies);
            v.measured(start.history(replies)) && done(start.history(replies), v.copy_request())
        }),
        volumes.run(events).dst == volumes.src,
{
    lemma_full_recover(yes, replies);
    let start = FullRecover { yes, step: FullRecoverStep::Root, state: None, size: 0 };
    law_full_copy_transfers_all(
        volumes,
        events,
        start.run(replies).size as nat,
        FULL_COPY_CHUNK_SIZE as nat,
    );
}

/// A volume whose dm-era device or mount is still there is refused as mounted.
pub proof fn law_live_mount_is_refused(v: FullRecover, device_exists: bool, mounted: bool)
    requires
        v.step == (FullRecoverStep::IsMounted { device_exists }),
    ensures
        device_exists || mounted ==> v.after(ReplyView::Answer { yes: mounted }).step == (
        FullRecoverStep::Failed { error: Error::AlreadyMounted }),
        !device_exists && !mounted ==> v.after(ReplyView::Answer { yes: mounted }).step
            is ValidateVirgin,
{
}

// ---------------------------------------------------------------------------
// What a run asks for, and when
// ---------------------------------------------------------------------------

impl FullRecover {
    spec fn before_loading(self) -> bool {
        self.step is Root || self.step is Load
    }

    spec fn speaks_of(self, h: Seq<Exchange>, loaded: AppState, request: RequestView) -> bool {
        match request {
            RequestView::User => true,
            RequestView::LoadState => true,
            RequestView::DeviceExists { name } => loaded.is_mounted && name == loaded.dm_era_name,
            RequestView::IsMounted { mount_point } => loaded.is_mounted && mount_point
                == loaded.mount_point,
            RequestView::ValidateDevice { path } => path == loaded.virgin || path == loaded.scratch,
            RequestView::DeviceSize { path } => path == loaded.virgin || path == loaded.scratch,
            RequestView::Confirm { question, skip } => question == Question::FullRecover && skip
                == self.yes,
            RequestView::FullCopy { from, to } => from == loaded.virgin && to == loaded.scratch,
            RequestView::HashVolume { path } => path == loaded.virgin,
            RequestView::SaveState { state } => {
                &&& state.virgin == loaded.virgin
                &&& state.scratch == loaded.scratch
                &&& state.ramdisk == loaded.ramdisk
                &&& state.mount_point == loaded.mount_point
                &&& state.fstype == loaded.fstype
                &&& state.mount_options == loaded.mount_options
                &&& state.granularity == loaded.granularity
                &&& state.dm_era_name == loaded.dm_era_name
                &&& !state.is_mounted
                &&& state.current_era == if loaded.is_mounted {
                    None
                } else {
                    loaded.current_era
                }
                &&& answered(
                    h,
                    RequestView::HashVolume { path: loaded.virgin },
                    ReplyView::Hash { hash: state.virgin_superblock_hash },
                )
            },
            _ => false,
        }
    }

    spec fn keeps_to(self, h: Seq<Exchange>, loaded: AppState) -> bool {
        let s = self.state->0;
        &&& self.before_loading() ==> forall|i: int|
            0 <= i < h.len() ==> (#[trigger] h[i]).request is User
        &&& answered(h, RequestView::LoadState, ReplyView::Loaded { state: Some(loaded) }) ==> {
            &&& !self.before_loading()
            &&& self.step is DeviceExists || self.step is IsMounted ==> self.state == Some(loaded)
                && loaded.is_mounted
            &&& self.cleared() ==> self.state is Some && s == (AppState {
                is_mounted: false,
                current_era: if loaded.is_mounted {
                    None
                } else {
                    loaded.current_era
                },
                virgin_superblock_hash: s.virgin_superblock_hash,
                ..loaded
            })
            &&& forall|i: int|
                0 <= i < h.len() ==> self.speaks_of(h, loaded, (#[trigger] h[i]).request)
        }
    }
}

#[verifier::rlimit(80)]
proof fn lemma_keeps_to(v: FullRecover, h: Seq<Exchange>, loaded: AppState, reply: ReplyView)
    requires
        v.wf(),
        v.accepts(reply),
        v.facts(h),
        v.keeps_to(h, loaded),
    ensures
        v.after(reply).keeps_to(h.push(Exchange { request: v.next_request()->0, reply }), loaded),
{
    let x = Exchange { request: v.next_request()->0, reply };
    let g = h.push(x);
    let w = v.after(reply);
    let load = RequestView::LoadState;
    let found = ReplyView::Loaded { state: Some(loaded) };
    lemma_history_grows(h, x);
    if answered(g, load, found) {
        let k = choose|k: int|
            0 <= k < g.len() && #[trigger] g[k] == (Exchange { request: load, reply: found });
        if k < h.len() {
            assert(h[k] == g[k]);
            assert(answered(h, load, found));
        } else {
            assert(v.step is Load);
        }
        assert forall|i: int| 0 <= i < g.len() implies w.speaks_of(
            g,
            loaded,
            (#[trigger] g[i]).request,
        ) by {
            if i < h.len() {
                assert(g[i] == h[i]);
                if answered(h, load, found) {
                    assert(v.speaks_of(h, loaded, h[i].request));
                }
            } else {
                assert(g[i] == x);
            }
        }
    }
    if w.before_loading() {
        assert forall|i: int| 0 <= i < g.len() implies (#[trigger] g[i]).request is User by {
            if i < h.len() {
                assert(g[i] == h[i]);
            }
        }
    }
}

proof fn lemma_run_keeps_to(yes: bool, replies: Seq<ReplyView>, loaded: AppState)
    requires
        (FullRecover { yes, step: FullRecoverStep::Root, state: None, size: 0 }).can_run(replies),
    ensures
        ({
            let start = FullRecover { yes, step: FullRecoverStep::Root, state: None, size: 0 };
            &&& start.run(replies).keeps_to(start.history(replies), loaded)
            &&& start.run(replies).yes == yes
        }),
    decreases replies.len(),
{
    if replies.len() > 0 {
        let start = FullRecover { yes, step: FullRecoverStep::Root, state: None, size: 0 };
        lemma_run_keeps_to(yes, replies.drop_last(), loaded);
        lemma_full_recover(yes, replies.drop_last());
        let v = start.run(replies.drop_last());
        lemma_keeps_to(v, start.history(replies.drop_last()), loaded, replies.last());
    }
}

/// Whatever a run asks for concerns what the loaded state names: the only thing that is
/// overwritten is the scratch volume, with the virgin volume, so that the virgin volume
/// never is; and what is saved is the loaded state, unmounted where it was mounted, with
/// the hash that the virgin volume was found to have.
pub proof fn law_requests_follow_the_loaded_state(
    yes: bool,
    replies: Seq<ReplyView>,
    loaded: AppState,
    i: int,
)
    requires
        (FullRecover { yes, step: FullRecoverStep::Root, state: None, size: 0 }).can_run(replies),
        answered(
            (FullRecover { yes, step: FullRecoverStep::Root, state: None, size: 0 }).history(replies),
            RequestView::LoadState,
            ReplyView::Loaded { state: Some(loaded) },
        ),
        0 <= i < (FullRecover { yes, step: FullRecoverStep::Root, state: None, size: 0 }).history(
            replies,
        ).len(),
    ensures
        ({
            let h = (FullRecover { yes, step: FullRecoverStep::Root, state: None, size: 0 }).history(
                replies,
            );
            match h[i].request {
                RequestView::User => true,
                RequestView::LoadState => true,
                RequestView::DeviceExists { name } => loaded.is_mounted && name == loaded.dm_era_name,
                RequestView::IsMounted { mount_point } => loaded.is_mounted && mount_point
                    == loaded.mount_point,
                RequestView::ValidateDevice { path } => path == loaded.virgin || path == loaded.scratch,
                RequestView::DeviceSize { path } => path == loaded.virgin || path == loaded.scratch,
                RequestView::Confirm { question, skip } => question == Question::FullRecover && skip
                    == yes,
                RequestView::FullCopy { from, to } => from == loaded.virgin && to == loaded.scratch,
                RequestView::HashVolume { path } => path == loaded.virgin,
                RequestView::SaveState { state } => {
                    &&& state.virgin == loaded.virgin
                    &&& state.scratch == loaded.scratch
                    &&& state.ramdisk == loaded.ramdisk
                    &&& state.mount_point == loaded.mount_point
                    &&& state.fstype == loaded.fstype
                    &&& state.mount_options == loaded.mount_options
                    &&& state.granularity == loaded.granularity
                    &&& state.dm_era_name == loaded.dm_era_name
                    &&& !state.is_mounted
                    &&& state.current_era == if loaded.is_mounted {
                        None
                    } else {
                        loaded.current_era
                    }
                    &&& answered(
                        h,
                        RequestView::HashVolume { path: loaded.virgin },
                        ReplyView::Hash { hash: state.virgin_superblock_hash },
                    )
                },
                _ => false,
            }
        }),
{
    lemma_run_keeps_to(yes, replies, loaded);
    let start = FullRecover { yes, step: FullRecoverStep::Root, state: None, size: 0 };
    let h = start.history(replies);
    assert(start.run(replies).speaks_of(h, loaded, h[i].request));
}

/// Nothing but the user and the state is asked for unless a state was loaded.
pub proof fn law_nothing_is_done_without_a_state(yes: bool, replies: Seq<ReplyView>, i: int)
    requires
        (FullRecover { yes, step: FullRecoverStep::Root, state: None, size: 0 }).can_run(replies),
        0 <= i < (FullRecover { yes, step: FullRecoverStep::Root, state: None, size: 0 }).history(
            replies,
        ).len(),
    ensures
        ({
            let h = (FullRecover { yes, step: FullRecoverStep::Root, state: None, size: 0 }).history(
                replies,
            );
            ||| h[i].request is User
            ||| h[i].request is LoadState
            ||| exists|loaded: AppState| #[trigger]
                answered(h, RequestView::LoadState, ReplyView::Loaded { state: Some(loaded) })
        }),
    decreases replies.len(),
{
    let start = FullRecover { yes, step: FullRecoverStep::Root, state: None, size: 0 };
    let h = start.history(replies);
    let before = replies.drop_last();
    let v = start.run(before);
    let old_history = start.history(before);
    lemma_full_recover(yes, before);
    let x = Exchange { request: v.next_request()->0, reply: replies.last() };
    lemma_history_grows(old_history, x);
    if i < old_history.len() {
        law_nothing_is_done_without_a_state(yes, before, i);
        assert(h[i] == old_history[i]);
        if exists|loaded: AppState| #[trigger]
            answered(old_history, RequestView::LoadState, ReplyView::Loaded { state: Some(loaded) }) {
            let loaded = choose|loaded: AppState| #[trigger]
                answered(
                    old_history,
                    RequestView::LoadState,
                    ReplyView::Loaded { state: Some(loaded) },
                );
            assert(answered(h, RequestView::LoadState, ReplyView::Loaded { state: Some(loaded) }));
        }
    } else {
        assert(h[i] == x);
        if v.cleared() {
            let loaded = choose|loaded: AppState| #[trigger]
                answered(
                    old_history,
                    RequestView::LoadState,
                    ReplyView::Loaded { state: Some(loaded) },
                ) && v.state->0 == (if loaded.is_mounted {
                    loaded.unmounted()
                } else {
                    loaded
                }).with_hash(v.state->0.virgin_superblock_hash);
            assert(answered(h, RequestView::LoadState, ReplyView::Loaded { state: Some(loaded) }));
        } else if v.step is DeviceExists || v.step is IsMounted {
            let loaded = v.state->0;
            assert(answered(h, RequestView::LoadState, ReplyView::Loaded { state: Some(loaded) }));
        }
    }
}

/// What follows each reply: which request comes next, or how the run ends. A run goes on
/// only where what it asked for was carried out and found as it must be: neither the dm-era
/// device nor the mount of a stale state is still there, and both volumes have one size.
/// Every failure ends it with what was reported.
pub proof fn law_what_follows_a_reply(v: FullRecover, reply: ReplyView)
    requires
        v.wf(),
        v.accepts(reply),
    ensures
        ({
            let w = v.after(reply);
            let next = w.next_request();
            let s = v.state->0;
            let plain = |message: String| w.step == (FullRecoverStep::Failed {
                error: Error::Failed { message },
            });
            &&& w.step is Failed ==> next is None
            &&& w.yes == v.yes
            &&& match v.step {
                FullRecoverStep::Root => match reply {
                    ReplyView::User { euid } => if euid == 0 {
                        next == Some(RequestView::LoadState)
                    } else {
                        w.step == (FullRecoverStep::Failed { error: Error::NotRoot })
                    },
                    ReplyView::Failed { message } => plain(message),
                    _ => false,
                },
                FullRecoverStep::Load => match reply {
                    ReplyView::Loaded { state: None } => w.step == (FullRecoverStep::Failed {
                        error: Error::NotInitialized,
                    }),
                    ReplyView::Loaded { state: Some(loaded) } => if loaded.is_mounted {
                        next == Some(RequestView::DeviceExists { name: loaded.dm_era_name })
                    } else {
                        w.step is ValidateVirgin && next == Some(
                            RequestView::ValidateDevice { path: loaded.virgin },
                        )
                    },
                    ReplyView::Failed { message } => plain(message),
                    _ => false,
                },
                FullRecoverStep::DeviceExists => match reply {
                    ReplyView::Answer { yes } => {
                        &&& w.step == (FullRecoverStep::IsMounted { device_exists: yes })
                        &&& next == Some(RequestView::IsMounted { mount_point: s.mount_point })
                    },
                    ReplyView::Failed { message } => plain(message),
                    _ => false,
                },
                FullRecoverStep::IsMounted { device_exists } => match reply {
                    ReplyView::Answer { yes } => if device_exists || yes {
                        w.step == (FullRecoverStep::Failed { error: Error::AlreadyMounted })
                    } else {
                        w.step is ValidateVirgin && next == Some(
                            RequestView::ValidateDevice { path: s.virgin },
                        )
                    },
                    ReplyView::Failed { message } => plain(message),
                    _ => false,
                },
                FullRecoverStep::ValidateVirgin => match reply {
                    ReplyView::Failed { message } => plain(message),
                    _ => w.step is ValidateScratch && next == Some(
                        RequestView::ValidateDevice { path: s.scratch },
                    ),
                },
                FullRecoverStep::ValidateScratch => match reply {
                    ReplyView::Failed { message } => plain(message),
                    _ => w.step is VirginSize && next == Some(
                        RequestView::DeviceSize { path: s.virgin },
                    ),
                },
                FullRecoverStep::VirginSize => match reply {
                    ReplyView::Number { n } => {
                        &&& w.step is ScratchSize
                        &&& w.size == n
                        &&& next == Some(RequestView::DeviceSize { path: s.scratch })
                    },
                    ReplyView::Failed { message } => plain(message),
                    _ => false,
                },
                FullRecoverStep::ScratchSize => match reply {
                    ReplyView::Number { n } => if n == v.size {
                        next == Some(
                            RequestView::Confirm { question: Question::FullRecover, skip: v.yes },
                        )
                    } else {
                        w.step == (FullRecoverStep::Failed {
                            error: Error::SizeMismatch { virgin_size: v.size, scratch_size: n },
                        })
                    },
                    ReplyView::Failed { message } => plain(message),
                    _ => false,
                },
                FullRecoverStep::Confirm => match reply {
                    ReplyView::Answer { yes } => if yes {
                        next == Some(RequestView::FullCopy { from: s.virgin, to: s.scratch })
                    } else {
                        w.step == (FullRecoverStep::Failed { error: Error::Cancelled })
                    },
                    ReplyView::Failed { message } => plain(message),
                    _ => false,
                },
                FullRecoverStep::Copy => match reply {
                    ReplyView::Failed { message } => plain(message),
                    _ => next == Some(RequestView::HashVolume { path: s.virgin }),
                },
                FullRecoverStep::Hash => match reply {
                    ReplyView::Hash { hash } => next matches Some(RequestView::SaveState { state })
                        && state.virgin_superblock_hash == hash,
                    ReplyView::Failed { message } => plain(message),
                    _ => false,
                },
                FullRecoverStep::Save => match reply {
                    ReplyView::Failed { message } => plain(message),
                    _ => w.step is Finished && next is None,
                },
                FullRecoverStep::Finished => false,
                FullRecoverStep::Failed { error } => false,
            }
        }),
{
}

} // verus!
