//! The commands `init-new` and `init-from`: put two volumes under the control of
//! schelk, with a fresh filesystem on both or with what virgin already holds.

use vstd::prelude::*;
use vstd::string::*;
use crate::chunks::{FULL_COPY_CHUNK_SIZE, aligned_up, slices};
use crate::commands::init_common::{
    Devices, alias_error, granularity_ok, reject_device_aliases, validate_granularity,
};
use crate::commands::session::{
    Exchange, Question, Reply, ReplyView, Request, RequestView, Tool, answered, done, fits,
    lemma_history_grows, overwrites, request_view,
};
use crate::copy::{CopyEvent, CopyState, carries, law_full_copy_transfers_all};
use crate::error::{DevicePair, Error};
use crate::ramdisk::{buffered_size, law_sizes_fit, validate_size};
use crate::state::AppState;
use crate::text::components;

verus! {

/// Which command is run.
#[derive(Debug, Clone, Copy, PartialEq, Eq, Structural)]
pub enum InitKind {
    /// A fresh filesystem is created on virgin and copied to scratch.
    New,
    /// Virgin is adopted and copied to scratch.
    From,
    /// Both volumes are adopted as they are.
    FromWithoutCopy,
}

/// What schelk is to control.
#[derive(Debug)]
pub struct InitParams {
    pub virgin: String,
    pub scratch: String,
    pub ramdisk: String,
    pub mount_point: String,
    pub fstype: String,
    pub mount_options: Option<String>,
    pub granularity: u64,
    pub dm_era_name: String,
}

/// Where the command stands.
#[derive(Debug)]
pub enum InitStep {
    Root,
    Resolve,
    CheckMkfs,
    Load,
    Reinitialize,
    ValidateVirgin,
    ValidateScratch,
    VirginSize,
    ScratchSize,
    RamdiskSize,
    Confirm,
    MakeFilesystem,
    Copy,
    Hash,
    Save,
    Finished,
    Failed { error: Error },
}

/// A run of `init-new` or `init-from`.
#[derive(Debug)]
pub struct Init {
    pub kind: InitKind,
    pub yes: bool,
    pub reinit: bool,
    pub params: InitParams,
    pub step: InitStep,
    pub existing: Option<AppState>,
    pub size: u64,
    pub hash: [u8; 32],
}

impl Init {
    /// What holds of a run at every moment.
    pub open spec fn wf(self) -> bool {
        &&& !(self.step is Root || self.step is Failed) ==> granularity_ok(self.params.granularity)
        &&& self.step is Reinitialize ==> self.existing is Some
    }

    /// The state that is saved.
    pub open spec fn new_state(self) -> AppState {
        let p = self.params;
        AppState {
            virgin: p.virgin,
            scratch: p.scratch,
            ramdisk: p.ramdisk,
            mount_point: p.mount_point,
            fstype: p.fstype,
            mount_options: p.mount_options,
            granularity: p.granularity,
            virgin_superblock_hash: self.hash,
            dm_era_name: p.dm_era_name,
            is_mounted: false,
            current_era: None,
        }
    }

    /// Asks whether to go on.
    pub open spec fn confirm_request(self) -> RequestView {
        RequestView::Confirm {
            question: if self.kind == InitKind::New {
                Question::InitNew
            } else {
                Question::InitFrom
            },
            skip: self.yes,
        }
    }

    /// Asks whether to replace the state of an initialized schelk.
    pub open spec fn reinit_request(self) -> RequestView {
        RequestView::Confirm {
            question: Question::Reinitialize {
                virgin: self.existing->0.virgin,
                scratch: self.existing->0.scratch,
            },
            skip: self.reinit,
        }
    }

    /// The request to copy virgin to scratch.
    pub open spec fn copy_request(self) -> RequestView {
        RequestView::FullCopy { from: self.params.virgin, to: self.params.scratch }
    }

    /// What the run asks for next; nothing where it has ended.
    pub open spec fn next_request(self) -> Option<RequestView> {
        let p = self.params;
        match self.step {
            InitStep::Root => Some(RequestView::User),
            InitStep::Resolve => Some(
                RequestView::Resolve { virgin: p.virgin, scratch: p.scratch, ramdisk: p.ramdisk },
            ),
            InitStep::CheckMkfs => Some(RequestView::CheckTool { tool: Tool::MkfsExt4 }),
            InitStep::Load => Some(RequestView::LoadState),
            InitStep::Reinitialize => Some(self.reinit_request()),
            InitStep::ValidateVirgin => Some(RequestView::ValidateDevice { path: p.virgin }),
            InitStep::ValidateScratch => Some(RequestView::ValidateDevice { path: p.scratch }),
            InitStep::VirginSize => Some(RequestView::DeviceSize { path: p.virgin }),
            InitStep::ScratchSize => Some(RequestView::DeviceSize { path: p.scratch }),
            InitStep::RamdiskSize => Some(RequestView::DeviceSize { path: p.ramdisk }),
            InitStep::Confirm => Some(self.confirm_request()),
            InitStep::MakeFilesystem => Some(RequestView::MakeFilesystem { path: p.virgin }),
            InitStep::Copy => Some(self.copy_request()),
            InitStep::Hash => Some(RequestView::HashVolume { path: p.virgin }),
            InitStep::Save => Some(RequestView::SaveState { state: self.new_state() }),
            InitStep::Finished => None,
            InitStep::Failed { error } => None,
        }
    }

    /// Whether the reply answers what was asked for.
    pub open spec fn accepts(self, reply: ReplyView) -> bool {
        self.next_request() matches Some(request) && fits(request, reply)
    }

    /// The run at another step.
    pub open spec fn at(self, step: InitStep) -> Init {
        Init { step, ..self }
    }

    /// The run after an error.
    pub open spec fn fail(self, error: Error) -> Init {
        self.at(InitStep::Failed { error })
    }

    /// The run after a step that is carried out or fails.
    pub open spec fn proceed(self, reply: ReplyView, step: InitStep) -> Init {
        match reply {
            ReplyView::Failed { message } => self.fail(Error::Failed { message }),
            _ => self.at(step),
        }
    }

    /// The run after the user was asked.
    pub open spec fn proceed_if(self, reply: ReplyView, step: InitStep) -> Init {
        match reply {
            ReplyView::Answer { yes: false } => self.fail(Error::Cancelled),
            _ => self.proceed(reply, step),
        }
    }

    /// The devices, as they were given and as they resolve.
    pub open spec fn devices(self, virgin: String, scratch: String, ramdisk: String) -> Devices {
        Devices {
            virgin: self.params.virgin,
            scratch: self.params.scratch,
            ramdisk: self.params.ramdisk,
            virgin_resolved: virgin,
            scratch_resolved: scratch,
            ramdisk_resolved: ramdisk,
        }
    }

    /// The run after the reply.
    pub open spec fn after(self, reply: ReplyView) -> Init {
        let p = self.params;
        match self.step {
            InitStep::Root => match reply {
                ReplyView::User { euid } => if euid != 0 {
                    self.fail(Error::NotRoot)
                } else if p.granularity == 0 {
                    self.fail(Error::ZeroGranularity)
                } else if p.granularity % 512 != 0 {
                    self.fail(Error::UnevenGranularity { granularity: p.granularity })
                } else {
                    self.at(InitStep::Resolve)
                },
                ReplyView::Failed { message } => self.fail(Error::Failed { message }),
                _ => self,
            },
            InitStep::Resolve => match reply {
                ReplyView::Resolved { virgin, scratch, ramdisk } => match alias_error(
                    self.devices(virgin, scratch, ramdisk),
                ) {
                    Some(error) => self.fail(error),
                    None => self.at(
                        if self.kind == InitKind::New {
                            InitStep::CheckMkfs
                        } else {
                            InitStep::Load
                        },
                    ),
                },
                _ => self.proceed(reply, InitStep::Resolve),
            },
            InitStep::CheckMkfs => self.proceed(reply, InitStep::Load),
            InitStep::Load => match reply {
                ReplyView::Loaded { state: None } => self.at(InitStep::ValidateVirgin),
                ReplyView::Loaded { state: Some(existing) } => Init {
                    existing: Some(existing),
                    step: InitStep::Reinitialize,
                    ..self
                },
                _ => self.proceed(reply, InitStep::Load),
            },
            InitStep::Reinitialize => self.proceed_if(reply, InitStep::ValidateVirgin),
            InitStep::ValidateVirgin => self.proceed(reply, InitStep::ValidateScratch),
            InitStep::ValidateScratch => self.proceed(reply, InitStep::VirginSize),
            InitStep::VirginSize => match reply {
                ReplyView::Number { n } => Init { size: n, step: InitStep::ScratchSize, ..self },
                _ => self.proceed(reply, InitStep::VirginSize),
            },
            InitStep::ScratchSize => match reply {
                ReplyView::Number { n } => if n != self.size {
                    self.fail(
                        Error::VolumesDiffer {
                            virgin: p.virgin,
                            virgin_size: self.size,
                            scratch: p.scratch,
                            scratch_size: n,
                        },
                    )
                } else {
                    self.at(InitStep::RamdiskSize)
                },
                _ => self.proceed(reply, InitStep::ScratchSize),
            },
            InitStep::RamdiskSize => match reply {
                ReplyView::Number { n } => {
                    let required = buffered_size(self.size as nat, p.granularity as nat);
                    if n < required {
                        self.fail(Error::RamdiskTooSmall { required: required as u64, actual: n })
                    } else {
                        self.at(InitStep::Confirm)
                    }
                },
                _ => self.proceed(reply, InitStep::RamdiskSize),
            },
            InitStep::Confirm => self.proceed_if(
                reply,
                match self.kind {
                    InitKind::New => InitStep::MakeFilesystem,
                    InitKind::From => InitStep::Copy,
                    InitKind::FromWithoutCopy => InitStep::Hash,
                },
            ),
            InitStep::MakeFilesystem => self.proceed(reply, InitStep::Copy),
            InitStep::Copy => self.proceed(reply, InitStep::Hash),
            InitStep::Hash => match reply {
                ReplyView::Hash { hash } => Init { hash, step: InitStep::Save, ..self },
                _ => self.proceed(reply, InitStep::Hash),
            },
            InitStep::Save => self.proceed(reply, InitStep::Finished),
            _ => self,
        }
    }

    /// Whether the run has not begun.
    pub open spec fn fresh(self) -> bool {
        self.step is Root && self.existing is None
    }

    /// A run of `init-new`: the filesystem is ext4, and `-y` also confirms that the
    /// state of an initialized schelk is replaced.
    pub fn init_new(
        virgin: String,
        scratch: String,
        ramdisk: String,
        mount_point: String,
        mount_options: Option<String>,
        granularity: u64,
        dm_era_name: String,
        yes: bool,
    ) -> (run: Init)
        ensures
            run.wf(),
            run.fresh(),
            run.kind == InitKind::New,
            run.yes == yes,
            run.reinit == yes,
            run.params == (InitParams {
                virgin,
                scratch,
                ramdisk,
                mount_point,
                fstype: run.params.fstype,
                mount_options,
                granularity,
                dm_era_name,
            }),
            run.params.fstype@ == "ext4"@,
    {
        Init {
            kind: InitKind::New,
            yes,
            reinit: yes,
            params: InitParams {
                virgin,
                scratch,
                ramdisk,
                mount_point,
                fstype: "ext4".to_owned(),
                mount_options,
                granularity,
                dm_era_name,
            },
            step: InitStep::Root,
            existing: None,
            size: 0,
            hash: [0; 32],
        }
    }

    /// A run of `init-from`.
    pub fn init_from(params: InitParams, no_copy: bool, yes: bool, reinit: bool) -> (run: Init)
        ensures
            run.wf(),
            run.fresh(),
            run.kind == (if no_copy {
                InitKind::FromWithoutCopy
            } else {
                InitKind::From
            }),
            run.yes == yes,
            run.reinit == reinit,
            run.params == params,
    {
        Init {
            kind: if no_copy {
                InitKind::FromWithoutCopy
            } else {
                InitKind::From
            },
            yes,
            reinit,
            params,
            step: InitStep::Root,
            existing: None,
            size: 0,
            hash: [0; 32],
        }
    }

    /// What the run asks for next; nothing where it has ended.
    pub fn request(&self) -> (request: Option<Request>)
        requires
            self.wf(),
        ensures
            request_view(request) == self.next_request(),
    {
        let p = &self.params;
        match &self.step {
            InitStep::Root => Some(Request::User),
            InitStep::Resolve => Some(
                Request::Resolve {
                    virgin: p.virgin.clone(),
                    scratch: p.scratch.clone(),
                    ramdisk: p.ramdisk.clone(),
                },
            ),
            InitStep::CheckMkfs => Some(Request::CheckTool { tool: Tool::MkfsExt4 }),
            InitStep::Load => Some(Request::LoadState),
            InitStep::Reinitialize => match &self.existing {
                Some(e) => Some(
                    Request::Confirm {
                        question: Question::Reinitialize {
                            virgin: e.virgin.clone(),
                            scratch: e.scratch.clone(),
                        },
                        skip: self.reinit,
                    },
                ),
                None => None,
            },
            InitStep::ValidateVirgin => Some(Request::ValidateDevice { path: p.virgin.clone() }),
            InitStep::ValidateScratch => Some(Request::ValidateDevice { path: p.scratch.clone() }),
            InitStep::VirginSize => Some(Request::DeviceSize { path: p.virgin.clone() }),
            InitStep::ScratchSize => Some(Request::DeviceSize { path: p.scratch.clone() }),
            InitStep::RamdiskSize => Some(Request::DeviceSize { path: p.ramdisk.clone() }),
            InitStep::Confirm => {
                let question = match self.kind {
                    InitKind::New => Question::InitNew,
                    _ => Question::InitFrom,
                };
                Some(Request::Confirm { question, skip: self.yes })
            },
            InitStep::MakeFilesystem => Some(Request::MakeFilesystem { path: p.virgin.clone() }),
            InitStep::Copy => Some(
                Request::FullCopy { from: p.virgin.clone(), to: p.scratch.clone() },
            ),
            InitStep::Hash => Some(Request::HashVolume { path: p.virgin.clone() }),
            InitStep::Save => Some(
                Request::SaveState {
                    state: AppState {
                        virgin: p.virgin.clone(),
                        scratch: p.scratch.clone(),
                        ramdisk: p.ramdisk.clone(),
                        mount_point: p.mount_point.clone(),
                        fstype: p.fstype.clone(),
                        mount_options: match &p.mount_options {
                            Some(o) => Some(o.clone()),
                            None => None,
                        },
                        granularity: p.granularity,
                        virgin_superblock_hash: self.hash,
                        dm_era_name: p.dm_era_name.clone(),
                        is_mounted: false,
                        current_era: None,
                    },
                },
            ),
            InitStep::Finished => None,
            InitStep::Failed { error: _ } => None,
        }
    }

    fn go_to(self, step: InitStep) -> (run: Init)
        ensures
            run == self.at(step),
    {
        Init { step, ..self }
    }

    fn go_on(self, reply: Reply, step: InitStep) -> (run: Init)
        ensures
            run == self.proceed(reply@, step),
    {
        match reply {
            Reply::Failed { message } => self.go_to(
                InitStep::Failed { error: Error::Failed { message } },
            ),
            _ => self.go_to(step),
        }
    }

    fn go_on_if(self, reply: Reply, step: InitStep) -> (run: Init)
        ensures
            run == self.proceed_if(reply@, step),
    {
        match reply {
            Reply::Answer { yes: false } => self.go_to(
                InitStep::Failed { error: Error::Cancelled },
            ),
            reply => self.go_on(reply, step),
        }
    }

    /// Takes the reply to what was asked for.
    pub fn advance(self, reply: Reply) -> (run: Init)
        requires
            self.wf(),
            self.accepts(reply@),
        ensures
            run == self.after(reply@),
            run.wf(),
    {
        match &self.step {
            InitStep::Root => match reply {
                Reply::User { euid } => {
                    if euid != 0 {
                        return self.go_to(InitStep::Failed { error: Error::NotRoot });
                    }
                    match validate_granularity(self.params.granularity) {
                        Err(error) => self.go_to(InitStep::Failed { error }),
                        Ok(_) => self.go_to(InitStep::Resolve),
                    }
                },
                reply => self.go_on(reply, InitStep::Root),
            },
            InitStep::Resolve => match reply {
                Reply::Resolved { virgin, scratch, ramdisk } => {
                    let devices = Devices {
                        virgin: self.params.virgin.clone(),
                        scratch: self.params.scratch.clone(),
                        ramdisk: self.params.ramdisk.clone(),
                        virgin_resolved: virgin,
                        scratch_resolved: scratch,
                        ramdisk_resolved: ramdisk,
                    };
                    match reject_device_aliases(&devices) {
                        Err(error) => self.go_to(InitStep::Failed { error }),
                        Ok(_) => {
                            let step = match self.kind {
                                InitKind::New => InitStep::CheckMkfs,
                                _ => InitStep::Load,
                            };
                            self.go_to(step)
                        },
                    }
                },
                reply => self.go_on(reply, InitStep::Resolve),
            },
            InitStep::CheckMkfs => self.go_on(reply, InitStep::Load),
            InitStep::Load => match reply {
                Reply::Loaded { state } => match state {
                    None => self.go_to(InitStep::ValidateVirgin),
                    Some(existing) => Init {
                        existing: Some(existing),
                        step: InitStep::Reinitialize,
                        ..self
                    },
                },
                reply => self.go_on(reply, InitStep::Load),
            },
            InitStep::Reinitialize => self.go_on_if(reply, InitStep::ValidateVirgin),
            InitStep::ValidateVirgin => self.go_on(reply, InitStep::ValidateScratch),
            InitStep::ValidateScratch => self.go_on(reply, InitStep::VirginSize),
            InitStep::VirginSize => match reply {
                Reply::Number { n } => Init { size: n, step: InitStep::ScratchSize, ..self },
                reply => self.go_on(reply, InitStep::VirginSize),
            },
            InitStep::ScratchSize => match reply {
                Reply::Number { n } => if n != self.size {
                    let error = Error::VolumesDiffer {
                        virgin: self.params.virgin.clone(),
                        virgin_size: self.size,
                        scratch: self.params.scratch.clone(),
                        scratch_size: n,
                    };
                    self.go_to(InitStep::Failed { error })
                } else {
                    self.go_to(InitStep::RamdiskSize)
                },
                reply => self.go_on(reply, InitStep::ScratchSize),
            },
            InitStep::RamdiskSize => match reply {
                Reply::Number { n } => {
                    proof {
                        law_sizes_fit(self.size, self.params.granularity);
                    }
                    match validate_size(n, self.size, self.params.granularity) {
                        Err(error) => self.go_to(InitStep::Failed { error }),
                        Ok(_) => self.go_to(InitStep::Confirm),
                    }
                },
                reply => self.go_on(reply, InitStep::RamdiskSize),
            },
            InitStep::Confirm => {
                let step = match self.kind {
                    InitKind::New => InitStep::MakeFilesystem,
                    InitKind::From => InitStep::Copy,
                    InitKind::FromWithoutCopy => InitStep::Hash,
                };
                self.go_on_if(reply, step)
            },
            InitStep::MakeFilesystem => self.go_on(reply, InitStep::Copy),
            InitStep::Copy => self.go_on(reply, InitStep::Hash),
            InitStep::Hash => match reply {
                Reply::Hash { hash } => Init { hash, step: InitStep::Save, ..self },
                reply => self.go_on(reply, InitStep::Hash),
            },
            InitStep::Save => self.go_on(reply, InitStep::Finished),
            _ => self,
        }
    }
}

// ---------------------------------------------------------------------------
// What every run keeps to
// ---------------------------------------------------------------------------

impl Init {
    /// The run after some replies.
    pub open spec fn run(self, replies: Seq<ReplyView>) -> Init
        decreases replies.len(),
    {
        if replies.len() == 0 {
            self
        } else {
            self.run(replies.drop_last()).after(replies.last())
        }
    }

    /// Whether each reply answers what was asked for when it came.
    pub open spec fn can_run(self, replies: Seq<ReplyView>) -> bool
        decreases replies.len(),
    {
        replies.len() > 0 ==> {
            &&& self.can_run(replies.drop_last())
            &&& self.run(replies.drop_last()).accepts(replies.last())
        }
    }

    /// What was asked for and replied.
    pub open spec fn history(self, replies: Seq<ReplyView>) -> Seq<Exchange>
        decreases replies.len(),
    {
        if replies.len() == 0 {
            Seq::empty()
        } else {
            self.history(replies.drop_last()).push(
                Exchange {
                    request: self.run(replies.drop_last()).next_request()->0,
                    reply: replies.last(),
                },
            )
        }
    }

    /// How far the run has come; a run that has failed has come nowhere.
    pub open spec fn rank(self) -> nat {
        match self.step {
            InitStep::Root => 0,
            InitStep::Resolve => 1,
            InitStep::CheckMkfs => 2,
            InitStep::Load => 3,
            InitStep::Reinitialize => 4,
            InitStep::ValidateVirgin => 5,
            InitStep::ValidateScratch => 6,
            InitStep::VirginSize => 7,
            InitStep::ScratchSize => 8,
            InitStep::RamdiskSize => 9,
            InitStep::Confirm => 10,
            InitStep::MakeFilesystem => 11,
            InitStep::Copy => 12,
            InitStep::Hash => 13,
            InitStep::Save => 14,
            InitStep::Finished => 15,
            InitStep::Failed { error } => 0,
        }
    }

    /// Whether the user has confirmed everything that needs it: the command, and the
    /// replacement of a state that was there.
    pub open spec fn confirmed(self, h: Seq<Exchange>) -> bool {
        &&& answered(h, self.confirm_request(), ReplyView::Answer { yes: true })
        &&& self.reinit_confirmed(h)
    }

    /// Whether the user has confirmed the replacement of a state that was there.
    pub open spec fn reinit_confirmed(self, h: Seq<Exchange>) -> bool {
        self.existing is Some ==> answered(
            h,
            self.reinit_request(),
            ReplyView::Answer { yes: true },
        )
    }

    /// Whether both volumes were found to have one size, for which the RAM disk is
    /// large enough.
    pub open spec fn measured(self, h: Seq<Exchange>) -> bool {
        &&& answered(
            h,
            RequestView::DeviceSize { path: self.params.virgin },
            ReplyView::Number { n: self.size },
        )
        &&& answered(
            h,
            RequestView::DeviceSize { path: self.params.scratch },
            ReplyView::Number { n: self.size },
        )
        &&& crate::commands::mount::ramdisk_found(
            h,
            self.params.ramdisk,
            buffered_size(self.size as nat, self.params.granularity as nat),
        )
    }

    /// What the volumes were made to hold.
    pub open spec fn prepared(self, h: Seq<Exchange>) -> bool {
        &&& self.kind == InitKind::New ==> done(
            h,
            RequestView::MakeFilesystem { path: self.params.virgin },
        )
        &&& self.kind != InitKind::FromWithoutCopy ==> done(h, self.copy_request())
    }

    /// What is known of the past at every step.
    pub open spec fn facts(self, h: Seq<Exchange>) -> bool {
        let p = self.params;
        &&& self.step !is Failed && self.rank() <= 3 ==> self.existing is None
        &&& self.rank() >= 5 ==> self.reinit_confirmed(h)
        &&& self.rank() >= 8 ==> answered(
            h,
            RequestView::DeviceSize { path: p.virgin },
            ReplyView::Number { n: self.size },
        )
        &&& self.rank() >= 9 ==> answered(
            h,
            RequestView::DeviceSize { path: p.scratch },
            ReplyView::Number { n: self.size },
        )
        &&& self.rank() >= 10 ==> self.measured(h)
        &&& self.rank() >= 11 ==> self.confirmed(h)
        &&& self.rank() >= 12 && self.kind == InitKind::New ==> done(
            h,
            RequestView::MakeFilesystem { path: p.virgin },
        )
        &&& self.rank() >= 13 ==> self.prepared(h)
        &&& self.rank() >= 14 ==> answered(
            h,
            RequestView::HashVolume { path: p.virgin },
            ReplyView::Hash { hash: self.hash },
        )
        &&& self.rank() >= 15 ==> done(h, RequestView::SaveState { state: self.new_state() })
        &&& self.step is MakeFilesystem ==> self.kind == InitKind::New
        &&& self.step is Copy ==> self.kind != InitKind::FromWithoutCopy
        &&& self.step !is Failed && self.rank() <= 11 ==> forall|i: int|
            0 <= i < h.len() ==> overwrites((#[trigger] h[i]).request) is None
        &&& self.step !is Failed && self.rank() <= 14 ==> forall|i: int|
            0 <= i < h.len() ==> !((#[trigger] h[i]).request is SaveState)
    }

    /// What holds of every request that was made.
    pub open spec fn discipline(self, h: Seq<Exchange>) -> bool {
        forall|i: int|
            0 <= i < h.len() ==> {
                let request = (#[trigger] h[i]).request;
                &&& overwrites(request) is Some ==> {
                    &&& self.confirmed(h)
                    &&& self.measured(h)
                    &&& self.may_overwrite(request)
                }
                &&& request is SaveState ==> {
                    &&& request == (RequestView::SaveState { state: self.new_state() })
                    &&& granularity_ok(self.params.granularity)
                    &&& self.confirmed(h)
                    &&& self.measured(h)
                    &&& self.prepared(h)
                }
            }
    }

    /// Whether the command overwrites volumes in this way.
    pub open spec fn may_overwrite(self, request: RequestView) -> bool {
        ||| self.kind == InitKind::New && request == (RequestView::MakeFilesystem {
            path: self.params.virgin,
        })
        ||| self.kind != InitKind::FromWithoutCopy && request == self.copy_request()
    }
}

#[verifier::rlimit(80)]
proof fn lemma_facts(v: Init, h: Seq<Exchange>, reply: ReplyView)
    requires
        v.wf(),
        v.accepts(reply),
        v.facts(h),
    ensures
        v.after(reply).wf(),
        v.after(reply).facts(h.push(Exchange { request: v.next_request()->0, reply })),
{
    let x = Exchange { request: v.next_request()->0, reply };
    lemma_history_grows(h, x);
}

#[verifier::rlimit(80)]
proof fn lemma_discipline(v: Init, h: Seq<Exchange>, reply: ReplyView)
    requires
        v.wf(),
        v.accepts(reply),
        v.facts(h),
        v.discipline(h),
    ensures
        v.after(reply).discipline(h.push(Exchange { request: v.next_request()->0, reply })),
{
    let x = Exchange { request: v.next_request()->0, reply };
    lemma_history_grows(h, x);
    let g = h.push(x);
    let w = v.after(reply);
    assert forall|i: int| 0 <= i < g.len() implies {
        let request = (#[trigger] g[i]).request;
        &&& overwrites(request) is Some ==> {
            &&& w.confirmed(g)
            &&& w.measured(g)
            &&& w.may_overwrite(request)
        }
        &&& request is SaveState ==> {
            &&& request == (RequestView::SaveState { state: w.new_state() })
            &&& granularity_ok(w.params.granularity)
            &&& w.confirmed(g)
            &&& w.measured(g)
            &&& w.prepared(g)
        }
    } by {
        if i < h.len() {
            assert(g[i] == h[i]);
        } else {
            assert(g[i] == x);
        }
    }
}

proof fn lemma_init(start: Init, replies: Seq<ReplyView>)
    requires
        start.fresh(),
        start.can_run(replies),
    ensures
        start.run(replies).wf(),
        start.run(replies).facts(start.history(replies)),
        start.run(replies).discipline(start.history(replies)),
        start.run(replies).kind == start.kind,
        start.run(replies).params == start.params,
    decreases replies.len(),
{
    if replies.len() > 0 {
        lemma_init(start, replies.drop_last());
        let v = start.run(replies.drop_last());
        let h = start.history(replies.drop_last());
        lemma_facts(v, h, replies.last());
        lemma_discipline(v, h, replies.last());
    }
}

/// No volume is overwritten and no state saved before the user has confirmed the
/// command, and also the replacement of a state that was there, and before both volumes
/// were found to have one size. `init-new` overwrites both volumes, `init-from` only
/// scratch, and without a copy none. A state that is saved has a granularity that dm-era
/// can track, and is not mounted.
pub proof fn law_init_asks_first(start: Init, replies: Seq<ReplyView>, i: int)
    requires
        start.fresh(),
        start.can_run(replies),
        0 <= i < start.history(replies).len(),
    ensures
        ({
            let v = start.run(replies);
            let h = start.history(replies);
            &&& overwrites(h[i].request) is Some ==> {
                &&& v.confirmed(h)
                &&& v.measured(h)
                &&& v.may_overwrite(h[i].request)
                &&& start.kind != InitKind::FromWithoutCopy
                &&& start.kind == InitKind::From ==> overwrites(h[i].request) == Some(
                    start.params.scratch,
                )
            }
            &&& h[i].request is SaveState ==> {
                &&& h[i].request == (RequestView::SaveState { state: v.new_state() })
                &&& granularity_ok(v.new_state().granularity)
                &&& v.confirmed(h)
                &&& v.prepared(h)
            }
        }),
{
    lemma_init(start, replies);
}

/// A run that has finished has prepared the volumes and saved the state, with the hash
/// that the virgin volume was found to have.
pub proof fn law_init_completes(start: Init, replies: Seq<ReplyView>)
    requires
        start.fresh(),
        start.can_run(replies),
        start.run(replies).step is Finished,
    ensures
        ({
            let v = start.run(replies);
            let h = start.history(replies);
            &&& v.prepared(h)
            &&& answered(
                h,
                RequestView::HashVolume { path: start.params.virgin },
                ReplyView::Hash { hash: v.new_state().virgin_superblock_hash },
            )
            &&& done(h, RequestView::SaveState { state: v.new_state() })
        }),
{
    lemma_init(start, replies);
}

/// A run that has finished with a copy has made scratch equal to virgin. `volumes` are the
/// two volumes before the copy began, of the size that they were found to have, and `events`
/// what happened while it ran.
pub proof fn law_init_leaves_equal_volumes(
    start: Init,
    replies: Seq<ReplyView>,
    volumes: CopyState,
    events: Seq<CopyEvent>,
)
    requires
        start.fresh(),
        start.can_run(replies),
        start.run(replies).step is Finished,
        start.kind != InitKind::FromWithoutCopy,
        start.run(replies).size <= u64::MAX - 4095,
        volumes.fresh(),
        volumes.can_run(events),
        volumes.src.len() == start.run(replies).size,
        volumes.dst.len() == start.run(replies).size,
        carries(
            volumes,
            slices(
                0,
                aligned_up(start.run(replies).size as nat),
                FULL_COPY_CHUNK_SIZE as nat,
            ),
        ),
        volumes.run(events).succeeded(),
    ensures
        start.run(replies).measured(start.history(replies)),
        done(start.history(replies), start.run(replies).copy_request()),
        volumes.run(events).dst == volumes.src,
{
    lemma_init(start, replies);
    law_full_copy_transfers_all(
        volumes,
        events,
        start.run(replies).size as nat,
        FULL_COPY_CHUNK_SIZE as nat,
    );
}

// ---------------------------------------------------------------------------
// What a run asks for, and when
// ---------------------------------------------------------------------------

impl Init {
    spec fn speaks_of(self, h: Seq<Exchange>, request: RequestView) -> bool {
        match request {
            RequestView::User => true,
            RequestView::LoadState => true,
            RequestView::Resolve { virgin, scratch, ramdisk } => {
                &&& virgin == self.params.virgin
                &&& scratch == self.params.scratch
                &&& ramdisk == self.params.ramdisk
            },
            RequestView::CheckTool { tool } => self.kind == InitKind::New && tool == Tool::MkfsExt4,
            RequestView::Confirm { question, skip } => match question {
                Question::InitNew => self.kind == InitKind::New && skip == self.yes,
                Question::InitFrom => self.kind != InitKind::New && skip == self.yes,
                Question::Reinitialize { virgin, scratch } => skip == self.reinit && exists|
                    existing: AppState,
                | #[trigger]
                    answered(h, RequestView::LoadState, ReplyView::Loaded { state: Some(existing) })
                        && existing.virgin == virgin && existing.scratch == scratch,
                _ => false,
            },
            RequestView::ValidateDevice { path } => path == self.params.virgin || path
                == self.params.scratch,
            RequestView::DeviceSize { path } => path == self.params.virgin || path
                == self.params.scratch || path == self.params.ramdisk,
            RequestView::MakeFilesystem { path } => self.kind == InitKind::New && path
                == self.params.virgin,
            RequestView::FullCopy { from, to } => {
                &&& self.kind != InitKind::FromWithoutCopy
                &&& from == self.params.virgin
                &&& to == self.params.scratch
            },
            RequestView::HashVolume { path } => path == self.params.virgin,
            RequestView::SaveState { state } => {
                &&& state.virgin == self.params.virgin
                &&& state.scratch == self.params.scratch
                &&& state.ramdisk == self.params.ramdisk
                &&& state.mount_point == self.params.mount_point
                &&& state.fstype == self.params.fstype
                &&& state.mount_options == self.params.mount_options
                &&& state.granularity == self.params.granularity
                &&& state.granularity > 0 && state.granularity % 512 == 0
                &&& state.dm_era_name == self.params.dm_era_name
                &&& !state.is_mounted
                &&& state.current_era is None
                &&& answered(
                    h,
                    RequestView::HashVolume { path: self.params.virgin },
                    ReplyView::Hash { hash: state.virgin_superblock_hash },
                )
            },
            _ => false,
        }
    }

    spec fn keeps_to(self, h: Seq<Exchange>) -> bool {
        &&& self.step is CheckMkfs ==> self.kind == InitKind::New
        &&& self.step is Reinitialize ==> self.existing is Some && answered(
            h,
            RequestView::LoadState,
            ReplyView::Loaded { state: self.existing },
        )
        &&& forall|i: int| 0 <= i < h.len() ==> self.speaks_of(h, (#[trigger] h[i]).request)
    }
}

proof fn lemma_still_speaks(v: Init, w: Init, h: Seq<Exchange>, last: Exchange, request: RequestView)
    requires
        v.speaks_of(h, request),
        w.kind == v.kind,
        w.yes == v.yes,
        w.reinit == v.reinit,
        w.params == v.params,
    ensures
        w.speaks_of(h.push(last), request),
{
    lemma_history_grows(h, last);
    if let RequestView::Confirm { question: Question::Reinitialize { virgin, scratch }, skip } =
        request {
        let existing = choose|existing: AppState| #[trigger]
            answered(h, RequestView::LoadState, ReplyView::Loaded { state: Some(existing) })
                && existing.virgin == virgin && existing.scratch == scratch;
        assert(answered(
            h.push(last),
            RequestView::LoadState,
            ReplyView::Loaded { state: Some(existing) },
        ));
    }
}

#[verifier::rlimit(80)]
proof fn lemma_keeps_to(v: Init, h: Seq<Exchange>, reply: ReplyView)
    requires
        v.wf(),
        v.accepts(reply),
        v.facts(h),
        v.keeps_to(h),
    ensures
        v.after(reply).keeps_to(h.push(Exchange { request: v.next_request()->0, reply })),
{
    let x = Exchange { request: v.next_request()->0, reply };
    let g = h.push(x);
    let w = v.after(reply);
    lemma_history_grows(h, x);
    assert forall|i: int| 0 <= i < g.len() implies w.speaks_of(g, (#[trigger] g[i]).request) by {
        if i < h.len() {
            assert(g[i] == h[i]);
            lemma_still_speaks(v, w, h, x, h[i].request);
        } else {
            assert(g[i] == x);
            if v.step is Reinitialize {
                let existing = v.existing->0;
                assert(answered(
                    g,
                    RequestView::LoadState,
                    ReplyView::Loaded { state: Some(existing) },
                ));
            }
        }
    }
}

proof fn lemma_run_keeps_to(start: Init, replies: Seq<ReplyView>)
    requires
        start.fresh(),
        start.can_run(replies),
    ensures
        start.run(replies).keeps_to(start.history(replies)),
        start.run(replies).kind == start.kind,
        start.run(replies).yes == start.yes,
        start.run(replies).reinit == start.reinit,
        start.run(replies).params == start.params,
    decreases replies.len(),
{
    if replies.len() > 0 {
        lemma_run_keeps_to(start, replies.drop_last());
        lemma_init(start, replies.drop_last());
        let v = start.run(replies.drop_last());
        lemma_keeps_to(v, start.history(replies.drop_last()), replies.last());
    }
}

/// Whatever a run asks for concerns what it was started with: a filesystem is made only on
/// the virgin volume and only by `init-new`, only virgin is copied and only to scratch, and
/// never by an adoption without a copy. What is saved is what was given, field by field, not
/// mounted and without an era, with the hash that the virgin volume was found to have.
pub proof fn law_requests_follow_what_was_given(start: Init, replies: Seq<ReplyView>, i: int)
    requires
        start.fresh(),
        start.can_run(replies),
        0 <= i < start.history(replies).len(),
    ensures
        ({
            let h = start.history(replies);
            match h[i].request {
                RequestView::User => true,
                RequestView::LoadState => true,
                RequestView::Resolve { virgin, scratch, ramdisk } => {
                    &&& virgin == start.params.virgin
                    &&& scratch == start.params.scratch
                    &&& ramdisk == start.params.ramdisk
                },
                RequestView::CheckTool { tool } => start.kind == InitKind::New && tool == Tool::MkfsExt4,
                RequestView::Confirm { question, skip } => match question {
                    Question::InitNew => start.kind == InitKind::New && skip == start.yes,
                    Question::InitFrom => start.kind != InitKind::New && skip == start.yes,
                    Question::Reinitialize { virgin, scratch } => skip == start.reinit && exists|
                        existing: AppState,
                    | #[trigger]
                        answered(h, RequestView::LoadState, ReplyView::Loaded { state: Some(existing) })
                            && existing.virgin == virgin && existing.scratch == scratch,
                    _ => false,
                },
                RequestView::ValidateDevice { path } => path == start.params.virgin || path
                    == start.params.scratch,
                RequestView::DeviceSize { path } => path == start.params.virgin || path
                    == start.params.scratch || path == start.params.ramdisk,
                RequestView::MakeFilesystem { path } => start.kind == InitKind::New && path
                    == start.params.virgin,
                RequestView::FullCopy { from, to } => {
                    &&& start.kind != InitKind::FromWithoutCopy
                    &&& from == start.params.virgin
                    &&& to == start.params.scratch
                },
                RequestView::HashVolume { path } => path == start.params.virgin,
                RequestView::SaveState { state } => {
                    &&& state.virgin == start.params.virgin
                    &&& state.scratch == start.params.scratch
                    &&& state.ramdisk == start.params.ramdisk
                    &&& state.mount_point == start.params.mount_point
                    &&& state.fstype == start.params.fstype
                    &&& state.mount_options == start.params.mount_options
                    &&& state.granularity == start.params.granularity
                    &&& state.granularity > 0 && state.granularity % 512 == 0
                    &&& state.dm_era_name == start.params.dm_era_name
                    &&& !state.is_mounted
                    &&& state.current_era is None
                    &&& answered(
                        h,
                        RequestView::HashVolume { path: start.params.virgin },
                        ReplyView::Hash { hash: state.virgin_superblock_hash },
                    )
                },
                _ => false,
            }
        }),
{
    lemma_run_keeps_to(start, replies);
    let h = start.history(replies);
    assert(start.run(replies).speaks_of(h, h[i].request));
}

/// What follows each reply: which request comes next, or how the run ends. A run goes on
/// only where what it asked for was carried out and found as it must be: the user is root,
/// the granularity is a multiple of a sector, the three devices differ, both volumes have
/// one size, the RAM disk is at least as large as required, and the user has agreed. Every
/// failure ends it with what was reported.
pub proof fn law_what_follows_a_reply(v: Init, reply: ReplyView)
    requires
        v.wf(),
        v.accepts(reply),
    ensures
        ({
            let w = v.after(reply);
            let next = w.next_request();
            let p = v.params;
            let plain = |message: String| w.step == (InitStep::Failed {
                error: Error::Failed { message },
            });
            let cancelled = w.step == (InitStep::Failed { error: Error::Cancelled });
            &&& w.step is Failed ==> next is None
            &&& w.kind == v.kind && w.yes == v.yes && w.reinit == v.reinit && w.params == p
            &&& match v.step {
                InitStep::Root => match reply {
                    ReplyView::User { euid } => if euid != 0 {
                        w.step == (InitStep::Failed { error: Error::NotRoot })
                    } else if p.granularity == 0 {
                        w.step == (InitStep::Failed { error: Error::ZeroGranularity })
                    } else if p.granularity % 512 != 0 {
                        w.step == (InitStep::Failed {
                            error: Error::UnevenGranularity { granularity: p.granularity },
                        })
                    } else {
                        next == Some(
                            RequestView::Resolve {
                                virgin: p.virgin,
                                scratch: p.scratch,
                                ramdisk: p.ramdisk,
                            },
                        )
                    },
                    ReplyView::Failed { message } => plain(message),
                    _ => false,
                },
                InitStep::Resolve => match reply {
                    ReplyView::Resolved { virgin, scratch, ramdisk } => {
                        let same = |a: String, b: String| components(a@) == components(b@);
                        if same(virgin, scratch) {
                            w.step == (InitStep::Failed {
                                error: Error::SameDevice {
                                    pair: DevicePair::VirginScratch,
                                    first: p.virgin,
                                    second: p.scratch,
                                },
                            })
                        } else if same(virgin, ramdisk) {
                            w.step == (InitStep::Failed {
                                error: Error::SameDevice {
                                    pair: DevicePair::VirginRamdisk,
                                    first: p.virgin,
                                    second: p.ramdisk,
                                },
                            })
                        } else if same(scratch, ramdisk) {
                            w.step == (InitStep::Failed {
                                error: Error::SameDevice {
                                    pair: DevicePair::ScratchRamdisk,
                                    first: p.scratch,
                                    second: p.ramdisk,
                                },
                            })
                        } else if v.kind == InitKind::New {
                            next == Some(RequestView::CheckTool { tool: Tool::MkfsExt4 })
                        } else {
                            next == Some(RequestView::LoadState)
                        }
                    },
                    ReplyView::Failed { message } => plain(message),
                    _ => false,
                },
                InitStep::CheckMkfs => match reply {
                    ReplyView::Failed { message } => plain(message),
                    _ => next == Some(RequestView::LoadState),
                },
                InitStep::Load => match reply {
                    ReplyView::Loaded { state: None } => w.step is ValidateVirgin && next == Some(
                        RequestView::ValidateDevice { path: p.virgin },
                    ),
                    ReplyView::Loaded { state: Some(existing) } => next == Some(
                        RequestView::Confirm {
                            question: Question::Reinitialize {
                                virgin: existing.virgin,
                                scratch: existing.scratch,
                            },
                            skip: v.reinit,
                        },
                    ),
                    ReplyView::Failed { message } => plain(message),
                    _ => false,
                },
                InitStep::Reinitialize => match reply {
                    ReplyView::Answer { yes } => if yes {
                        w.step is ValidateVirgin && next == Some(
                            RequestView::ValidateDevice { path: p.virgin },
                        )
                    } else {
                        cancelled
                    },
                    ReplyView::Failed { message } => plain(message),
                    _ => false,
                },
                InitStep::ValidateVirgin => match reply {
                    ReplyView::Failed { message } => plain(message),
                    _ => w.step is ValidateScratch && next == Some(
                        RequestView::ValidateDevice { path: p.scratch },
                    ),
                },
                InitStep::ValidateScratch => match reply {
                    ReplyView::Failed { message } => plain(message),
                    _ => w.step is VirginSize && next == Some(
                        RequestView::DeviceSize { path: p.virgin },
                    ),
                },
                InitStep::VirginSize => match reply {
                    ReplyView::Number { n } => {
                        &&& w.step is ScratchSize
                        &&& w.size == n
                        &&& next == Some(RequestView::DeviceSize { path: p.scratch })
                    },
                    ReplyView::Failed { message } => plain(message),
                    _ => false,
                },
                InitStep::ScratchSize => match reply {
                    ReplyView::Number { n } => if n == v.size {
                        &&& w.step is RamdiskSize
                        &&& w.size == v.size
                        &&& next == Some(RequestView::DeviceSize { path: p.ramdisk })
                    } else {
                        w.step == (InitStep::Failed {
                            error: Error::VolumesDiffer {
                                virgin: p.virgin,
                                virgin_size: v.size,
                                scratch: p.scratch,
                                scratch_size: n,
                            },
                        })
                    },
                    ReplyView::Failed { message } => plain(message),
                    _ => false,
                },
                InitStep::RamdiskSize => match reply {
                    ReplyView::Number { n } => {
                        let required = buffered_size(v.size as nat, p.granularity as nat);
                        if n < required {
                            w.step == (InitStep::Failed {
                                error: Error::RamdiskTooSmall {
                                    required: required as u64,
                                    actual: n,
                                },
                            })
                        } else {
                            next == Some(
                                RequestView::Confirm {
                                    question: if v.kind == InitKind::New {
                                        Question::InitNew
                                    } else {
                                        Question::InitFrom
                                    },
                                    skip: v.yes,
                                },
                            )
                        }
                    },
                    ReplyView::Failed { message } => plain(message),
                    _ => false,
                },
                InitStep::Confirm => match reply {
                    ReplyView::Answer { yes } => if yes {
                        next == Some(
                            match v.kind {
                                InitKind::New => RequestView::MakeFilesystem { path: p.virgin },
                                InitKind::From => RequestView::FullCopy {
                                    from: p.virgin,
                                    to: p.scratch,
                                },
                                InitKind::FromWithoutCopy => RequestView::HashVolume {
                                    path: p.virgin,
                                },
                            },
                        )
                    } else {
                        cancelled
                    },
                    ReplyView::Failed { message } => plain(message),
                    _ => false,
                },
                InitStep::MakeFilesystem => match reply {
                    ReplyView::Failed { message } => plain(message),
                    _ => next == Some(RequestView::FullCopy { from: p.virgin, to: p.scratch }),
                },
                InitStep::Copy => match reply {
                    ReplyView::Failed { message } => plain(message),
                    _ => next == Some(RequestView::HashVolume { path: p.virgin }),
                },
                InitStep::Hash => match reply {
                    ReplyView::Hash { hash } => next matches Some(RequestView::SaveState { state })
                        && state.virgin_superblock_hash == hash,
                    ReplyView::Failed { message } => plain(message),
                    _ => false,
                },
                InitStep::Save => match reply {
                    ReplyView::Failed { message } => plain(message),
                    _ => w.step is Finished && next is None,
                },
                InitStep::Finished => false,
                InitStep::Failed { error } => false,
            }
        }),
{
}

} // verus!
