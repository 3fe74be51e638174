//! The command `mount`: tracks the writes to the scratch volume with dm-era and
//! mounts it.

use vstd::prelude::*;
use crate::commands::session::{
    Exchange, Reply, ReplyView, Request, RequestView, Tool, answered, asked, done, fits,
    last_saved, lemma_history_grows, overwrites, request_view,
};
use crate::error::{Context, Error, Volume, already_mounted, not_initialized, volume_mismatch};
use crate::ramdisk::{buffered_size, check_sizes_fit, sizes_fit, validate_size};
use crate::state::AppState;
use crate::volume::same_hash;

verus! {

/// Where the command stands.
#[derive(Debug)]
pub enum MountStep {
    Root,
    Lock,
    Load,
    IsMounted,
    CheckDmsetup,
    DeviceExists,
    ScratchSize,
    RamdiskSize,
    HashVirgin,
    HashScratch,
    Reset,
    Create,
    Checkpoint,
    Mount,
    /// The dm-era device is removed because the command has failed.
    Rollback { error: Error },
    Save,
    Finished,
    Failed { error: Error },
}

/// A run of `mount`.
#[derive(Debug)]
pub struct MountRun {
    pub step: MountStep,
    pub state: Option<AppState>,
    pub scratch_size: u64,
}

impl MountRun {
    /// Whether the step comes before a state was accepted, or is the last one.
    pub open spec fn stateless(self) -> bool {
        match self.step {
            MountStep::Root => true,
            MountStep::Lock => true,
            MountStep::Load => true,
            MountStep::Failed { error } => true,
            _ => false,
        }
    }

    /// What holds of a run at every moment.
    pub open spec fn wf(self) -> bool {
        !self.stateless() ==> {
            &&& self.state is Some
            &&& !self.state->0.is_mounted
        }
    }

    /// The request to mount the dm-era device.
    pub open spec fn mount_request(self) -> RequestView {
        let s = self.state->0;
        RequestView::Mount {
            name: s.dm_era_name,
            mount_point: s.mount_point,
            fstype: s.fstype,
            options: s.mount_options,
        }
    }

    /// The request to create the dm-era device.
    pub open spec fn create_request(self) -> RequestView {
        let s = self.state->0;
        RequestView::CreateDevice {
            name: s.dm_era_name,
            metadata_dev: s.ramdisk,
            origin_dev: s.scratch,
            origin_size: self.scratch_size,
            granularity: s.granularity,
        }
    }

    /// What the run asks for next; nothing where it has ended.
    pub open spec fn next_request(self) -> Option<RequestView> {
        let s = self.state->0;
        match self.step {
            MountStep::Root => Some(RequestView::User),
            MountStep::Lock => Some(RequestView::Lock),
            MountStep::Load => Some(RequestView::LoadState),
            MountStep::IsMounted => Some(RequestView::IsMounted { mount_point: s.mount_point }),
            MountStep::CheckDmsetup => Some(RequestView::CheckTool { tool: Tool::Dmsetup }),
            MountStep::DeviceExists => Some(RequestView::DeviceExists { name: s.dm_era_name }),
            MountStep::ScratchSize => Some(RequestView::DeviceSize { path: s.scratch }),
            MountStep::RamdiskSize => Some(RequestView::DeviceSize { path: s.ramdisk }),
            MountStep::HashVirgin => Some(RequestView::HashVolume { path: s.virgin }),
            MountStep::HashScratch => Some(RequestView::HashVolume { path: s.scratch }),
            MountStep::Reset => Some(RequestView::ResetRamdisk { path: s.ramdisk }),
            MountStep::Create => Some(self.create_request()),
            MountStep::Checkpoint => Some(RequestView::Checkpoint { name: s.dm_era_name }),
            MountStep::Mount => Some(self.mount_request()),
            MountStep::Rollback { error } => Some(RequestView::RemoveDevice { name: s.dm_era_name }),
            MountStep::Save => Some(RequestView::SaveState { state: s.mounted() }),
            MountStep::Finished => None,
            MountStep::Failed { error } => None,
        }
    }

    /// Whether the reply answers what was asked for.
    pub open spec fn accepts(self, reply: ReplyView) -> bool {
        self.next_request() matches Some(request) && fits(request, reply)
    }

    /// The run at another step.
    pub open spec fn at(self, step: MountStep) -> MountRun {
        MountRun { step, ..self }
    }

    /// The run after a step that is carried out or fails.
    pub open spec fn proceed(
        self,
        reply: ReplyView,
        step: MountStep,
        context: Option<Context>,
    ) -> MountRun {
        match reply {
            ReplyView::Failed { message } => self.at(
                MountStep::Failed {
                    error: match context {
                        Some(context) => Error::Wrapped { context, message },
                        None => Error::Failed { message },
                    },
                },
            ),
            _ => self.at(step),
        }
    }

    /// The run after a step that is undone where it fails.
    pub open spec fn proceed_or_undo(
        self,
        reply: ReplyView,
        step: MountStep,
        context: Context,
    ) -> MountRun {
        match reply {
            ReplyView::Failed { message } => self.at(
                MountStep::Rollback { error: Error::Wrapped { context, message } },
            ),
            _ => self.at(step),
        }
    }

    /// The run after the reply.
    pub open spec fn after(self, reply: ReplyView) -> MountRun {
        let s = self.state->0;
        match self.step {
            MountStep::Root => match reply {
                ReplyView::User { euid } => if euid == 0 {
                    self.at(MountStep::Lock)
                } else {
                    self.at(MountStep::Failed { error: Error::NotRoot })
                },
                _ => self.proceed(reply, MountStep::Root, None),
            },
            MountStep::Lock => self.proceed(reply, MountStep::Load, None),
            MountStep::Load => match reply {
                ReplyView::Loaded { state: None } => self.at(
                    MountStep::Failed { error: Error::NotInitialized },
                ),
                ReplyView::Loaded { state: Some(loaded) } => MountRun {
                    state: Some(loaded),
                    step: if loaded.is_mounted {
                        MountStep::Failed { error: Error::AlreadyMounted }
                    } else {
                        MountStep::IsMounted
                    },
                    ..self
                },
                _ => self.proceed(reply, MountStep::Load, None),
            },
            MountStep::IsMounted => match reply {
                ReplyView::Answer { yes: true } => self.at(
                    MountStep::Failed {
                        error: Error::MountpointInUse { mount_point: s.mount_point },
                    },
                ),
                _ => self.proceed(reply, MountStep::CheckDmsetup, None),
            },
            MountStep::CheckDmsetup => self.proceed(reply, MountStep::DeviceExists, None),
            MountStep::DeviceExists => match reply {
                ReplyView::Answer { yes: true } => self.at(
                    MountStep::Failed { error: Error::DeviceAlreadyExists { name: s.dm_era_name } },
                ),
                _ => self.proceed(reply, MountStep::ScratchSize, None),
            },
            MountStep::ScratchSize => match reply {
                ReplyView::Number { n } => MountRun {
                    scratch_size: n,
                    step: MountStep::RamdiskSize,
                    ..self
                },
                _ => self.proceed(reply, MountStep::ScratchSize, None),
            },
            MountStep::RamdiskSize => match reply {
                ReplyView::Number { n } => {
                    let required = buffered_size(self.scratch_size as nat, s.granularity as nat);
                    if !sizes_fit(self.scratch_size as nat, s.granularity as nat) {
                        self.at(MountStep::Failed { error: Error::RamdiskSizeOverflow })
                    } else if n < required {
                        self.at(
                            MountStep::Failed {
                                error: Error::RamdiskTooSmall {
                                    required: required as u64,
                                    actual: n,
                                },
                            },
                        )
                    } else {
                        self.at(MountStep::HashVirgin)
                    }
                },
                _ => self.proceed(reply, MountStep::RamdiskSize, None),
            },
            MountStep::HashVirgin => match reply {
                ReplyView::Hash { hash } => if hash@ == s.virgin_superblock_hash@ {
                    self.at(MountStep::HashScratch)
                } else {
                    self.at(
                        MountStep::Failed {
                            error: Error::VolumeMismatch { volume: Volume::Virgin },
                        },
                    )
                },
                _ => self.proceed(reply, MountStep::HashVirgin, None),
            },
            MountStep::HashScratch => match reply {
                ReplyView::Hash { hash } => if hash@ == s.virgin_superblock_hash@ {
                    self.at(MountStep::Reset)
                } else {
                    self.at(
                        MountStep::Failed {
                            error: Error::VolumeMismatch { volume: Volume::Scratch },
                        },
                    )
                },
                _ => self.proceed(reply, MountStep::HashScratch, None),
            },
            MountStep::Reset => self.proceed(reply, MountStep::Create, None),
            MountStep::Create => self.proceed(
                reply,
                MountStep::Checkpoint,
                Some(Context::CreateDevice),
            ),
            MountStep::Checkpoint => self.proceed_or_undo(
                reply,
                MountStep::Mount,
                Context::Checkpoint,
            ),
            MountStep::Mount => self.proceed_or_undo(reply, MountStep::Save, Context::Mount),
            MountStep::Rollback { error } => self.at(MountStep::Failed { error }),
            MountStep::Save => self.proceed(reply, MountStep::Finished, None),
            _ => self,
        }
    }

    /// A run of `mount`.
    pub fn new() -> (run: MountRun)
        ensures
            run == (MountRun { step: MountStep::Root, state: None, scratch_size: 0 }),
            run.wf(),
    {
        MountRun { step: MountStep::Root, state: None, scratch_size: 0 }
    }

    /// A run of `mount` by one who is root and holds the lock.
    pub fn locked() -> (run: MountRun)
        ensures
            run == (MountRun { step: MountStep::Load, state: None, scratch_size: 0 }),
            run.wf(),
    {
        MountRun { step: MountStep::Load, state: None, scratch_size: 0 }
    }

    /// What the run asks for next; nothing where it has ended.
    pub fn request(&self) -> (request: Option<Request>)
        requires
            self.wf(),
        ensures
            request_view(request) == self.next_request(),
    {
        match &self.step {
            MountStep::Root => {
                return Some(Request::User);
            },
            MountStep::Lock => {
                return Some(Request::Lock);
            },
            MountStep::Load => {
                return Some(Request::LoadState);
            },
            MountStep::Finished => {
                return None;
            },
            MountStep::Failed { error: _ } => {
                return None;
            },
            _ => {},
        }
        match &self.state {
            None => None,
            Some(s) => match &self.step {
                MountStep::IsMounted => Some(
                    Request::IsMounted { mount_point: s.mount_point.clone() },
                ),
                MountStep::CheckDmsetup => Some(Request::CheckTool { tool: Tool::Dmsetup }),
                MountStep::DeviceExists => Some(
                    Request::DeviceExists { name: s.dm_era_name.clone() },
                ),
                MountStep::ScratchSize => Some(Request::DeviceSize { path: s.scratch.clone() }),
                MountStep::RamdiskSize => Some(Request::DeviceSize { path: s.ramdisk.clone() }),
                MountStep::HashVirgin => Some(Request::HashVolume { path: s.virgin.clone() }),
                MountStep::HashScratch => Some(Request::HashVolume { path: s.scratch.clone() }),
                MountStep::Reset => Some(Request::ResetRamdisk { path: s.ramdisk.clone() }),
                MountStep::Create => Some(
                    Request::CreateDevice {
                        name: s.dm_era_name.clone(),
                        metadata_dev: s.ramdisk.clone(),
                        origin_dev: s.scratch.clone(),
                        origin_size: self.scratch_size,
                        granularity: s.granularity,
                    },
                ),
                MountStep::Checkpoint => Some(Request::Checkpoint { name: s.dm_era_name.clone() }),
                MountStep::Mount => Some(
                    Request::Mount {
                        name: s.dm_era_name.clone(),
                        mount_point: s.mount_point.clone(),
                        fstype: s.fstype.clone(),
                        options: match &s.mount_options {
                            Some(o) => Some(o.clone()),
                            None => None,
                        },
                    },
                ),
                MountStep::Rollback { error: _ } => Some(
                    Request::RemoveDevice { name: s.dm_era_name.clone() },
                ),
                MountStep::Save => {
                    let mut saved = s.duplicate();
                    saved.is_mounted = true;
                    saved.current_era = Some(1);
                    Some(Request::SaveState { state: saved })
                },
                _ => None,
            },
        }
    }

    fn go_to(self, step: MountStep) -> (run: MountRun)
        ensures
            run == self.at(step),
    {
        MountRun { step, ..self }
    }

    fn go_on(self, reply: Reply, step: MountStep, context: Option<Context>) -> (run: MountRun)
        ensures
            run == self.proceed(reply@, step, context),
    {
        match reply {
            Reply::Failed { message } => {
                let error = match context {
                    Some(context) => Error::Wrapped { context, message },
                    None => Error::Failed { message },
                };
                self.go_to(MountStep::Failed { error })
            },
            _ => self.go_to(step),
        }
    }

    fn go_on_or_undo(self, reply: Reply, step: MountStep, context: Context) -> (run: MountRun)
        ensures
            run == self.proceed_or_undo(reply@, step, context),
    {
        match reply {
            Reply::Failed { message } => self.go_to(
                MountStep::Rollback { error: Error::Wrapped { context, message } },
            ),
            _ => self.go_to(step),
        }
    }

    fn hash_matches(&self, hash: &[u8; 32]) -> (yes: bool)
        requires
            self.state is Some,
        ensures
            yes == (hash@ == self.state->0.virgin_superblock_hash@),
    {
        match &self.state {
            Some(s) => same_hash(hash, &s.virgin_superblock_hash),
            None => false,
        }
    }

    fn ramdisk_error(&self, actual: u64) -> (error: Option<Error>)
        requires
            self.state is Some,
        ensures
            ({
                let required = buffered_size(
                    self.scratch_size as nat,
                    self.state->0.granularity as nat,
                );
                error == (if !sizes_fit(
                    self.scratch_size as nat,
                    self.state->0.granularity as nat,
                ) {
                    Some(Error::RamdiskSizeOverflow)
                } else if actual < required {
                    Some(Error::RamdiskTooSmall { required: required as u64, actual })
                } else {
                    None
                })
            }),
    {
        match &self.state {
            Some(s) => {
                if !check_sizes_fit(self.scratch_size, s.granularity) {
                    return Some(Error::RamdiskSizeOverflow);
                }
                match validate_size(actual, self.scratch_size, s.granularity) {
                    Err(e) => Some(e),
                    Ok(_) => None,
                }
            },
            None => None,
        }
    }

    /// Takes the reply to what was asked for.
    pub fn advance(self, reply: Reply) -> (run: MountRun)
        requires
            self.wf(),
            self.accepts(reply@),
        ensures
            run == self.after(reply@),
            run.wf(),
    {
        match &self.step {
            MountStep::Root => match reply {
                Reply::User { euid } => if euid == 0 {
                    self.go_to(MountStep::Lock)
                } else {
                    self.go_to(MountStep::Failed { error: Error::NotRoot })
                },
                reply => self.go_on(reply, MountStep::Root, None),
            },
            MountStep::Lock => self.go_on(reply, MountStep::Load, None),
            MountStep::Load => match reply {
                Reply::Loaded { state } => match state {
                    None => self.go_to(MountStep::Failed { error: not_initialized() }),
                    Some(loaded) => {
                        let step = if loaded.is_mounted {
                            MountStep::Failed { error: already_mounted() }
                        } else {
                            MountStep::IsMounted
                        };
                        MountRun { state: Some(loaded), step, ..self }
                    },
                },
                reply => self.go_on(reply, MountStep::Load, None),
            },
            MountStep::IsMounted => match reply {
                Reply::Answer { yes: true } => {
                    let mount_point = match &self.state {
                        Some(s) => s.mount_point.clone(),
                        None => String::new(),
                    };
                    self.go_to(MountStep::Failed { error: Error::MountpointInUse { mount_point } })
                },
                reply => self.go_on(reply, MountStep::CheckDmsetup, None),
            },
            MountStep::CheckDmsetup => self.go_on(reply, MountStep::DeviceExists, None),
            MountStep::DeviceExists => match reply {
                Reply::Answer { yes: true } => {
                    let name = match &self.state {
                        Some(s) => s.dm_era_name.clone(),
                        None => String::new(),
                    };
                    self.go_to(MountStep::Failed { error: Error::DeviceAlreadyExists { name } })
                },
                reply => self.go_on(reply, MountStep::ScratchSize, None),
            },
            MountStep::ScratchSize => match reply {
                Reply::Number { n } => MountRun {
                    scratch_size: n,
                    step: MountStep::RamdiskSize,
                    ..self
                },
                reply => self.go_on(reply, MountStep::ScratchSize, None),
            },
            MountStep::RamdiskSize => match reply {
                Reply::Number { n } => match self.ramdisk_error(n) {
                    Some(error) => self.go_to(MountStep::Failed { error }),
                    None => self.go_to(MountStep::HashVirgin),
                },
                reply => self.go_on(reply, MountStep::RamdiskSize, None),
            },
            MountStep::HashVirgin => match reply {
                Reply::Hash { hash } => if self.hash_matches(&hash) {
                    self.go_to(MountStep::HashScratch)
                } else {
                    self.go_to(MountStep::Failed { error: volume_mismatch(Volume::Virgin) })
                },
                reply => self.go_on(reply, MountStep::HashVirgin, None),
            },
            MountStep::HashScratch => match reply {
                Reply::Hash { hash } => if self.hash_matches(&hash) {
                    self.go_to(MountStep::Reset)
                } else {
                    self.go_to(MountStep::Failed { error: volume_mismatch(Volume::Scratch) })
                },
                reply => self.go_on(reply, MountStep::HashScratch, None),
            },
            MountStep::Reset => self.go_on(reply, MountStep::Create, None),
            MountStep::Create => self.go_on(
                reply,
                MountStep::Checkpoint,
                Some(Context::CreateDevice),
            ),
            MountStep::Checkpoint => self.go_on_or_undo(
                reply,
                MountStep::Mount,
                Context::Checkpoint,
            ),
            MountStep::Mount => self.go_on_or_undo(reply, MountStep::Save, Context::Mount),
            MountStep::Rollback { error: _ } => match self.step {
                MountStep::Rollback { error } => MountRun {
                    step: MountStep::Failed { error },
                    state: self.state,
                    scratch_size: self.scratch_size,
                },
                step => MountRun { step, state: self.state, scratch_size: self.scratch_size },
            },
            MountStep::Save => self.go_on(reply, MountStep::Finished, None),
            _ => self,
        }
    }
}

// ---------------------------------------------------------------------------
// What every run keeps to
// ---------------------------------------------------------------------------

/// Whether a volume was found to have this hash.
pub open spec fn hash_found(h: Seq<Exchange>, path: String, expected: [u8; 32]) -> bool {
    exists|hash: [u8; 32]| #[trigger]
        answered(h, RequestView::HashVolume { path }, ReplyView::Hash { hash }) && hash@ == expected@
}

/// Whether the RAM disk was found to be large enough.
pub open spec fn ramdisk_found(h: Seq<Exchange>, path: String, required: nat) -> bool {
    exists|n: u64| #[trigger]
        answered(h, RequestView::DeviceSize { path }, ReplyView::Number { n }) && n >= required
}

impl MountRun {
    /// The run after some replies.
    pub open spec fn run(self, replies: Seq<ReplyView>) -> MountRun
        decreases replies.len(),
    {
        if replies.len() == 0 {
            self
        } else {
            self.run(replies.drop_last()).after(replies.last())
        }
    }

    /// Whether each reply answers what was asked for when it came.
    pub open spec fn can_run(self, replies: Seq<ReplyView>) -> bool
        decreases replies.len(),
    {
        replies.len() > 0 ==> {
            &&& self.can_run(replies.drop_last())
            &&& self.run(replies.drop_last()).accepts(replies.last())
        }
    }

    /// What was asked for and replied.
    pub open spec fn history(self, replies: Seq<ReplyView>) -> Seq<Exchange>
        decreases replies.len(),
    {
        if replies.len() == 0 {
            Seq::empty()
        } else {
            self.history(replies.drop_last()).push(
                Exchange {
                    request: self.run(replies.drop_last()).next_request()->0,
                    reply: replies.last(),
                },
            )
        }
    }

    /// How far the run has come; a run that has failed has come nowhere.
    pub open spec fn rank(self) -> nat {
        match self.step {
            MountStep::Root => 0,
            MountStep::Lock => 1,
            MountStep::Load => 2,
            MountStep::IsMounted => 3,
            MountStep::CheckDmsetup => 4,
            MountStep::DeviceExists => 5,
            MountStep::ScratchSize => 6,
            MountStep::RamdiskSize => 7,
            MountStep::HashVirgin => 8,
            MountStep::HashScratch => 9,
            MountStep::Reset => 10,
            MountStep::Create => 11,
            MountStep::Checkpoint => 12,
            MountStep::Mount => 13,
            MountStep::Save => 14,
            MountStep::Finished => 15,
            MountStep::Rollback { error } => 12,
            MountStep::Failed { error } => 0,
        }
    }

    /// Whether everything that must hold before the volume is mounted was found to
    /// hold: nothing is mounted there, no dm-era device is left over, the RAM disk is
    /// large enough, and both volumes have the superblock that the state says.
    pub open spec fn checked(self, h: Seq<Exchange>) -> bool {
        let s = self.state->0;
        &&& answered(
            h,
            RequestView::IsMounted { mount_point: s.mount_point },
            ReplyView::Answer { yes: false },
        )
        &&& answered(
            h,
            RequestView::DeviceExists { name: s.dm_era_name },
            ReplyView::Answer { yes: false },
        )
        &&& answered(
            h,
            RequestView::DeviceSize { path: s.scratch },
            ReplyView::Number { n: self.scratch_size },
        )
        &&& ramdisk_found(
            h,
            s.ramdisk,
            buffered_size(self.scratch_size as nat, s.granularity as nat),
        )
        &&& hash_found(h, s.virgin, s.virgin_superblock_hash)
        &&& hash_found(h, s.scratch, s.virgin_superblock_hash)
    }

    /// What is known of the past at every step.
    pub open spec fn facts(self, h: Seq<Exchange>) -> bool {
        let s = self.state->0;
        &&& self.rank() >= 3 ==> answered(
            h,
            RequestView::LoadState,
            ReplyView::Loaded { state: self.state },
        )
        &&& self.rank() >= 4 ==> answered(
            h,
            RequestView::IsMounted { mount_point: s.mount_point },
            ReplyView::Answer { yes: false },
        )
        &&& self.rank() >= 6 ==> answered(
            h,
            RequestView::DeviceExists { name: s.dm_era_name },
            ReplyView::Answer { yes: false },
        )
        &&& self.rank() >= 7 ==> answered(
            h,
            RequestView::DeviceSize { path: s.scratch },
            ReplyView::Number { n: self.scratch_size },
        )
        &&& self.rank() >= 8 ==> ramdisk_found(
            h,
            s.ramdisk,
            buffered_size(self.scratch_size as nat, s.granularity as nat),
        )
        &&& self.rank() >= 9 ==> hash_found(h, s.virgin, s.virgin_superblock_hash)
        &&& self.rank() >= 10 ==> hash_found(h, s.scratch, s.virgin_superblock_hash)
        &&& self.rank() >= 11 ==> done(h, RequestView::ResetRamdisk { path: s.ramdisk })
        &&& self.rank() >= 12 ==> done(h, self.create_request())
        &&& self.rank() >= 13 ==> done(h, RequestView::Checkpoint { name: s.dm_era_name })
        &&& self.rank() >= 14 ==> done(h, self.mount_request())
        &&& self.rank() >= 15 ==> done(h, RequestView::SaveState { state: s.mounted() })
        &&& self.step matches MountStep::Failed { error } ==> tracking_failed(error) ==> asked(
            h,
            RequestView::RemoveDevice { name: s.dm_era_name },
        )
        &&& self.step !is Failed && self.rank() <= 10 ==> touched_nothing(h)
        &&& last_saved(h) == if self.step is Finished {
            Some(s.mounted())
        } else {
            None
        }
    }

    /// What holds of every request that was made.
    pub open spec fn discipline(self, h: Seq<Exchange>) -> bool {
        forall|i: int|
            0 <= i < h.len() ==> {
                let request = (#[trigger] h[i]).request;
                &&& touches(request) ==> self.state is Some && self.checked(h)
                &&& overwrites(request) is Some ==> overwrites(request) == Some(
                    self.state->0.ramdisk,
                )
                &&& request is SaveState ==> {
                    &&& answered(h, RequestView::LoadState, ReplyView::Loaded { state: self.state })
                    &&& request == (RequestView::SaveState { state: self.state->0.mounted() })
                    &&& done(h, self.create_request())
                    &&& done(h, RequestView::Checkpoint { name: self.state->0.dm_era_name })
                    &&& done(h, self.mount_request())
                }
            }
    }
}

/// Whether the error is that the device could not be checkpointed or mounted.
pub open spec fn tracking_failed(error: Error) -> bool {
    error matches Error::Wrapped { context, message } && (context == Context::Checkpoint || context
        == Context::Mount)
}

/// Whether the request changes something outside.
pub open spec fn touches(request: RequestView) -> bool {
    ||| overwrites(request) is Some
    ||| request is CreateDevice
    ||| request is Checkpoint
    ||| request is Mount
    ||| request is RemoveDevice
    ||| request is SaveState
}

/// Whether nothing outside was changed.
pub open spec fn touched_nothing(h: Seq<Exchange>) -> bool {
    forall|i: int| 0 <= i < h.len() ==> !touches((#[trigger] h[i]).request)
}

#[verifier::rlimit(60)]
proof fn lemma_facts(v: MountRun, h: Seq<Exchange>, reply: ReplyView)
    requires
        v.wf(),
        v.accepts(reply),
        v.facts(h),
    ensures
        v.after(reply).wf(),
        v.after(reply).facts(h.push(Exchange { request: v.next_request()->0, reply })),
{
    let x = Exchange { request: v.next_request()->0, reply };
    lemma_history_grows(h, x);
    assert(h.push(x).drop_last() =~= h);
}

#[verifier::rlimit(60)]
proof fn lemma_discipline(v: MountRun, h: Seq<Exchange>, reply: ReplyView)
    requires
        v.wf(),
        v.accepts(reply),
        v.facts(h),
        v.discipline(h),
    ensures
        v.after(reply).discipline(h.push(Exchange { request: v.next_request()->0, reply })),
{
    let x = Exchange { request: v.next_request()->0, reply };
    lemma_history_grows(h, x);
    let g = h.push(x);
    let w = v.after(reply);
    assert forall|i: int| 0 <= i < g.len() implies {
        let request = (#[trigger] g[i]).request;
        &&& touches(request) ==> w.state is Some && w.checked(g)
        &&& overwrites(request) is Some ==> overwrites(request) == Some(w.state->0.ramdisk)
        &&& request is SaveState ==> {
            &&& answered(g, RequestView::LoadState, ReplyView::Loaded { state: w.state })
            &&& request == (RequestView::SaveState { state: w.state->0.mounted() })
            &&& done(g, w.create_request())
            &&& done(g, RequestView::Checkpoint { name: w.state->0.dm_era_name })
            &&& done(g, w.mount_request())
        }
    } by {
        if i < h.len() {
            assert(g[i] == h[i]);
        } else {
            assert(g[i] == x);
        }
    }
}

/// Whether a run may begin so: at its first step, or at the loading of the state for
/// one who is root and holds the lock.
pub open spec fn begins(start: MountRun) -> bool {
    start.state is None && (start.step is Root || start.step is Load)
}

proof fn lemma_mount(start: MountRun, replies: Seq<ReplyView>)
    requires
        begins(start),
        start.can_run(replies),
    ensures
        start.run(replies).wf(),
        start.run(replies).facts(start.history(replies)),
        start.run(replies).discipline(start.history(replies)),
    decreases replies.len(),
{
    if replies.len() > 0 {
        lemma_mount(start, replies.drop_last());
        let v = start.run(replies.drop_last());
        let h = start.history(replies.drop_last());
        lemma_facts(v, h, replies.last());
        lemma_discipline(v, h, replies.last());
    }
}

/// Nothing is changed before every check has passed: nothing is mounted at the mount
/// point, no dm-era device is left over, the RAM disk is large enough, and the
/// superblocks of both volumes are the expected ones. Only the RAM disk is ever
/// overwritten.
pub proof fn law_mount_checks_first(start: MountRun, replies: Seq<ReplyView>, i: int)
    requires
        begins(start),
        start.can_run(replies),
        0 <= i < start.history(replies).len(),
        touches(start.history(replies)[i].request),
    ensures
        start.run(replies).state is Some,
        start.run(replies).checked(start.history(replies)),
        overwrites(start.history(replies)[i].request) matches Some(path) ==> path
            == start.run(replies).state->0.ramdisk,
{
    lemma_mount(start, replies);
    let h = start.history(replies);
    assert(touches(h[i].request));
}

/// The state that was loaded is saved as mounted only after the dm-era device was created,
/// an era was started and the device was mounted; a run that has finished has saved it.
pub proof fn law_mounted_state_is_saved_last(start: MountRun, replies: Seq<ReplyView>)
    requires
        begins(start),
        start.can_run(replies),
    ensures
        ({
            let v = start.run(replies);
            let h = start.history(replies);
            &&& v.step is Finished ==> done(h, RequestView::SaveState { state: v.state->0.mounted() })
                && done(h, v.mount_request()) && answered(
                h,
                RequestView::LoadState,
                ReplyView::Loaded { state: v.state },
            )
            &&& forall|i: int|
                0 <= i < h.len() && (#[trigger] h[i]).request is SaveState ==> {
                    &&& answered(h, RequestView::LoadState, ReplyView::Loaded { state: v.state })
                    &&& h[i].request == (RequestView::SaveState { state: v.state->0.mounted() })
                    &&& done(h, v.create_request())
                    &&& done(h, RequestView::Checkpoint { name: v.state->0.dm_era_name })
                    &&& done(h, v.mount_request())
                }
        }),
{
    lemma_mount(start, replies);
}

/// Only a run that has finished has saved a state, the mounted one.
pub proof fn law_only_finished_mounts_are_saved(start: MountRun, replies: Seq<ReplyView>)
    requires
        begins(start),
        start.can_run(replies),
    ensures
        last_saved(start.history(replies)) == (if start.run(replies).step is Finished {
            Some(start.run(replies).state->0.mounted())
        } else {
            None
        }),
{
    lemma_mount(start, replies);
}

/// A run that failed to start an era or to mount the device has asked for the dm-era
/// device to be removed.
pub proof fn law_failed_mount_is_rolled_back(start: MountRun, replies: Seq<ReplyView>)
    requires
        begins(start),
        start.can_run(replies),
        start.run(replies).step matches MountStep::Failed { error } && tracking_failed(error),
    ensures
        asked(
            start.history(replies),
            RequestView::RemoveDevice { name: start.run(replies).state->0.dm_era_name },
        ),
{
    lemma_mount(start, replies);
}

/// A volume whose superblock is not the expected one is refused.
pub proof fn law_changed_volumes_are_refused(v: MountRun, hash: [u8; 32])
    requires
        v.wf(),
        v.step is HashVirgin || v.step is HashScratch,
        hash@ != v.state->0.virgin_superblock_hash@,
    ensures
        v.after(ReplyView::Hash { hash }).step == (MountStep::Failed {
            error: Error::VolumeMismatch {
                volume: if v.step is HashVirgin {
                    Volume::Virgin
                } else {
                    Volume::Scratch
                },
            },
        }),
        v.after(ReplyView::Hash { hash }).next_request() is None,
{
}

/// A volume that is mounted is not mounted again: the run ends at once, and nothing was
/// changed.
pub proof fn law_no_mount_after_mount(v: MountRun, state: AppState)
    requires
        v.step is Load,
        state.is_mounted,
    ensures
        v.after(ReplyView::Loaded { state: Some(state) }).step == (MountStep::Failed {
            error: Error::AlreadyMounted,
        }),
        v.after(ReplyView::Loaded { state: Some(state) }).next_request() is None,
{
}

proof fn lemma_lock(start: MountRun, replies: Seq<ReplyView>)
    requires
        begins(start),
        start.step is Root,
        start.can_run(replies),
    ensures
        ({
            let v = start.run(replies);
            let h = start.history(replies);
            let is_root = answered(h, RequestView::User, ReplyView::User { euid: 0 });
            &&& !(v.step is Root || v.step is Failed) ==> is_root
            &&& !(v.step is Root || v.step is Lock || v.step is Failed) ==> done(h, RequestView::Lock)
            &&& forall|i: int|
                0 <= i < h.len() && (#[trigger] h[i]).request !is User ==> is_root
            &&& forall|i: int|
                0 <= i < h.len() && (#[trigger] h[i]).request !is User && h[i].request !is Lock
                    ==> done(h, RequestView::Lock)
        }),
    decreases replies.len(),
{
    if replies.len() > 0 {
        lemma_lock(start, replies.drop_last());
        let v = start.run(replies.drop_last());
        let h = start.history(replies.drop_last());
        let x = Exchange { request: v.next_request()->0, reply: replies.last() };
        lemma_history_grows(h, x);
        let g = h.push(x);
        assert forall|i: int| 0 <= i < g.len() && (#[trigger] g[i]).request !is User implies answered(
            g,
            RequestView::User,
            ReplyView::User { euid: 0 },
        ) by {
            if i < h.len() {
                assert(g[i] == h[i]);
            }
        }
        assert forall|i: int|
            0 <= i < g.len() && (#[trigger] g[i]).request !is User && g[i].request
                !is Lock implies done(g, RequestView::Lock) by {
            if i < h.len() {
                assert(g[i] == h[i]);
            }
        }
    }
}

/// Nothing but the user is asked for before the user is known to be root, and nothing but
/// the lock before it is held.
pub proof fn law_root_and_lock_come_first(start: MountRun, replies: Seq<ReplyView>, i: int)
    requires
        begins(start),
        start.step is Root,
        start.can_run(replies),
        0 <= i < start.history(replies).len(),
    ensures
        ({
            let h = start.history(replies);
            &&& h[i].request !is User ==> answered(
                h,
                RequestView::User,
                ReplyView::User { euid: 0 },
            )
            &&& h[i].request !is User && h[i].request !is Lock ==> done(h, RequestView::Lock)
        }),
{
    lemma_lock(start, replies);
}

// ---------------------------------------------------------------------------
// What a run asks for, and when
// ---------------------------------------------------------------------------

impl MountRun {
    spec fn before_loading(self) -> bool {
        self.step is Root || self.step is Lock || self.step is Load
    }

    spec fn speaks_of(self, h: Seq<Exchange>, loaded: AppState, request: RequestView) -> bool {
        match request {
            RequestView::User => true,
            RequestView::Lock => true,
            RequestView::LoadState => true,
            RequestView::IsMounted { mount_point } => mount_point == loaded.mount_point,
            RequestView::CheckTool { tool } => tool == Tool::Dmsetup,
            RequestView::DeviceExists { name } => name == loaded.dm_era_name,
            RequestView::DeviceSize { path } => path == loaded.scratch || path == loaded.ramdisk,
            RequestView::HashVolume { path } => path == loaded.virgin || path == loaded.scratch,
            RequestView::ResetRamdisk { path } => path == loaded.ramdisk,
            RequestView::CreateDevice {
                name,
                metadata_dev,
                origin_dev,
                origin_size,
                granularity,
            } => {
                &&& name == loaded.dm_era_name
                &&& metadata_dev == loaded.ramdisk
                &&& origin_dev == loaded.scratch
                &&& granularity == loaded.granularity
                &&& answered(
                    h,
                    RequestView::DeviceSize { path: loaded.scratch },
                    ReplyView::Number { n: origin_size },
                )
            },
            RequestView::Checkpoint { name } => name == loaded.dm_era_name,
            RequestView::Mount { name, mount_point, fstype, options } => {
                &&& name == loaded.dm_era_name
                &&& mount_point == loaded.mount_point
                &&& fstype == loaded.fstype
                &&& options == loaded.mount_options
            },
            RequestView::RemoveDevice { name } => name == loaded.dm_era_name,
            RequestView::SaveState { state } => {
                &&& state.virgin == loaded.virgin
                &&& state.scratch == loaded.scratch
                &&& state.ramdisk == loaded.ramdisk
                &&& state.mount_point == loaded.mount_point
                &&& state.fstype == loaded.fstype
                &&& state.mount_options == loaded.mount_options
                &&& state.granularity == loaded.granularity
                &&& state.virgin_superblock_hash == loaded.virgin_superblock_hash
                &&& state.dm_era_name == loaded.dm_era_name
                &&& state.is_mounted
                &&& state.current_era == Some(1u64)
            },
            _ => false,
        }
    }

    spec fn keeps_to(self, h: Seq<Exchange>, loaded: AppState) -> bool {
        &&& self.before_loading() ==> forall|i: int|
            0 <= i < h.len() ==> ((#[trigger] h[i]).request is User || h[i].request is Lock)
        &&& answered(h, RequestView::LoadState, ReplyView::Loaded { state: Some(loaded) }) ==> {
            &&& !self.before_loading()
            &&& self.state == Some(loaded)
            &&& forall|i: int|
                0 <= i < h.len() ==> self.speaks_of(h, loaded, (#[trigger] h[i]).request)
        }
    }
}

#[verifier::rlimit(80)]
proof fn lemma_keeps_to(v: MountRun, h: Seq<Exchange>, loaded: AppState, reply: ReplyView)
    requires
        v.wf(),
        v.accepts(reply),
        v.facts(h),
        v.keeps_to(h, loaded),
    ensures
        v.after(reply).keeps_to(h.push(Exchange { request: v.next_request()->0, reply }), loaded),
{
    let x = Exchange { request: v.next_request()->0, reply };
    let g = h.push(x);
    let w = v.after(reply);
    let load = RequestView::LoadState;
    let found = ReplyView::Loaded { state: Some(loaded) };
    lemma_history_grows(h, x);
    if answered(g, load, found) {
        let k = choose|k: int|
            0 <= k < g.len() && #[trigger] g[k] == (Exchange { request: load, reply: found });
        if k < h.len() {
            assert(h[k] == g[k]);
            assert(answered(h, load, found));
        } else {
            assert(v.step is Load);
        }
        assert forall|i: int| 0 <= i < g.len() implies w.speaks_of(
            g,
            loaded,
            (#[trigger] g[i]).request,
        ) by {
            if i < h.len() {
                assert(g[i] == h[i]);
                if answered(h, load, found) {
                    assert(v.speaks_of(h, loaded, h[i].request));
                }
            } else {
                assert(g[i] == x);
            }
        }
    }
    if w.before_loading() {
        assert forall|i: int| 0 <= i < g.len() implies ((#[trigger] g[i]).request is User
            || g[i].request is Lock) by {
            if i < h.len() {
                assert(g[i] == h[i]);
            }
        }
    }
}

proof fn lemma_run_keeps_to(start: MountRun, replies: Seq<ReplyView>, loaded: AppState)
    requires
        begins(start),
        start.can_run(replies),
    ensures
        start.run(replies).keeps_to(start.history(replies), loaded),
    decreases replies.len(),
{
    if replies.len() > 0 {
        lemma_run_keeps_to(start, replies.drop_last(), loaded);
        lemma_mount(start, replies.drop_last());
        let v = start.run(replies.drop_last());
        lemma_keeps_to(v, start.history(replies.drop_last()), loaded, replies.last());
    }
}

/// Whatever a run asks for concerns what the loaded state names: the dm-era device tracks
/// the scratch volume, all of it, on the RAM disk in blocks of the granularity; it is what
/// is mounted at the mount point; only the RAM disk is reset; and what is saved is the
/// loaded state as mounted, in its first era, with every other field as it was.
pub proof fn law_requests_follow_the_loaded_state(
    start: MountRun,
    replies: Seq<ReplyView>,
    loaded: AppState,
    i: int,
)
    requires
        begins(start),
        start.can_run(replies),
        answered(
            start.history(replies),
            RequestView::LoadState,
            ReplyView::Loaded { state: Some(loaded) },
        ),
        0 <= i < start.history(replies).len(),
    ensures
        ({
            let h = start.history(replies);
            match h[i].request {
                RequestView::User => true,
                RequestView::Lock => true,
                RequestView::LoadState => true,
                RequestView::IsMounted { mount_point } => mount_point == loaded.mount_point,
                RequestView::CheckTool { tool } => tool == Tool::Dmsetup,
                RequestView::DeviceExists { name } => name == loaded.dm_era_name,
                RequestView::DeviceSize { path } => path == loaded.scratch || path == loaded.ramdisk,
                RequestView::HashVolume { path } => path == loaded.virgin || path == loaded.scratch,
                RequestView::ResetRamdisk { path } => path == loaded.ramdisk,
                RequestView::CreateDevice {
                    name,
                    metadata_dev,
                    origin_dev,
                    origin_size,
                    granularity,
                } => {
                    &&& name == loaded.dm_era_name
                    &&& metadata_dev == loaded.ramdisk
                    &&& origin_dev == loaded.scratch
                    &&& granularity == loaded.granularity
                    &&& answered(
                        h,
                        RequestView::DeviceSize { path: loaded.scratch },
                        ReplyView::Number { n: origin_size },
                    )
                },
                RequestView::Checkpoint { name } => name == loaded.dm_era_name,
                RequestView::Mount { name, mount_point, fstype, options } => {
                    &&& name == loaded.dm_era_name
                    &&& mount_point == loaded.mount_point
                    &&& fstype == loaded.fstype
                    &&& options == loaded.mount_options
                },
                RequestView::RemoveDevice { name } => name == loaded.dm_era_name,
                RequestView::SaveState { state } => {
                    &&& state.virgin == loaded.virgin
                    &&& state.scratch == loaded.scratch
                    &&& state.ramdisk == loaded.ramdisk
                    &&& state.mount_point == loaded.mount_point
                    &&& state.fstype == loaded.fstype
                    &&& state.mount_options == loaded.mount_options
                    &&& state.granularity == loaded.granularity
                    &&& state.virgin_superblock_hash == loaded.virgin_superblock_hash
                    &&& state.dm_era_name == loaded.dm_era_name
                    &&& state.is_mounted
                    &&& state.current_era == Some(1u64)
                },
                _ => false,
            }
        }),
{
    lemma_run_keeps_to(start, replies, loaded);
    let h = start.history(replies);
    assert(start.run(replies).speaks_of(h, loaded, h[i].request));
}

/// Nothing but the user, the lock and the state is asked for unless a state was loaded
/// that is not mounted.
pub proof fn law_nothing_is_done_without_a_state(
    start: MountRun,
    replies: Seq<ReplyView>,
    i: int,
)
    requires
        begins(start),
        start.can_run(replies),
        0 <= i < start.history(replies).len(),
    ensures
        ({
            let h = start.history(replies);
            ||| h[i].request is User
            ||| h[i].request is Lock
            ||| h[i].request is LoadState
            ||| exists|loaded: AppState| #[trigger]
                answered(h, RequestView::LoadState, ReplyView::Loaded { state: Some(loaded) })
                    && !loaded.is_mounted
        }),
    decreases replies.len(),
{
    let h = start.history(replies);
    let before = replies.drop_last();
    let v = start.run(before);
    lemma_mount(start, before);
    let x = Exchange { request: v.next_request()->0, reply: replies.last() };
    lemma_history_grows(start.history(before), x);
    if i < start.history(before).len() {
        law_nothing_is_done_without_a_state(start, before, i);
        assert(h[i] == start.history(before)[i]);
    } else {
        assert(h[i] == x);
    }
    if v.rank() >= 3 {
        let loaded = v.state->0;
        assert(answered(h, RequestView::LoadState, ReplyView::Loaded { state: Some(loaded) }));
    }
}

/// What follows each reply: which request comes next, or how the run ends. A run goes on
/// only where what it asked for was carried out and found as it must be: nothing is
/// mounted, no device is left over, the RAM disk is at least as large as required, and both
/// superblocks have the hash that the state holds. Every failure ends it with what was
/// reported, and the device is removed first where it was already created.
pub proof fn law_what_follows_a_reply(v: MountRun, reply: ReplyView)
    requires
        v.wf(),
        v.accepts(reply),
    ensures
        ({
            let w = v.after(reply);
            let next = w.next_request();
            let s = v.state->0;
            let plain = |message: String| w.step == (MountStep::Failed {
                error: Error::Failed { message },
            });
            &&& w.step is Failed ==> next is None
            &&& match v.step {
                MountStep::Root => match reply {
                    ReplyView::User { euid } => if euid == 0 {
                        next == Some(RequestView::Lock)
                    } else {
                        w.step == (MountStep::Failed { error: Error::NotRoot })
                    },
                    ReplyView::Failed { message } => plain(message),
                    _ => false,
                },
                MountStep::Lock => match reply {
                    ReplyView::Failed { message } => plain(message),
                    _ => next == Some(RequestView::LoadState),
                },
                MountStep::Load => match reply {
                    ReplyView::Loaded { state: None } => w.step == (MountStep::Failed {
                        error: Error::NotInitialized,
                    }),
                    ReplyView::Loaded { state: Some(loaded) } => if loaded.is_mounted {
                        w.step == (MountStep::Failed { error: Error::AlreadyMounted })
                    } else {
                        next == Some(RequestView::IsMounted { mount_point: loaded.mount_point })
                    },
                    ReplyView::Failed { message } => plain(message),
                    _ => false,
                },
                MountStep::IsMounted => match reply {
                    ReplyView::Answer { yes } => if yes {
                        w.step == (MountStep::Failed {
                            error: Error::MountpointInUse { mount_point: s.mount_point },
                        })
                    } else {
                        next == Some(RequestView::CheckTool { tool: Tool::Dmsetup })
                    },
                    ReplyView::Failed { message } => plain(message),
                    _ => false,
                },
                MountStep::CheckDmsetup => match reply {
                    ReplyView::Failed { message } => plain(message),
                    _ => next == Some(RequestView::DeviceExists { name: s.dm_era_name }),
                },
                MountStep::DeviceExists => match reply {
                    ReplyView::Answer { yes } => if yes {
                        w.step == (MountStep::Failed {
                            error: Error::DeviceAlreadyExists { name: s.dm_era_name },
                        })
                    } else {
                        next == Some(RequestView::DeviceSize { path: s.scratch })
                    },
                    ReplyView::Failed { message } => plain(message),
                    _ => false,
                },
                MountStep::ScratchSize => match reply {
                    ReplyView::Number { n } => {
                        &&& w.step is RamdiskSize
                        &&& w.scratch_size == n
                        &&& next == Some(RequestView::DeviceSize { path: s.ramdisk })
                    },
                    ReplyView::Failed { message } => plain(message),
                    _ => false,
                },
                MountStep::RamdiskSize => match reply {
                    ReplyView::Number { n } => {
                        let required = buffered_size(v.scratch_size as nat, s.granularity as nat);
                        if !sizes_fit(v.scratch_size as nat, s.granularity as nat) {
                            w.step == (MountStep::Failed { error: Error::RamdiskSizeOverflow })
                        } else if n < required {
                            w.step == (MountStep::Failed {
                                error: Error::RamdiskTooSmall {
                                    required: required as u64,
                                    actual: n,
                                },
                            })
                        } else {
                            w.step is HashVirgin && next == Some(
                                RequestView::HashVolume { path: s.virgin },
                            )
                        }
                    },
                    ReplyView::Failed { message } => plain(message),
                    _ => false,
                },
                MountStep::HashVirgin => match reply {
                    ReplyView::Hash { hash } => if hash@ == s.virgin_superblock_hash@ {
                        w.step is HashScratch && next == Some(
                            RequestView::HashVolume { path: s.scratch },
                        )
                    } else {
                        w.step == (MountStep::Failed {
                            error: Error::VolumeMismatch { volume: Volume::Virgin },
                        })
                    },
                    ReplyView::Failed { message } => plain(message),
                    _ => false,
                },
                MountStep::HashScratch => match reply {
                    ReplyView::Hash { hash } => if hash@ == s.virgin_superblock_hash@ {
                        next == Some(RequestView::ResetRamdisk { path: s.ramdisk })
                    } else {
                        w.step == (MountStep::Failed {
                            error: Error::VolumeMismatch { volume: Volume::Scratch },
                        })
                    },
                    ReplyView::Failed { message } => plain(message),
                    _ => false,
                },
                MountStep::Reset => match reply {
                    ReplyView::Failed { message } => plain(message),
                    _ => next == Some(
                        RequestView::CreateDevice {
                            name: s.dm_era_name,
                            metadata_dev: s.ramdisk,
                            origin_dev: s.scratch,
                            origin_size: v.scratch_size,
                            granularity: s.granularity,
                        },
                    ),
                },
                MountStep::Create => match reply {
                    ReplyView::Failed { message } => w.step == (MountStep::Failed {
                        error: Error::Wrapped { context: Context::CreateDevice, message },
                    }),
                    _ => next == Some(RequestView::Checkpoint { name: s.dm_era_name }),
                },
                MountStep::Checkpoint => match reply {
                    ReplyView::Failed { message } => {
                        &&& w.step == (MountStep::Rollback {
                            error: Error::Wrapped { context: Context::Checkpoint, message },
                        })
                        &&& next == Some(RequestView::RemoveDevice { name: s.dm_era_name })
                    },
                    _ => next == Some(
                        RequestView::Mount {
                            name: s.dm_era_name,
                            mount_point: s.mount_point,
                            fstype: s.fstype,
                            options: s.mount_options,
                        },
                    ),
                },
                MountStep::Mount => match reply {
                    ReplyView::Failed { message } => {
                        &&& w.step == (MountStep::Rollback {
                            error: Error::Wrapped { context: Context::Mount, message },
                        })
                        &&& next == Some(RequestView::RemoveDevice { name: s.dm_era_name })
                    },
                    _ => next matches Some(RequestView::SaveState { state }),
                },
                MountStep::Rollback { error } => w.step == (MountStep::Failed { error }),
                MountStep::Save => match reply {
                    ReplyView::Failed { message } => plain(message),
                    _ => w.step is Finished && next is None,
                },
                MountStep::Finished => false,
                MountStep::Failed { error } => false,
            }
        }),
{
}

} // verus!
