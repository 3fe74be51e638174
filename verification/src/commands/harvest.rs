//! The commands `recover` and `promote`: both unmount the scratch volume, collect
//! the blocks that were written to it and take the dm-era device down; then one
//! restores those blocks from virgin and the other writes them to it.

use vstd::prelude::*;
use vstd::string::*;
use crate::chunks::{BlockRange, block_count, blocks_cover, prepared};
use crate::commands::format::{bytes_words, format_bytes};
use crate::commands::session::{
    Exchange, Question, Reply, ReplyView, Request, RequestView, Tool, answered, asked, done, fits,
    last_saved, lemma_history_grows, overwrites, request_view,
};
use crate::error::{Context, Error, not_initialized, not_mounted};
use crate::copy::{CopyEvent, CopyState, carries, law_block_copy_restores};
use crate::io::{blocks_fit, check_blocks_fit, count_blocks, lemma_blocks_countable};
use crate::state::AppState;
use crate::text::{decimal, decimal_text, joined, texts};

verus! {

/// Which of the two commands is run.
#[derive(Debug, Clone, Copy, PartialEq, Eq, Structural)]
pub enum Mode {
    Recover,
    Promote,
}

/// Where the command stands.
#[derive(Debug)]
pub enum HarvestStep {
    Root,
    Lock,
    Load,
    CheckDmsetup,
    CheckEraInvalidate,
    DeviceExists,
    Confirm,
    IsMounted,
    Unmount,
    TakeSnapshot,
    Collect,
    /// The snapshot is dropped because the command has failed.
    Abandon { error: Error },
    DropSnapshot,
    RemoveDevice,
    Copy,
    Hash,
    Save,
    /// Nothing was mounted, so that there is nothing to recover.
    NothingToDo,
    Finished,
    Failed { error: Error },
}

/// A run of `recover` or `promote`.
#[derive(Debug)]
pub struct Harvest {
    pub mode: Mode,
    pub kill: bool,
    pub yes: bool,
    pub step: HarvestStep,
    pub state: Option<AppState>,
    pub ranges: Vec<BlockRange>,
}

/// The same with a sequence in place of a vector.
pub ghost struct HarvestView {
    pub mode: Mode,
    pub kill: bool,
    pub yes: bool,
    pub step: HarvestStep,
    pub state: Option<AppState>,
    pub ranges: Seq<BlockRange>,
}

impl View for Harvest {
    type V = HarvestView;

    open spec fn view(&self) -> HarvestView {
        HarvestView {
            mode: self.mode,
            kill: self.kill,
            yes: self.yes,
            step: self.step,
            state: self.state,
            ranges: self.ranges@,
        }
    }
}

impl HarvestView {
    /// Whether the step comes before a mounted state was loaded, or is the last one.
    pub open spec fn stateless(self) -> bool {
        match self.step {
            HarvestStep::Root => true,
            HarvestStep::Lock => true,
            HarvestStep::Load => true,
            HarvestStep::NothingToDo => true,
            HarvestStep::Failed { error } => true,
            _ => false,
        }
    }

    /// Whether the collected blocks are being copied, or were.
    pub open spec fn copying(self) -> bool {
        ||| self.step is Copy
        ||| self.step is Hash
        ||| self.step is Save
        ||| self.step is Finished
    }

    /// What holds of a run at every moment.
    pub open spec fn wf(self) -> bool {
        &&& !self.stateless() ==> {
            &&& self.state is Some
            &&& self.state->0.is_mounted
        }
        &&& self.copying() && self.ranges.len() > 0 ==> blocks_fit(
            self.ranges,
            self.state->0.granularity,
        )
        &&& self.step is Copy ==> self.ranges.len() > 0
    }

    /// The volume that blocks are copied from.
    pub open spec fn source(self) -> String {
        match self.mode {
            Mode::Recover => self.state->0.virgin,
            Mode::Promote => self.state->0.scratch,
        }
    }

    /// The volume that blocks are copied to.
    pub open spec fn target(self) -> String {
        match self.mode {
            Mode::Recover => self.state->0.scratch,
            Mode::Promote => self.state->0.virgin,
        }
    }

    /// The request to copy the collected blocks.
    pub open spec fn copy_request(self) -> RequestView {
        RequestView::CopyBlocks {
            from: self.source(),
            to: self.target(),
            granularity: self.state->0.granularity,
            ranges: self.ranges,
        }
    }

    /// What the run asks for next; nothing where it has ended.
    pub open spec fn request(self) -> Option<RequestView> {
        let s = self.state->0;
        match self.step {
            HarvestStep::Root => Some(RequestView::User),
            HarvestStep::Lock => Some(RequestView::Lock),
            HarvestStep::Load => Some(RequestView::LoadState),
            HarvestStep::CheckDmsetup => Some(RequestView::CheckTool { tool: Tool::Dmsetup }),
            HarvestStep::CheckEraInvalidate => Some(
                RequestView::CheckTool { tool: Tool::EraInvalidate },
            ),
            HarvestStep::DeviceExists => Some(RequestView::DeviceExists { name: s.dm_era_name }),
            HarvestStep::Confirm => Some(
                RequestView::Confirm { question: Question::Promote, skip: self.yes },
            ),
            HarvestStep::IsMounted => Some(RequestView::IsMounted { mount_point: s.mount_point }),
            HarvestStep::Unmount => Some(
                RequestView::Unmount { mount_point: s.mount_point, kill: self.kill },
            ),
            HarvestStep::TakeSnapshot => Some(RequestView::TakeSnapshot { name: s.dm_era_name }),
            HarvestStep::Collect => Some(
                RequestView::CollectBlocks { metadata_dev: s.ramdisk, since_era: s.base_era() },
            ),
            HarvestStep::Abandon { error } => Some(RequestView::DropSnapshot { name: s.dm_era_name }),
            HarvestStep::DropSnapshot => Some(RequestView::DropSnapshot { name: s.dm_era_name }),
            HarvestStep::RemoveDevice => Some(RequestView::RemoveDevice { name: s.dm_era_name }),
            HarvestStep::Copy => Some(self.copy_request()),
            HarvestStep::Hash => Some(RequestView::HashVolume { path: s.virgin }),
            HarvestStep::Save => Some(RequestView::SaveState { state: s.unmounted() }),
            HarvestStep::NothingToDo => None,
            HarvestStep::Finished => None,
            HarvestStep::Failed { error } => None,
        }
    }

    /// Whether the reply answers what was asked for.
    pub open spec fn accepts(self, reply: ReplyView) -> bool {
        self.request() matches Some(request) && fits(request, reply)
    }

    /// The run at another step.
    pub open spec fn at(self, step: HarvestStep) -> HarvestView {
        HarvestView { step, ..self }
    }

    /// The run after a step that reported a failure.
    pub open spec fn failed(self, context: Option<Context>, message: String) -> HarvestView {
        self.at(
            HarvestStep::Failed {
                error: match context {
                    Some(context) => Error::Wrapped { context, message },
                    None => Error::Failed { message },
                },
            },
        )
    }

    /// The run after a step that is carried out or fails.
    pub open spec fn proceed(
        self,
        reply: ReplyView,
        step: HarvestStep,
        context: Option<Context>,
    ) -> HarvestView {
        match reply {
            ReplyView::Failed { message } => self.failed(context, message),
            _ => self.at(step),
        }
    }

    /// The step that follows the copy.
    pub open spec fn after_copy(self) -> HarvestStep {
        match self.mode {
            Mode::Recover => HarvestStep::Save,
            Mode::Promote => HarvestStep::Hash,
        }
    }

    /// The run after the reply.
    pub open spec fn after(self, reply: ReplyView) -> HarvestView {
        let s = self.state->0;
        match self.step {
            HarvestStep::Root => match reply {
                ReplyView::User { euid } => if euid == 0 {
                    self.at(HarvestStep::Lock)
                } else {
                    self.at(HarvestStep::Failed { error: Error::NotRoot })
                },
                ReplyView::Failed { message } => self.failed(None, message),
                _ => self,
            },
            HarvestStep::Lock => self.proceed(reply, HarvestStep::Load, None),
            HarvestStep::Load => match reply {
                ReplyView::Loaded { state: None } => self.at(
                    HarvestStep::Failed { error: Error::NotInitialized },
                ),
                ReplyView::Loaded { state: Some(loaded) } => HarvestView {
                    state: Some(loaded),
                    step: if loaded.is_mounted {
                        HarvestStep::CheckDmsetup
                    } else {
                        match self.mode {
                            Mode::Recover => HarvestStep::NothingToDo,
                            Mode::Promote => HarvestStep::Failed { error: Error::NotMounted },
                        }
                    },
                    ..self
                },
                ReplyView::Failed { message } => self.failed(None, message),
                _ => self,
            },
            HarvestStep::CheckDmsetup => self.proceed(reply, HarvestStep::CheckEraInvalidate, None),
            HarvestStep::CheckEraInvalidate => self.proceed(reply, HarvestStep::DeviceExists, None),
            HarvestStep::DeviceExists => match reply {
                ReplyView::Answer { yes: true } => match self.mode {
                    Mode::Recover => self.at(HarvestStep::IsMounted),
                    Mode::Promote => self.at(HarvestStep::Confirm),
                },
                ReplyView::Answer { yes: false } => self.at(
                    HarvestStep::Failed {
                        error: match self.mode {
                            Mode::Recover => Error::DeviceMissingForRecover { name: s.dm_era_name },
                            Mode::Promote => Error::DeviceMissingForPromote { name: s.dm_era_name },
                        },
                    },
                ),
                ReplyView::Failed { message } => self.failed(None, message),
                _ => self,
            },
            HarvestStep::Confirm => match reply {
                ReplyView::Answer { yes: true } => self.at(HarvestStep::IsMounted),
                ReplyView::Answer { yes: false } => self.at(
                    HarvestStep::Failed { error: Error::Cancelled },
                ),
                ReplyView::Failed { message } => self.failed(None, message),
                _ => self,
            },
            HarvestStep::IsMounted => match reply {
                ReplyView::Answer { yes: true } => self.at(HarvestStep::Unmount),
                ReplyView::Answer { yes: false } => self.at(HarvestStep::TakeSnapshot),
                ReplyView::Failed { message } => self.failed(None, message),
                _ => self,
            },
            HarvestStep::Unmount => self.proceed(
                reply,
                HarvestStep::TakeSnapshot,
                Some(Context::Unmount),
            ),
            HarvestStep::TakeSnapshot => self.proceed(
                reply,
                HarvestStep::Collect,
                Some(Context::TakeSnapshot),
            ),
            HarvestStep::Collect => match reply {
                ReplyView::Ranges { ranges } => HarvestView {
                    ranges,
                    step: HarvestStep::DropSnapshot,
                    ..self
                },
                ReplyView::Failed { message } => self.at(
                    HarvestStep::Abandon {
                        error: Error::Wrapped { context: Context::CollectBlocks, message },
                    },
                ),
                _ => self,
            },
            HarvestStep::Abandon { error } => self.at(HarvestStep::Failed { error }),
            HarvestStep::DropSnapshot => self.proceed(
                reply,
                HarvestStep::RemoveDevice,
                Some(Context::DropSnapshot),
            ),
            HarvestStep::RemoveDevice => self.proceed(
                reply,
                if self.ranges.len() == 0 {
                    self.after_copy()
                } else if blocks_fit(self.ranges, s.granularity) {
                    HarvestStep::Copy
                } else {
                    HarvestStep::Failed { error: Error::RangesTooLarge }
                },
                Some(Context::RemoveDevice),
            ),
            HarvestStep::Copy => self.proceed(reply, self.after_copy(), Some(Context::CopyBlocks)),
            HarvestStep::Hash => match reply {
                ReplyView::Hash { hash } => HarvestView {
                    state: Some(s.with_hash(hash)),
                    step: HarvestStep::Save,
                    ..self
                },
                ReplyView::Failed { message } => self.failed(None, message),
                _ => self,
            },
            HarvestStep::Save => self.proceed(reply, HarvestStep::Finished, None),
            _ => self,
        }
    }

    /// A run of `recover` or `promote` that has not begun.
    pub open spec fn start(mode: Mode, kill: bool, yes: bool, step: HarvestStep) -> HarvestView {
        HarvestView { mode, kill, yes, step, state: None, ranges: Seq::empty() }
    }
}

impl Harvest {
    /// A run of `recover`.
    pub fn recover(kill: bool) -> (run: Harvest)
        ensures
            run@ == HarvestView::start(Mode::Recover, kill, false, HarvestStep::Root),
            run@.wf(),
            run.mode == Mode::Recover,
            run.kill == kill,
            run.yes == false,
            run.step is Root,
            run.state is None,
            run.ranges@.len() == 0,
    {
        let run = Harvest {
            mode: Mode::Recover,
            kill,
            yes: false,
            step: HarvestStep::Root,
            state: None,
            ranges: Vec::new(),
        };
        assert(run.ranges@ =~= Seq::<BlockRange>::empty());
        run
    }

    /// A run of `recover` by one who is root and holds the lock.
    pub fn recover_locked(kill: bool) -> (run: Harvest)
        ensures
            run@ == HarvestView::start(Mode::Recover, kill, false, HarvestStep::Load),
            run@.wf(),
            run.mode == Mode::Recover,
            run.kill == kill,
            run.yes == false,
            run.step is Load,
            run.state is None,
            run.ranges@.len() == 0,
    {
        let run = Harvest {
            mode: Mode::Recover,
            kill,
            yes: false,
            step: HarvestStep::Load,
            state: None,
            ranges: Vec::new(),
        };
        assert(run.ranges@ =~= Seq::<BlockRange>::empty());
        run
    }

    /// A run of `promote`.
    pub fn promote(yes: bool, kill: bool) -> (run: Harvest)
        ensures
            run@ == HarvestView::start(Mode::Promote, kill, yes, HarvestStep::Root),
            run@.wf(),
            run.mode == Mode::Promote,
            run.kill == kill,
            run.yes == yes,
            run.step is Root,
            run.state is None,
            run.ranges@.len() == 0,
    {
        let run = Harvest {
            mode: Mode::Promote,
            kill,
            yes,
            step: HarvestStep::Root,
            state: None,
            ranges: Vec::new(),
        };
        assert(run.ranges@ =~= Seq::<BlockRange>::empty());
        run
    }

    /// What the run asks for next; nothing where it has ended.
    pub fn request(&self) -> (request: Option<Request>)
        requires
            self@.wf(),
        ensures
            request_view(request) == self@.request(),
    {
        match &self.step {
            HarvestStep::Root => {
                return Some(Request::User);
            },
            HarvestStep::Lock => {
                return Some(Request::Lock);
            },
            HarvestStep::Load => {
                return Some(Request::LoadState);
            },
            HarvestStep::NothingToDo => {
                return None;
            },
            HarvestStep::Finished => {
                return None;
            },
            HarvestStep::Failed { error: _ } => {
                return None;
            },
            _ => {},
        }
        match &self.state {
            None => None,
            Some(s) => match &self.step {
                HarvestStep::CheckDmsetup => Some(Request::CheckTool { tool: Tool::Dmsetup }),
                HarvestStep::CheckEraInvalidate => Some(
                    Request::CheckTool { tool: Tool::EraInvalidate },
                ),
                HarvestStep::DeviceExists => Some(
                    Request::DeviceExists { name: s.dm_era_name.clone() },
                ),
                HarvestStep::Confirm => Some(
                    Request::Confirm { question: Question::Promote, skip: self.yes },
                ),
                HarvestStep::IsMounted => Some(
                    Request::IsMounted { mount_point: s.mount_point.clone() },
                ),
                HarvestStep::Unmount => Some(
                    Request::Unmount { mount_point: s.mount_point.clone(), kill: self.kill },
                ),
                HarvestStep::TakeSnapshot => Some(
                    Request::TakeSnapshot { name: s.dm_era_name.clone() },
                ),
                HarvestStep::Collect => Some(
                    Request::CollectBlocks {
                        metadata_dev: s.ramdisk.clone(),
                        since_era: s.since_era(),
                    },
                ),
                HarvestStep::Abandon { error: _ } => Some(
                    Request::DropSnapshot { name: s.dm_era_name.clone() },
                ),
                HarvestStep::DropSnapshot => Some(
                    Request::DropSnapshot { name: s.dm_era_name.clone() },
                ),
                HarvestStep::RemoveDevice => Some(
                    Request::RemoveDevice { name: s.dm_era_name.clone() },
                ),
                HarvestStep::Copy => {
                    let ranges = self.ranges.clone();
                    assert(ranges@ =~= self.ranges@);
                    let (from, to) = match self.mode {
                        Mode::Recover => (s.virgin.clone(), s.scratch.clone()),
                        Mode::Promote => (s.scratch.clone(), s.virgin.clone()),
                    };
                    Some(Request::CopyBlocks { from, to, granularity: s.granularity, ranges })
                },
                HarvestStep::Hash => Some(Request::HashVolume { path: s.virgin.clone() }),
                HarvestStep::Save => {
                    let mut saved = s.duplicate();
                    saved.is_mounted = false;
                    saved.current_era = None;
                    Some(Request::SaveState { state: saved })
                },
                _ => None,
            },
        }
    }

    fn at(self, step: HarvestStep) -> (run: Harvest)
        ensures
            run@ == self@.at(step),
    {
        Harvest { step, ..self }
    }

    fn proceed(self, reply: Reply, step: HarvestStep, context: Option<Context>) -> (run: Harvest)
        ensures
            run@ == self@.proceed(reply@, step, context),
    {
        match reply {
            Reply::Failed { message } => {
                let error = match context {
                    Some(context) => Error::Wrapped { context, message },
                    None => Error::Failed { message },
                };
                self.at(HarvestStep::Failed { error })
            },
            _ => self.at(step),
        }
    }

    fn after_copy(&self) -> (step: HarvestStep)
        ensures
            step == self@.after_copy(),
    {
        match self.mode {
            Mode::Recover => HarvestStep::Save,
            Mode::Promote => HarvestStep::Hash,
        }
    }

    /// Takes the reply to what was asked for.
    pub fn advance(self, reply: Reply) -> (run: Harvest)
        requires
            self@.wf(),
            self@.accepts(reply@),
        ensures
            run@ == self@.after(reply@),
            run@.wf(),
    {
        match &self.step {
            HarvestStep::Root => match reply {
                Reply::User { euid } => if euid == 0 {
                    self.at(HarvestStep::Lock)
                } else {
                    self.at(HarvestStep::Failed { error: Error::NotRoot })
                },
                reply => self.proceed(reply, HarvestStep::Root, None),
            },
            HarvestStep::Lock => self.proceed(reply, HarvestStep::Load, None),
            HarvestStep::Load => match reply {
                Reply::Loaded { state } => match state {
                    None => self.at(HarvestStep::Failed { error: not_initialized() }),
                    Some(loaded) => {
                        let step = if loaded.is_mounted {
                            HarvestStep::CheckDmsetup
                        } else {
                            match self.mode {
                                Mode::Recover => HarvestStep::NothingToDo,
                                Mode::Promote => HarvestStep::Failed { error: not_mounted() },
                            }
                        };
                        Harvest { state: Some(loaded), step, ..self }
                    },
                },
                reply => self.proceed(reply, HarvestStep::Load, None),
            },
            HarvestStep::CheckDmsetup => self.proceed(reply, HarvestStep::CheckEraInvalidate, None),
            HarvestStep::CheckEraInvalidate => self.proceed(reply, HarvestStep::DeviceExists, None),
            HarvestStep::DeviceExists => match reply {
                Reply::Answer { yes } => if yes {
                    match self.mode {
                        Mode::Recover => self.at(HarvestStep::IsMounted),
                        Mode::Promote => self.at(HarvestStep::Confirm),
                    }
                } else {
                    let name = match &self.state {
                        Some(s) => s.dm_era_name.clone(),
                        None => String::new(),
                    };
                    let error = match self.mode {
                        Mode::Recover => Error::DeviceMissingForRecover { name },
                        Mode::Promote => Error::DeviceMissingForPromote { name },
                    };
                    self.at(HarvestStep::Failed { error })
                },
                reply => self.proceed(reply, HarvestStep::DeviceExists, None),
            },
            HarvestStep::Confirm => match reply {
                Reply::Answer { yes } => if yes {
                    self.at(HarvestStep::IsMounted)
                } else {
                    self.at(HarvestStep::Failed { error: Error::Cancelled })
                },
                reply => self.proceed(reply, HarvestStep::Confirm, None),
            },
            HarvestStep::IsMounted => match reply {
                Reply::Answer { yes } => if yes {
                    self.at(HarvestStep::Unmount)
                } else {
                    self.at(HarvestStep::TakeSnapshot)
                },
                reply => self.proceed(reply, HarvestStep::IsMounted, None),
            },
            HarvestStep::Unmount => self.proceed(
                reply,
                HarvestStep::TakeSnapshot,
                Some(Context::Unmount),
            ),
            HarvestStep::TakeSnapshot => self.proceed(
                reply,
                HarvestStep::Collect,
                Some(Context::TakeSnapshot),
            ),
            HarvestStep::Collect => match reply {
                Reply::Ranges { ranges } => Harvest {
                    ranges,
                    step: HarvestStep::DropSnapshot,
                    ..self
                },
                Reply::Failed { message } => self.at(
                    HarvestStep::Abandon {
                        error: Error::Wrapped { context: Context::CollectBlocks, message },
                    },
                ),
                _ => self,
            },
            HarvestStep::Abandon { error: _ } => {
                match self.step {
                    HarvestStep::Abandon { error } => Harvest {
                        mode: self.mode,
                        kill: self.kill,
                        yes: self.yes,
                        step: HarvestStep::Failed { error },
                        state: self.state,
                        ranges: self.ranges,
                    },
                    step => Harvest {
                        mode: self.mode,
                        kill: self.kill,
                        yes: self.yes,
                        step,
                        state: self.state,
                        ranges: self.ranges,
                    },
                }
            },
            HarvestStep::DropSnapshot => self.proceed(
                reply,
                HarvestStep::RemoveDevice,
                Some(Context::DropSnapshot),
            ),
            HarvestStep::RemoveDevice => {
                let granularity: u64 = match &self.state {
                    Some(s) => s.granularity,
                    None => 0,
                };
                let step = if self.ranges.len() == 0 {
                    self.after_copy()
                } else if check_blocks_fit(&self.ranges, granularity) {
                    HarvestStep::Copy
                } else {
                    HarvestStep::Failed { error: Error::RangesTooLarge }
                };
                self.proceed(reply, step, Some(Context::RemoveDevice))
            },
            HarvestStep::Copy => {
                let step = self.after_copy();
                self.proceed(reply, step, Some(Context::CopyBlocks))
            },
            HarvestStep::Hash => match reply {
                Reply::Hash { hash } => match self.state {
                    Some(mut s) => {
                        s.virgin_superblock_hash = hash;
                        Harvest {
                            mode: self.mode,
                            kill: self.kill,
                            yes: self.yes,
                            step: HarvestStep::Save,
                            state: Some(s),
                            ranges: self.ranges,
                        }
                    },
                    None => self,
                },
                reply => self.proceed(reply, HarvestStep::Hash, None),
            },
            HarvestStep::Save => self.proceed(reply, HarvestStep::Finished, None),
            _ => self,
        }
    }
}

/// The number of collected blocks and of their bytes.
pub open spec fn totals(v: HarvestView) -> (nat, nat) {
    (block_count(v.ranges), block_count(v.ranges) * v.state->0.granularity as nat)
}

/// The lines of the report on a run that has finished.
pub open spec fn report_lines(v: HarvestView) -> Seq<Seq<char>> {
    let (blocks, bytes) = totals(v);
    match v.mode {
        Mode::Recover => seq![
            "Recovery complete."@,
            "  Blocks restored: "@ + decimal(blocks),
            "  Bytes copied:    "@ + bytes_words(bytes as u64),
        ],
        Mode::Promote => seq![
            "Promote complete."@,
            "  Blocks promoted: "@ + decimal(blocks),
            "  Bytes copied:    "@ + bytes_words(bytes as u64),
        ],
    }
}

impl Harvest {
    /// The number of collected blocks and of their bytes.
    pub fn totals(&self) -> (n: (u64, u64))
        requires
            self@.wf(),
            self@.copying(),
        ensures
            n.0 == totals(self@).0,
            n.1 == totals(self@).1,
    {
        match &self.state {
            Some(s) => {
                if self.ranges.len() == 0 {
                    assert(block_count(self@.ranges) * s.granularity as nat == 0)
                        by (nonlinear_arith)
                        requires
                            block_count(self@.ranges) == 0,
                    ;
                    return (0, 0);
                }
                proof {
                    lemma_blocks_countable(self@.ranges, s.granularity);
                }
                let blocks: u64 = count_blocks(&self.ranges);
                (blocks, blocks * s.granularity)
            },
            None => (0, 0),
        }
    }

    /// The report on a run that has finished.
    pub fn report(&self) -> (lines: Vec<String>)
        requires
            self@.wf(),
            self@.step is Finished,
        ensures
            texts(lines@) == report_lines(self@),
    {
        let (blocks, bytes) = self.totals();
        let mut lines: Vec<String> = Vec::new();
        match self.mode {
            Mode::Recover => {
                lines.push("Recovery complete.".to_owned());
                lines.push(joined("  Blocks restored: ", decimal_text(blocks).as_str()));
            },
            Mode::Promote => {
                lines.push("Promote complete.".to_owned());
                lines.push(joined("  Blocks promoted: ", decimal_text(blocks).as_str()));
            },
        }
        lines.push(joined("  Bytes copied:    ", format_bytes(bytes).as_str()));
        assert(texts(lines@) =~= report_lines(self@));
        lines
    }
}

// ---------------------------------------------------------------------------
// What every run keeps to
// ---------------------------------------------------------------------------

impl HarvestView {
    /// The run after some replies.
    pub open spec fn run(self, replies: Seq<ReplyView>) -> HarvestView
        decreases replies.len(),
    {
        if replies.len() == 0 {
            self
        } else {
            self.run(replies.drop_last()).after(replies.last())
        }
    }

    /// Whether each reply answers what was asked for when it came.
    pub open spec fn can_run(self, replies: Seq<ReplyView>) -> bool
        decreases replies.len(),
    {
        replies.len() > 0 ==> {
            &&& self.can_run(replies.drop_last())
            &&& self.run(replies.drop_last()).accepts(replies.last())
        }
    }

    /// What was asked for and replied.
    pub open spec fn history(self, replies: Seq<ReplyView>) -> Seq<Exchange>
        decreases replies.len(),
    {
        if replies.len() == 0 {
            Seq::empty()
        } else {
            self.history(replies.drop_last()).push(
                Exchange {
                    request: self.run(replies.drop_last()).request()->0,
                    reply: replies.last(),
                },
            )
        }
    }

    /// How far the run has come; a run that has ended without success has come
    /// nowhere.
    pub open spec fn rank(self) -> nat {
        match self.step {
            HarvestStep::Root => 0,
            HarvestStep::Lock => 1,
            HarvestStep::Load => 2,
            HarvestStep::CheckDmsetup => 3,
            HarvestStep::CheckEraInvalidate => 4,
            HarvestStep::DeviceExists => 5,
            HarvestStep::Confirm => 6,
            HarvestStep::IsMounted => 7,
            HarvestStep::Unmount => 8,
            HarvestStep::TakeSnapshot => 9,
            HarvestStep::Collect => 10,
            HarvestStep::Abandon { error } => 10,
            HarvestStep::DropSnapshot => 11,
            HarvestStep::RemoveDevice => 12,
            HarvestStep::Copy => 13,
            HarvestStep::Hash => 14,
            HarvestStep::Save => 15,
            HarvestStep::Finished => 16,
            HarvestStep::NothingToDo => 0,
            HarvestStep::Failed { error } => 0,
        }
    }

    /// Whether the user has confirmed, where that is needed.
    pub open spec fn confirmed(self, h: Seq<Exchange>) -> bool {
        self.mode == Mode::Promote ==> answered(
            h,
            RequestView::Confirm { question: Question::Promote, skip: self.yes },
            ReplyView::Answer { yes: true },
        )
    }

    /// Whether the filesystem is known not to be mounted.
    pub open spec fn is_unmounted(self, h: Seq<Exchange>) -> bool {
        let mount_point = self.state->0.mount_point;
        ||| done(h, RequestView::Unmount { mount_point, kill: self.kill })
        ||| answered(h, RequestView::IsMounted { mount_point }, ReplyView::Answer { yes: false })
    }

    /// Whether the changes were collected while nothing could change any more, and
    /// the dm-era device was then taken down.
    pub open spec fn torn_down(self, h: Seq<Exchange>) -> bool {
        let s = self.state->0;
        &&& self.is_unmounted(h)
        &&& done(h, RequestView::TakeSnapshot { name: s.dm_era_name })
        &&& answered(
            h,
            RequestView::CollectBlocks { metadata_dev: s.ramdisk, since_era: s.base_era() },
            ReplyView::Ranges { ranges: self.ranges },
        )
        &&& done(h, RequestView::DropSnapshot { name: s.dm_era_name })
        &&& done(h, RequestView::RemoveDevice { name: s.dm_era_name })
    }

    /// Whether the collected blocks were copied, if there are any.
    pub open spec fn copied(self, h: Seq<Exchange>) -> bool {
        self.ranges.len() == 0 || done(h, self.copy_request())
    }

    /// Whether the state is the mounted one that was loaded; in a `promote`, but for the
    /// superblock hash.
    pub open spec fn comes_from_loaded(self, h: Seq<Exchange>) -> bool {
        let s = self.state->0;
        exists|loaded: AppState| #[trigger]
            answered(h, RequestView::LoadState, ReplyView::Loaded { state: Some(loaded) })
                && loaded.is_mounted && s == (match self.mode {
                Mode::Recover => loaded,
                Mode::Promote => loaded.with_hash(s.virgin_superblock_hash),
            })
    }

    /// What is known of the past at every step.
    pub open spec fn facts(self, h: Seq<Exchange>) -> bool {
        let s = self.state->0;
        let name = s.dm_era_name;
        &&& self.step is Hash ==> self.mode == Mode::Promote
        &&& self.rank() >= 3 ==> self.comes_from_loaded(h)
        &&& self.rank() >= 7 ==> self.confirmed(h)
        &&& self.rank() >= 9 ==> self.is_unmounted(h)
        &&& self.rank() >= 10 ==> done(h, RequestView::TakeSnapshot { name })
        &&& self.rank() >= 11 ==> answered(
            h,
            RequestView::CollectBlocks { metadata_dev: s.ramdisk, since_era: s.base_era() },
            ReplyView::Ranges { ranges: self.ranges },
        )
        &&& self.rank() >= 12 ==> done(h, RequestView::DropSnapshot { name })
        &&& self.rank() >= 13 ==> done(h, RequestView::RemoveDevice { name })
        &&& self.rank() >= 14 ==> self.copied(h)
        &&& self.rank() >= 15 && self.mode == Mode::Promote ==> answered(
            h,
            RequestView::HashVolume { path: s.virgin },
            ReplyView::Hash { hash: s.virgin_superblock_hash },
        )
        &&& self.rank() >= 16 ==> done(h, RequestView::SaveState { state: s.unmounted() })
        &&& self.step matches HarvestStep::Failed { error } ==> collecting_failed(error) ==> asked(
            h,
            RequestView::DropSnapshot { name },
        )
        &&& self.step !is Failed && self.rank() <= 13 ==> overwrote_nothing(h)
        &&& self.step is NothingToDo ==> {
            &&& self.state is Some
            &&& !s.is_mounted
            &&& answered(h, RequestView::LoadState, ReplyView::Loaded { state: self.state })
        }
        &&& last_saved(h) == if self.step is Finished {
            Some(s.unmounted())
        } else {
            None
        }
        &&& self.step !is Failed && self.rank() <= 15 ==> saved_nothing(h)
    }

    /// What holds of every request that was made: only the copy overwrites a volume,
    /// and only a state that follows a copy is saved.
    pub open spec fn discipline(self, h: Seq<Exchange>) -> bool {
        forall|i: int|
            0 <= i < h.len() ==> {
                let request = (#[trigger] h[i]).request;
                &&& overwrites(request) is Some ==> {
                    &&& self.state is Some
                    &&& request == self.copy_request()
                    &&& self.confirmed(h)
                    &&& self.torn_down(h)
                }
                &&& request is SaveState ==> {
                    &&& self.state is Some
                    &&& self.comes_from_loaded(h)
                    &&& request == (RequestView::SaveState { state: self.state->0.unmounted() })
                    &&& self.confirmed(h)
                    &&& self.torn_down(h)
                    &&& self.copied(h)
                }
            }
    }
}

/// Whether the error is that the changed blocks could not be collected.
pub open spec fn collecting_failed(error: Error) -> bool {
    error matches Error::Wrapped { context, message } && context == Context::CollectBlocks
}

/// Whether no request has overwritten anything.
pub open spec fn overwrote_nothing(h: Seq<Exchange>) -> bool {
    forall|i: int| 0 <= i < h.len() ==> overwrites((#[trigger] h[i]).request) is None
}

/// Whether no state was saved.
pub open spec fn saved_nothing(h: Seq<Exchange>) -> bool {
    forall|i: int| 0 <= i < h.len() ==> !((#[trigger] h[i]).request is SaveState)
}

#[verifier::rlimit(60)]
proof fn lemma_facts(v: HarvestView, h: Seq<Exchange>, reply: ReplyView)
    requires
        v.wf(),
        v.accepts(reply),
        v.facts(h),
        v.after(reply).wf(),
    ensures
        v.after(reply).facts(h.push(Exchange { request: v.request()->0, reply })),
{
    let x = Exchange { request: v.request()->0, reply };
    lemma_history_grows(h, x);
    assert(h.push(x).drop_last() =~= h);
    if v.after(reply).rank() >= 3 {
        lemma_comes_from_loaded(v, h, reply);
    }
}

proof fn lemma_comes_from_loaded(v: HarvestView, h: Seq<Exchange>, reply: ReplyView)
    requires
        v.accepts(reply),
        v.step is Hash ==> v.mode == Mode::Promote,
        v.rank() >= 3 ==> v.comes_from_loaded(h),
        v.after(reply).rank() >= 3,
    ensures
        v.after(reply).comes_from_loaded(h.push(Exchange { request: v.request()->0, reply })),
{
    let x = Exchange { request: v.request()->0, reply };
    lemma_history_grows(h, x);
    let g = h.push(x);
    let w = v.after(reply);
    let loaded = if v.rank() >= 3 {
        choose|loaded: AppState| #[trigger]
            answered(h, RequestView::LoadState, ReplyView::Loaded { state: Some(loaded) })
                && loaded.is_mounted && v.state->0 == (match v.mode {
                Mode::Recover => loaded,
                Mode::Promote => loaded.with_hash(v.state->0.virgin_superblock_hash),
            })
    } else {
        w.state->0
    };
    assert(answered(g, RequestView::LoadState, ReplyView::Loaded { state: Some(loaded) }));
}

#[verifier::rlimit(60)]
proof fn lemma_discipline(v: HarvestView, h: Seq<Exchange>, reply: ReplyView)
    requires
        v.wf(),
        v.accepts(reply),
        v.facts(h),
        v.discipline(h),
    ensures
        v.after(reply).discipline(h.push(Exchange { request: v.request()->0, reply })),
{
    let x = Exchange { request: v.request()->0, reply };
    lemma_history_grows(h, x);
    let g = h.push(x);
    let w = v.after(reply);
    assert forall|i: int| 0 <= i < g.len() implies {
        let request = (#[trigger] g[i]).request;
        &&& overwrites(request) is Some ==> {
            &&& w.state is Some
            &&& request == w.copy_request()
            &&& w.confirmed(g)
            &&& w.torn_down(g)
        }
        &&& request is SaveState ==> {
            &&& w.state is Some
            &&& w.comes_from_loaded(g)
            &&& request == (RequestView::SaveState { state: w.state->0.unmounted() })
            &&& w.confirmed(g)
            &&& w.torn_down(g)
            &&& w.copied(g)
        }
    } by {
        if i < h.len() {
            assert(g[i] == h[i]);
        } else {
            assert(g[i] == x);
        }
    }
}

proof fn lemma_harvest(start: HarvestView, replies: Seq<ReplyView>)
    requires
        begins(start),
        start.can_run(replies),
    ensures
        start.run(replies).wf(),
        start.run(replies).facts(start.history(replies)),
        start.run(replies).discipline(start.history(replies)),
        start.run(replies).mode == start.mode,
    decreases replies.len(),
{
    if replies.len() > 0 {
        lemma_harvest(start, replies.drop_last());
        let v = start.run(replies.drop_last());
        let h = start.history(replies.drop_last());
        lemma_facts(v, h, replies.last());
        lemma_discipline(v, h, replies.last());
    }
}

/// Whether a run may begin so: at its first step, or at the loading of the state for
/// one who is root and holds the lock.
pub open spec fn begins(start: HarvestView) -> bool {
    start == HarvestView::start(start.mode, start.kill, start.yes, start.step) && (start.step
        is Root || start.step is Load)
}

/// A volume is overwritten only after the filesystem was unmounted, the changes were
/// collected from a snapshot, the snapshot was dropped and the dm-era device removed.
/// What is written is the collected blocks, to the scratch volume by `recover` and to
/// the virgin volume by `promote`, which the user has confirmed.
pub proof fn law_volumes_are_overwritten_last(start: HarvestView, replies: Seq<ReplyView>, i: int)
    requires
        begins(start),
        start.can_run(replies),
        0 <= i < start.history(replies).len(),
        overwrites(start.history(replies)[i].request) is Some,
    ensures
        ({
            let v = start.run(replies);
            let h = start.history(replies);
            &&& v.state is Some
            &&& h[i].request == v.copy_request()
            &&& v.torn_down(h)
            &&& v.confirmed(h)
            &&& overwrites(h[i].request) == Some(
                match start.mode {
                    Mode::Recover => v.state->0.scratch,
                    Mode::Promote => v.state->0.virgin,
                },
            )
        }),
{
    lemma_harvest(start, replies);
    let v = start.run(replies);
    let h = start.history(replies);
    assert(overwrites(h[i].request) is Some);
}

/// The state is saved as unmounted only after the dm-era device was removed and the
/// collected blocks, if there are any, were copied; it is the one that was loaded, or in a
/// `promote` that with another superblock hash.
pub proof fn law_state_is_saved_after_the_copy(start: HarvestView, replies: Seq<ReplyView>, i: int)
    requires
        begins(start),
        start.can_run(replies),
        0 <= i < start.history(replies).len(),
        start.history(replies)[i].request is SaveState,
    ensures
        ({
            let v = start.run(replies);
            let h = start.history(replies);
            &&& v.state is Some
            &&& v.comes_from_loaded(h)
            &&& h[i].request == (RequestView::SaveState { state: v.state->0.unmounted() })
            &&& v.torn_down(h)
            &&& v.copied(h)
        }),
{
    lemma_harvest(start, replies);
    let v = start.run(replies);
    let h = start.history(replies);
    assert(h[i].request is SaveState);
}

/// A run that has finished has left nothing behind: the filesystem is unmounted, the
/// snapshot dropped, the dm-era device removed, every collected block copied, and the
/// state that was loaded saved as unmounted; after `promote` it holds the hash that the
/// virgin volume was found to have, and is the same otherwise.
pub proof fn law_finished_runs_are_complete(start: HarvestView, replies: Seq<ReplyView>)
    requires
        begins(start),
        start.can_run(replies),
        start.run(replies).step is Finished,
    ensures
        ({
            let v = start.run(replies);
            let h = start.history(replies);
            &&& v.torn_down(h)
            &&& v.copied(h)
            &&& done(h, RequestView::SaveState { state: v.state->0.unmounted() })
            &&& exists|loaded: AppState| #[trigger]
                answered(h, RequestView::LoadState, ReplyView::Loaded { state: Some(loaded) })
                    && loaded.is_mounted && v.state == Some(
                    match start.mode {
                        Mode::Recover => loaded,
                        Mode::Promote => loaded.with_hash(v.state->0.virgin_superblock_hash),
                    },
                )
            &&& start.mode == Mode::Promote ==> answered(
                h,
                RequestView::HashVolume { path: v.state->0.virgin },
                ReplyView::Hash { hash: v.state->0.virgin_superblock_hash },
            )
        }),
{
    lemma_harvest(start, replies);
}

/// Only a run that has finished has saved a state, the unmounted one; a run that found
/// nothing to do has loaded a state that is not mounted.
pub proof fn law_only_finished_runs_are_saved(start: HarvestView, replies: Seq<ReplyView>)
    requires
        begins(start),
        start.can_run(replies),
    ensures
        ({
            let v = start.run(replies);
            let h = start.history(replies);
            &&& last_saved(h) == if v.step is Finished {
                Some(v.state->0.unmounted())
            } else {
                None
            }
            &&& v.step is NothingToDo ==> {
                &&& v.state is Some
                &&& !v.state->0.is_mounted
                &&& answered(h, RequestView::LoadState, ReplyView::Loaded { state: v.state })
            }
        }),
{
    lemma_harvest(start, replies);
}

/// A run whose changed blocks could not be collected has asked for the snapshot to be
/// dropped.
pub proof fn law_failed_collection_drops_the_snapshot(
    start: HarvestView,
    replies: Seq<ReplyView>,
)
    requires
        begins(start),
        start.can_run(replies),
        start.run(replies).step matches HarvestStep::Failed { error } && collecting_failed(error),
    ensures
        asked(
            start.history(replies),
            RequestView::DropSnapshot { name: start.run(replies).state->0.dm_era_name },
        ),
{
    lemma_harvest(start, replies);
}

/// `recover` succeeds without doing anything where nothing is mounted; `promote`
/// refuses.
pub proof fn law_unmounted_volume_needs_no_recovery(v: HarvestView, state: AppState)
    requires
        v.step is Load,
        !state.is_mounted,
    ensures
        ({
            let w = v.after(ReplyView::Loaded { state: Some(state) });
            &&& w.request() is None
            &&& v.mode == Mode::Recover ==> w.step is NothingToDo
            &&& v.mode == Mode::Promote ==> w.step == (HarvestStep::Failed {
                error: Error::NotMounted,
            })
        }),
{
}

/// Where the dm-era device is gone although the state says mounted, nothing is
/// collected or copied: `recover` refers to `full-recover`.
pub proof fn law_lost_device_is_refused(v: HarvestView)
    requires
        v.wf(),
        v.step is DeviceExists,
    ensures
        ({
            let w = v.after(ReplyView::Answer { yes: false });
            &&& w.request() is None
            &&& w.step == (HarvestStep::Failed {
                error: match v.mode {
                    Mode::Recover => Error::DeviceMissingForRecover {
                        name: v.state->0.dm_era_name,
                    },
                    Mode::Promote => Error::DeviceMissingForPromote {
                        name: v.state->0.dm_era_name,
                    },
                },
            })
        }),
{
}

/// A run that has finished has made the two volumes equal, if they differed in no block
/// that was not collected: what `recover` leaves is the baseline, and what `promote`
/// leaves is the new one. `volumes` are the source and the target of the copy before it
/// began, and `events` what happened while it ran; nothing did where no block was
/// collected. In particular both have one superblock again.
pub proof fn law_finished_runs_leave_equal_volumes(
    start: HarvestView,
    replies: Seq<ReplyView>,
    volumes: CopyState,
    events: Seq<CopyEvent>,
)
    requires
        begins(start),
        start.can_run(replies),
        start.run(replies).step is Finished,
        volumes.fresh(),
        volumes.can_run(events),
        volumes.src.len() == volumes.dst.len(),
        forall|o: int|
            0 <= o < volumes.src.len() && #[trigger] volumes.src[o] != volumes.dst[o]
                ==> blocks_cover(
                start.run(replies).ranges,
                o / start.run(replies).state->0.granularity as int,
            ),
        start.run(replies).ranges.len() == 0 ==> events.len() == 0,
        start.run(replies).ranges.len() > 0 ==> {
            &&& carries(
                volumes,
                prepared(
                    start.run(replies).ranges,
                    start.run(replies).state->0.granularity as nat,
                ),
            )
            &&& volumes.run(events).succeeded()
        },
    ensures
        volumes.run(events).dst == volumes.src,
        volumes.run(events).dst.take(4096) == volumes.src.take(4096),
{
    lemma_harvest(start, replies);
    let v = start.run(replies);
    if v.ranges.len() > 0 {
        law_block_copy_restores(volumes, events, v.ranges, v.state->0.granularity as nat);
    } else {
        assert(volumes.run(events).dst =~= volumes.src);
    }
}

proof fn lemma_lock(start: HarvestView, replies: Seq<ReplyView>)
    requires
        begins(start),
        start.step is Root,
        start.can_run(replies),
    ensures
        ({
            let v = start.run(replies);
            let h = start.history(replies);
            let is_root = answered(h, RequestView::User, ReplyView::User { euid: 0 });
            &&& !(v.step is Root || v.step is Failed) ==> is_root
            &&& !(v.step is Root || v.step is Lock || v.step is Failed) ==> done(h, RequestView::Lock)
            &&& forall|i: int|
                0 <= i < h.len() && (#[trigger] h[i]).request !is User ==> is_root
            &&& forall|i: int|
                0 <= i < h.len() && (#[trigger] h[i]).request !is User && h[i].request !is Lock
                    ==> done(h, RequestView::Lock)
        }),
    decreases replies.len(),
{
    if replies.len() > 0 {
        lemma_lock(start, replies.drop_last());
        let v = start.run(replies.drop_last());
        let h = start.history(replies.drop_last());
        let x = Exchange { request: v.request()->0, reply: replies.last() };
        lemma_history_grows(h, x);
        let g = h.push(x);
        assert forall|i: int| 0 <= i < g.len() && (#[trigger] g[i]).request !is User implies answered(
            g,
            RequestView::User,
            ReplyView::User { euid: 0 },
        ) by {
            if i < h.len() {
                assert(g[i] == h[i]);
            }
        }
        assert forall|i: int|
            0 <= i < g.len() && (#[trigger] g[i]).request !is User && g[i].request
                !is Lock implies done(g, RequestView::Lock) by {
            if i < h.len() {
                assert(g[i] == h[i]);
            }
        }
    }
}

/// Nothing but the user is asked for before the user is known to be root, and nothing but
/// the lock before it is held.
pub proof fn law_root_and_lock_come_first(start: HarvestView, replies: Seq<ReplyView>, i: int)
    requires
        begins(start),
        start.step is Root,
        start.can_run(replies),
        0 <= i < start.history(replies).len(),
    ensures
        ({
            let h = start.history(replies);
            &&& h[i].request !is User ==> answered(
                h,
                RequestView::User,
                ReplyView::User { euid: 0 },
            )
            &&& h[i].request !is User && h[i].request !is Lock ==> done(h, RequestView::Lock)
        }),
{
    lemma_lock(start, replies);
}

// ---------------------------------------------------------------------------
// What a run asks for, and when
// ---------------------------------------------------------------------------

impl HarvestView {
    spec fn before_loading(self) -> bool {
        self.step is Root || self.step is Lock || self.step is Load
    }

    spec fn speaks_of(self, h: Seq<Exchange>, loaded: AppState, request: RequestView) -> bool {
        match request {
            RequestView::User => true,
            RequestView::Lock => true,
            RequestView::LoadState => true,
            RequestView::CheckTool { tool } => tool == Tool::Dmsetup || tool
                == Tool::EraInvalidate,
            RequestView::DeviceExists { name } => name == loaded.dm_era_name,
            RequestView::Confirm { question, skip } => {
                &&& self.mode == Mode::Promote
                &&& question == Question::Promote
                &&& skip == self.yes
            },
            RequestView::IsMounted { mount_point } => mount_point == loaded.mount_point,
            RequestView::Unmount { mount_point, kill } => {
                &&& mount_point == loaded.mount_point
                &&& kill == self.kill
            },
            RequestView::TakeSnapshot { name } => name == loaded.dm_era_name,
            RequestView::CollectBlocks { metadata_dev, since_era } => {
                &&& metadata_dev == loaded.ramdisk
                &&& since_era == (match loaded.current_era {
                    Some(era) => era as int % 0x1_0000_0000,
                    None => 0,
                })
            },
            RequestView::DropSnapshot { name } => name == loaded.dm_era_name,
            RequestView::RemoveDevice { name } => name == loaded.dm_era_name,
            RequestView::CopyBlocks { from, to, granularity, ranges } => {
                &&& self.mode == Mode::Recover ==> from == loaded.virgin && to == loaded.scratch
                &&& self.mode == Mode::Promote ==> from == loaded.scratch && to == loaded.virgin
                &&& granularity == loaded.granularity
                &&& ranges.len() > 0
                &&& exists|since_era: u32| #[trigger]
                    answered(
                        h,
                        RequestView::CollectBlocks { metadata_dev: loaded.ramdisk, since_era },
                        ReplyView::Ranges { ranges },
                    )
            },
            RequestView::HashVolume { path } => self.mode == Mode::Promote && path == loaded.virgin,
            RequestView::SaveState { state } => {
                &&& state.virgin == loaded.virgin
                &&& state.scratch == loaded.scratch
                &&& state.ramdisk == loaded.ramdisk
                &&& state.mount_point == loaded.mount_point
                &&& state.fstype == loaded.fstype
                &&& state.mount_options == loaded.mount_options
                &&& state.granularity == loaded.granularity
                &&& state.dm_era_name == loaded.dm_era_name
                &&& !state.is_mounted
                &&& state.current_era is None
                &&& self.mode == Mode::Recover ==> state.virgin_superblock_hash
                    == loaded.virgin_superblock_hash
                &&& self.mode == Mode::Promote ==> answered(
                    h,
                    RequestView::HashVolume { path: loaded.virgin },
                    ReplyView::Hash { hash: state.virgin_superblock_hash },
                )
            },
            _ => false,
        }
    }

    spec fn keeps_to(self, h: Seq<Exchange>, loaded: AppState) -> bool {
        let s = self.state->0;
        &&& self.step is Confirm || self.step is Hash ==> self.mode == Mode::Promote
        &&& self.before_loading() ==> forall|i: int|
            0 <= i < h.len() ==> ((#[trigger] h[i]).request is User || h[i].request is Lock)
        &&& answered(h, RequestView::LoadState, ReplyView::Loaded { state: Some(loaded) }) ==> {
            &&& !self.before_loading()
            &&& self.state is Some
            &&& s == (AppState { virgin_superblock_hash: s.virgin_superblock_hash, ..loaded })
            &&& self.mode == Mode::Recover ==> s.virgin_superblock_hash
                == loaded.virgin_superblock_hash
            &&& forall|i: int|
                0 <= i < h.len() ==> self.speaks_of(h, loaded, (#[trigger] h[i]).request)
        }
    }
}

proof fn lemma_still_speaks(
    v: HarvestView,
    w: HarvestView,
    h: Seq<Exchange>,
    last: Exchange,
    loaded: AppState,
    request: RequestView,
)
    requires
        v.speaks_of(h, loaded, request),
        w.mode == v.mode,
        w.kill == v.kill,
        w.yes == v.yes,
    ensures
        w.speaks_of(h.push(last), loaded, request),
{
    lemma_history_grows(h, last);
    if let RequestView::CopyBlocks { from, to, granularity, ranges } = request {
        let era = choose|since_era: u32| #[trigger]
            answered(
                h,
                RequestView::CollectBlocks { metadata_dev: loaded.ramdisk, since_era },
                ReplyView::Ranges { ranges },
            );
        assert(answered(
            h.push(last),
            RequestView::CollectBlocks { metadata_dev: loaded.ramdisk, since_era: era },
            ReplyView::Ranges { ranges },
        ));
    }
}

#[verifier::rlimit(80)]
proof fn lemma_keeps_to(v: HarvestView, h: Seq<Exchange>, loaded: AppState, reply: ReplyView)
    requires
        v.wf(),
        v.accepts(reply),
        v.facts(h),
        v.keeps_to(h, loaded),
    ensures
        v.after(reply).keeps_to(h.push(Exchange { request: v.request()->0, reply }), loaded),
{
    let x = Exchange { request: v.request()->0, reply };
    let g = h.push(x);
    let w = v.after(reply);
    let load = RequestView::LoadState;
    let found = ReplyView::Loaded { state: Some(loaded) };
    lemma_history_grows(h, x);
    if answered(g, load, found) {
        let k = choose|k: int|
            0 <= k < g.len() && #[trigger] g[k] == (Exchange { request: load, reply: found });
        if k < h.len() {
            assert(h[k] == g[k]);
            assert(answered(h, load, found));
        } else {
            assert(v.step is Load);
        }
        assert forall|i: int| 0 <= i < g.len() implies w.speaks_of(
            g,
            loaded,
            (#[trigger] g[i]).request,
        ) by {
            if i < h.len() {
                assert(g[i] == h[i]);
                if answered(h, load, found) {
                    assert(v.speaks_of(h, loaded, h[i].request));
                    lemma_still_speaks(v, w, h, x, loaded, h[i].request);
                }
            } else {
                assert(g[i] == x);
                if v.step is Copy {
                    assert(answered(
                        g,
                        RequestView::CollectBlocks {
                            metadata_dev: loaded.ramdisk,
                            since_era: v.state->0.base_era(),
                        },
                        ReplyView::Ranges { ranges: v.ranges },
                    ));
                    assert(exists|since_era: u32| #[trigger]
                        answered(
                            g,
                            RequestView::CollectBlocks { metadata_dev: loaded.ramdisk, since_era },
                            ReplyView::Ranges { ranges: v.ranges },
                        ));
                    assert(x.request matches RequestView::CopyBlocks {
                        from,
                        to,
                        granularity,
                        ranges,
                    } && ranges == v.ranges);
                    assert(v.ranges.len() > 0);
                    assert(w.speaks_of(g, loaded, x.request));
                }
            }
        }
    }
    if w.before_loading() {
        assert forall|i: int| 0 <= i < g.len() implies ((#[trigger] g[i]).request is User
            || g[i].request is Lock) by {
            if i < h.len() {
                assert(g[i] == h[i]);
            }
        }
    }
}

proof fn lemma_run_keeps_to(start: HarvestView, replies: Seq<ReplyView>, loaded: AppState)
    requires
        begins(start),
        start.can_run(replies),
    ensures
        start.run(replies).keeps_to(start.history(replies), loaded),
        start.run(replies).mode == start.mode,
        start.run(replies).kill == start.kill,
        start.run(replies).yes == start.yes,
    decreases replies.len(),
{
    if replies.len() > 0 {
        lemma_run_keeps_to(start, replies.drop_last(), loaded);
        lemma_harvest(start, replies.drop_last());
        let v = start.run(replies.drop_last());
        lemma_keeps_to(v, start.history(replies.drop_last()), loaded, replies.last());
    }
}

/// Whatever a run asks for concerns what the loaded state names. `recover` copies the
/// collected blocks from the virgin volume to the scratch volume, `promote` from the
/// scratch volume to the virgin one; the blocks are collected from the RAM disk, since the
/// era of the state; and what is saved is the loaded state, no longer mounted and without
/// an era, after `promote` with the hash that the virgin volume was found to have.
pub proof fn law_requests_follow_the_loaded_state(
    start: HarvestView,
    replies: Seq<ReplyView>,
    loaded: AppState,
    i: int,
)
    requires
        begins(start),
        start.can_run(replies),
        answered(
            start.history(replies),
            RequestView::LoadState,
            ReplyView::Loaded { state: Some(loaded) },
        ),
        0 <= i < start.history(replies).len(),
    ensures
        ({
            let h = start.history(replies);
            match h[i].request {
                RequestView::User => true,
                RequestView::Lock => true,
                RequestView::LoadState => true,
                RequestView::CheckTool { tool } => tool == Tool::Dmsetup || tool
                    == Tool::EraInvalidate,
                RequestView::DeviceExists { name } => name == loaded.dm_era_name,
                RequestView::Confirm { question, skip } => {
                    &&& start.mode == Mode::Promote
                    &&& question == Question::Promote
                    &&& skip == start.yes
                },
                RequestView::IsMounted { mount_point } => mount_point == loaded.mount_point,
                RequestView::Unmount { mount_point, kill } => {
                    &&& mount_point == loaded.mount_point
                    &&& kill == start.kill
                },
                RequestView::TakeSnapshot { name } => name == loaded.dm_era_name,
                RequestView::CollectBlocks { metadata_dev, since_era } => {
                    &&& metadata_dev == loaded.ramdisk
                    &&& since_era == (match loaded.current_era {
                        Some(era) => era as int % 0x1_0000_0000,
                        None => 0,
                    })
                },
                RequestView::DropSnapshot { name } => name == loaded.dm_era_name,
                RequestView::RemoveDevice { name } => name == loaded.dm_era_name,
                RequestView::CopyBlocks { from, to, granularity, ranges } => {
                    &&& start.mode == Mode::Recover ==> from == loaded.virgin && to == loaded.scratch
                    &&& start.mode == Mode::Promote ==> from == loaded.scratch && to == loaded.virgin
                    &&& granularity == loaded.granularity
                    &&& ranges.len() > 0
                    &&& exists|since_era: u32| #[trigger]
                        answered(
                            h,
                            RequestView::CollectBlocks { metadata_dev: loaded.ramdisk, since_era },
                            ReplyView::Ranges { ranges },
                        )
                },
                RequestView::HashVolume { path } => start.mode == Mode::Promote && path == loaded.virgin,
                RequestView::SaveState { state } => {
                    &&& state.virgin == loaded.virgin
                    &&& state.scratch == loaded.scratch
                    &&& state.ramdisk == loaded.ramdisk
                    &&& state.mount_point == loaded.mount_point
                    &&& state.fstype == loaded.fstype
                    &&& state.mount_options == loaded.mount_options
                    &&& state.granularity == loaded.granularity
                    &&& state.dm_era_name == loaded.dm_era_name
                    &&& !state.is_mounted
                    &&& state.current_era is None
                    &&& start.mode == Mode::Recover ==> state.virgin_superblock_hash
                        == loaded.virgin_superblock_hash
                    &&& start.mode == Mode::Promote ==> answered(
                        h,
                        RequestView::HashVolume { path: loaded.virgin },
                        ReplyView::Hash { hash: state.virgin_superblock_hash },
                    )
                },
                _ => false,
            }
        }),
{
    lemma_run_keeps_to(start, replies, loaded);
    let h = start.history(replies);
    assert(start.run(replies).speaks_of(h, loaded, h[i].request));
}

/// Nothing but the user, the lock and the state is asked for unless a state was loaded.
pub proof fn law_nothing_is_done_without_a_state(
    start: HarvestView,
    replies: Seq<ReplyView>,
    i: int,
)
    requires
        begins(start),
        start.can_run(replies),
        0 <= i < start.history(replies).len(),
    ensures
        ({
            let h = start.history(replies);
            ||| h[i].request is User
            ||| h[i].request is Lock
            ||| h[i].request is LoadState
            ||| exists|loaded: AppState| #[trigger]
                answered(h, RequestView::LoadState, ReplyView::Loaded { state: Some(loaded) })
                    && loaded.is_mounted
        }),
    decreases replies.len(),
{
    let h = start.history(replies);
    let before = replies.drop_last();
    let v = start.run(before);
    lemma_harvest(start, before);
    let x = Exchange { request: v.request()->0, reply: replies.last() };
    lemma_history_grows(start.history(before), x);
    if i < start.history(before).len() {
        law_nothing_is_done_without_a_state(start, before, i);
        assert(h[i] == start.history(before)[i]);
    } else {
        assert(h[i] == x);
    }
    if v.rank() >= 3 {
        assert(v.comes_from_loaded(start.history(before)));
    }
}

/// What follows each reply: which request comes next, or how the run ends. A run goes on
/// only where what it asked for was carried out and found as it must be, and every failure
/// ends it with what was reported; the snapshot is dropped before that where the blocks
/// could not be collected.
pub proof fn law_what_follows_a_reply(v: HarvestView, reply: ReplyView)
    requires
        v.wf(),
        v.accepts(reply),
        v.step is Hash ==> v.mode == Mode::Promote,
    ensures
        ({
            let w = v.after(reply);
            let next = w.request();
            let plain = |message: String| w.step == (HarvestStep::Failed {
                error: Error::Failed { message },
            });
            let wrapped = |context: Context, message: String| w.step == (HarvestStep::Failed {
                error: Error::Wrapped { context, message },
            });
            let ending = |n: Option<RequestView>| if v.mode == Mode::Promote {
                n matches Some(RequestView::HashVolume { path })
            } else {
                n matches Some(RequestView::SaveState { state })
            };
            &&& w.step is Failed ==> next is None
            &&& w.mode == v.mode && w.kill == v.kill && w.yes == v.yes
            &&& match (v.request()->0, reply) {
                (RequestView::User, ReplyView::User { euid }) => if euid == 0 {
                    next == Some(RequestView::Lock)
                } else {
                    w.step == (HarvestStep::Failed { error: Error::NotRoot })
                },
                (RequestView::User, ReplyView::Failed { message }) => plain(message),
                (RequestView::Lock, ReplyView::Failed { message }) => plain(message),
                (RequestView::Lock, _) => next == Some(RequestView::LoadState),
                (RequestView::LoadState, ReplyView::Failed { message }) => plain(message),
                (RequestView::LoadState, ReplyView::Loaded { state: None }) => w.step == (
                HarvestStep::Failed { error: Error::NotInitialized }),
                (RequestView::LoadState, ReplyView::Loaded { state: Some(loaded) }) => {
                    &&& w.state == Some(loaded)
                    &&& loaded.is_mounted ==> next == Some(
                        RequestView::CheckTool { tool: Tool::Dmsetup },
                    )
                    &&& !loaded.is_mounted && v.mode == Mode::Recover ==> w.step is NothingToDo
                        && next is None
                    &&& !loaded.is_mounted && v.mode == Mode::Promote ==> w.step == (
                    HarvestStep::Failed { error: Error::NotMounted })
                },
                (RequestView::CheckTool { tool }, ReplyView::Failed { message }) => plain(message),
                (RequestView::CheckTool { tool }, _) => if tool == Tool::Dmsetup {
                    next == Some(RequestView::CheckTool { tool: Tool::EraInvalidate })
                } else {
                    next matches Some(RequestView::DeviceExists { name })
                },
                (RequestView::DeviceExists { name }, ReplyView::Failed { message }) => plain(
                    message,
                ),
                (RequestView::DeviceExists { name }, ReplyView::Answer { yes }) => if !yes {
                    w.step == (HarvestStep::Failed {
                        error: if v.mode == Mode::Recover {
                            Error::DeviceMissingForRecover { name }
                        } else {
                            Error::DeviceMissingForPromote { name }
                        },
                    })
                } else if v.mode == Mode::Promote {
                    next matches Some(RequestView::Confirm { question, skip })
                } else {
                    next matches Some(RequestView::IsMounted { mount_point })
                },
                (RequestView::Confirm { question, skip }, ReplyView::Failed { message }) => plain(
                    message,
                ),
                (RequestView::Confirm { question, skip }, ReplyView::Answer { yes }) => if yes {
                    next matches Some(RequestView::IsMounted { mount_point })
                } else {
                    w.step == (HarvestStep::Failed { error: Error::Cancelled })
                },
                (RequestView::IsMounted { mount_point }, ReplyView::Failed { message }) => plain(
                    message,
                ),
                (RequestView::IsMounted { mount_point }, ReplyView::Answer { yes }) => if yes {
                    next == Some(RequestView::Unmount { mount_point, kill: v.kill })
                } else {
                    next matches Some(RequestView::TakeSnapshot { name })
                },
                (RequestView::Unmount { mount_point, kill }, ReplyView::Failed { message }) =>
                    wrapped(Context::Unmount, message),
                (RequestView::Unmount { mount_point, kill }, _) => next matches Some(
                    RequestView::TakeSnapshot { name },
                ),
                (RequestView::TakeSnapshot { name }, ReplyView::Failed { message }) => wrapped(
                    Context::TakeSnapshot,
                    message,
                ),
                (RequestView::TakeSnapshot { name }, _) => next matches Some(
                    RequestView::CollectBlocks { metadata_dev, since_era },
                ),
                (
                    RequestView::CollectBlocks { metadata_dev, since_era },
                    ReplyView::Ranges { ranges },
                ) => {
                    &&& w.ranges == ranges
                    &&& w.step is DropSnapshot
                    &&& next matches Some(RequestView::DropSnapshot { name })
                },
                (
                    RequestView::CollectBlocks { metadata_dev, since_era },
                    ReplyView::Failed { message },
                ) => {
                    &&& w.step == (HarvestStep::Abandon {
                        error: Error::Wrapped { context: Context::CollectBlocks, message },
                    })
                    &&& next matches Some(RequestView::DropSnapshot { name })
                },
                (RequestView::DropSnapshot { name }, reply) => match v.step {
                    HarvestStep::Abandon { error } => w.step == (HarvestStep::Failed { error }),
                    _ => match reply {
                        ReplyView::Failed { message } => wrapped(Context::DropSnapshot, message),
                        _ => next == Some(RequestView::RemoveDevice { name }),
                    },
                },
                (RequestView::RemoveDevice { name }, ReplyView::Failed { message }) => wrapped(
                    Context::RemoveDevice,
                    message,
                ),
                (RequestView::RemoveDevice { name }, _) => if v.ranges.len() == 0 {
                    ending(next)
                } else if blocks_fit(v.ranges, v.state->0.granularity) {
                    next matches Some(RequestView::CopyBlocks { from, to, granularity, ranges })
                        && ranges == v.ranges
                } else {
                    w.step == (HarvestStep::Failed { error: Error::RangesTooLarge })
                },
                (
                    RequestView::CopyBlocks { from, to, granularity, ranges },
                    ReplyView::Failed { message },
                ) => wrapped(Context::CopyBlocks, message),
                (RequestView::CopyBlocks { from, to, granularity, ranges }, _) => ending(next),
                (RequestView::HashVolume { path }, ReplyView::Failed { message }) => plain(message),
                (RequestView::HashVolume { path }, ReplyView::Hash { hash }) => next matches Some(
                    RequestView::SaveState { state },
                ) && state.virgin_superblock_hash == hash,
                (RequestView::SaveState { state }, ReplyView::Failed { message }) => plain(message),
                (RequestView::SaveState { state }, _) => w.step is Finished && next is None,
                _ => false,
            }
        }),
{
}

/// The report gives the number of the collected blocks and of their bytes, which is that
/// number times the granularity.
pub proof fn law_the_report_counts_the_blocks(v: HarvestView)
    ensures
        ({
            let blocks = block_count(v.ranges);
            let bytes = (blocks * v.state->0.granularity) as u64;
            &&& totals(v).0 == blocks && totals(v).1 == blocks * v.state->0.granularity
            &&& v.mode == Mode::Recover ==> report_lines(v) == seq![
                "Recovery complete."@,
                "  Blocks restored: "@ + decimal(blocks),
                "  Bytes copied:    "@ + bytes_words(bytes),
            ]
            &&& v.mode == Mode::Promote ==> report_lines(v) == seq![
                "Promote complete."@,
                "  Blocks promoted: "@ + decimal(blocks),
                "  Bytes copied:    "@ + bytes_words(bytes),
            ]
        }),
{
}

/// What a run is, as the laws speak of it: each part of it is itself.
pub proof fn law_runs_are_seen_as_they_are(run: Harvest)
    ensures
        run@.mode == run.mode,
        run@.kill == run.kill,
        run@.yes == run.yes,
        run@.step == run.step,
        run@.state == run.state,
        run@.ranges == run.ranges@,
{
}

} // verus!
