//! The command `restore`: recovers the scratch volume and mounts it again, under one
//! lock.

use vstd::prelude::*;
use vstd::string::*;
use crate::commands::harvest::{
    Harvest, HarvestStep, HarvestView, Mode, law_finished_runs_are_complete,
    law_only_finished_runs_are_saved,
};
use crate::commands::mount::{MountRun, MountStep, law_only_finished_mounts_are_saved};
use crate::commands::session::{
    Exchange, Reply, ReplyView, Request, RequestView, Tool, answered, fits, last_saved,
    lemma_last_saved_concat, request_view,
};
use crate::error::Error;
use crate::state::AppState;
use crate::text::texts;

verus! {

/// A run of `restore`.
#[derive(Debug)]
pub enum Restore {
    Root { kill: bool },
    Lock { kill: bool },
    Recovering { recovery: Harvest },
    Mounting { mounting: MountRun },
    Finished,
    Failed { error: RestoreError },
}

/// Why the command failed.
#[derive(Debug)]
pub enum RestoreError {
    /// Before it began.
    Start { error: Error },
    /// While recovering.
    Recovery { error: Error },
    /// After the recovery, while mounting.
    Mount { error: Error },
}

impl RestoreError {
    /// The texts of the error, what was being done before what happened.
    pub open spec fn chain(self) -> Seq<Seq<char>> {
        match self {
            RestoreError::Start { error } => error.chain(),
            RestoreError::Recovery { error } => seq!["Restore failed during recovery"@]
                + error.chain(),
            RestoreError::Mount { error } => seq![
                "Restore recovered the scratch volume but failed to mount it"@,
            ] + error.chain(),
        }
    }

    /// The texts of the error, what was being done before what happened.
    pub fn messages(&self) -> (list: Vec<String>)
        ensures
            texts(list@) == self.chain(),
    {
        let mut list: Vec<String> = Vec::new();
        let mut rest = match self {
            RestoreError::Start { error } => error.messages(),
            RestoreError::Recovery { error } => {
                list.push("Restore failed during recovery".to_owned());
                error.messages()
            },
            RestoreError::Mount { error } => {
                list.push("Restore recovered the scratch volume but failed to mount it".to_owned());
                error.messages()
            },
        };
        let ghost head = list@;
        let ghost tail = rest@;
        list.append(&mut rest);
        assert(list@ =~= head + tail);
        assert(texts(list@) =~= self.chain());
        list
    }
}

/// The same with the view of the recovery.
pub ghost enum RestoreView {
    Root { kill: bool },
    Lock { kill: bool },
    Recovering { recovery: HarvestView },
    Mounting { mounting: MountRun },
    Finished,
    Failed { error: RestoreError },
}

impl View for Restore {
    type V = RestoreView;

    open spec fn view(&self) -> RestoreView {
        match *self {
            Restore::Root { kill } => RestoreView::Root { kill },
            Restore::Lock { kill } => RestoreView::Lock { kill },
            Restore::Recovering { recovery: run } => RestoreView::Recovering { recovery: run@ },
            Restore::Mounting { mounting: run } => RestoreView::Mounting { mounting: run },
            Restore::Finished => RestoreView::Finished,
            Restore::Failed { error } => RestoreView::Failed { error },
        }
    }
}

impl RestoreView {
    /// What holds of a run at every moment: its parts are in order, and neither of them
    /// has ended.
    pub open spec fn wf(self) -> bool {
        match self {
            RestoreView::Recovering { recovery: run } => run.wf() && run.mode == Mode::Recover
                && run.request() is Some,
            RestoreView::Mounting { mounting: run } => run.wf() && run.next_request() is Some,
            _ => true,
        }
    }

    /// What the run asks for next; nothing where it has ended.
    pub open spec fn request(self) -> Option<RequestView> {
        match self {
            RestoreView::Root { kill } => Some(RequestView::User),
            RestoreView::Lock { kill } => Some(RequestView::Lock),
            RestoreView::Recovering { recovery: run } => run.request(),
            RestoreView::Mounting { mounting: run } => run.next_request(),
            RestoreView::Finished => None,
            RestoreView::Failed { error } => None,
        }
    }

    /// Whether the reply answers what was asked for.
    pub open spec fn accepts(self, reply: ReplyView) -> bool {
        self.request() matches Some(request) && fits(request, reply)
    }

    /// The run after the recovery has taken a step: once it has succeeded, mounting
    /// begins.
    pub open spec fn recovering(run: HarvestView) -> RestoreView {
        match run.step {
            HarvestStep::Failed { error } => RestoreView::Failed {
                error: RestoreError::Recovery { error },
            },
            HarvestStep::NothingToDo => RestoreView::Mounting { mounting: mounting_start() },
            HarvestStep::Finished => RestoreView::Mounting { mounting: mounting_start() },
            _ => RestoreView::Recovering { recovery: run },
        }
    }

    /// The run after the mounting has taken a step.
    pub open spec fn mounting(run: MountRun) -> RestoreView {
        match run.step {
            MountStep::Failed { error } => RestoreView::Failed {
                error: RestoreError::Mount { error },
            },
            MountStep::Finished => RestoreView::Finished,
            _ => RestoreView::Mounting { mounting: run },
        }
    }

    /// The run after the reply.
    pub open spec fn after(self, reply: ReplyView) -> RestoreView {
        match self {
            RestoreView::Root { kill } => match reply {
                ReplyView::User { euid } => if euid == 0 {
                    RestoreView::Lock { kill }
                } else {
                    RestoreView::Failed { error: RestoreError::Start { error: Error::NotRoot } }
                },
                ReplyView::Failed { message } => RestoreView::Failed {
                    error: RestoreError::Start { error: Error::Failed { message } },
                },
                _ => self,
            },
            RestoreView::Lock { kill } => match reply {
                ReplyView::Failed { message } => RestoreView::Failed {
                    error: RestoreError::Start { error: Error::Failed { message } },
                },
                _ => RestoreView::Recovering {
                    recovery: HarvestView::start(Mode::Recover, kill, false, HarvestStep::Load),
                },
            },
            RestoreView::Recovering { recovery: run } => RestoreView::recovering(run.after(reply)),
            RestoreView::Mounting { mounting: run } => RestoreView::mounting(run.after(reply)),
            _ => self,
        }
    }
}

/// A run of `mount` that has not begun, by one who is root and holds the lock.
pub open spec fn mounting_start() -> MountRun {
    MountRun { step: MountStep::Load, state: None, scratch_size: 0 }
}

impl Restore {
    /// A run of `restore`.
    pub fn new(kill: bool) -> (run: Restore)
        ensures
            run@ == (RestoreView::Root { kill }),
            run@.wf(),
    {
        Restore::Root { kill }
    }

    /// What the run asks for next; nothing where it has ended.
    pub fn request(&self) -> (request: Option<Request>)
        requires
            self@.wf(),
        ensures
            request_view(request) == self@.request(),
    {
        match self {
            Restore::Root { kill: _ } => Some(Request::User),
            Restore::Lock { kill: _ } => Some(Request::Lock),
            Restore::Recovering { recovery: run } => run.request(),
            Restore::Mounting { mounting: run } => run.request(),
            Restore::Finished => None,
            Restore::Failed { error: _ } => None,
        }
    }

    fn recovering(run: Harvest) -> (next: Restore)
        requires
            run@.wf(),
            run@.mode == Mode::Recover,
        ensures
            next@ == RestoreView::recovering(run@),
            next@.wf(),
    {
        match run.step {
            HarvestStep::Failed { error } => Restore::Failed {
                error: RestoreError::Recovery { error },
            },
            HarvestStep::NothingToDo => Restore::Mounting { mounting: MountRun::locked() },
            HarvestStep::Finished => Restore::Mounting { mounting: MountRun::locked() },
            step => Restore::Recovering {
                recovery: Harvest {
                    mode: run.mode,
                    kill: run.kill,
                    yes: run.yes,
                    step,
                    state: run.state,
                    ranges: run.ranges,
                },
            },
        }
    }

    fn mounting(run: MountRun) -> (next: Restore)
        requires
            run.wf(),
        ensures
            next@ == RestoreView::mounting(run),
            next@.wf(),
    {
        match run.step {
            MountStep::Failed { error } => Restore::Failed { error: RestoreError::Mount { error } },
            MountStep::Finished => Restore::Finished,
            step => Restore::Mounting {
                mounting: MountRun { step, state: run.state, scratch_size: run.scratch_size },
            },
        }
    }

    /// Takes the reply to what was asked for.
    pub fn advance(self, reply: Reply) -> (next: Restore)
        requires
            self@.wf(),
            self@.accepts(reply@),
        ensures
            next@ == self@.after(reply@),
            next@.wf(),
    {
        match self {
            Restore::Root { kill } => match reply {
                Reply::User { euid } => if euid == 0 {
                    Restore::Lock { kill }
                } else {
                    Restore::Failed { error: RestoreError::Start { error: Error::NotRoot } }
                },
                Reply::Failed { message } => Restore::Failed {
                    error: RestoreError::Start { error: Error::Failed { message } },
                },
                _ => Restore::Root { kill },
            },
            Restore::Lock { kill } => match reply {
                Reply::Failed { message } => Restore::Failed {
                    error: RestoreError::Start { error: Error::Failed { message } },
                },
                _ => Restore::Recovering { recovery: Harvest::recover_locked(kill) },
            },
            Restore::Recovering { recovery: run } => Restore::recovering(run.advance(reply)),
            Restore::Mounting { mounting: run } => Restore::mounting(run.advance(reply)),
            Restore::Finished => Restore::Finished,
            Restore::Failed { error } => Restore::Failed { error },
        }
    }
}

// ---------------------------------------------------------------------------
// What every run keeps to
// ---------------------------------------------------------------------------

impl RestoreView {
    /// The run after some replies.
    pub open spec fn run(self, replies: Seq<ReplyView>) -> RestoreView
        decreases replies.len(),
    {
        if replies.len() == 0 {
            self
        } else {
            self.run(replies.drop_last()).after(replies.last())
        }
    }

    /// Whether each reply answers what was asked for when it came.
    pub open spec fn can_run(self, replies: Seq<ReplyView>) -> bool
        decreases replies.len(),
    {
        replies.len() > 0 ==> {
            &&& self.can_run(replies.drop_last())
            &&& self.run(replies.drop_last()).accepts(replies.last())
        }
    }

    /// What was asked for and replied.
    pub open spec fn history(self, replies: Seq<ReplyView>) -> Seq<Exchange>
        decreases replies.len(),
    {
        if replies.len() == 0 {
            Seq::empty()
        } else {
            self.history(replies.drop_last()).push(
                Exchange {
                    request: self.run(replies.drop_last()).request()->0,
                    reply: replies.last(),
                },
            )
        }
    }
}

/// A run of `recover` that has not begun, by one who is root and holds the lock.
pub open spec fn recovery_start(kill: bool) -> HarvestView {
    HarvestView::start(Mode::Recover, kill, false, HarvestStep::Load)
}

/// How the command begins: the user is root, and the lock is taken.
pub open spec fn opening() -> Seq<Exchange> {
    seq![
        Exchange { request: RequestView::User, reply: ReplyView::User { euid: 0 } },
        Exchange { request: RequestView::Lock, reply: ReplyView::Done },
    ]
}

/// Whether the command has done what `recover` does on the replies after the first two.
pub open spec fn is_recovery(kill: bool, replies: Seq<ReplyView>) -> bool {
    let start = recovery_start(kill);
    let to_recovery = replies.skip(2);
    &&& replies.len() >= 2
    &&& start.can_run(to_recovery)
    &&& (RestoreView::Root { kill }).history(replies) == opening() + start.history(to_recovery)
}

/// Whether the command has done what `recover` does on the replies after the first two
/// and before number `n`, with success, and then what `mount` does on the others.
pub open spec fn is_recovery_and_mount(kill: bool, replies: Seq<ReplyView>, n: int) -> bool {
    let start = recovery_start(kill);
    let to_recovery = replies.subrange(2, n);
    let to_mount = replies.skip(n);
    let recovered = start.run(to_recovery);
    &&& 2 <= n <= replies.len()
    &&& start.can_run(to_recovery)
    &&& recovered.step is Finished || recovered.step is NothingToDo
    &&& mounting_start().can_run(to_mount)
    &&& (RestoreView::Root { kill }).history(replies) == opening() + start.history(to_recovery)
        + mounting_start().history(to_mount)
}

/// What a run has done so far; `n` is where mounting began.
spec fn shape(kill: bool, replies: Seq<ReplyView>, n: int) -> bool {
    let start = RestoreView::Root { kill };
    let recovered = recovery_start(kill).run(replies.skip(2));
    let mounted = mounting_start().run(replies.skip(n));
    match start.run(replies) {
        RestoreView::Root { kill: k } => k == kill && replies.len() == 0,
        RestoreView::Lock { kill: k } => k == kill && replies.len() == 1 && start.history(replies)
            == opening().take(1),
        RestoreView::Recovering { recovery } => is_recovery(kill, replies) && recovery == recovered,
        RestoreView::Mounting { mounting } => is_recovery_and_mount(kill, replies, n) && mounting
            == mounted,
        RestoreView::Finished => is_recovery_and_mount(kill, replies, n) && mounted.step
            is Finished,
        RestoreView::Failed { error: RestoreError::Start { error } } => 0 < replies.len() <= 2,
        RestoreView::Failed { error: RestoreError::Recovery { error } } => is_recovery(
            kill,
            replies,
        ) && recovered.step == (HarvestStep::Failed { error }),
        RestoreView::Failed { error: RestoreError::Mount { error } } => is_recovery_and_mount(
            kill,
            replies,
            n,
        ) && mounted.step == (MountStep::Failed { error }),
    }
}

proof fn lemma_recovery_step(kill: bool, replies: Seq<ReplyView>)
    requires
        replies.len() > 2,
        is_recovery(kill, replies.drop_last()),
        (RestoreView::Root { kill }).run(replies.drop_last()) == (RestoreView::Recovering {
            recovery: recovery_start(kill).run(replies.drop_last().skip(2)),
        }),
        (RestoreView::Root { kill }).can_run(replies),
    ensures
        is_recovery(kill, replies),
        recovery_start(kill).run(replies.skip(2)) == recovery_start(kill).run(
            replies.drop_last().skip(2),
        ).after(replies.last()),
{
    let start = recovery_start(kill);
    let a = replies.skip(2);
    assert(a.drop_last() =~= replies.drop_last().skip(2));
    assert(a.last() == replies.last());
    assert((RestoreView::Root { kill }).history(replies) =~= opening() + start.history(a));
}

proof fn lemma_mount_step(kill: bool, replies: Seq<ReplyView>, n: int)
    requires
        replies.len() > n,
        is_recovery_and_mount(kill, replies.drop_last(), n),
        (RestoreView::Root { kill }).run(replies.drop_last()) == (RestoreView::Mounting {
            mounting: mounting_start().run(replies.drop_last().skip(n)),
        }),
        (RestoreView::Root { kill }).can_run(replies),
    ensures
        is_recovery_and_mount(kill, replies, n),
        mounting_start().run(replies.skip(n)) == mounting_start().run(
            replies.drop_last().skip(n),
        ).after(replies.last()),
{
    let b = replies.skip(n);
    assert(b.drop_last() =~= replies.drop_last().skip(n));
    assert(b.last() == replies.last());
    assert(replies.subrange(2, n) =~= replies.drop_last().subrange(2, n));
    assert((RestoreView::Root { kill }).history(replies) =~= opening() + recovery_start(
        kill,
    ).history(replies.subrange(2, n)) + mounting_start().history(b));
}

proof fn lemma_restore(kill: bool, replies: Seq<ReplyView>) -> (n: int)
    requires
        (RestoreView::Root { kill }).can_run(replies),
    ensures
        shape(kill, replies, n),
    decreases replies.len(),
{
    let start = RestoreView::Root { kill };
    if replies.len() == 0 {
        0
    } else {
        let earlier = replies.drop_last();
        let n = lemma_restore(kill, earlier);
        let h = start.history(earlier);
        let g = start.history(replies);
        match start.run(earlier) {
            RestoreView::Root { kill: k } => {
                assert(h =~= Seq::empty());
                if start.run(replies) is Lock {
                    assert(g =~= opening().take(1));
                }
                n
            },
            RestoreView::Lock { kill: k } => {
                if start.run(replies) is Recovering {
                    assert(replies.skip(2) =~= Seq::<ReplyView>::empty());
                    assert(g =~= opening() + recovery_start(kill).history(replies.skip(2)));
                }
                n
            },
            RestoreView::Recovering { recovery } => {
                lemma_recovery_step(kill, replies);
                let m = replies.len() as int;
                assert(replies.subrange(2, m) =~= replies.skip(2));
                assert(replies.skip(m) =~= Seq::<ReplyView>::empty());
                assert(g =~= opening() + recovery_start(kill).history(replies.subrange(2, m))
                    + mounting_start().history(replies.skip(m)));
                m
            },
            RestoreView::Mounting { mounting } => {
                lemma_mount_step(kill, replies, n);
                n
            },
            _ => n,
        }
    }
}

/// A restore that has finished was a recovery that succeeded or had nothing to do,
/// followed by a mount that has finished, under one lock: what was asked for and replied
/// is what these two ask for, one after the other. The state saved last is the mounted
/// one. The result is how many replies came before mounting began.
pub proof fn law_restore_is_recover_then_mount(kill: bool, replies: Seq<ReplyView>) -> (n: int)
    requires
        (RestoreView::Root { kill }).can_run(replies),
        (RestoreView::Root { kill }).run(replies) is Finished,
    ensures
        is_recovery_and_mount(kill, replies, n),
        ({
            let h = (RestoreView::Root { kill }).history(replies);
            let recovered = recovery_start(kill).run(replies.subrange(2, n));
            let recovery = recovery_start(kill).history(replies.subrange(2, n));
            let mounted = mounting_start().run(replies.skip(n));
            &&& recovered.step is Finished ==> recovered.torn_down(recovery) && recovered.copied(
                recovery,
            )
            &&& mounted.step is Finished
            &&& last_saved(h) == Some(mounted.state->0.mounted())
        }),
{
    let n = lemma_restore(kill, replies);
    let a = replies.subrange(2, n);
    let recovery = recovery_start(kill).history(a);
    if recovery_start(kill).run(a).step is Finished {
        law_finished_runs_are_complete(recovery_start(kill), a);
    }
    law_only_finished_mounts_are_saved(mounting_start(), replies.skip(n));
    lemma_last_saved_concat(opening() + recovery, mounting_start().history(replies.skip(n)));
    n
}

/// A restore whose recovery succeeded but whose mount failed leaves a recovered volume:
/// every collected block was copied and the state saved last is the unmounted one; where
/// there was nothing to recover, no state was saved and the one that was loaded is not
/// mounted. The result is how many replies came before mounting began.
pub proof fn law_failed_mount_leaves_it_recovered(kill: bool, replies: Seq<ReplyView>) -> (n: int)
    requires
        (RestoreView::Root { kill }).can_run(replies),
        (RestoreView::Root { kill }).run(replies) matches RestoreView::Failed { error }
            && error is Mount,
    ensures
        is_recovery_and_mount(kill, replies, n),
        ({
            let h = (RestoreView::Root { kill }).history(replies);
            let recovered = recovery_start(kill).run(replies.subrange(2, n));
            let recovery = recovery_start(kill).history(replies.subrange(2, n));
            &&& recovered.step is Finished ==> {
                &&& recovered.torn_down(recovery)
                &&& recovered.copied(recovery)
                &&& last_saved(h) == Some(recovered.state->0.unmounted())
            }
            &&& recovered.step is NothingToDo ==> {
                &&& last_saved(h) is None
                &&& recovered.state is Some
                &&& !recovered.state->0.is_mounted
                &&& answered(
                    recovery,
                    RequestView::LoadState,
                    ReplyView::Loaded { state: recovered.state },
                )
            }
        }),
{
    let n = lemma_restore(kill, replies);
    let a = replies.subrange(2, n);
    let recovery = recovery_start(kill).history(a);
    if recovery_start(kill).run(a).step is Finished {
        law_finished_runs_are_complete(recovery_start(kill), a);
    }
    law_only_finished_runs_are_saved(recovery_start(kill), a);
    law_only_finished_mounts_are_saved(mounting_start(), replies.skip(n));
    lemma_opening_saves_nothing();
    lemma_last_saved_concat(opening(), recovery);
    lemma_last_saved_concat(opening() + recovery, mounting_start().history(replies.skip(n)));
    n
}

/// A restore whose recovery failed has done nothing else, and has saved no state.
pub proof fn law_failed_recovery_ends_restore(kill: bool, replies: Seq<ReplyView>)
    requires
        (RestoreView::Root { kill }).can_run(replies),
        (RestoreView::Root { kill }).run(replies) matches RestoreView::Failed { error }
            && error is Recovery,
    ensures
        is_recovery(kill, replies),
        recovery_start(kill).run(replies.skip(2)).step is Failed,
        last_saved((RestoreView::Root { kill }).history(replies)) is None,
{
    let n = lemma_restore(kill, replies);
    let a = replies.skip(2);
    law_only_finished_runs_are_saved(recovery_start(kill), a);
    lemma_opening_saves_nothing();
    lemma_last_saved_concat(opening(), recovery_start(kill).history(a));
}

proof fn lemma_opening_saves_nothing()
    ensures
        last_saved(opening()) is None,
{
    reveal_with_fuel(last_saved, 3);
}

/// Mounting begins only when the recovery has succeeded, or had nothing to do; a
/// recovery that fails ends the command.
pub proof fn law_restore_mounts_after_recovery(v: RestoreView, reply: ReplyView)
    requires
        v.wf(),
        v.accepts(reply),
        !(v is Mounting),
        v.after(reply) is Mounting,
    ensures
        v matches RestoreView::Recovering { recovery: run } && (run.after(reply).step is Finished
            || run.after(reply).step is NothingToDo) && v.after(reply) == (RestoreView::Mounting {
            mounting: mounting_start(),
        }),
{
}

/// A restore that has finished has mounted the volume and saved the state as mounted.
pub proof fn law_restore_ends_mounted(v: RestoreView, reply: ReplyView)
    requires
        v.wf(),
        v.accepts(reply),
        v.after(reply) is Finished,
    ensures
        v matches RestoreView::Mounting { mounting: run } && run.step is Save && reply is Done
            && v.request() == Some(RequestView::SaveState { state: run.state->0.mounted() }),
{
}

proof fn lemma_history_len(start: RestoreView, replies: Seq<ReplyView>)
    ensures
        start.history(replies).len() == replies.len(),
    decreases replies.len(),
{
    if replies.len() > 0 {
        lemma_history_len(start, replies.drop_last());
    }
}

/// Whether the request concerns what the state names: it copies the changed blocks from
/// virgin to scratch, unmounts and mounts at the mount point, tracks scratch on the RAM disk,
/// and saves nothing but whether it is mounted and since which era.
pub open spec fn concerns(request: RequestView, loaded: AppState, kill: bool) -> bool {
    match request {
        RequestView::CheckTool { tool } => tool == Tool::Dmsetup || tool == Tool::EraInvalidate,
        RequestView::DeviceExists { name } => name == loaded.dm_era_name,
        RequestView::IsMounted { mount_point } => mount_point == loaded.mount_point,
        RequestView::Unmount { mount_point, kill: may_kill } => mount_point == loaded.mount_point
            && may_kill == kill,
        RequestView::TakeSnapshot { name } => name == loaded.dm_era_name,
        RequestView::CollectBlocks { metadata_dev, since_era } => metadata_dev == loaded.ramdisk,
        RequestView::DropSnapshot { name } => name == loaded.dm_era_name,
        RequestView::RemoveDevice { name } => name == loaded.dm_era_name,
        RequestView::CopyBlocks { from, to, granularity, ranges } => {
            &&& from == loaded.virgin
            &&& to == loaded.scratch
            &&& granularity == loaded.granularity
        },
        RequestView::DeviceSize { path } => path == loaded.scratch || path == loaded.ramdisk,
        RequestView::HashVolume { path } => path == loaded.virgin || path == loaded.scratch,
        RequestView::ResetRamdisk { path } => path == loaded.ramdisk,
        RequestView::CreateDevice { name, metadata_dev, origin_dev, origin_size, granularity } => {
            &&& name == loaded.dm_era_name
            &&& metadata_dev == loaded.ramdisk
            &&& origin_dev == loaded.scratch
            &&& granularity == loaded.granularity
        },
        RequestView::Checkpoint { name } => name == loaded.dm_era_name,
        RequestView::Mount { name, mount_point, fstype, options } => {
            &&& name == loaded.dm_era_name
            &&& mount_point == loaded.mount_point
            &&& fstype == loaded.fstype
            &&& options == loaded.mount_options
        },
        RequestView::SaveState { state } => {
            &&& state.virgin == loaded.virgin
            &&& state.scratch == loaded.scratch
            &&& state.ramdisk == loaded.ramdisk
            &&& state.mount_point == loaded.mount_point
            &&& state.fstype == loaded.fstype
            &&& state.mount_options == loaded.mount_options
            &&& state.granularity == loaded.granularity
            &&& state.virgin_superblock_hash == loaded.virgin_superblock_hash
            &&& state.dm_era_name == loaded.dm_era_name
            &&& state.is_mounted != loaded.is_mounted
            &&& state.current_era == if state.is_mounted {
                Some(1u64)
            } else {
                None
            }
        },
        _ => false,
    }
}

/// After the user, the lock and the loading of the state, whatever `restore` asks for
/// concerns what a state names that was loaded: the mounted one while it recovers, and the
/// unmounted one while it mounts.
pub proof fn law_requests_follow_the_loaded_states(kill: bool, replies: Seq<ReplyView>, i: int)
    requires
        (RestoreView::Root { kill }).can_run(replies),
        0 <= i < (RestoreView::Root { kill }).history(replies).len(),
    ensures
        ({
            let h = (RestoreView::Root { kill }).history(replies);
            let request = h[i].request;
            ||| i == 0 && request is User
            ||| i == 1 && request is Lock
            ||| i >= 2 && request is LoadState
            ||| i >= 2 && exists|loaded: AppState| #[trigger]
                answered(h, RequestView::LoadState, ReplyView::Loaded { state: Some(loaded) })
                    && concerns(request, loaded, kill)
        }),
{
    let start = RestoreView::Root { kill };
    let h = start.history(replies);
    let n = lemma_restore(kill, replies);
    lemma_history_len(start, replies);
    match start.run(replies) {
        RestoreView::Root { kill: k } => {},
        RestoreView::Lock { kill: k } => {},
        RestoreView::Recovering { recovery } => {
            lemma_recovery_part(kill, replies, replies.skip(2), Seq::empty(), i);
        },
        RestoreView::Mounting { mounting } => {
            lemma_parts(kill, replies, n, i);
        },
        RestoreView::Finished => {
            lemma_parts(kill, replies, n, i);
        },
        RestoreView::Failed { error: RestoreError::Start { error } } => {
            lemma_failed_start(kill, replies, i);
        },
        RestoreView::Failed { error: RestoreError::Recovery { error } } => {
            lemma_recovery_part(kill, replies, replies.skip(2), Seq::empty(), i);
        },
        RestoreView::Failed { error: RestoreError::Mount { error } } => {
            lemma_parts(kill, replies, n, i);
        },
    }
}

proof fn lemma_failed_start(kill: bool, replies: Seq<ReplyView>, i: int)
    requires
        (RestoreView::Root { kill }).can_run(replies),
        0 < replies.len() <= 2,
        0 <= i < (RestoreView::Root { kill }).history(replies).len(),
    ensures
        ({
            let request = (RestoreView::Root { kill }).history(replies)[i].request;
            ||| i == 0 && request is User
            ||| i == 1 && request is Lock
        }),
{
    let start = RestoreView::Root { kill };
    let before = replies.drop_last();
    lemma_history_len(start, replies);
    lemma_history_len(start, before);
    let n = lemma_restore(kill, before);
    if before.len() == 1 {
        assert(before.drop_last().len() == 0);
        assert(start.run(before.drop_last()) == start);
    }
}

proof fn lemma_recovery_part(
    kill: bool,
    replies: Seq<ReplyView>,
    to_recovery: Seq<ReplyView>,
    rest: Seq<Exchange>,
    i: int,
)
    requires
        recovery_start(kill).can_run(to_recovery),
        (RestoreView::Root { kill }).history(replies) == opening() + recovery_start(kill).history(
            to_recovery,
        ) + rest,
        0 <= i < 2 + recovery_start(kill).history(to_recovery).len(),
    ensures
        ({
            let h = (RestoreView::Root { kill }).history(replies);
            let request = h[i].request;
            ||| i == 0 && request is User
            ||| i == 1 && request is Lock
            ||| i >= 2 && request is LoadState
            ||| i >= 2 && exists|loaded: AppState| #[trigger]
                answered(h, RequestView::LoadState, ReplyView::Loaded { state: Some(loaded) })
                    && concerns(request, loaded, kill)
        }),
{
    let h = (RestoreView::Root { kill }).history(replies);
    let part = recovery_start(kill).history(to_recovery);
    let load = RequestView::LoadState;
    if i >= 2 {
        assert(h[i] == part[i - 2]);
        crate::commands::harvest::law_nothing_is_done_without_a_state(
            recovery_start(kill),
            to_recovery,
            i - 2,
        );
        lemma_recovery_asks_no_user(kill, to_recovery, i - 2);
        if h[i].request !is LoadState {
            let loaded = choose|loaded: AppState| #[trigger]
                answered(part, load, ReplyView::Loaded { state: Some(loaded) })
                    && loaded.is_mounted;
            crate::commands::harvest::law_requests_follow_the_loaded_state(
                recovery_start(kill),
                to_recovery,
                loaded,
                i - 2,
            );
            let found = Exchange { request: load, reply: ReplyView::Loaded { state: Some(loaded) } };
            let k = choose|k: int| 0 <= k < part.len() && #[trigger] part[k] == found;
            assert(h[k + 2] == found);
            assert(answered(h, load, ReplyView::Loaded { state: Some(loaded) }));
            assert(concerns(h[i].request, loaded, kill));
        }
    }
}

proof fn lemma_recovery_asks_no_user(kill: bool, replies: Seq<ReplyView>, i: int)
    requires
        recovery_start(kill).can_run(replies),
        0 <= i < recovery_start(kill).history(replies).len(),
    ensures
        recovery_start(kill).history(replies)[i].request !is User,
        recovery_start(kill).history(replies)[i].request !is Lock,
        !(recovery_start(kill).run(replies).step is Root),
        !(recovery_start(kill).run(replies).step is Lock),
    decreases replies.len(),
{
    let before = replies.drop_last();
    let h = recovery_start(kill).history(before);
    if before.len() > 0 {
        lemma_recovery_len(kill, before);
        lemma_recovery_asks_no_user(
            kill,
            before,
            if i < h.len() {
                i
            } else {
                0
            },
        );
    }
}

proof fn lemma_recovery_len(kill: bool, replies: Seq<ReplyView>)
    ensures
        recovery_start(kill).history(replies).len() == replies.len(),
    decreases replies.len(),
{
    if replies.len() > 0 {
        lemma_recovery_len(kill, replies.drop_last());
    }
}

proof fn lemma_mount_len(replies: Seq<ReplyView>)
    ensures
        mounting_start().history(replies).len() == replies.len(),
    decreases replies.len(),
{
    if replies.len() > 0 {
        lemma_mount_len(replies.drop_last());
    }
}

proof fn lemma_mount_asks_no_user(replies: Seq<ReplyView>, i: int)
    requires
        mounting_start().can_run(replies),
        0 <= i < mounting_start().history(replies).len(),
    ensures
        mounting_start().history(replies)[i].request !is User,
        mounting_start().history(replies)[i].request !is Lock,
        !(mounting_start().run(replies).step is Root),
        !(mounting_start().run(replies).step is Lock),
    decreases replies.len(),
{
    let before = replies.drop_last();
    let h = mounting_start().history(before);
    if before.len() > 0 {
        lemma_mount_len(before);
        lemma_mount_asks_no_user(
            before,
            if i < h.len() {
                i
            } else {
                0
            },
        );
    }
}

proof fn lemma_parts(kill: bool, replies: Seq<ReplyView>, n: int, i: int)
    requires
        is_recovery_and_mount(kill, replies, n),
        0 <= i < (RestoreView::Root { kill }).history(replies).len(),
    ensures
        ({
            let h = (RestoreView::Root { kill }).history(replies);
            let request = h[i].request;
            ||| i == 0 && request is User
            ||| i == 1 && request is Lock
            ||| i >= 2 && request is LoadState
            ||| i >= 2 && exists|loaded: AppState| #[trigger]
                answered(h, RequestView::LoadState, ReplyView::Loaded { state: Some(loaded) })
                    && concerns(request, loaded, kill)
        }),
{
    let h = (RestoreView::Root { kill }).history(replies);
    let to_mount = replies.skip(n);
    let recovery = recovery_start(kill).history(replies.subrange(2, n));
    let part = mounting_start().history(to_mount);
    let load = RequestView::LoadState;
    let at = 2 + recovery.len() as int;
    if i < at {
        lemma_recovery_part(kill, replies, replies.subrange(2, n), part, i);
    } else {
        assert(h[i] == part[i - at]);
        crate::commands::mount::law_nothing_is_done_without_a_state(
            mounting_start(),
            to_mount,
            i - at,
        );
        lemma_mount_asks_no_user(to_mount, i - at);
        if h[i].request !is LoadState {
            let loaded = choose|loaded: AppState| #[trigger]
                answered(part, load, ReplyView::Loaded { state: Some(loaded) })
                    && !loaded.is_mounted;
            crate::commands::mount::law_requests_follow_the_loaded_state(
                mounting_start(),
                to_mount,
                loaded,
                i - at,
            );
            let found = Exchange { request: load, reply: ReplyView::Loaded { state: Some(loaded) } };
            let k = choose|k: int| 0 <= k < part.len() && #[trigger] part[k] == found;
            assert(h[k + at] == found);
            assert(answered(h, load, ReplyView::Loaded { state: Some(loaded) }));
            assert(concerns(h[i].request, loaded, kill));
        }
    }
}

/// What follows each reply while the command begins: the user must be root, and the lock
/// must be had; then the state is loaded. What the two parts ask for is asked for as they
/// do, and once the recovery has succeeded or had nothing to do, the state is loaded anew.
pub proof fn law_what_follows_a_reply(v: RestoreView, reply: ReplyView)
    requires
        v.wf(),
        v.accepts(reply),
    ensures
        ({
            let w = v.after(reply);
            let next = w.request();
            let stopped = |error: Error| w == (RestoreView::Failed {
                error: RestoreError::Start { error },
            });
            &&& w is Failed ==> next is None
            &&& match v {
                RestoreView::Root { kill } => match reply {
                    ReplyView::User { euid } => if euid == 0 {
                        next == Some(RequestView::Lock)
                    } else {
                        stopped(Error::NotRoot)
                    },
                    ReplyView::Failed { message } => stopped(Error::Failed { message }),
                    _ => false,
                },
                RestoreView::Lock { kill } => match reply {
                    ReplyView::Failed { message } => stopped(Error::Failed { message }),
                    _ => next == Some(RequestView::LoadState),
                },
                RestoreView::Recovering { recovery } => match recovery.after(reply).step {
                    HarvestStep::Failed { error } => w == (RestoreView::Failed {
                        error: RestoreError::Recovery { error },
                    }),
                    HarvestStep::NothingToDo => next == Some(RequestView::LoadState),
                    HarvestStep::Finished => next == Some(RequestView::LoadState),
                    _ => next == recovery.after(reply).request(),
                },
                RestoreView::Mounting { mounting } => match mounting.after(reply).step {
                    MountStep::Failed { error } => w == (RestoreView::Failed {
                        error: RestoreError::Mount { error },
                    }),
                    MountStep::Finished => w is Finished && next is None,
                    _ => next == mounting.after(reply).next_request(),
                },
                _ => false,
            }
        }),
{
}

/// What went wrong is told after the part of the command that it came in.
pub proof fn law_errors_name_the_part(error: Error)
    ensures
        (RestoreError::Start { error }).chain() == error.chain(),
        (RestoreError::Recovery { error }).chain() == seq!["Restore failed during recovery"@]
            + error.chain(),
        (RestoreError::Mount { error }).chain() == seq![
            "Restore recovered the scratch volume but failed to mount it"@,
        ] + error.chain(),
{
}

/// What a run is, as the laws speak of it: each part of it is itself.
pub proof fn law_runs_are_seen_as_they_are(run: Restore)
    ensures
        match run {
            Restore::Root { kill } => run@ == (RestoreView::Root { kill }),
            Restore::Lock { kill } => run@ == (RestoreView::Lock { kill }),
            Restore::Recovering { recovery } => run@ == (RestoreView::Recovering {
                recovery: recovery@,
            }),
            Restore::Mounting { mounting } => run@ == (RestoreView::Mounting { mounting }),
            Restore::Finished => run@ is Finished,
            Restore::Failed { error } => run@ == (RestoreView::Failed { error }),
        },
{
}

} // verus!
