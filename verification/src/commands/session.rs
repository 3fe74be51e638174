//! What a command asks of the machine it runs on, and what it is told.

use vstd::prelude::*;
use vstd::string::*;
use crate::chunks::BlockRange;
use crate::state::AppState;
use crate::text::joined;

verus! {

/// A program that must be installed.
#[derive(Debug, Clone, Copy, PartialEq, Eq, Structural)]
pub enum Tool {
    Dmsetup,
    EraInvalidate,
    MkfsExt4,
}

/// A question that the user must confirm.
#[derive(Debug)]
pub enum Question {
    /// Whether the virgin volume is to be overwritten.
    Promote,
    /// Whether the scratch volume is to be overwritten.
    FullRecover,
    /// Whether both volumes are to be overwritten.
    InitNew,
    /// Whether an existing virgin volume is to be adopted.
    InitFrom,
    /// Whether the state of an initialized schelk is to be replaced.
    Reinitialize { virgin: String, scratch: String },
}

impl Question {
    /// The text of the question; `state_path` is where the state lies.
    pub open spec fn words(self, state_path: Seq<char>) -> Seq<char> {
        match self {
            Question::Promote => "Permanently overwrite virgin volume?"@,
            Question::FullRecover => "Proceed with full recovery?"@,
            Question::InitNew => "Proceed with initialization?"@,
            Question::InitFrom => "Proceed?"@,
            Question::Reinitialize { virgin, scratch } =>
                "schelk is already initialized:\n  Path: "@ + state_path + "\nVirgin:  "@ + virgin@
                + "\n  Scratch: "@ + scratch@ + "\nReinitialize?"@,
        }
    }

    /// The text of the question.
    pub fn text(&self, state_path: &str) -> (s: String)
        ensures
            s@ == self.words(state_path@),
    {
        match self {
            Question::Promote => "Permanently overwrite virgin volume?".to_owned(),
            Question::FullRecover => "Proceed with full recovery?".to_owned(),
            Question::InitNew => "Proceed with initialization?".to_owned(),
            Question::InitFrom => "Proceed?".to_owned(),
            Question::Reinitialize { virgin, scratch } => {
                let mut s = joined("schelk is already initialized:\n  Path: ", state_path);
                s.append("\nVirgin:  ");
                s.append(virgin.as_str());
                s.append("\n  Scratch: ");
                s.append(scratch.as_str());
                s.append("\nReinitialize?");
                s
            },
        }
    }
}

/// What a command asks for next.
#[derive(Debug)]
pub enum Request {
    /// The effective user.
    User,
    /// The lock that keeps other schelk processes out.
    Lock,
    /// The saved state.
    LoadState,
    /// That a program is installed.
    CheckTool { tool: Tool },
    /// What the paths of the devices resolve to.
    Resolve { virgin: String, scratch: String, ramdisk: String },
    /// Whether the dm-era device exists.
    DeviceExists { name: String },
    /// Confirmation by the user, given beforehand where `skip` is set.
    Confirm { question: Question, skip: bool },
    /// Whether something is mounted at the mount point.
    IsMounted { mount_point: String },
    /// To unmount, killing the processes that block it where `kill` is set.
    Unmount { mount_point: String, kill: bool },
    /// To take a snapshot of the metadata of dm-era.
    TakeSnapshot { name: String },
    /// The blocks written since an era.
    CollectBlocks { metadata_dev: String, since_era: u32 },
    /// To drop the snapshot.
    DropSnapshot { name: String },
    /// To remove the dm-era device.
    RemoveDevice { name: String },
    /// To copy the collected blocks.
    CopyBlocks { from: String, to: String, granularity: u64, ranges: Vec<BlockRange> },
    /// The hash of the superblock of a volume.
    HashVolume { path: String },
    /// To save the state.
    SaveState { state: AppState },
    /// The size of a device.
    DeviceSize { path: String },
    /// That a path is a block device that can be read.
    ValidateDevice { path: String },
    /// To reset the RAM disk to zeroes.
    ResetRamdisk { path: String },
    /// To create the dm-era device.
    CreateDevice {
        name: String,
        metadata_dev: String,
        origin_dev: String,
        origin_size: u64,
        granularity: u64,
    },
    /// To start the first era.
    Checkpoint { name: String },
    /// To mount the dm-era device.
    Mount { name: String, mount_point: String, fstype: String, options: Option<String> },
    /// To create a filesystem.
    MakeFilesystem { path: String },
    /// To copy a whole volume.
    FullCopy { from: String, to: String },
}

/// The same with a sequence in place of a vector.
pub ghost enum RequestView {
    User,
    Lock,
    LoadState,
    CheckTool { tool: Tool },
    Resolve { virgin: String, scratch: String, ramdisk: String },
    DeviceExists { name: String },
    Confirm { question: Question, skip: bool },
    IsMounted { mount_point: String },
    Unmount { mount_point: String, kill: bool },
    TakeSnapshot { name: String },
    CollectBlocks { metadata_dev: String, since_era: u32 },
    DropSnapshot { name: String },
    RemoveDevice { name: String },
    CopyBlocks { from: String, to: String, granularity: u64, ranges: Seq<BlockRange> },
    HashVolume { path: String },
    SaveState { state: AppState },
    DeviceSize { path: String },
    ValidateDevice { path: String },
    ResetRamdisk { path: String },
    CreateDevice {
        name: String,
        metadata_dev: String,
        origin_dev: String,
        origin_size: u64,
        granularity: u64,
    },
    Checkpoint { name: String },
    Mount { name: String, mount_point: String, fstype: String, options: Option<String> },
    MakeFilesystem { path: String },
    FullCopy { from: String, to: String },
}

impl View for Request {
    type V = RequestView;

    open spec fn view(&self) -> RequestView {
        match *self {
            Request::User => RequestView::User,
            Request::Lock => RequestView::Lock,
            Request::LoadState => RequestView::LoadState,
            Request::CheckTool { tool } => RequestView::CheckTool { tool },
            Request::Resolve { virgin, scratch, ramdisk } => RequestView::Resolve {
                virgin,
                scratch,
                ramdisk,
            },
            Request::DeviceExists { name } => RequestView::DeviceExists { name },
            Request::Confirm { question, skip } => RequestView::Confirm { question, skip },
            Request::IsMounted { mount_point } => RequestView::IsMounted { mount_point },
            Request::Unmount { mount_point, kill } => RequestView::Unmount { mount_point, kill },
            Request::TakeSnapshot { name } => RequestView::TakeSnapshot { name },
            Request::CollectBlocks { metadata_dev, since_era } => RequestView::CollectBlocks {
                metadata_dev,
                since_era,
            },
            Request::DropSnapshot { name } => RequestView::DropSnapshot { name },
            Request::RemoveDevice { name } => RequestView::RemoveDevice { name },
            Request::CopyBlocks { from, to, granularity, ranges } => RequestView::CopyBlocks {
                from,
                to,
                granularity,
                ranges: ranges@,
            },
            Request::HashVolume { path } => RequestView::HashVolume { path },
            Request::SaveState { state } => RequestView::SaveState { state },
            Request::DeviceSize { path } => RequestView::DeviceSize { path },
            Request::ValidateDevice { path } => RequestView::ValidateDevice { path },
            Request::ResetRamdisk { path } => RequestView::ResetRamdisk { path },
            Request::CreateDevice {
                name,
                metadata_dev,
                origin_dev,
                origin_size,
                granularity,
            } => RequestView::CreateDevice {
                name,
                metadata_dev,
                origin_dev,
                origin_size,
                granularity,
            },
            Request::Checkpoint { name } => RequestView::Checkpoint { name },
            Request::Mount { name, mount_point, fstype, options } => RequestView::Mount {
                name,
                mount_point,
                fstype,
                options,
            },
            Request::MakeFilesystem { path } => RequestView::MakeFilesystem { path },
            Request::FullCopy { from, to } => RequestView::FullCopy { from, to },
        }
    }
}

/// The view of a request, if there is one.
pub open spec fn request_view(request: Option<Request>) -> Option<RequestView> {
    match request {
        Some(request) => Some(request@),
        None => None,
    }
}

/// What a command is told.
#[derive(Debug)]
pub enum Reply {
    /// It was done.
    Done,
    /// The effective user.
    User { euid: u32 },
    /// Yes or no.
    Answer { yes: bool },
    /// A size.
    Number { n: u64 },
    /// A hash.
    Hash { hash: [u8; 32] },
    /// Ranges of blocks.
    Ranges { ranges: Vec<BlockRange> },
    /// The saved state, if there is one.
    Loaded { state: Option<AppState> },
    /// What the paths of the devices resolve to.
    Resolved { virgin: String, scratch: String, ramdisk: String },
    /// It failed, for this reason.
    Failed { message: String },
}

/// The same with a sequence in place of a vector.
pub ghost enum ReplyView {
    Done,
    User { euid: u32 },
    Answer { yes: bool },
    Number { n: u64 },
    Hash { hash: [u8; 32] },
    Ranges { ranges: Seq<BlockRange> },
    Loaded { state: Option<AppState> },
    Resolved { virgin: String, scratch: String, ramdisk: String },
    Failed { message: String },
}

impl View for Reply {
    type V = ReplyView;

    open spec fn view(&self) -> ReplyView {
        match *self {
            Reply::Done => ReplyView::Done,
            Reply::User { euid } => ReplyView::User { euid },
            Reply::Answer { yes } => ReplyView::Answer { yes },
            Reply::Number { n } => ReplyView::Number { n },
            Reply::Hash { hash } => ReplyView::Hash { hash },
            Reply::Ranges { ranges } => ReplyView::Ranges { ranges: ranges@ },
            Reply::Loaded { state } => ReplyView::Loaded { state },
            Reply::Resolved { virgin, scratch, ramdisk } => ReplyView::Resolved {
                virgin,
                scratch,
                ramdisk,
            },
            Reply::Failed { message } => ReplyView::Failed { message },
        }
    }
}

/// Whether a reply answers a request. Anything may fail, and what was confirmed beforehand
/// is not declined.
pub open spec fn fits(request: RequestView, reply: ReplyView) -> bool {
    ||| reply is Failed
    ||| match request {
        RequestView::User => reply is User,
        RequestView::LoadState => reply is Loaded,
        RequestView::Resolve { virgin, scratch, ramdisk } => reply is Resolved,
        RequestView::DeviceExists { name } => reply is Answer,
        RequestView::Confirm { question, skip } => reply matches ReplyView::Answer { yes } && (skip
            ==> yes),
        RequestView::IsMounted { mount_point } => reply is Answer,
        RequestView::CollectBlocks { metadata_dev, since_era } => reply is Ranges,
        RequestView::HashVolume { path } => reply is Hash,
        RequestView::DeviceSize { path } => reply is Number,
        _ => reply is Done,
    }
}

/// Tests whether a reply answers a request.
pub fn reply_fits(request: &Request, reply: &Reply) -> (yes: bool)
    ensures
        yes == fits(request@, reply@),
{
    match reply {
        Reply::Failed { message: _ } => {
            return true;
        },
        _ => {},
    }
    match request {
        Request::User => matches!(reply, Reply::User { .. }),
        Request::LoadState => matches!(reply, Reply::Loaded { .. }),
        Request::Resolve { .. } => matches!(reply, Reply::Resolved { .. }),
        Request::DeviceExists { .. } => matches!(reply, Reply::Answer { .. }),
        Request::Confirm { question: _, skip } => match reply {
            Reply::Answer { yes } => !*skip || *yes,
            _ => false,
        },
        Request::IsMounted { .. } => matches!(reply, Reply::Answer { .. }),
        Request::CollectBlocks { .. } => matches!(reply, Reply::Ranges { .. }),
        Request::HashVolume { .. } => matches!(reply, Reply::Hash { .. }),
        Request::DeviceSize { .. } => matches!(reply, Reply::Number { .. }),
        _ => matches!(reply, Reply::Done),
    }
}

/// The volume or device that a request overwrites, if it overwrites one.
pub open spec fn overwrites(request: RequestView) -> Option<String> {
    match request {
        RequestView::CopyBlocks { from, to, granularity, ranges } => Some(to),
        RequestView::FullCopy { from, to } => Some(to),
        RequestView::MakeFilesystem { path } => Some(path),
        RequestView::ResetRamdisk { path } => Some(path),
        _ => None,
    }
}

/// A request and its reply.
pub ghost struct Exchange {
    pub request: RequestView,
    pub reply: ReplyView,
}

/// Whether the request was made and got this reply.
pub open spec fn answered(history: Seq<Exchange>, request: RequestView, reply: ReplyView) -> bool {
    exists|i: int| 0 <= i < history.len() && #[trigger] history[i] == (Exchange { request, reply })
}

/// Whether the request was made and carried out.
pub open spec fn done(history: Seq<Exchange>, request: RequestView) -> bool {
    answered(history, request, ReplyView::Done)
}

/// Whether the request was made.
pub open spec fn asked(history: Seq<Exchange>, request: RequestView) -> bool {
    exists|i: int| 0 <= i < history.len() && (#[trigger] history[i]).request == request
}

/// The state that was saved last, if one was.
pub open spec fn last_saved(history: Seq<Exchange>) -> Option<AppState>
    decreases history.len(),
{
    if history.len() == 0 {
        None
    } else {
        match history.last() {
            Exchange { request: RequestView::SaveState { state }, reply: ReplyView::Done } => Some(
                state,
            ),
            _ => last_saved(history.drop_last()),
        }
    }
}

/// What was saved later replaces what was saved before.
pub proof fn lemma_last_saved_concat(a: Seq<Exchange>, b: Seq<Exchange>)
    ensures
        last_saved(a + b) == (match last_saved(b) {
            Some(state) => Some(state),
            None => last_saved(a),
        }),
    decreases b.len(),
{
    if b.len() == 0 {
        assert(a + b =~= a);
    } else {
        assert((a + b).drop_last() =~= a + b.drop_last());
        lemma_last_saved_concat(a, b.drop_last());
    }
}

/// What has happened stays so.
pub proof fn lemma_history_grows(history: Seq<Exchange>, last: Exchange)
    ensures
        answered(history.push(last), last.request, last.reply),
        asked(history.push(last), last.request),
        forall|request: RequestView, reply: ReplyView| #[trigger]
            answered(history, request, reply) ==> answered(history.push(last), request, reply),
        forall|request: RequestView| #[trigger]
            asked(history, request) ==> asked(history.push(last), request),
{
    let h = history.push(last);
    assert(h[history.len() as int] == last);
    assert forall|request: RequestView, reply: ReplyView| #[trigger]
        answered(history, request, reply) implies answered(h, request, reply) by {
        let i = choose|i: int|
            0 <= i < history.len() && #[trigger] history[i] == (Exchange { request, reply });
        assert(h[i] == history[i]);
    }
    assert forall|request: RequestView| #[trigger] asked(history, request) implies asked(h, request) by {
        let i = choose|i: int| 0 <= i < history.len() && (#[trigger] history[i]).request == request;
        assert(h[i] == history[i]);
    }
}

/// What each question asks.
pub proof fn law_what_the_questions_ask(question: Question, state_path: Seq<char>)
    ensures
        question.words(state_path) == (match question {
                    Question::Promote => "Permanently overwrite virgin volume?"@,
                    Question::FullRecover => "Proceed with full recovery?"@,
                    Question::InitNew => "Proceed with initialization?"@,
                    Question::InitFrom => "Proceed?"@,
                    Question::Reinitialize { virgin, scratch } =>
                        "schelk is already initialized:\n  Path: "@ + state_path + "\nVirgin:  "@ + virgin@
                        + "\n  Scratch: "@ + scratch@ + "\nReinitialize?"@,
                }),
{
}

/// Which requests overwrite something, and what: the target of a copy, the volume that gets a
/// filesystem, and the RAM disk that is reset; nothing else does.
pub proof fn law_what_is_overwritten(request: RequestView)
    ensures
        match request {
            RequestView::CopyBlocks { from, to, granularity, ranges } => overwrites(request)
                == Some(to),
            RequestView::FullCopy { from, to } => overwrites(request) == Some(to),
            RequestView::MakeFilesystem { path } => overwrites(request) == Some(path),
            RequestView::ResetRamdisk { path } => overwrites(request) == Some(path),
            _ => overwrites(request) is None,
        },
{
}

/// What a request is, as the laws speak of it: each part of it is itself.
pub proof fn law_requests_are_seen_as_they_are(request: Request)
    ensures
        match request {
            Request::User => request@ is User,
            Request::Lock => request@ is Lock,
            Request::LoadState => request@ is LoadState,
            Request::CheckTool { tool } => request@ == (RequestView::CheckTool {
                tool,
            }),
            Request::Resolve { virgin, scratch, ramdisk } => request@ == (RequestView::Resolve {
                virgin,
                scratch,
                ramdisk,
            }),
            Request::DeviceExists { name } => request@ == (RequestView::DeviceExists {
                name,
            }),
            Request::Confirm { question, skip } => request@ == (RequestView::Confirm {
                question,
                skip,
            }),
            Request::IsMounted { mount_point } => request@ == (RequestView::IsMounted {
                mount_point,
            }),
            Request::Unmount { mount_point, kill } => request@ == (RequestView::Unmount {
                mount_point,
                kill,
            }),
            Request::TakeSnapshot { name } => request@ == (RequestView::TakeSnapshot {
                name,
            }),
            Request::CollectBlocks { metadata_dev, since_era } => request@ == (RequestView::CollectBlocks {
                metadata_dev,
                since_era,
            }),
            Request::DropSnapshot { name } => request@ == (RequestView::DropSnapshot {
                name,
            }),
            Request::RemoveDevice { name } => request@ == (RequestView::RemoveDevice {
                name,
            }),
            Request::CopyBlocks { from, to, granularity, ranges } => request@ == (RequestView::CopyBlocks {
                from,
                to,
                granularity,
                ranges: ranges@,
            }),
            Request::HashVolume { path } => request@ == (RequestView::HashVolume {
                path,
            }),
            Request::SaveState { state } => request@ == (RequestView::SaveState {
                state,
            }),
            Request::DeviceSize { path } => request@ == (RequestView::DeviceSize {
                path,
            }),
            Request::ValidateDevice { path } => request@ == (RequestView::ValidateDevice {
                path,
            }),
            Request::ResetRamdisk { path } => request@ == (RequestView::ResetRamdisk {
                path,
            }),
            Request::CreateDevice { name, metadata_dev, origin_dev, origin_size, granularity } => request@ == (RequestView::CreateDevice {
                name,
                metadata_dev,
                origin_dev,
                origin_size,
                granularity,
            }),
            Request::Checkpoint { name } => request@ == (RequestView::Checkpoint {
                name,
            }),
            Request::Mount { name, mount_point, fstype, options } => request@ == (RequestView::Mount {
                name,
                mount_point,
                fstype,
                options,
            }),
            Request::MakeFilesystem { path } => request@ == (RequestView::MakeFilesystem {
                path,
            }),
            Request::FullCopy { from, to } => request@ == (RequestView::FullCopy {
                from,
                to,
            }),
        },
        request_view(Some(request)) == Some(request@),
        request_view(None) is None,
{
}

/// What a reply is, as the laws speak of it: each part of it is itself.
pub proof fn law_replies_are_seen_as_they_are(reply: Reply)
    ensures
        match reply {
            Reply::Done => reply@ is Done,
            Reply::User { euid } => reply@ == (ReplyView::User { euid }),
            Reply::Answer { yes } => reply@ == (ReplyView::Answer { yes }),
            Reply::Number { n } => reply@ == (ReplyView::Number { n }),
            Reply::Hash { hash } => reply@ == (ReplyView::Hash { hash }),
            Reply::Ranges { ranges } => reply@ == (ReplyView::Ranges { ranges: ranges@ }),
            Reply::Loaded { state } => reply@ == (ReplyView::Loaded { state }),
            Reply::Resolved { virgin, scratch, ramdisk } => reply@ == (ReplyView::Resolved { virgin, scratch, ramdisk }),
            Reply::Failed { message } => reply@ == (ReplyView::Failed { message }),
        },
{
}

/// Which replies answer which requests: a failure answers each of them, a question that was
/// confirmed beforehand is not declined, what asks for something is told it, and everything
/// else is told that it was done.
pub proof fn law_which_replies_answer(request: RequestView, reply: ReplyView)
    ensures
        reply is Failed ==> fits(request, reply),
        reply !is Failed ==> (fits(request, reply) <==> match request {
            RequestView::User => reply is User,
            RequestView::LoadState => reply is Loaded,
            RequestView::Resolve { virgin, scratch, ramdisk } => reply is Resolved,
            RequestView::DeviceExists { name } => reply is Answer,
            RequestView::IsMounted { mount_point } => reply is Answer,
            RequestView::Confirm { question, skip } => reply == (ReplyView::Answer { yes: true })
                || (!skip && reply == (ReplyView::Answer { yes: false })),
            RequestView::CollectBlocks { metadata_dev, since_era } => reply is Ranges,
            RequestView::HashVolume { path } => reply is Hash,
            RequestView::DeviceSize { path } => reply is Number,
            _ => reply is Done,
        }),
{
}

} // verus!
