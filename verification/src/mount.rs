//! Mounting and unmounting, and what keeps a filesystem busy.

use vstd::prelude::*;
use vstd::string::*;
use crate::cmd::{Invocation, Output, args_of};
use crate::text::{
    code_text, code_words, contains, decimal, decimal_text, fields, fields_of, is_under, joined,
    lies_under, lines, lines_of, occurs, parse_u32, replace_char, replaced,
    is_word, lacks, law_fields_are_the_words, law_lines_end_in_line_feeds, same_text, stands_at,
    texts, trim, trimmed, unsigned_up_to,
};

verus! {

/// The arguments that mount `device`.
pub open spec fn mount_args(
    device: Seq<char>,
    mountpoint: Seq<char>,
    fstype: Seq<char>,
    options: Option<Seq<char>>,
) -> Seq<Seq<char>> {
    match options {
        Some(o) => seq!["-t"@, fstype, device, "-o"@, o, mountpoint],
        None => seq!["-t"@, fstype, device, mountpoint],
    }
}

/// Mounts a device.
pub fn mount(device: &str, mountpoint: &str, fstype: &str, options: Option<&str>) -> (command:
    Invocation)
    ensures
        command.runs(
            "mount"@,
            mount_args(
                device@,
                mountpoint@,
                fstype@,
                match options {
                    Some(o) => Some(o@),
                    None => None,
                },
            ),
        ),
{
    let args = match options {
        Some(o) => {
            let args = args_of(&["-t", fstype, device, "-o", o, mountpoint]);
            assert(texts(args@) =~= seq!["-t"@, fstype@, device@, "-o"@, o@, mountpoint@]);
            args
        },
        None => {
            let args = args_of(&["-t", fstype, device, mountpoint]);
            assert(texts(args@) =~= seq!["-t"@, fstype@, device@, mountpoint@]);
            args
        },
    };
    Invocation { program: "mount".to_owned(), args }
}

/// The text for a mount that failed.
pub fn mount_failed(device: &str, mountpoint: &str) -> (s: String)
    ensures
        s@ == "Failed to mount "@ + device@ + " at "@ + mountpoint@,
{
    let mut s = joined("Failed to mount ", device);
    s.append(" at ");
    s.append(mountpoint);
    s
}

/// Unmounts what is mounted at a mount point.
pub fn umount(mountpoint: &str) -> (command: Invocation)
    ensures
        command.runs("umount"@, seq![mountpoint@]),
{
    let args = args_of(&[mountpoint]);
    assert(texts(args@) =~= seq![mountpoint@]);
    Invocation { program: "umount".to_owned(), args }
}

/// How to go on after an attempt to unmount.
#[derive(Debug)]
pub enum UnmountStep {
    /// The filesystem is unmounted.
    Done,
    /// It is busy: kill the processes that use it and try once more.
    KillAndRetry,
    /// It is busy: say which processes use it.
    ReportBusy,
    /// It could not be unmounted.
    Fail { message: String },
}

/// Whether an attempt to unmount failed because the filesystem is in use.
pub open spec fn reports_busy(stderr: Seq<char>) -> bool {
    occurs(trimmed(stderr), "busy"@)
}

/// The text for a failure to unmount that has another reason.
pub open spec fn unmount_words(
    mountpoint: Seq<char>,
    stderr: Seq<char>,
    code: Option<i32>,
) -> Seq<char> {
    if trimmed(stderr).len() == 0 {
        "Failed to unmount "@ + mountpoint + ": exit code "@ + code_words(code)
    } else {
        "Failed to unmount "@ + mountpoint + ": "@ + trimmed(stderr)
    }
}

/// Decides how to go on after an attempt to unmount; `kill` is whether the processes
/// that block it may be killed, which they may only once.
pub fn unmount(mountpoint: &str, output: &Output, kill: bool) -> (step: UnmountStep)
    ensures
        match step {
            UnmountStep::Done => output.success,
            UnmountStep::KillAndRetry => !output.success && reports_busy(output.stderr@) && kill,
            UnmountStep::ReportBusy => !output.success && reports_busy(output.stderr@) && !kill,
            UnmountStep::Fail { message } => !output.success && !reports_busy(output.stderr@)
                && message@ == unmount_words(mountpoint@, output.stderr@, output.code),
        },
{
    if output.success {
        return UnmountStep::Done;
    }
    let stderr = trim(output.stderr.as_str());
    if contains(stderr.as_str(), "busy") {
        return if kill {
            UnmountStep::KillAndRetry
        } else {
            UnmountStep::ReportBusy
        };
    }
    let mut message = joined("Failed to unmount ", mountpoint);
    if stderr.as_str().is_empty() {
        message.append(": exit code ");
        message.append(code_text(output.code).as_str());
    } else {
        message.append(": ");
        message.append(stderr.as_str());
    }
    UnmountStep::Fail { message }
}

/// Attempts to unmount a filesystem: the processes that block it are killed at most
/// once.
#[derive(Debug)]
pub struct Unmounting {
    pub may_kill: bool,
}

impl Unmounting {
    /// Nothing was attempted yet; `kill` is whether processes may be killed.
    pub fn new(kill: bool) -> (attempts: Unmounting)
        ensures
            attempts.may_kill == kill,
    {
        Unmounting { may_kill: kill }
    }

    /// Decides how to go on after an attempt.
    pub fn attempt(&mut self, mountpoint: &str, output: &Output) -> (step: UnmountStep)
        ensures
            match step {
                UnmountStep::Done => output.success,
                UnmountStep::KillAndRetry => !output.success && reports_busy(output.stderr@)
                    && old(self).may_kill,
                UnmountStep::ReportBusy => !output.success && reports_busy(output.stderr@)
                    && !old(self).may_kill,
                UnmountStep::Fail { message } => !output.success && !reports_busy(output.stderr@)
                    && message@ == unmount_words(mountpoint@, output.stderr@, output.code),
            },
            final(self).may_kill == (old(self).may_kill && !(step is KillAndRetry)),
    {
        let step = unmount(mountpoint, output, self.may_kill);
        if matches!(step, UnmountStep::KillAndRetry) {
            self.may_kill = false;
        }
        step
    }
}

// ---------------------------------------------------------------------------
// Processes
// ---------------------------------------------------------------------------

/// What /proc says of a process; a link or file that cannot be read is missing.
#[derive(Debug)]
pub struct ProcEntry {
    pub name: String,
    pub cwd: Option<String>,
    pub root: Option<String>,
    pub fds: Vec<String>,
    pub cmdline: Option<String>,
}

/// A process that uses a filesystem.
#[derive(Debug)]
pub struct Blocker {
    pub pid: u32,
    pub cmdline: String,
}

/// Whether a link leads into the filesystem.
pub open spec fn link_under(link: Option<String>, mountpoint: Seq<char>) -> bool {
    link matches Some(target) && lies_under(target@, mountpoint)
}

/// Whether a process uses the filesystem: its working directory, its root or one
/// of its open files lies there.
pub open spec fn uses(entry: ProcEntry, mountpoint: Seq<char>) -> bool {
    ||| link_under(entry.cwd, mountpoint)
    ||| link_under(entry.root, mountpoint)
    ||| exists|i: int|
        0 <= i < entry.fds@.len() && lies_under((#[trigger] entry.fds@[i])@, mountpoint)
}

/// The number of the process, if the entry is one.
pub open spec fn entry_pid(entry: ProcEntry) -> Option<nat> {
    unsigned_up_to(entry.name@, u32::MAX as nat)
}

/// The command line of a process as it is shown: its arguments with spaces between
/// them.
pub open spec fn shown_cmdline(entry: ProcEntry) -> Seq<char> {
    match entry.cmdline {
        Some(text) => trimmed(replaced(text@, '\0', ' ')),
        None => trimmed(replaced(""@, '\0', ' ')),
    }
}

/// The processes among the first `n` entries that use the filesystem, in order.
pub open spec fn blockers(entries: Seq<ProcEntry>, mountpoint: Seq<char>, n: nat) -> Seq<
    (nat, Seq<char>),
>
    decreases n,
{
    if n == 0 {
        Seq::empty()
    } else {
        let entry = entries[n - 1];
        let rest = blockers(entries, mountpoint, (n - 1) as nat);
        match entry_pid(entry) {
            Some(pid) if uses(entry, mountpoint) => rest.push((pid, shown_cmdline(entry))),
            _ => rest,
        }
    }
}

/// The processes with numbers and texts in place of integers and strings.
pub open spec fn blocker_views(list: Seq<Blocker>) -> Seq<(nat, Seq<char>)> {
    list.map_values(|b: Blocker| (b.pid as nat, b.cmdline@))
}

fn link_is_under(link: &Option<String>, mountpoint: &str) -> (yes: bool)
    ensures
        yes == link_under(*link, mountpoint@),
{
    match link {
        Some(target) => is_under(target.as_str(), mountpoint),
        None => false,
    }
}

fn process_uses(entry: &ProcEntry, mountpoint: &str) -> (yes: bool)
    ensures
        yes == uses(*entry, mountpoint@),
{
    if link_is_under(&entry.cwd, mountpoint) || link_is_under(&entry.root, mountpoint) {
        return true;
    }
    let mut i: usize = 0;
    while i < entry.fds.len()
        invariant
            i <= entry.fds@.len(),
            forall|j: int| 0 <= j < i ==> !lies_under((#[trigger] entry.fds@[j])@, mountpoint@),
        decreases entry.fds@.len() - i,
    {
        if is_under(entry.fds[i].as_str(), mountpoint) {
            return true;
        }
        i = i + 1;
    }
    false
}

/// The processes that use the filesystem, in the order of the entries.
pub fn find_processes_using(entries: &Vec<ProcEntry>, mountpoint: &str) -> (list: Vec<Blocker>)
    ensures
        blocker_views(list@) == blockers(entries@, mountpoint@, entries@.len()),
{
    let mut list: Vec<Blocker> = Vec::new();
    let mut i: usize = 0;
    assert(blocker_views(list@) =~= Seq::empty());
    while i < entries.len()
        invariant
            i <= entries@.len(),
            blocker_views(list@) == blockers(entries@, mountpoint@, i as nat),
        decreases entries@.len() - i,
    {
        let entry = &entries[i];
        match parse_u32(entry.name.as_str()) {
            Some(pid) => {
                if process_uses(entry, mountpoint) {
                    let raw = match &entry.cmdline {
                        Some(text) => replace_char(text.as_str(), '\0', ' '),
                        None => replace_char("", '\0', ' '),
                    };
                    let blocker = Blocker { pid, cmdline: trim(raw.as_str()) };
                    assert(blocker_views(list@.push(blocker)) =~= blocker_views(list@).push(
                        (pid as nat, blocker.cmdline@),
                    ));
                    list.push(blocker);
                }
            },
            None => {},
        }
        i = i + 1;
    }
    list
}

/// How Rust shows a string: in quotes, with escapes.
pub uninterp spec fn quoted(text: Seq<char>) -> Seq<char>;

/// `format!` with `{:?}` on a string: the string in quotes, with escapes.
#[verifier::external_body]
fn quote(text: &str) -> (s: String)
    ensures
        s@ == quoted(text@),
{
    format!("{:?}", text)
}

/// One line of the report for each process, given how its command line is shown.
pub open spec fn blocker_lines(pids: Seq<nat>, shown: Seq<Seq<char>>, n: nat) -> Seq<char>
    decreases n,
{
    if n == 0 {
        Seq::empty()
    } else {
        blocker_lines(pids, shown, (n - 1) as nat) + ("  PID="@ + decimal(pids[n - 1]) + " "@
            + shown[n - 1] + "\n"@)
    }
}

/// The report on a filesystem that is busy, given how the command lines are shown.
pub open spec fn busy_words(mountpoint: Seq<char>, pids: Seq<nat>, shown: Seq<Seq<char>>) -> Seq<
    char,
> {
    let head = "Failed to unmount "@ + mountpoint + ": target is busy\n"@;
    if pids.len() == 0 {
        head + "  (could not identify blocking processes)"@
    } else {
        head + "Processes still using the mount:\n"@ + blocker_lines(pids, shown, pids.len())
    }
}

/// Reports which processes keep a filesystem busy, given how their command lines
/// are shown.
pub fn busy_report(mountpoint: &str, pids: &Vec<u32>, shown: &Vec<String>) -> (s: String)
    requires
        pids@.len() == shown@.len(),
    ensures
        s@ == busy_words(mountpoint@, pids@.map_values(|p: u32| p as nat), texts(shown@)),
{
    let ghost numbers = pids@.map_values(|p: u32| p as nat);
    let ghost words = texts(shown@);
    let mut s = joined("Failed to unmount ", mountpoint);
    s.append(": target is busy\n");
    if pids.len() == 0 {
        s.append("  (could not identify blocking processes)");
        return s;
    }
    s.append("Processes still using the mount:\n");
    let ghost head = s@;
    assert(head + blocker_lines(numbers, words, 0) =~= head);
    let mut i: usize = 0;
    while i < pids.len()
        invariant
            pids@.len() == shown@.len(),
            numbers == pids@.map_values(|p: u32| p as nat),
            words == texts(shown@),
            i <= pids@.len(),
            s@ == head + blocker_lines(numbers, words, i as nat),
        decreases pids@.len() - i,
    {
        let ghost before = blocker_lines(numbers, words, i as nat);
        let mut line = joined("  PID=", decimal_text(pids[i] as u64).as_str());
        line.append(" ");
        line.append(shown[i].as_str());
        line.append("\n");
        s.append(line.as_str());
        assert(head + before + line@ =~= head + (before + line@));
        i = i + 1;
    }
    s
}

/// Reports which processes keep a filesystem busy.
pub fn busy_message(mountpoint: &str, procs: &Vec<Blocker>) -> (s: String)
    ensures
        s@ == busy_words(
            mountpoint@,
            procs@.map_values(|b: Blocker| b.pid as nat),
            procs@.map_values(|b: Blocker| quoted(b.cmdline@)),
        ),
{
    let mut pids: Vec<u32> = Vec::new();
    let mut shown: Vec<String> = Vec::new();
    let mut i: usize = 0;
    while i < procs.len()
        invariant
            i <= procs@.len(),
            pids@.len() == i,
            shown@.len() == i,
            forall|k: int| 0 <= k < i ==> pids@[k] == procs@[k].pid,
            forall|k: int| 0 <= k < i ==> (#[trigger] shown@[k])@ == quoted(procs@[k].cmdline@),
        decreases procs@.len() - i,
    {
        pids.push(procs[i].pid);
        shown.push(quote(procs[i].cmdline.as_str()));
        i = i + 1;
    }
    assert(pids@.map_values(|p: u32| p as nat) =~= procs@.map_values(|b: Blocker| b.pid as nat));
    assert(texts(shown@) =~= procs@.map_values(|b: Blocker| quoted(b.cmdline@)));
    busy_report(mountpoint, &pids, &shown)
}

// ---------------------------------------------------------------------------
// Mounts
// ---------------------------------------------------------------------------

/// Whether a line of /proc/mounts is about this mountpoint: its second field is it.
pub open spec fn line_mounts(line: Seq<char>, mountpoint: Seq<char>) -> bool {
    fields(line).len() >= 2 && fields(line)[1] == mountpoint
}

/// Whether something is mounted there, according to the contents of /proc/mounts.
pub open spec fn mounted_in(mounts: Seq<char>, mountpoint: Seq<char>) -> bool {
    exists|i: int| 0 <= i < lines(mounts).len() && line_mounts(#[trigger] lines(mounts)[i], mountpoint)
}

/// Whether something is mounted at a path, according to the contents of
/// /proc/mounts.
pub fn is_mounted(mounts: &str, mountpoint: &str) -> (yes: bool)
    ensures
        yes == mounted_in(mounts@, mountpoint@),
{
    let list = lines_of(mounts);
    let ghost all = lines(mounts@);
    assert(all.len() == list@.len());
    let mut i: usize = 0;
    while i < list.len()
        invariant
            texts(list@) == all,
            all == lines(mounts@),
            all.len() == list@.len(),
            i <= list@.len(),
            forall|j: int| 0 <= j < i ==> !line_mounts(#[trigger] all[j], mountpoint@),
        decreases list@.len() - i,
    {
        let parts = fields_of(list[i].as_str());
        assert(all[i as int] == list@[i as int]@);
        assert(texts(parts@).len() == parts@.len());
        if parts.len() >= 2 {
            assert(fields(all[i as int])[1] == parts@[1]@);
            if same_text(parts[1].as_str(), mountpoint) {
                assert(line_mounts(all[i as int], mountpoint@));
                return true;
            }
        }
        i = i + 1;
    }
    false
}

/// Something is mounted at a path exactly where one of the lines names it as its second
/// field, whatever stands in the others.
pub proof fn law_mounts_are_found_line_by_line(
    device: Seq<char>,
    target: Seq<char>,
    tail: Seq<char>,
    rest: Seq<char>,
    mountpoint: Seq<char>,
)
    requires
        is_word(device),
        is_word(target),
        lacks(tail, '\n'),
        lacks(tail, '\r'),
    ensures
        !mounted_in(Seq::empty(), mountpoint),
        mounted_in(
            device + seq![' '] + target + seq![' '] + tail + seq!['\n'] + rest,
            mountpoint,
        ) <==> target == mountpoint || mounted_in(rest, mountpoint),
{
    let line = device + seq![' '] + target + seq![' '] + tail;
    let text = line + seq!['\n'] + rest;
    assert forall|i: int| 0 <= i < line.len() implies #[trigger] line[i] != '\n' && line[i]
        != '\r' by {
        let a = device.len() as int;
        let b = a + 1 + target.len() as int;
        if i < a {
            assert(line[i] == device[i]);
        } else if a < i < b {
            assert(line[i] == target[i - a - 1]);
        } else if i > b {
            assert(line[i] == tail[i - b - 1]);
        }
    }
    assert(lacks(line, '\n'));
    assert(line.last() == line[line.len() - 1]);
    law_lines_end_in_line_feeds(line, rest);
    let all = lines(text);
    assert(all == seq![line] + lines(rest));
    law_fields_are_the_words(target, ' ', tail);
    let behind = target + seq![' '] + tail;
    law_fields_are_the_words(device, ' ', behind);
    assert(line =~= device + seq![' '] + behind);
    let parts = fields(line);
    assert(parts =~= seq![device, target] + fields(tail));
    assert(line_mounts(line, mountpoint) <==> target == mountpoint);
    if mounted_in(text, mountpoint) {
        let i = choose|i: int| 0 <= i < all.len() && line_mounts(#[trigger] all[i], mountpoint);
        if i > 0 {
            assert(all[i] == lines(rest)[i - 1]);
        }
    }
    if target == mountpoint {
        assert(all[0] == line);
        assert(line_mounts(all[0], mountpoint));
    }
    if mounted_in(rest, mountpoint) {
        let i = choose|i: int|
            0 <= i < lines(rest).len() && line_mounts(#[trigger] lines(rest)[i], mountpoint);
        assert(all[i + 1] == lines(rest)[i]);
    }
    assert(lines(Seq::empty()).len() == 0);
}

/// Each entry that is a process, by its number, and whose working directory, root or one of
/// whose open files lies under the mountpoint is listed, with its arguments separated by
/// spaces; no other is, and the order stays.
pub proof fn law_processes_are_listed_one_by_one(
    entries: Seq<ProcEntry>,
    mountpoint: Seq<char>,
    n: nat,
)
    requires
        n < entries.len(),
    ensures
        blockers(entries, mountpoint, 0) == Seq::<(nat, Seq<char>)>::empty(),
        ({
            let e = entries[n as int];
            let in_use = {
                ||| e.cwd matches Some(dir) && lies_under(dir@, mountpoint)
                ||| e.root matches Some(dir) && lies_under(dir@, mountpoint)
                ||| exists|i: int|
                    0 <= i < e.fds@.len() && lies_under((#[trigger] e.fds@[i])@, mountpoint)
            };
            let text = match e.cmdline {
                Some(text) => text@,
                None => ""@,
            };
            let list = blockers(entries, mountpoint, n);
            let longer = blockers(entries, mountpoint, n + 1);
            match unsigned_up_to(e.name@, 0xffff_ffff) {
                Some(pid) => if in_use {
                    longer == list.push((pid, trimmed(replaced(text, '\0', ' '))))
                } else {
                    longer == list
                },
                None => longer == list,
            }
        }),
{
}

proof fn lemma_blocker_lines_prefix(
    pids: Seq<nat>,
    shown: Seq<Seq<char>>,
    pid: nat,
    text: Seq<char>,
    n: nat,
)
    requires
        n <= pids.len(),
        pids.len() == shown.len(),
    ensures
        blocker_lines(pids.push(pid), shown.push(text), n) == blocker_lines(pids, shown, n),
    decreases n,
{
    if n > 0 {
        lemma_blocker_lines_prefix(pids, shown, pid, text, (n - 1) as nat);
    }
}

/// The report on a busy filesystem has a line for each process, with its number and its
/// command line, and says so where no process was found.
pub proof fn law_each_process_has_its_line(
    mountpoint: Seq<char>,
    pids: Seq<nat>,
    shown: Seq<Seq<char>>,
    pid: nat,
    text: Seq<char>,
)
    requires
        pids.len() == shown.len(),
    ensures
        ({
            let head = "Failed to unmount "@ + mountpoint + ": target is busy\n"@;
            let line = "  PID="@ + decimal(pid) + " "@ + text + "\n"@;
            let more = busy_words(mountpoint, pids.push(pid), shown.push(text));
            &&& busy_words(mountpoint, Seq::empty(), Seq::empty()) == head
                + "  (could not identify blocking processes)"@
            &&& pids.len() == 0 ==> more == head + "Processes still using the mount:\n"@ + line
            &&& pids.len() > 0 ==> more == busy_words(mountpoint, pids, shown) + line
        }),
{
    let head = "Failed to unmount "@ + mountpoint + ": target is busy\n"@;
    let start = head + "Processes still using the mount:\n"@;
    let line = "  PID="@ + decimal(pid) + " "@ + text + "\n"@;
    let n = pids.len();
    lemma_blocker_lines_prefix(pids, shown, pid, text, n);
    let before = blocker_lines(pids, shown, n);
    assert(blocker_lines(pids.push(pid), shown.push(text), n + 1) == before + line);
    assert(start + (before + line) =~= start + before + line);
    if n == 0 {
        assert(start + before =~= start);
    }
}

/// A failure to unmount is one of a busy filesystem exactly where its message holds the word
/// `busy` somewhere; any other is reported with that message, or with the exit code where
/// there is none.
pub proof fn law_how_failures_to_unmount_are_told(
    mountpoint: Seq<char>,
    stderr: Seq<char>,
    code: Option<i32>,
)
    ensures
        reports_busy(stderr) <==> exists|at: int|
            0 <= at <= trimmed(stderr).len() - 4 && #[trigger] trimmed(stderr).subrange(at, at + 4)
                == "busy"@,
        trimmed(stderr).len() == 0 ==> unmount_words(mountpoint, stderr, code)
            == "Failed to unmount "@ + mountpoint + ": exit code "@ + code_words(code),
        trimmed(stderr).len() > 0 ==> unmount_words(mountpoint, stderr, code)
            == "Failed to unmount "@ + mountpoint + ": "@ + trimmed(stderr),
{
    reveal_strlit("busy");
    let s = trimmed(stderr);
    assert("busy"@.len() == 4);
    if reports_busy(stderr) {
        let at = choose|at: int| stands_at(s, "busy"@, at);
        assert(s.subrange(at, at + 4) == "busy"@);
    }
    if exists|at: int| 0 <= at <= s.len() - 4 && #[trigger] s.subrange(at, at + 4) == "busy"@ {
        let at = choose|at: int| 0 <= at <= s.len() - 4 && #[trigger] s.subrange(at, at + 4)
            == "busy"@;
        assert(stands_at(s, "busy"@, at));
    }
}

/// A device is mounted with its type, its options where there are any, and its mountpoint.
pub proof fn law_how_a_device_is_mounted(
    device: Seq<char>,
    mountpoint: Seq<char>,
    fstype: Seq<char>,
    options: Seq<char>,
)
    ensures
        mount_args(device, mountpoint, fstype, None) == seq!["-t"@, fstype, device, mountpoint],
        mount_args(device, mountpoint, fstype, Some(options)) == seq![
            "-t"@,
            fstype,
            device,
            "-o"@,
            options,
            mountpoint,
        ],
{
}

/// The listed processes are compared by their numbers and command lines, one by one.
pub proof fn law_processes_are_compared_one_by_one(list: Seq<Blocker>, i: int)
    requires
        0 <= i < list.len(),
    ensures
        blocker_views(list).len() == list.len(),
        blocker_views(list)[i].0 == list[i].pid,
        blocker_views(list)[i].1 == list[i].cmdline@,
{
}

/// Only the second field of a line counts: a line with fewer mounts nothing, and something is
/// mounted at a path exactly where a line says so.
pub proof fn law_only_the_second_field_counts(mounts: Seq<char>, mountpoint: Seq<char>)
    ensures
        mounted_in(mounts, mountpoint) <==> exists|i: int|
            0 <= i < lines(mounts).len() && fields(#[trigger] lines(mounts)[i]).len() >= 2
                && fields(lines(mounts)[i])[1] == mountpoint,
{
    if mounted_in(mounts, mountpoint) {
        let i = choose|i: int|
            0 <= i < lines(mounts).len() && line_mounts(#[trigger] lines(mounts)[i], mountpoint);
        assert(fields(lines(mounts)[i])[1] == mountpoint);
    }
    if exists|i: int|
        0 <= i < lines(mounts).len() && fields(#[trigger] lines(mounts)[i]).len() >= 2 && fields(
            lines(mounts)[i],
        )[1] == mountpoint {
        let i = choose|i: int|
            0 <= i < lines(mounts).len() && fields(#[trigger] lines(mounts)[i]).len() >= 2
                && fields(lines(mounts)[i])[1] == mountpoint;
        assert(line_mounts(lines(mounts)[i], mountpoint));
    }
}

} // verus!
