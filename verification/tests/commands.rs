use schelk::chunks::BlockRange;
use schelk::cmd::Output;
use schelk::commands::full_recover::{FullRecover, FullRecoverStep};
use schelk::commands::harvest::{Harvest, HarvestStep};
use schelk::commands::init::{Init, InitParams, InitStep};
use schelk::commands::mount::{MountRun, MountStep};
use schelk::commands::restore::Restore;
use schelk::commands::session::{Question, Reply, Request, Tool, reply_fits};
use schelk::commands::status;
use schelk::error::Error;
use schelk::mount::{
    ProcEntry, UnmountStep, Unmounting, busy_message, find_processes_using, is_mounted, mount, mount_failed,
    umount, unmount,
};
use schelk::state::AppState;
use schelk::volume::{mkfs_failed, validate_block_device};

fn state(is_mounted: bool) -> AppState {
    AppState {
        virgin: "/dev/v".to_string(),
        scratch: "/dev/s".to_string(),
        ramdisk: "/dev/ram0".to_string(),
        mount_point: "/schelk".to_string(),
        fstype: "ext4".to_string(),
        mount_options: Some("noatime".to_string()),
        granularity: 4096,
        virgin_superblock_hash: [7; 32],
        dm_era_name: "bench_era".to_string(),
        is_mounted,
        current_era: if is_mounted { Some(1) } else { None },
    }
}

fn loaded(is_mounted: bool) -> Reply {
    Reply::Loaded { state: Some(state(is_mounted)) }
}

fn yes() -> Reply {
    Reply::Answer { yes: true }
}

fn no() -> Reply {
    Reply::Answer { yes: false }
}

fn failed(message: &str) -> Reply {
    Reply::Failed { message: message.to_string() }
}

fn ranges(list: &[(u64, u64)]) -> Reply {
    Reply::Ranges {
        ranges: list.iter().map(|r| BlockRange { start: r.0, len: r.1 }).collect(),
    }
}

/// The name of a request, with what it is about.
fn shown(request: &Request) -> String {
    match request {
        Request::User => "user".to_string(),
        Request::Lock => "lock".to_string(),
        Request::LoadState => "load".to_string(),
        Request::CheckTool { tool } => format!("tool {:?}", tool),
        Request::Resolve { .. } => "resolve".to_string(),
        Request::DeviceExists { name } => format!("exists {}", name),
        Request::Confirm { question, skip } => match question {
            Question::Reinitialize { .. } => format!("reinit {}", skip),
            question => format!("confirm {:?} {}", question, skip),
        },
        Request::IsMounted { mount_point } => format!("mounted {}", mount_point),
        Request::Unmount { mount_point, kill } => format!("umount {} {}", mount_point, kill),
        Request::TakeSnapshot { name } => format!("take {}", name),
        Request::CollectBlocks { metadata_dev, since_era } => {
            format!("collect {} {}", metadata_dev, since_era)
        }
        Request::DropSnapshot { name } => format!("drop {}", name),
        Request::RemoveDevice { name } => format!("remove {}", name),
        Request::CopyBlocks { from, to, granularity, ranges } => {
            let list: Vec<(u64, u64)> = ranges.iter().map(|r| (r.start, r.len)).collect();
            format!("copy {} {} {} {:?}", from, to, granularity, list)
        }
        Request::HashVolume { path } => format!("hash {}", path),
        Request::SaveState { state } => {
            format!("save {} {:?} {}", state.is_mounted, state.current_era, state.virgin_superblock_hash[0])
        }
        Request::DeviceSize { path } => format!("size {}", path),
        Request::ValidateDevice { path } => format!("validate {}", path),
        Request::ResetRamdisk { path } => format!("reset {}", path),
        Request::CreateDevice { name, metadata_dev, origin_dev, origin_size, granularity } => {
            format!("create {} {} {} {} {}", name, metadata_dev, origin_dev, origin_size, granularity)
        }
        Request::Checkpoint { name } => format!("checkpoint {}", name),
        Request::Mount { name, mount_point, fstype, options } => {
            format!("mount {} {} {} {:?}", name, mount_point, fstype, options)
        }
        Request::MakeFilesystem { path } => format!("mkfs {}", path),
        Request::FullCopy { from, to } => format!("full {} {}", from, to),
    }
}

fn harvest(mut run: Harvest, replies: Vec<Reply>) -> (Harvest, Vec<String>) {
    let mut asked = Vec::new();
    for reply in replies {
        let request = run.request().expect("the run has ended");
        assert!(reply_fits(&request, &reply));
        asked.push(shown(&request));
        run = run.advance(reply);
    }
    (run, asked)
}

fn root() -> Reply {
    Reply::User { euid: 0 }
}

#[test]
fn recover_copies_the_changed_blocks_back() {
    let (run, asked) = harvest(
        Harvest::recover(true),
        vec![
            root(), Reply::Done, loaded(true), Reply::Done, Reply::Done, yes(), yes(), Reply::Done,
            Reply::Done, ranges(&[(3, 2), (10, 1)]), Reply::Done, Reply::Done, Reply::Done, Reply::Done,
        ],
    );
    assert_eq!(
        asked,
        [
            "user", "lock", "load", "tool Dmsetup", "tool EraInvalidate", "exists bench_era",
            "mounted /schelk", "umount /schelk true", "take bench_era", "collect /dev/ram0 1",
            "drop bench_era", "remove bench_era", "copy /dev/v /dev/s 4096 [(3, 2), (10, 1)]",
            "save false None 7",
        ]
    );
    assert!(matches!(run.step, HarvestStep::Finished));
    assert!(run.request().is_none());
    assert_eq!(run.totals(), (3, 12288));
    assert_eq!(
        run.report(),
        ["Recovery complete.", "  Blocks restored: 3", "  Bytes copied:    12.00 KB"]
    );
}

#[test]
fn promote_copies_the_other_way_after_confirmation() {
    let (run, asked) = harvest(
        Harvest::promote(false, false),
        vec![
            root(), Reply::Done, loaded(true), Reply::Done, Reply::Done, yes(), yes(), no(), Reply::Done,
            ranges(&[(0, 1)]), Reply::Done, Reply::Done, Reply::Done, Reply::Hash { hash: [9; 32] }, Reply::Done,
        ],
    );
    assert_eq!(
        asked[5..],
        [
            "exists bench_era", "confirm Promote false", "mounted /schelk", "take bench_era",
            "collect /dev/ram0 1", "drop bench_era", "remove bench_era", "copy /dev/s /dev/v 4096 [(0, 1)]",
            "hash /dev/v", "save false None 9",
        ]
    );
    assert!(matches!(run.step, HarvestStep::Finished));
    assert_eq!(run.report()[0], "Promote complete.");
}

#[test]
fn declined_promotion_changes_nothing() {
    let (run, asked) = harvest(
        Harvest::promote(false, false),
        vec![root(), Reply::Done, loaded(true), Reply::Done, Reply::Done, yes(), no()],
    );
    assert_eq!(asked.last().unwrap(), "confirm Promote false");
    assert!(matches!(run.step, HarvestStep::Failed { error: Error::Cancelled }));
}

#[test]
fn recover_of_an_unmounted_volume_succeeds() {
    let (run, _) = harvest(Harvest::recover(false), vec![root(), Reply::Done, loaded(false)]);
    assert!(matches!(run.step, HarvestStep::NothingToDo));
    assert!(run.request().is_none());
    let (run, _) = harvest(Harvest::promote(true, false), vec![root(), Reply::Done, loaded(false)]);
    match run.step {
        HarvestStep::Failed { error } => assert_eq!(error.messages(), ["Volume is not mounted."]),
        _ => panic!("promote needs a mounted volume"),
    }
}

#[test]
fn recover_without_changes_copies_nothing() {
    let (run, asked) = harvest(
        Harvest::recover_locked(false),
        vec![
            loaded(true), Reply::Done, Reply::Done, yes(), no(), Reply::Done, ranges(&[]), Reply::Done,
            Reply::Done, Reply::Done,
        ],
    );
    assert_eq!(asked.last().unwrap(), "save false None 7");
    assert!(!asked.iter().any(|r| r.starts_with("copy")));
    assert_eq!(run.totals(), (0, 0));
}

#[test]
fn lost_devices_refer_to_full_recover() {
    let (run, _) = harvest(
        Harvest::recover(false),
        vec![root(), Reply::Done, loaded(true), Reply::Done, Reply::Done, no()],
    );
    match run.step {
        HarvestStep::Failed { error } => assert_eq!(
            error.message(),
            "dm-era device 'bench_era' does not exist.\nState says mounted but device is missing — likely a host reboot or power loss.\nIncremental recovery is not possible. Run 'schelk full-recover' to restore scratch from virgin."
        ),
        _ => panic!("the device is gone"),
    }
    let (run, _) = harvest(
        Harvest::promote(false, false),
        vec![root(), Reply::Done, loaded(true), Reply::Done, Reply::Done, no()],
    );
    match run.step {
        HarvestStep::Failed { error } => assert_eq!(
            error.message(),
            "dm-era device 'bench_era' does not exist.\nState says mounted but device is missing. This may indicate a system crash.\nRun 'schelk mount' to remount, or manually reset state."
        ),
        _ => panic!("the device is gone"),
    }
}

#[test]
fn failed_collection_drops_the_snapshot() {
    let (run, asked) = harvest(
        Harvest::recover(false),
        vec![
            root(), Reply::Done, loaded(true), Reply::Done, Reply::Done, yes(), no(), Reply::Done,
            failed("era_invalidate failed: x"), failed("ignored"),
        ],
    );
    assert_eq!(asked[asked.len() - 2..], ["collect /dev/ram0 1", "drop bench_era"]);
    match run.step {
        HarvestStep::Failed { error } => assert_eq!(
            error.messages(),
            ["Failed to collect changed blocks", "era_invalidate failed: x"]
        ),
        _ => panic!("the collection failed"),
    }
}

#[test]
fn ranges_that_cannot_be_copied_are_refused_after_the_device_is_gone() {
    let (run, asked) = harvest(
        Harvest::recover(false),
        vec![
            root(), Reply::Done, loaded(true), Reply::Done, Reply::Done, yes(), no(), Reply::Done,
            ranges(&[(u64::MAX, 1)]), Reply::Done, Reply::Done,
        ],
    );
    assert_eq!(asked[asked.len() - 2..], ["drop bench_era", "remove bench_era"]);
    assert!(matches!(run.step, HarvestStep::Failed { error: Error::RangesTooLarge }));
}

#[test]
fn failed_steps_say_what_was_being_done() {
    let start = || {
        vec![root(), Reply::Done, loaded(true), Reply::Done, Reply::Done, yes(), yes()]
    };
    let cases = [
        (0, "Failed to unmount filesystem"),
        (1, "Failed to take metadata snapshot"),
        (3, "Failed to drop metadata snapshot"),
        (4, "Failed to remove dm-era device"),
        (5, "Failed to copy blocks"),
    ];
    for (n, context) in cases {
        let mut replies = start();
        for i in 0..n {
            replies.push(if i == 2 { ranges(&[(0, 1)]) } else { Reply::Done });
        }
        replies.push(failed("boom"));
        let (run, _) = harvest(Harvest::recover(false), replies);
        match run.step {
            HarvestStep::Failed { error } => assert_eq!(error.messages(), [context, "boom"]),
            step => panic!("{:?}", step),
        }
    }
    let (run, _) = harvest(Harvest::recover(false), vec![Reply::User { euid: 1 }]);
    assert!(matches!(run.step, HarvestStep::Failed { error: Error::NotRoot }));
    let (run, _) = harvest(
        Harvest::recover(false),
        vec![root(), Reply::Done, Reply::Loaded { state: None }],
    );
    match run.step {
        HarvestStep::Failed { error } => assert_eq!(
            error.message(),
            "schelk has not been initialized. Run 'schelk init-new' or 'schelk init-from' first."
        ),
        _ => panic!("nothing is initialized"),
    }
}

fn mounting(mut run: MountRun, replies: Vec<Reply>) -> (MountRun, Vec<String>) {
    let mut asked = Vec::new();
    for reply in replies {
        let request = run.request().expect("the run has ended");
        assert!(reply_fits(&request, &reply));
        asked.push(shown(&request));
        run = run.advance(reply);
    }
    (run, asked)
}

fn checks() -> Vec<Reply> {
    vec![
        root(), Reply::Done, loaded(false), no(), Reply::Done, no(), Reply::Number { n: 1 << 30 },
        Reply::Number { n: 1 << 30 }, Reply::Hash { hash: [7; 32] }, Reply::Hash { hash: [7; 32] },
    ]
}

#[test]
fn mount_checks_and_tracks() {
    let mut replies = checks();
    for _ in 0..5 {
        replies.push(Reply::Done);
    }
    let (run, asked) = mounting(MountRun::new(), replies);
    assert_eq!(
        asked,
        [
            "user", "lock", "load", "mounted /schelk", "tool Dmsetup", "exists bench_era", "size /dev/s",
            "size /dev/ram0", "hash /dev/v", "hash /dev/s", "reset /dev/ram0",
            "create bench_era /dev/ram0 /dev/s 1073741824 4096", "checkpoint bench_era",
            "mount bench_era /schelk ext4 Some(\"noatime\")", "save true Some(1) 7",
        ]
    );
    assert!(matches!(run.step, MountStep::Finished));
}

fn mount_error(replies: Vec<Reply>) -> Vec<String> {
    match mounting(MountRun::new(), replies).0.step {
        MountStep::Failed { error } => error.messages(),
        step => panic!("{:?}", step),
    }
}

#[test]
fn mount_refuses_what_does_not_check_out() {
    assert_eq!(
        mount_error(vec![root(), Reply::Done, loaded(true)]),
        ["Volume is already mounted."]
    );
    assert_eq!(
        mount_error(vec![root(), Reply::Done, loaded(false), yes()]),
        ["Mountpoint /schelk is already in use.\nState says not mounted, but filesystem is mounted. This may indicate a crash.\nManually unmount with: sudo umount /schelk"]
    );
    assert_eq!(
        mount_error(vec![root(), Reply::Done, loaded(false), no(), Reply::Done, yes()]),
        ["dm-era device 'bench_era' already exists.\nThis may indicate a previous crash. Run 'schelk recover' or manually remove with:\n  sudo dmsetup remove bench_era"]
    );
    let mut small = checks();
    small.truncate(7);
    small.push(Reply::Number { n: 100 });
    assert!(mount_error(small)[0].starts_with("RAM disk too small: "));
    let base = "Volume superblock does not match expected state. The volume may have been modified externally.";
    let mut virgin = checks();
    virgin.truncate(8);
    virgin.push(Reply::Hash { hash: [8; 32] });
    assert_eq!(mount_error(virgin), ["Virgin volume superblock has changed", base]);
    let mut scratch = checks();
    scratch.truncate(9);
    scratch.push(Reply::Hash { hash: [8; 32] });
    assert_eq!(
        mount_error(scratch),
        ["Scratch volume superblock does not match virgin. Run 'schelk full-recover' first.", base]
    );
}

#[test]
fn failed_mounts_remove_the_device() {
    for (n, context) in [
        (2, "Failed to checkpoint dm-era device"),
        (3, "Failed to mount dm-era device"),
    ] {
        let mut replies = checks();
        for _ in 0..n {
            replies.push(Reply::Done);
        }
        replies.push(failed("boom"));
        replies.push(Reply::Done);
        let (run, asked) = mounting(MountRun::new(), replies);
        assert_eq!(asked.last().unwrap(), "remove bench_era");
        match run.step {
            MountStep::Failed { error } => assert_eq!(error.messages(), [context, "boom"]),
            step => panic!("{:?}", step),
        }
    }
    let mut replies = checks();
    replies.push(Reply::Done);
    replies.push(failed("boom"));
    let (run, asked) = mounting(MountRun::new(), replies);
    assert!(asked.last().unwrap().starts_with("create"));
    match run.step {
        MountStep::Failed { error } => {
            assert_eq!(error.messages(), ["Failed to create dm-era device", "boom"])
        }
        step => panic!("{:?}", step),
    }
}

fn recovering(mut run: FullRecover, replies: Vec<Reply>) -> (FullRecover, Vec<String>) {
    let mut asked = Vec::new();
    for reply in replies {
        let request = run.request().expect("the run has ended");
        assert!(reply_fits(&request, &reply));
        asked.push(shown(&request));
        run = run.advance(reply);
    }
    (run, asked)
}

#[test]
fn full_recover_clears_a_stale_state_with_its_only_save() {
    let size = || Reply::Number { n: 8192 };
    let (run, asked) = recovering(
        FullRecover::new(false),
        vec![
            root(), loaded(true), no(), no(), Reply::Done, Reply::Done, size(), size(), yes(), Reply::Done,
            Reply::Hash { hash: [5; 32] }, Reply::Done,
        ],
    );
    assert_eq!(
        asked,
        [
            "user", "load", "exists bench_era", "mounted /schelk", "validate /dev/v", "validate /dev/s",
            "size /dev/v", "size /dev/s", "confirm FullRecover false", "full /dev/v /dev/s", "hash /dev/v",
            "save false None 5",
        ]
    );
    assert!(matches!(run.step, FullRecoverStep::Finished));
}

#[test]
fn full_recover_refuses_live_mounts_and_other_sizes() {
    for (device, fs) in [(yes(), no()), (no(), yes()), (yes(), yes())] {
        let (run, _) =
            recovering(FullRecover::new(true), vec![root(), loaded(true), device, fs]);
        assert!(matches!(run.step, FullRecoverStep::Failed { error: Error::AlreadyMounted }));
    }
    let (run, _) = recovering(
        FullRecover::new(true),
        vec![
            root(), loaded(false), Reply::Done, Reply::Done, Reply::Number { n: 10 }, Reply::Number { n: 11 },
        ],
    );
    match run.step {
        FullRecoverStep::Failed { error } => assert_eq!(
            error.message(),
            "Volume size mismatch: virgin is 10 bytes, scratch is 11 bytes"
        ),
        step => panic!("{:?}", step),
    }
}

fn params(granularity: u64) -> InitParams {
    InitParams {
        virgin: "/dev/v".to_string(),
        scratch: "/dev/s".to_string(),
        ramdisk: "/dev/ram0".to_string(),
        mount_point: "/schelk".to_string(),
        fstype: "xfs".to_string(),
        mount_options: None,
        granularity,
        dm_era_name: "era".to_string(),
    }
}

fn resolved(scratch: &str) -> Reply {
    Reply::Resolved {
        virgin: "/dev/v".to_string(),
        scratch: scratch.to_string(),
        ramdisk: "/dev/ram0".to_string(),
    }
}

fn initializing(mut run: Init, replies: Vec<Reply>) -> (Init, Vec<String>) {
    let mut asked = Vec::new();
    for reply in replies {
        let request = run.request().expect("the run has ended");
        assert!(reply_fits(&request, &reply), "{:?} {:?}", request, reply);
        asked.push(shown(&request));
        run = run.advance(reply);
    }
    (run, asked)
}

fn init_new(yes: bool) -> Init {
    Init::init_new(
        "/dev/v".to_string(),
        "/dev/s".to_string(),
        "/dev/ram0".to_string(),
        "/schelk".to_string(),
        None,
        4096,
        "bench_era".to_string(),
        yes,
    )
}

#[test]
fn init_new_creates_copies_and_saves() {
    let size = || Reply::Number { n: 1 << 25 };
    let (run, asked) = initializing(
        init_new(true),
        vec![
            root(), resolved("/dev/s"), Reply::Done, Reply::Loaded { state: None }, Reply::Done, Reply::Done,
            size(), size(), size(), yes(), Reply::Done, Reply::Done, Reply::Hash { hash: [3; 32] }, Reply::Done,
        ],
    );
    assert_eq!(
        asked,
        [
            "user", "resolve", "tool MkfsExt4", "load", "validate /dev/v", "validate /dev/s", "size /dev/v",
            "size /dev/s", "size /dev/ram0", "confirm InitNew true", "mkfs /dev/v", "full /dev/v /dev/s",
            "hash /dev/v", "save false None 3",
        ]
    );
    assert!(matches!(run.step, InitStep::Finished));
    assert_eq!(run.params.fstype, "ext4");
}

#[test]
fn init_from_adopts_with_or_without_a_copy() {
    let size = || Reply::Number { n: 1 << 25 };
    let start = || {
        vec![
            root(), resolved("/dev/s"), Reply::Loaded { state: None }, Reply::Done, Reply::Done, size(), size(),
            size(), yes(),
        ]
    };
    let (_, asked) = initializing(Init::init_from(params(4096), false, false, false), start());
    assert_eq!(asked.last().unwrap(), "confirm InitFrom false");
    let run = initializing(Init::init_from(params(4096), false, false, false), start()).0;
    assert_eq!(shown(&run.request().unwrap()), "full /dev/v /dev/s");
    let run = initializing(Init::init_from(params(4096), true, false, false), start()).0;
    assert_eq!(shown(&run.request().unwrap()), "hash /dev/v");
    let (run, asked) = initializing(run, vec![Reply::Hash { hash: [4; 32] }, Reply::Done]);
    assert_eq!(asked, ["hash /dev/v", "save false None 4"]);
    assert!(matches!(run.step, InitStep::Finished));
}

fn init_error(run: Init, replies: Vec<Reply>) -> String {
    match initializing(run, replies).0.step {
        InitStep::Failed { error } => error.message(),
        step => panic!("{:?}", step),
    }
}

#[test]
fn init_refuses_bad_configurations() {
    let from = |g| Init::init_from(params(g), false, true, false);
    assert_eq!(init_error(from(0), vec![root()]), "Granularity must be greater than 0.");
    assert_eq!(
        init_error(from(100), vec![root()]),
        "Granularity must be a multiple of 512 bytes (got 100 bytes)."
    );
    assert_eq!(
        init_error(from(512), vec![root(), resolved("/dev/v")]),
        "Virgin and scratch must be different devices.\n  Virgin:  /dev/v\n  Scratch: /dev/s"
    );
    let start = || {
        vec![
            root(), resolved("/dev/s"), Reply::Loaded { state: None }, Reply::Done, Reply::Done,
            Reply::Number { n: 10 },
        ]
    };
    let mut replies = start();
    replies.push(Reply::Number { n: 11 });
    assert_eq!(
        init_error(from(512), replies),
        "Virgin and scratch volumes must be the same size.\n  Virgin:  /dev/v (10 bytes)\n  Scratch: /dev/s (11 bytes)"
    );
    let mut replies = start();
    replies.push(Reply::Number { n: 10 });
    replies.push(Reply::Number { n: 10 });
    assert_eq!(
        init_error(from(512), replies),
        "RAM disk too small: 45056 bytes required, 10 bytes available."
    );
}

#[test]
fn reinitialization_must_be_confirmed() {
    let (run, asked) = initializing(
        init_new(false),
        vec![root(), resolved("/dev/s"), Reply::Done, loaded(false), no()],
    );
    assert_eq!(asked.last().unwrap(), "reinit false");
    assert!(matches!(run.step, InitStep::Failed { error: Error::Cancelled }));
    let question = Question::Reinitialize {
        virgin: "/dev/v".to_string(),
        scratch: "/dev/s".to_string(),
    };
    assert_eq!(
        question.text("/state"),
        "schelk is already initialized:\n  Path: /state\nVirgin:  /dev/v\n  Scratch: /dev/s\nReinitialize?"
    );
    assert_eq!(Question::Promote.text(""), "Permanently overwrite virgin volume?");
    assert_eq!(Question::InitNew.text(""), "Proceed with initialization?");
    assert_eq!(Question::InitFrom.text(""), "Proceed?");
    assert_eq!(Question::FullRecover.text(""), "Proceed with full recovery?");
}

fn restoring(mut run: Restore, replies: Vec<Reply>) -> (Restore, Vec<String>) {
    let mut asked = Vec::new();
    for reply in replies {
        let request = run.request().expect("the run has ended");
        assert!(reply_fits(&request, &reply));
        asked.push(shown(&request));
        run = run.advance(reply);
    }
    (run, asked)
}

#[test]
fn restore_recovers_and_mounts_under_one_lock() {
    let mut replies = vec![
        root(), Reply::Done, loaded(true), Reply::Done, Reply::Done, yes(), no(), Reply::Done, ranges(&[]),
        Reply::Done, Reply::Done, Reply::Done,
    ];
    replies.extend(checks().into_iter().skip(2));
    for _ in 0..5 {
        replies.push(Reply::Done);
    }
    let (run, asked) = restoring(Restore::new(false), replies);
    assert!(matches!(run, Restore::Finished));
    assert_eq!(asked.iter().filter(|r| *r == "lock").count(), 1);
    assert_eq!(asked.iter().filter(|r| *r == "load").count(), 2);
    assert_eq!(asked.last().unwrap(), "save true Some(1) 7");
}

#[test]
fn a_restore_that_cannot_mount_leaves_a_recovered_state() {
    let recovery = || {
        vec![
            root(), Reply::Done, loaded(true), Reply::Done, Reply::Done, yes(), no(), Reply::Done,
            ranges(&[(0, 1)]), Reply::Done, Reply::Done, Reply::Done, Reply::Done,
        ]
    };
    let (recovered, by_recover) = harvest(Harvest::recover(false), recovery());
    assert!(matches!(recovered.step, HarvestStep::Finished));
    let mut replies = recovery();
    replies.push(loaded(false));
    replies.push(yes());
    let (run, asked) = restoring(Restore::new(false), replies);
    assert!(matches!(run, Restore::Failed { .. }));
    assert_eq!(asked[..by_recover.len()], by_recover[..]);
    let saves: Vec<&String> = asked.iter().filter(|r| r.starts_with("save")).collect();
    assert_eq!(saves, ["save false None 7"]);
}

#[test]
fn restore_says_which_part_failed() {
    let (run, _) = restoring(
        Restore::new(false),
        vec![root(), Reply::Done, loaded(true), failed("no dmsetup")],
    );
    match run {
        Restore::Failed { error } => {
            assert_eq!(error.messages(), ["Restore failed during recovery", "no dmsetup"])
        }
        run => panic!("{:?}", run),
    }
    let (run, _) = restoring(
        Restore::new(false),
        vec![root(), Reply::Done, loaded(false), loaded(false), yes()],
    );
    match run {
        Restore::Failed { error } => assert_eq!(
            error.messages()[0],
            "Restore recovered the scratch volume but failed to mount it"
        ),
        run => panic!("{:?}", run),
    }
    let (run, _) = restoring(Restore::new(true), vec![Reply::User { euid: 5 }]);
    match run {
        Restore::Failed { error } => assert_eq!(error.messages().len(), 1),
        run => panic!("{:?}", run),
    }
}

#[test]
fn replies_must_answer_the_request() {
    assert!(reply_fits(&Request::Lock, &Reply::Done));
    assert!(reply_fits(&Request::Lock, &failed("x")));
    assert!(!reply_fits(&Request::Lock, &yes()));
    assert!(!reply_fits(&Request::CheckTool { tool: Tool::Dmsetup }, &Reply::Number { n: 1 }));
    let confirm = |skip| Request::Confirm { question: Question::Promote, skip };
    assert!(reply_fits(&confirm(false), &no()));
    assert!(!reply_fits(&confirm(true), &no()));
    let mut odd = state(false);
    odd.granularity = 0;
    assert!(reply_fits(&Request::LoadState, &Reply::Loaded { state: Some(odd) }));
    assert!(!reply_fits(&Request::LoadState, &Reply::Done));
}

#[test]
fn the_status_names_inconsistencies() {
    let lines = status::run("/state", Some(&state(true)), true, true);
    assert_eq!(lines[3], "State file: /state");
    assert!(lines.contains(&"  Mount options:  noatime".to_string()));
    assert!(lines.contains(&"  Granularity:    4096 bytes".to_string()));
    assert!(lines.contains(&"  Mounted: yes (actual)".to_string()));
    assert!(lines.contains(&"  dm-era device: active".to_string()));
    assert!(lines.contains(&"  Current era: 1".to_string()));
    assert_eq!(lines.last().unwrap(), &format!("  Superblock hash: {}", "07".repeat(32)));
    let lines = status::run("/state", Some(&state(true)), false, false);
    assert!(lines.contains(&"  Mounted: NO (actual) - state inconsistent!".to_string()));
    assert!(lines.contains(&"  dm-era device: MISSING (state inconsistent, possible crash)".to_string()));
    let lines = status::run("/state", Some(&state(false)), true, true);
    assert!(lines.contains(&"  Mounted: YES (actual) - state inconsistent!".to_string()));
    assert!(lines.contains(&"  dm-era device: EXISTS (state inconsistent, stale device?)".to_string()));
    let lines = status::run("/state", None, false, false);
    assert_eq!(lines[0], "schelk is not initialized.");
    assert_eq!(status::hex_encode(&[0x00, 0x9f, 0xa0, 0xff]), "009fa0ff");
}

const MOUNTS: &str = "proc /proc proc rw 0 0\n/dev/mapper/bench_era /schelk ext4 rw 0 0\n\nodd\n";

#[test]
fn mounts_are_found_by_their_second_field() {
    assert!(is_mounted(MOUNTS, "/schelk"));
    assert!(is_mounted(MOUNTS, "/proc"));
    assert!(!is_mounted(MOUNTS, "/dev/mapper/bench_era"));
    assert!(!is_mounted(MOUNTS, "/schel"));
    assert!(!is_mounted("", "/schelk"));
}

#[test]
fn mount_commands_are_spelled_out() {
    assert_eq!(umount("/m").program, "umount");
    assert_eq!(umount("/m").args, ["/m"]);
    assert_eq!(mount("/d", "/m", "ext4", None).args, ["-t", "ext4", "/d", "/m"]);
    assert_eq!(
        mount("/d", "/m", "xfs", Some("ro")).args,
        ["-t", "xfs", "/d", "-o", "ro", "/m"]
    );
    assert_eq!(mount_failed("/d", "/m"), "Failed to mount /d at /m");
}

fn umount_output(success: bool, stderr: &str, code: Option<i32>) -> Output {
    Output { stdout: String::new(), stderr: stderr.to_string(), success, code }
}

#[test]
fn busy_filesystems_are_told_apart() {
    assert!(matches!(unmount("/m", &umount_output(true, "busy", Some(0)), true), UnmountStep::Done));
    let busy = umount_output(false, "umount: /m: target is busy.\n", Some(32));
    assert!(matches!(unmount("/m", &busy, true), UnmountStep::KillAndRetry));
    assert!(matches!(unmount("/m", &busy, false), UnmountStep::ReportBusy));
    match unmount("/m", &umount_output(false, "not mounted\n", Some(32)), true) {
        UnmountStep::Fail { message } => assert_eq!(message, "Failed to unmount /m: not mounted"),
        step => panic!("{:?}", step),
    }
    match unmount("/m", &umount_output(false, " ", None), true) {
        UnmountStep::Fail { message } => assert_eq!(message, "Failed to unmount /m: exit code None"),
        step => panic!("{:?}", step),
    }
}

#[test]
fn blocking_processes_are_killed_at_most_once() {
    let busy = umount_output(false, "target is busy", Some(32));
    let mut attempts = Unmounting::new(true);
    assert!(matches!(attempts.attempt("/m", &busy), UnmountStep::KillAndRetry));
    assert!(matches!(attempts.attempt("/m", &busy), UnmountStep::ReportBusy));
    let mut attempts = Unmounting::new(false);
    assert!(matches!(attempts.attempt("/m", &busy), UnmountStep::ReportBusy));
    assert!(matches!(attempts.attempt("/m", &umount_output(true, "", Some(0))), UnmountStep::Done));
}

fn entry(name: &str, cwd: Option<&str>, fds: &[&str], cmdline: Option<&str>) -> ProcEntry {
    ProcEntry {
        name: name.to_string(),
        cwd: cwd.map(|s| s.to_string()),
        root: Some("/".to_string()),
        fds: fds.iter().map(|s| s.to_string()).collect(),
        cmdline: cmdline.map(|s| s.to_string()),
    }
}

#[test]
fn blocking_processes_are_listed() {
    let entries = vec![
        entry("self", Some("/schelk"), &[], Some("x")),
        entry("10", Some("/schelk"), &[], Some("reth\0node\0")),
        entry("11", Some("/schelk2"), &["/tmp/a", "/schelkish"], Some("no")),
        entry("12", None, &["/dev/null", "/schelk/db/data"], None),
        entry("13", Some("/home"), &[], Some("no")),
    ];
    let found = find_processes_using(&entries, "/schelk");
    let shown: Vec<(u32, &str)> = found.iter().map(|b| (b.pid, b.cmdline.as_str())).collect();
    assert_eq!(shown, [(10, "reth node"), (12, "")]);
    assert_eq!(
        busy_message("/schelk", &found),
        "Failed to unmount /schelk: target is busy\nProcesses still using the mount:\n  PID=10 \"reth node\"\n  PID=12 \"\"\n"
    );
    assert_eq!(
        busy_message("/schelk", &vec![]),
        "Failed to unmount /schelk: target is busy\n  (could not identify blocking processes)"
    );
    let quoting = find_processes_using(&vec![entry("1", Some("/m"), &[], Some("a\"b"))], "/m");
    assert!(busy_message("/m", &quoting).contains("PID=1 \"a\\\"b\"\n"));
}

#[test]
fn volumes_are_validated() {
    assert!(validate_block_device("/d", true, true, true).is_ok());
    assert_eq!(validate_block_device("/d", false, true, true).unwrap_err(), "Cannot access /d");
    assert_eq!(
        validate_block_device("/d", true, false, true).unwrap_err(),
        "/d is not a block device"
    );
    assert_eq!(validate_block_device("/d", true, true, false).unwrap_err(), "Cannot read /d");
    assert_eq!(mkfs_failed("/d", " bad\n"), "mkfs.ext4 failed on /d:\nbad");
}
