use std::path::Path;

use schelk::cli::{Cli, Command, signal_refusal, version_string};
use schelk::commands::format::format_bytes;
use schelk::commands::init_common::{Devices, reject_device_aliases, validate_granularity};
use schelk::confirm;
use schelk::dmera::DM_ERA_NAME;
use schelk::env::require_root;
use schelk::io::zero;
use schelk::ramdisk::{calculate_required_sizes, check_sizes_fit, validate_size};
use schelk::reset::{
    ResetFacts, ResetMethod, ResetStep, blkdiscard, blkdiscard_available, brd_sysfs_path,
    is_whole_brd_device_name, read_sysfs_u64, reset_to_zero,
};
use schelk::state::{
    AppState, SaveStep, StateLocation, StoredFields, StoredState, default_dm_era_name,
    directory_or_root, load, lock_held, save,
};
use schelk::text::{
    code_text, components_of, contains, decimal_text, fields_of, is_under, is_whitespace, lines_of,
    parse_u32, parse_u64, path_join, replace_char, signed_text, trim,
};
use schelk::timing::{StepEnd, StepTimer};

#[test]
fn granularity_zero_rejected() {
    assert!(validate_granularity(0).is_err());
}

#[test]
fn granularity_not_512_multiple_rejected() {
    assert!(validate_granularity(4097).is_err());
    assert!(validate_granularity(1000).is_err());
}

#[test]
fn granularity_valid_accepted() {
    assert!(validate_granularity(512).is_ok());
    assert!(validate_granularity(4096).is_ok());
}

#[test]
fn granularity_errors_are_explained() {
    assert_eq!(
        validate_granularity(0).unwrap_err().message(),
        "Granularity must be greater than 0."
    );
    assert_eq!(
        validate_granularity(4097).unwrap_err().message(),
        "Granularity must be a multiple of 512 bytes (got 4097 bytes)."
    );
}

fn devices(virgin: &str, scratch: &str, ramdisk: &str) -> Devices {
    Devices {
        virgin: "V".to_string(),
        scratch: "S".to_string(),
        ramdisk: "R".to_string(),
        virgin_resolved: virgin.to_string(),
        scratch_resolved: scratch.to_string(),
        ramdisk_resolved: ramdisk.to_string(),
    }
}

#[test]
fn virgin_scratch_alias_rejected() {
    assert_eq!(
        reject_device_aliases(&devices("/a", "/a", "/c")).unwrap_err().message(),
        "Virgin and scratch must be different devices.\n  Virgin:  V\n  Scratch: S"
    );
}

#[test]
fn ramdisk_alias_of_virgin_rejected() {
    assert_eq!(
        reject_device_aliases(&devices("/a", "/b", "/a")).unwrap_err().message(),
        "Virgin and RAM disk must be different devices.\n  Virgin:  V\n  RAM disk: R"
    );
}

#[test]
fn ramdisk_alias_of_scratch_rejected() {
    assert_eq!(
        reject_device_aliases(&devices("/a", "/b", "/b/")).unwrap_err().message(),
        "Scratch and RAM disk must be different devices.\n  Scratch: S\n  RAM disk: R"
    );
}

#[test]
fn ramdisk_symlink_alias_rejected() {
    // The path of the RAM disk is a link to the scratch volume.
    let linked = Devices {
        virgin: "/tmp/virgin.img".to_string(),
        scratch: "/tmp/scratch.img".to_string(),
        ramdisk: "/tmp/ramdisk.img".to_string(),
        virgin_resolved: "/tmp/virgin.img".to_string(),
        scratch_resolved: "/tmp/scratch.img".to_string(),
        ramdisk_resolved: "/tmp/scratch.img".to_string(),
    };
    assert!(reject_device_aliases(&linked).is_err());
}

#[test]
fn distinct_devices_accepted() {
    assert!(reject_device_aliases(&devices("/a", "/b", "/c")).is_ok());
}

#[test]
fn brd_name_detection_accepts_whole_ramdisks() {
    assert!(is_whole_brd_device_name("ram0"));
    assert!(is_whole_brd_device_name("ram12"));
}

#[test]
fn brd_name_detection_rejects_other_devices_and_partitions() {
    assert!(!is_whole_brd_device_name("ram"));
    assert!(!is_whole_brd_device_name("ram0p1"));
    assert!(!is_whole_brd_device_name("loop0"));
    assert!(!is_whole_brd_device_name("nvme0n1"));
}

#[test]
fn ramdisks_are_discarded_only_where_it_is_safe() {
    let unknown = ResetFacts {
        whole_ramdisk: None,
        blkdiscard_available: None,
        discard_max_bytes: None,
        granularity_and_size: None,
    };
    let zero = ResetStep::Use { method: ResetMethod::ZeroWrite };
    assert_eq!(reset_to_zero(&unknown), ResetStep::AskWholeRamdisk);
    let other = ResetFacts { whole_ramdisk: Some(false), ..unknown };
    assert_eq!(reset_to_zero(&other), zero);
    let ram = ResetFacts { whole_ramdisk: Some(true), ..unknown };
    assert_eq!(reset_to_zero(&ram), ResetStep::AskBlkdiscard);
    assert_eq!(reset_to_zero(&ResetFacts { blkdiscard_available: Some(false), ..ram }), zero);
    let tool = ResetFacts { blkdiscard_available: Some(true), ..ram };
    assert_eq!(reset_to_zero(&tool), ResetStep::AskDiscardMax);
    assert_eq!(reset_to_zero(&ResetFacts { discard_max_bytes: Some(0), ..tool }), zero);
    let max = ResetFacts { discard_max_bytes: Some(1), ..tool };
    assert_eq!(reset_to_zero(&max), ResetStep::AskDiscardGranularity);
    let g = |granularity, size| {
        reset_to_zero(&ResetFacts { granularity_and_size: Some((granularity, size)), ..max })
    };
    assert_eq!(g(0, 4096), zero);
    assert_eq!(g(4096, 4097), zero);
    assert_eq!(g(4096, 8192), ResetStep::Use { method: ResetMethod::Blkdiscard });
    assert_eq!(ResetMethod::Blkdiscard.description(), "blkdiscard");
    assert_eq!(ResetMethod::ZeroWrite.description(), "sequential zero write");
    assert_eq!(blkdiscard("/dev/ram0").args, ["/dev/ram0"]);
    assert_eq!(blkdiscard_available().args, ["--version"]);
}

#[test]
fn reset_to_zero_falls_back_to_zero_write_for_regular_files() {
    let mut contents = vec![0xffu8; 8192];
    // A regular file is no RAM disk.
    assert!(brd_sysfs_path(false, 0).is_none());
    let facts = ResetFacts {
        whole_ramdisk: Some(false),
        blkdiscard_available: None,
        discard_max_bytes: None,
        granularity_and_size: None,
    };
    assert_eq!(reset_to_zero(&facts), ResetStep::Use { method: ResetMethod::ZeroWrite });
    let mut written: u64 = 0;
    while let Some(n) = zero(contents.len() as u64, written) {
        contents[written as usize..(written + n) as usize].fill(0);
        written += n;
    }
    assert_eq!(contents.len(), 8192);
    assert!(contents.iter().all(|byte| *byte == 0));
}

#[test]
fn sysfs_describes_ramdisks() {
    // Device number 1:12, in the layout of Linux.
    assert_eq!(brd_sysfs_path(true, 0x010c).unwrap(), "/sys/dev/block/1:12");
    // 1:300 has minor bits above bit 19.
    assert_eq!(brd_sysfs_path(true, 0x10012c).unwrap(), "/sys/dev/block/1:300");
    assert!(brd_sysfs_path(false, 0x010c).is_none());
    assert!(brd_sysfs_path(true, 0x0801).is_none());
    assert_eq!(read_sysfs_u64("4096\n"), Some(4096));
    assert_eq!(read_sysfs_u64("-1\n"), None);
}

#[test]
fn required_sizes_follow_the_formula() {
    // One TiB in blocks of 4096 bytes: 2^28 blocks, 263690 of metadata, 10547 of index.
    assert_eq!(calculate_required_sizes(1 << 40, 4096).0, (263690 + 10547 + 10) * 4096);
    assert_eq!(calculate_required_sizes(0, 512), (40960, 40960 * 115 / 100 + 1048576));
    assert!(calculate_required_sizes(u64::MAX, 512).1 > 0);
    assert!(calculate_required_sizes(1 << 40, 4096) < calculate_required_sizes(1 << 41, 4096));
    let (least, ideal) = calculate_required_sizes(1 << 40, 4096);
    assert!(least < ideal);
    assert!(validate_size(ideal, 1 << 40, 4096).unwrap().is_none());
    assert!(check_sizes_fit(u64::MAX, 512));
    assert!(!check_sizes_fit(u64::MAX, 1));
    assert!(!check_sizes_fit(1, 0));
}

#[test]
fn small_ramdisks_are_refused_and_tight_ones_remarked() {
    assert_eq!(
        validate_size(45055, 0, 512).unwrap_err().message(),
        "RAM disk too small: 45056 bytes required, 45055 bytes available."
    );
    assert_eq!(
        validate_size(45056, 0, 512).unwrap().unwrap(),
        "Warning: RAM disk size (45056 bytes) is less than ideal (1095680 bytes). This may work but leaves little headroom."
    );
    assert!(validate_size(1095680, 0, 512).unwrap().is_none());
}

fn float_bytes(bytes: u64) -> String {
    const KB: u64 = 1024;
    const MB: u64 = KB * 1024;
    const GB: u64 = MB * 1024;
    if bytes >= GB {
        format!("{:.2} GB", bytes as f64 / GB as f64)
    } else if bytes >= MB {
        format!("{:.2} MB", bytes as f64 / MB as f64)
    } else if bytes >= KB {
        format!("{:.2} KB", bytes as f64 / KB as f64)
    } else {
        format!("{} bytes", bytes)
    }
}

#[test]
fn bytes_are_shown_as_floats_would_be() {
    for n in 0..20000u64 {
        assert_eq!(format_bytes(n), float_bytes(n));
    }
    let mut x: u64 = 1;
    for _ in 0..20000 {
        x = x.wrapping_mul(6364136223846793005).wrapping_add(1442695040888963407);
        for shift in [0, 7, 20, 30, 44] {
            assert_eq!(format_bytes(x >> shift), float_bytes(x >> shift));
        }
    }
    for n in [u64::MAX, u64::MAX - 1023, 1 << 53, (1 << 53) + 1, (1 << 63) + 1024, (1 << 54) + 2] {
        assert_eq!(format_bytes(n), float_bytes(n));
    }
    assert_eq!(format_bytes(1023), "1023 bytes");
    assert_eq!(format_bytes(1536), "1.50 KB");
    assert_eq!(format_bytes(3 << 30), "3.00 GB");
}

#[test]
fn answers_are_read_leniently() {
    for yes in ["y", "Y\n", " yes ", "YES\r\n", "yEs"] {
        assert!(confirm::prompt(yes), "{}", yes);
    }
    for no in ["", "\n", "n", "yess", "y e s", "ja", "\u{212a}"] {
        assert!(!confirm::prompt(no), "{}", no);
    }
    assert!(confirm::require(true, None).is_ok());
    assert!(confirm::require(false, Some("y")).is_ok());
    assert_eq!(
        confirm::require(false, Some("n")).unwrap_err().message(),
        "Operation cancelled by user."
    );
    assert!(confirm::require(false, None).is_err());
    assert_eq!(confirm::question("Go?"), "Go? [y/N] ");
    assert_eq!(confirm::auto_confirmed("Go?"), "[auto-confirmed] Go?");
}

#[test]
fn root_is_required() {
    assert!(require_root(0).is_ok());
    assert_eq!(
        require_root(1000).unwrap_err().message(),
        "This command requires root privileges.\nPlease run with sudo or as root."
    );
}

#[test]
fn numbers_are_read_and_written() {
    for n in [0u64, 7, 10, 99, 100, 4096, u64::MAX] {
        assert_eq!(decimal_text(n), n.to_string());
        assert_eq!(parse_u64(&n.to_string()), Some(n));
    }
    for n in [0, 5, -5, i32::MIN, i32::MAX] {
        assert_eq!(signed_text(n), n.to_string());
        assert_eq!(code_text(Some(n)), format!("{:?}", Some(n)));
    }
    assert_eq!(code_text(None), "None");
    let texts = [
        "", "+", "-", "+5", "++5", "-0", "007", "18446744073709551615", "18446744073709551616",
        "99999999999999999999", "4294967295", "4294967296", " 1", "1 ", "1a", "\u{0661}",
    ];
    for text in texts {
        assert_eq!(parse_u64(text), text.parse::<u64>().ok(), "{}", text);
        assert_eq!(parse_u32(text), text.parse::<u32>().ok(), "{}", text);
    }
}

#[test]
fn whitespace_is_that_of_unicode() {
    for p in 0..=0x10ffffu32 {
        if let Some(c) = char::from_u32(p) {
            assert_eq!(is_whitespace(c), c.is_whitespace(), "{:x}", p);
        }
    }
}

#[test]
fn texts_are_taken_apart_as_the_standard_library_does() {
    let samples = [
        "", " ", "a", " a b\tc ", "\u{a0}x\u{3000}", "one\ntwo\r\nthree", "\n", "\r\n", "a\r", "a\n\nb\n",
        "\r\r\n", "busy", "target is busy.", "bus y",
    ];
    for s in samples {
        assert_eq!(trim(s), s.trim());
        assert_eq!(fields_of(s), s.split_whitespace().collect::<Vec<_>>());
        assert_eq!(lines_of(s), s.lines().collect::<Vec<_>>());
        for needle in ["", "busy", "a", "\n", "two"] {
            assert_eq!(contains(s, needle), s.contains(needle));
        }
    }
    assert_eq!(replace_char("a\0b\0", '\0', ' '), "a b ");
}

#[test]
fn paths_are_taken_apart_as_the_standard_library_does() {
    let samples = [
        "", "/", "a", "/a", "/a/", "/a/b", "//a//b", "/a/./b", "./a", "a/.", ".", "/.", "/ab", "/a/b/c", "..",
        "/a/../b",
    ];
    for a in samples {
        assert_eq!(components_of(a).len(), Path::new(a).components().count(), "{}", a);
        for b in samples {
            assert_eq!(is_under(a, b), Path::new(a).starts_with(b), "{} {}", a, b);
            assert_eq!(path_join(a, b), Path::new(a).join(b).to_str().unwrap(), "{} {}", a, b);
        }
    }
}

#[test]
fn the_state_lies_at_the_usual_or_a_chosen_place() {
    let mut location = StateLocation::new();
    assert_eq!(location.state_path(), "/var/lib/schelk/state.json");
    assert_eq!(location.state_dir(), "/var/lib/schelk");
    assert_eq!(location.lock_path(), "/var/lib/schelk/schelk.lock");
    assert_eq!(save(&location).1, "/var/lib/schelk/.state.json.tmp");
    location.set_path_override("here.json".to_string());
    assert_eq!(location.state_path(), "here.json");
    assert_eq!(location.state_dir(), "");
    assert_eq!(location.lock_path(), "schelk.lock");
    let root = StateLocation { chosen: Some("/".to_string()) };
    assert_eq!(root.state_dir(), "/");
    assert_eq!(directory_or_root(None), "/");
    assert_eq!(directory_or_root(Some("/x".to_string())), "/x");
    assert_eq!(default_dm_era_name(), "bench_era");
    assert_eq!(
        lock_held("/l", "EAGAIN"),
        "Another schelk process is already running (flock on /l): EAGAIN"
    );
}

#[test]
fn the_directory_is_the_path_without_its_last_component() {
    let samples = [
        "a", "/a", "/a/", "/a/b", "//a//b", "/a/./b", "./a", "a/.", ".", "..", "/..", "/a/../b",
        "a/b/.//", "./.",
    ];
    for path in samples {
        let dir = StateLocation { chosen: Some(path.to_string()) }.state_dir();
        let all = components_of(path);
        assert_eq!(components_of(&dir), all[..all.len() - 1], "{}", path);
    }
    for path in ["", "/", "//", "/.", "/./."] {
        let dir = StateLocation { chosen: Some(path.to_string()) }.state_dir();
        assert_eq!(dir, "/", "{}", path);
        assert_eq!(components_of(&dir), ["/"]);
    }
}

#[test]
fn saving_goes_through_a_temporary_file() {
    let mut step = save(&StateLocation::new()).0;
    let mut seen = Vec::new();
    while step != SaveStep::Saved {
        seen.push(step.failure());
        step = step.advance();
    }
    assert_eq!(
        seen,
        [
            "Failed to create state directory",
            "Failed to create temp state file",
            "Failed to write temp state file",
            "Failed to fsync state file",
            "Failed to rename state file",
            "Failed to fsync state directory",
        ]
    );
}

fn state(granularity: u64) -> AppState {
    AppState {
        virgin: "/dev/a".to_string(),
        scratch: "/dev/b".to_string(),
        ramdisk: "/dev/ram0".to_string(),
        mount_point: "/mnt".to_string(),
        fstype: "ext4".to_string(),
        mount_options: None,
        granularity,
        virgin_superblock_hash: [0; 32],
        dm_era_name: "my_custom_era".to_string(),
        is_mounted: true,
        current_era: Some(0x1_0000_0003),
    }
}

#[test]
fn every_state_that_was_saved_is_loaded_back() {
    assert!(load(StoredState::Missing).unwrap().is_none());
    assert_eq!(load(StoredState::Corrupted).unwrap_err(), "State file is corrupted");
    for granularity in [0, 512, 4096, u64::MAX] {
        let fields = state(granularity).into_stored();
        let loaded = load(StoredState::Parsed { fields }).unwrap().unwrap();
        assert_eq!(format!("{:?}", loaded), format!("{:?}", state(granularity)));
        assert_eq!(loaded.since_era(), 3);
        assert_eq!(loaded.duplicate().mount_point, "/mnt");
    }
}

fn text_of(value: &serde_json::Value, key: &str) -> Option<String> {
    value.get(key).and_then(|v| v.as_str()).map(|s| s.to_string())
}

fn fields_of_json(json: &str) -> StoredFields {
    let value = serde_json::from_str::<serde_json::Value>(json).unwrap();
    let mut hash = [0u8; 32];
    for (i, byte) in value["virgin_superblock_hash"].as_array().unwrap().iter().enumerate() {
        hash[i] = byte.as_u64().unwrap() as u8;
    }
    StoredFields {
        virgin: text_of(&value, "virgin").unwrap(),
        scratch: text_of(&value, "scratch").unwrap(),
        ramdisk: text_of(&value, "ramdisk").unwrap(),
        mount_point: text_of(&value, "mount_point").unwrap(),
        fstype: text_of(&value, "fstype").unwrap(),
        mount_options: text_of(&value, "mount_options"),
        granularity: value["granularity"].as_u64().unwrap(),
        virgin_superblock_hash: hash,
        dm_era_name: text_of(&value, "dm_era_name"),
        is_mounted: value["is_mounted"].as_bool().unwrap(),
        current_era: value["current_era"].as_u64(),
    }
}

#[test]
fn old_state_without_dm_era_name_uses_default() {
    // A state file from before the name was stored.
    let json = r#"{
        "virgin": "/dev/nvme1n1",
        "scratch": "/dev/nvme2n1",
        "ramdisk": "/dev/ram0",
        "mount_point": "/schelk",
        "fstype": "ext4",
        "mount_options": null,
        "granularity": 4096,
        "virgin_superblock_hash": [0,0,0,0,0,0,0,0,0,0,0,0,0,0,0,0,0,0,0,0,0,0,0,0,0,0,0,0,0,0,0,0],
        "is_mounted": false,
        "current_era": null
    }"#;
    let loaded = load(StoredState::Parsed { fields: fields_of_json(json) }).unwrap().unwrap();
    assert_eq!(loaded.dm_era_name, DM_ERA_NAME);
    assert_eq!(loaded.dm_era_name, "bench_era");
    assert_eq!(loaded.virgin, "/dev/nvme1n1");
    assert_eq!(loaded.granularity, 4096);
}

#[test]
fn custom_dm_era_name_roundtrips() {
    let state = AppState {
        virgin: "/dev/a".to_string(),
        scratch: "/dev/b".to_string(),
        ramdisk: "/dev/ram0".to_string(),
        mount_point: "/mnt".to_string(),
        fstype: "ext4".to_string(),
        mount_options: None,
        granularity: 4096,
        virgin_superblock_hash: [0u8; 32],
        dm_era_name: "my_custom_era".to_string(),
        is_mounted: false,
        current_era: None,
    };
    let loaded = load(StoredState::Parsed { fields: state.into_stored() }).unwrap().unwrap();
    assert_eq!(loaded.dm_era_name, "my_custom_era");
}

#[test]
fn steps_are_timed() {
    let report = StepTimer::start("recover", "total", 100).finish(350);
    assert_eq!((report.operation, report.step), ("recover", "total"));
    assert_eq!((report.elapsed, report.end), (250, StepEnd::Completed));
    let late = StepTimer::start("a", "b", 100).finish_with(50, StepEnd::Abandoned);
    assert_eq!((late.elapsed, late.end), (0, StepEnd::Abandoned));
}

#[test]
fn the_status_is_the_default_command() {
    let cli = Cli { yes: false, state_path: None, command: None };
    assert!(matches!(cli.into_command(), Command::Status));
    assert!(!Command::Status.refuses_signals());
    assert!(Command::FullRecover.refuses_signals());
    assert!(Command::Mount.refuses_signals());
    assert!(Command::Recover { kill: false }.refuses_signals());
    assert!(Command::Restore { kill: false }.refuses_signals());
    assert!(Command::Promote { kill: true }.refuses_signals());
    assert_eq!(version_string("0.1.0", Some("abc1234")), "0.1.0 (abc1234)");
    assert_eq!(version_string("0.1.0", None), "0.1.0");
    assert!(signal_refusal(42).ends_with("use: kill -9 42"));
}
