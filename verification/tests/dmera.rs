use schelk::cmd::Output;
use schelk::dmera::{
    ChangedBlocksError, DM_ERA_NAME, EraInvalidate, check_dmsetup, check_era_invalidate,
    checkpoint, create, device_exists, device_path, drop_metadata_snapshot, get_changed_blocks,
    is_version_below_1_0, list_changed_blocks, parse_era_invalidate_xml, remove,
    take_metadata_snapshot,
};
use schelk::{cmd, volume};

#[test]
fn test_parse_era_invalidate_xml() {
    let xml = r#"
<blocks>
  <range begin="0" end="10"/>
  <range begin="100" end="150"/>
</blocks>
"#;
    let ranges = parse_era_invalidate_xml(xml).unwrap();
    assert_eq!(ranges.len(), 2);
    assert_eq!(ranges[0].start, 0);
    assert_eq!(ranges[0].len, 10);
    assert_eq!(ranges[1].start, 100);
    assert_eq!(ranges[1].len, 50);
}

#[test]
fn test_version_below_1_0() {
    assert!(is_version_below_1_0("0.9.0"));
    assert!(is_version_below_1_0("0.1.0"));
    assert!(is_version_below_1_0("0.9.0-rc1"));
    assert!(!is_version_below_1_0("1.0.0"));
    assert!(!is_version_below_1_0("1.0.12"));
    assert!(!is_version_below_1_0("2.0.0"));
}

#[test]
fn test_parse_era_invalidate_xml_real_format() {
    // Real format from era_invalidate: spaces around = and <block> elements
    let xml = r#"
<blocks>
  <range begin="0" end = "2"/>
  <block block="1028"/>
  <block block="1043"/>
  <range begin="1081363" end = "1081374"/>
</blocks>
"#;
    let ranges = parse_era_invalidate_xml(xml).unwrap();
    assert_eq!(ranges.len(), 4);
    assert_eq!(ranges[0].start, 0);
    assert_eq!(ranges[0].len, 2);
    assert_eq!(ranges[1].start, 1028);
    assert_eq!(ranges[1].len, 1);
    assert_eq!(ranges[2].start, 1043);
    assert_eq!(ranges[2].len, 1);
    assert_eq!(ranges[3].start, 1081363);
    assert_eq!(ranges[3].len, 11);
}

fn parse_error(xml: &str) -> String {
    parse_era_invalidate_xml(xml).unwrap_err().message()
}

#[test]
fn versions_without_a_number_are_not_below_1_0() {
    assert!(!is_version_below_1_0(""));
    assert!(!is_version_below_1_0("v0.9"));
    assert!(!is_version_below_1_0("99999999999.0"));
    assert!(is_version_below_1_0("00"));
    assert!(is_version_below_1_0("+0.1"));
}

#[test]
fn empty_ranges_and_other_elements_are_passed_over() {
    let xml = r#"<blocks><range begin="5" end="5"/><range begin="9" end="3"/><other x="1"/>
        <block block="7" extra="y"/><range begin="1" end="2"></range></blocks>"#;
    let ranges = parse_era_invalidate_xml(xml).unwrap();
    assert_eq!(ranges.len(), 1);
    assert_eq!(ranges[0].start, 7);
    assert!(parse_era_invalidate_xml("").unwrap().is_empty());
}

#[test]
fn each_attribute_error_is_named() {
    assert_eq!(parse_error(r#"<range end="5"/>"#), "Missing 'begin' attribute");
    assert_eq!(parse_error(r#"<range begin="5"/>"#), "Missing 'end' attribute");
    assert_eq!(parse_error(r#"<block/>"#), "Missing 'block' attribute");
    assert_eq!(parse_error(r#"<range begin="x" end="5"/>"#), "Invalid 'begin' value");
    assert_eq!(parse_error(r#"<range begin="1" end="-5"/>"#), "Invalid 'end' value");
    assert_eq!(
        parse_error(r#"<block block="18446744073709551616"/>"#),
        "Invalid 'block' value"
    );
    assert_eq!(
        parse_error(r#"<block block="&nosuch;"/>"#),
        "Invalid UTF-8 in 'block' attribute"
    );
    assert_eq!(
        parse_error(r#"<range begin="1" end="&nosuch;"/>"#),
        "Invalid UTF-8 in 'end' attribute"
    );
}

#[test]
fn the_first_problem_is_reported() {
    assert_eq!(
        parse_error(r#"<blocks><block block="a"/><block/></blocks>"#),
        "Invalid 'block' value"
    );
    assert!(parse_error("<blocks><block block=\"1\"/></wrong>").starts_with("XML parse error: "));
    assert!(matches!(
        parse_era_invalidate_xml("<unclosed"),
        Err(ChangedBlocksError::Malformed { .. })
    ));
}

#[test]
fn entities_in_attributes_are_unescaped() {
    let ranges = parse_era_invalidate_xml(r#"<block block="&#49;2"/>"#).unwrap();
    assert_eq!(ranges[0].start, 12);
}

#[test]
fn changed_blocks_need_a_successful_run_and_text() {
    let failed = get_changed_blocks(false, Some("<blocks/>"), "  no metadata\n").unwrap_err();
    assert_eq!(failed.message(), "era_invalidate failed: no metadata");
    let binary = get_changed_blocks(true, None, "").unwrap_err();
    assert_eq!(binary.message(), "era_invalidate output is not valid UTF-8");
    let ranges = get_changed_blocks(true, Some("<blocks><block block=\"3\"/></blocks>"), "").unwrap();
    assert_eq!((ranges[0].start, ranges[0].len), (3, 1));
}

#[test]
fn device_commands_are_spelled_out() {
    assert_eq!(device_path(DM_ERA_NAME), "/dev/mapper/bench_era");
    assert_eq!(device_exists("a").args, ["info", "a"]);
    assert_eq!(
        create("a", "/dev/ram0", "/dev/b", 1 << 20, 4096).args,
        ["create", "a", "--table", "0 2048 era /dev/ram0 /dev/b 8"]
    );
    assert_eq!(checkpoint("a").args, ["message", "a", "0", "checkpoint"]);
    assert_eq!(remove("a").args, ["remove", "a"]);
    assert_eq!(take_metadata_snapshot("a").args, ["message", "a", "0", "take_metadata_snap"]);
    assert_eq!(drop_metadata_snapshot("a").args, ["message", "a", "0", "drop_metadata_snap"]);
    let list = list_changed_blocks("/dev/ram0", 1);
    assert_eq!(list.program, "era_invalidate");
    assert_eq!(list.args, ["--metadata-snapshot", "--written-since", "1", "/dev/ram0"]);
    let mkfs = volume::mkfs_ext4("/dev/v");
    assert_eq!(mkfs.program, "mkfs.ext4");
    assert_eq!(
        mkfs.args,
        [
            "-F", "-b", "4096", "-L", "schelk", "-U", "00000000-0000-0000-0000-000000000000",
            "/dev/v",
        ]
    );
}

#[test]
fn missing_tools_are_named() {
    assert!(check_dmsetup(true).is_ok());
    assert_eq!(
        check_dmsetup(false).unwrap_err(),
        "dmsetup not found in PATH. Install device-mapper tools (e.g., apt install dmsetup)."
    );
    assert_eq!(
        check_era_invalidate(false, None).unwrap_err(),
        "era_invalidate not found in PATH. Install thin-provisioning-tools (e.g., apt install thin-provisioning-tools)."
    );
    assert!(matches!(check_era_invalidate(true, Some("1.0.4\n")), Ok(EraInvalidate::Usable)));
    match check_era_invalidate(true, Some("0.9.0\n")) {
        Ok(EraInvalidate::Slow { warning }) => {
            assert!(warning.starts_with("Warning: era_invalidate version 0.9.0 is slow."))
        }
        _ => panic!("a warning is due"),
    }
    assert_eq!(
        volume::check_mkfs_ext4(false).unwrap_err(),
        "mkfs.ext4 not found in PATH. Install e2fsprogs (e.g., apt install e2fsprogs)."
    );
}

fn output(success: bool, stderr: &str, code: Option<i32>) -> Option<Output> {
    Some(Output { stdout: String::new(), stderr: stderr.to_string(), success, code })
}

#[test]
fn program_failures_are_explained() {
    assert!(cmd::run("x", output(true, "noise", Some(0))).is_ok());
    assert_eq!(cmd::run("x", output(false, " bad \n", Some(2))).unwrap_err(), "x failed: bad");
    assert_eq!(
        cmd::run("x", output(false, " \n", Some(-2))).unwrap_err(),
        "x failed with exit code Some(-2)"
    );
    assert_eq!(
        cmd::run("x", output(false, "", None)).unwrap_err(),
        "x failed with exit code None"
    );
    assert_eq!(cmd::run("x", None).unwrap_err(), "Failed to execute x");
    assert!(cmd::run_unchecked("x", output(false, "", Some(1))).is_ok());
    assert!(cmd::is_available(Some(true)));
    assert!(!cmd::is_available(Some(false)));
    assert!(!cmd::is_available(None));
    assert_eq!(cmd::which("dmsetup").args, ["dmsetup"]);
}
