//! The command `status`.

use vstd::prelude::*;
use vstd::string::*;
use crate::state::AppState;
use crate::text::{decimal, decimal_text, joined, texts};

verus! {

/// The lower-case hexadecimal digit `d`.
pub open spec fn hex_digit(d: u8) -> char {
    if d < 10 {
        (48 + d) as char
    } else {
        (87 + d) as char
    }
}

/// The bytes in lower-case hexadecimal, two digits each.
pub open spec fn hex_words(bytes: Seq<u8>) -> Seq<char>
    decreases bytes.len(),
{
    if bytes.len() == 0 {
        Seq::empty()
    } else {
        hex_words(bytes.drop_last()).push(hex_digit(bytes.last() / 16)).push(
            hex_digit(bytes.last() % 16),
        )
    }
}

fn hex_char(d: u8) -> (c: char)
    requires
        d < 16,
    ensures
        c == hex_digit(d),
{
    if d < 10 {
        (48 + d) as char
    } else {
        (87 + d) as char
    }
}

/// The bytes in lower-case hexadecimal.
pub fn hex_encode(bytes: &[u8]) -> (s: String)
    ensures
        s@ == hex_words(bytes@),
{
    let mut s = String::new();
    let mut i: usize = 0;
    assert(bytes@.take(0) =~= Seq::<u8>::empty());
    while i < bytes.len()
        invariant
            i <= bytes@.len(),
            s@ == hex_words(bytes@.take(i as int)),
        decreases bytes@.len() - i,
    {
        let b: u8 = bytes[i];
        assert(bytes@.take(i + 1).drop_last() =~= bytes@.take(i as int));
        s.push(hex_char(b / 16));
        s.push(hex_char(b % 16));
        i = i + 1;
    }
    assert(bytes@.take(bytes@.len() as int) =~= bytes@);
    s
}

/// The lines on the configuration.
pub open spec fn configuration_lines(state_path: Seq<char>, s: AppState) -> Seq<Seq<char>> {
    seq![
        "schelk status"@,
        "============="@,
        ""@,
        "State file: "@ + state_path,
        ""@,
        "Configuration:"@,
        "  Virgin volume:  "@ + s.virgin@,
        "  Scratch volume: "@ + s.scratch@,
        "  RAM disk:       "@ + s.ramdisk@,
        "  Mount point:    "@ + s.mount_point@,
    ] + (match s.mount_options {
        Some(options) => seq!["  Mount options:  "@ + options@],
        None => Seq::empty(),
    }) + seq!["  Granularity:    "@ + decimal(s.granularity as nat) + " bytes"@, ""@]
}

/// The lines on what is mounted, and whether that is what the state says.
pub open spec fn runtime_lines(s: AppState, device_exists: bool, actually_mounted: bool) -> Seq<
    Seq<char>,
> {
    if s.is_mounted {
        seq![
            "Runtime status:"@,
            "  Mounted: yes (state)"@,
            if actually_mounted {
                "  Mounted: yes (actual)"@
            } else {
                "  Mounted: NO (actual) - state inconsistent!"@
            },
            if device_exists {
                "  dm-era device: active"@
            } else {
                "  dm-era device: MISSING (state inconsistent, possible crash)"@
            },
        ] + (match s.current_era {
            Some(era) => seq!["  Current era: "@ + decimal(era as nat)],
            None => Seq::empty(),
        })
    } else {
        seq![
            "Runtime status:"@,
            "  Mounted: no (state)"@,
            if actually_mounted {
                "  Mounted: YES (actual) - state inconsistent!"@
            } else {
                "  Mounted: no (actual)"@
            },
            if device_exists {
                "  dm-era device: EXISTS (state inconsistent, stale device?)"@
            } else {
                "  dm-era device: none"@
            },
        ]
    }
}

/// The lines of the report.
pub open spec fn status_lines(
    state_path: Seq<char>,
    state: Option<AppState>,
    device_exists: bool,
    actually_mounted: bool,
) -> Seq<Seq<char>> {
    match state {
        None => seq![
            "schelk is not initialized."@,
            ""@,
            "Run 'schelk init' to configure schelk with your volumes."@,
        ],
        Some(s) => configuration_lines(state_path, s) + runtime_lines(
            s,
            device_exists,
            actually_mounted,
        ) + seq![
            ""@,
            "Volume checksum:"@,
            "  Superblock hash: "@ + hex_words(s.virgin_superblock_hash@),
        ],
    }
}

fn configuration(state_path: &str, s: &AppState) -> (lines: Vec<String>)
    ensures
        texts(lines@) == configuration_lines(state_path@, *s),
{
    let mut lines: Vec<String> = Vec::new();
    lines.push("schelk status".to_owned());
    lines.push("=============".to_owned());
    lines.push("".to_owned());
    lines.push(joined("State file: ", state_path));
    lines.push("".to_owned());
    lines.push("Configuration:".to_owned());
    lines.push(joined("  Virgin volume:  ", s.virgin.as_str()));
    lines.push(joined("  Scratch volume: ", s.scratch.as_str()));
    lines.push(joined("  RAM disk:       ", s.ramdisk.as_str()));
    lines.push(joined("  Mount point:    ", s.mount_point.as_str()));
    match &s.mount_options {
        Some(options) => {
            lines.push(joined("  Mount options:  ", options.as_str()));
        },
        None => {},
    }
    let mut granularity = joined("  Granularity:    ", decimal_text(s.granularity).as_str());
    granularity.append(" bytes");
    lines.push(granularity);
    lines.push("".to_owned());
    assert(texts(lines@) =~= configuration_lines(state_path@, *s));
    lines
}

fn runtime(s: &AppState, device_exists: bool, actually_mounted: bool) -> (lines: Vec<String>)
    ensures
        texts(lines@) == runtime_lines(*s, device_exists, actually_mounted),
{
    let mut lines: Vec<String> = Vec::new();
    lines.push("Runtime status:".to_owned());
    if s.is_mounted {
        lines.push("  Mounted: yes (state)".to_owned());
        if actually_mounted {
            lines.push("  Mounted: yes (actual)".to_owned());
        } else {
            lines.push("  Mounted: NO (actual) - state inconsistent!".to_owned());
        }
        if device_exists {
            lines.push("  dm-era device: active".to_owned());
        } else {
            lines.push(
                "  dm-era device: MISSING (state inconsistent, possible crash)".to_owned(),
            );
        }
        match s.current_era {
            Some(era) => {
                lines.push(joined("  Current era: ", decimal_text(era).as_str()));
            },
            None => {},
        }
    } else {
        lines.push("  Mounted: no (state)".to_owned());
        if actually_mounted {
            lines.push("  Mounted: YES (actual) - state inconsistent!".to_owned());
        } else {
            lines.push("  Mounted: no (actual)".to_owned());
        }
        if device_exists {
            lines.push("  dm-era device: EXISTS (state inconsistent, stale device?)".to_owned());
        } else {
            lines.push("  dm-era device: none".to_owned());
        }
    }
    assert(texts(lines@) =~= runtime_lines(*s, device_exists, actually_mounted));
    lines
}

/// Reports the status; `device_exists` and `actually_mounted` are what was found,
/// whatever the state says.
pub fn run(
    state_path: &str,
    state: Option<&AppState>,
    device_exists: bool,
    actually_mounted: bool,
) -> (lines: Vec<String>)
    ensures
        texts(lines@) == status_lines(
            state_path@,
            match state {
                Some(s) => Some(*s),
                None => None,
            },
            device_exists,
            actually_mounted,
        ),
{
    match state {
        None => {
            let mut lines: Vec<String> = Vec::new();
            lines.push("schelk is not initialized.".to_owned());
            lines.push("".to_owned());
            lines.push("Run 'schelk init' to configure schelk with your volumes.".to_owned());
            assert(texts(lines@) =~= seq![
                "schelk is not initialized."@,
                ""@,
                "Run 'schelk init' to configure schelk with your volumes."@,
            ]);
            lines
        },
        Some(s) => {
            let mut lines = configuration(state_path, s);
            let mut rest = runtime(s, device_exists, actually_mounted);
            let ghost head = lines@;
            let ghost tail = rest@;
            lines.append(&mut rest);
            assert(texts(lines@) =~= texts(head) + texts(tail));
            lines.push("".to_owned());
            lines.push("Volume checksum:".to_owned());
            lines.push(
                joined("  Superblock hash: ", hex_encode(&s.virgin_superblock_hash).as_str()),
            );
            assert(texts(lines@) =~= status_lines(
                state_path@,
                Some(*s),
                device_exists,
                actually_mounted,
            ));
            lines
        },
    }
}

/// Where the state, the mount and the dm-era device agree, the report names no
/// inconsistency; where they disagree, it does.
pub proof fn law_status_names_inconsistencies(s: AppState, device_exists: bool, mounted: bool)
    ensures
        runtime_lines(s, device_exists, mounted)[2] == (if s.is_mounted && mounted {
            "  Mounted: yes (actual)"@
        } else if s.is_mounted {
            "  Mounted: NO (actual) - state inconsistent!"@
        } else if mounted {
            "  Mounted: YES (actual) - state inconsistent!"@
        } else {
            "  Mounted: no (actual)"@
        }),
        runtime_lines(s, device_exists, mounted)[3] == (if s.is_mounted && device_exists {
            "  dm-era device: active"@
        } else if s.is_mounted {
            "  dm-era device: MISSING (state inconsistent, possible crash)"@
        } else if device_exists {
            "  dm-era device: EXISTS (state inconsistent, stale device?)"@
        } else {
            "  dm-era device: none"@
        }),
{
}

/// What the report shows of the configuration, each value under its own name.
pub proof fn law_status_shows_the_configuration(state_path: Seq<char>, s: AppState)
    ensures
        ({
            let lines = configuration_lines(state_path, s);
            let shift: int = if s.mount_options is Some {
                1
            } else {
                0
            };
            &&& lines.len() == 12 + shift
            &&& lines[0] == "schelk status"@
            &&& lines[1] == "============="@
            &&& lines[3] == "State file: "@ + state_path
            &&& lines[5] == "Configuration:"@
            &&& lines[6] == "  Virgin volume:  "@ + s.virgin@
            &&& lines[7] == "  Scratch volume: "@ + s.scratch@
            &&& lines[8] == "  RAM disk:       "@ + s.ramdisk@
            &&& lines[9] == "  Mount point:    "@ + s.mount_point@
            &&& s.mount_options matches Some(options) ==> lines[10] == "  Mount options:  "@
                + options@
            &&& lines[10 + shift] == "  Granularity:    "@ + decimal(s.granularity as nat)
                + " bytes"@
        }),
{
}

/// What the report shows of the runtime: whether the state is mounted, and the era where it
/// is and has one.
pub proof fn law_status_shows_the_state(s: AppState, device_exists: bool, mounted: bool)
    ensures
        ({
            let lines = runtime_lines(s, device_exists, mounted);
            &&& lines[0] == "Runtime status:"@
            &&& lines[1] == if s.is_mounted {
                "  Mounted: yes (state)"@
            } else {
                "  Mounted: no (state)"@
            }
            &&& s.is_mounted && s.current_era is Some ==> lines.len() == 5 && lines[4]
                == "  Current era: "@ + decimal(s.current_era->0 as nat)
            &&& !s.is_mounted || s.current_era is None ==> lines.len() == 4
        }),
{
}

/// The report is the configuration, the runtime and the checksum, in this order; without a
/// state it says that there is none.
pub proof fn law_status_is_the_three_parts(
    state_path: Seq<char>,
    s: AppState,
    device_exists: bool,
    mounted: bool,
)
    ensures
        status_lines(state_path, Some(s), device_exists, mounted) == configuration_lines(
            state_path,
            s,
        ) + runtime_lines(s, device_exists, mounted) + seq![
            ""@,
            "Volume checksum:"@,
            "  Superblock hash: "@ + hex_words(s.virgin_superblock_hash@),
        ],
        status_lines(state_path, None, device_exists, mounted)[0] == "schelk is not initialized."@,
{
}

/// Each byte is shown by two digits, the higher one first, so that the bytes can be read
/// back from them.
pub proof fn law_each_byte_has_two_digits(bytes: Seq<u8>, i: int)
    requires
        0 <= i < bytes.len(),
    ensures
        hex_words(bytes).len() == 2 * bytes.len(),
        ({
            let value = |c: char|
                if c <= '9' {
                    c as int - 48
                } else {
                    c as int - 87
                };
            let high = hex_words(bytes)[2 * i];
            let low = hex_words(bytes)[2 * i + 1];
            &&& '0' <= high <= '9' || 'a' <= high <= 'f'
            &&& '0' <= low <= '9' || 'a' <= low <= 'f'
            &&& 16 * value(high) + value(low) == bytes[i]
        }),
    decreases bytes.len(),
{
    let head = bytes.drop_last();
    if i < head.len() {
        law_each_byte_has_two_digits(head, i);
    } else {
        lemma_hex_len(head);
    }
}

proof fn lemma_hex_len(bytes: Seq<u8>)
    ensures
        hex_words(bytes).len() == 2 * bytes.len(),
    decreases bytes.len(),
{
    if bytes.len() > 0 {
        lemma_hex_len(bytes.drop_last());
    }
}

} // verus!
