//! The dm-era device: the programs that manage it, and the changed blocks that
//! `era_invalidate` reports.

use vstd::prelude::*;
use vstd::string::*;
use crate::chunks::{BlockRange, blocks_cover, range_has};
use crate::cmd::{Invocation, args_of, missing_words, require};
use crate::text::{
    chars_of, decimal, decimal_text, find, is_digit, joined, lacks,
    law_a_search_ends_at_the_first_place, law_bounded_numbers_are_read, law_decimal_is_digits,
    parse_u32, parse_u64, path_join, path_joined,
    string_of, texts, trim, trimmed, unsigned, unsigned_up_to,
};
use crate::xml::{
    XmlAttribute, XmlAttributeView, XmlToken, XmlTokenView, document_tokens, token_views, tokens_of,
};

verus! {

/// The name of the dm-era target where none was chosen.
pub const DM_ERA_NAME: &'static str = "bench_era";

/// The path of the dm-era device with this name.
pub open spec fn mapper_path(name: Seq<char>) -> Seq<char> {
    path_joined("/dev/mapper"@, name)
}

/// The path of the dm-era device with this name.
pub fn device_path(name: &str) -> (path: String)
    ensures
        path@ == mapper_path(name@),
{
    path_join("/dev/mapper", name)
}

/// Requires `dmsetup`; `available` is whether it was found.
pub fn check_dmsetup(available: bool) -> (checked: Result<(), String>)
    ensures
        match checked {
            Ok(_) => available,
            Err(m) => !available && m@ == missing_words(
                "dmsetup"@,
                "device-mapper tools (e.g., apt install dmsetup)"@,
            ),
        },
{
    require("dmsetup", "device-mapper tools (e.g., apt install dmsetup)", available)
}

/// Asks for the version of `era_invalidate`.
pub fn era_invalidate_version() -> (ask: Invocation)
    ensures
        ask.runs("era_invalidate"@, seq!["-V"@]),
{
    let args = args_of(&["-V"]);
    assert(texts(args@) =~= seq!["-V"@]);
    Invocation { program: "era_invalidate".to_owned(), args }
}

/// What is known of the installed `era_invalidate`.
#[derive(Debug)]
pub enum EraInvalidate {
    /// Nothing to remark.
    Usable,
    /// It works, but this warning is due.
    Slow { warning: String },
}

/// The warning that is due for a version below 1.0.
pub open spec fn slow_words(version: Seq<char>) -> Seq<char> {
    "Warning: era_invalidate version "@ + version
        + " is slow. For better performance, compile version 1.0+ from https://github.com/device-mapper-utils/thin-provisioning-tools"@
}

/// Requires `era_invalidate`; `available` is whether it was found, and `version` is
/// what it printed as its version, if it did.
pub fn check_era_invalidate(available: bool, version: Option<&str>) -> (checked: Result<
    EraInvalidate,
    String,
>)
    ensures
        match checked {
            Err(m) => !available && m@ == missing_words(
                "era_invalidate"@,
                "thin-provisioning-tools (e.g., apt install thin-provisioning-tools)"@,
            ),
            Ok(EraInvalidate::Slow { warning }) => {
                &&& available
                &&& version matches Some(v) && below_1_0(trimmed(v@)) && warning@ == slow_words(
                    trimmed(v@),
                )
            },
            Ok(EraInvalidate::Usable) => available && (version matches Some(v) ==> !below_1_0(
                trimmed(v@),
            )),
        },
{
    match require(
        "era_invalidate",
        "thin-provisioning-tools (e.g., apt install thin-provisioning-tools)",
        available,
    ) {
        Ok(_) => {},
        Err(m) => {
            return Err(m);
        },
    }
    match version {
        Some(v) => {
            let shown = trim(v);
            if is_version_below_1_0(shown.as_str()) {
                let mut warning = joined("Warning: era_invalidate version ", shown.as_str());
                warning.append(
                    " is slow. For better performance, compile version 1.0+ from https://github.com/device-mapper-utils/thin-provisioning-tools",
                );
                Ok(EraInvalidate::Slow { warning })
            } else {
                Ok(EraInvalidate::Usable)
            }
        },
        None => Ok(EraInvalidate::Usable),
    }
}

/// Whether a version is below 1.0: what stands before the first dot is the
/// number zero.
pub open spec fn below_1_0(version: Seq<char>) -> bool {
    unsigned_up_to(version.take(find(version, '.') as int), u32::MAX as nat) == Some(0nat)
}

/// Whether a version is below 1.0.
pub fn is_version_below_1_0(version: &str) -> (below: bool)
    ensures
        below == below_1_0(version@),
{
    let chars = chars_of(version);
    assert(chars@.skip(0) =~= version@);
    let end: usize = crate::text::find_from(&chars, 0, '.');
    let major = string_of(&chars, 0, end);
    assert(major@ =~= version@.take(end as int));
    match parse_u32(major.as_str()) {
        Some(n) => n < 1,
        None => false,
    }
}

// ---------------------------------------------------------------------------
// The device
// ---------------------------------------------------------------------------

/// Asks whether the device exists: it does where this succeeds.
pub fn device_exists(name: &str) -> (ask: Invocation)
    ensures
        ask.runs("dmsetup"@, seq!["info"@, name@]),
{
    let args = args_of(&["info", name]);
    assert(texts(args@) =~= seq!["info"@, name@]);
    Invocation { program: "dmsetup".to_owned(), args }
}

/// The table of a dm-era device. Sizes are in sectors of 512 bytes.
pub open spec fn table_words(
    metadata_dev: Seq<char>,
    origin_dev: Seq<char>,
    origin_size_bytes: u64,
    granularity: u64,
) -> Seq<char> {
    "0 "@ + decimal((origin_size_bytes / 512) as nat) + " era "@ + metadata_dev + " "@ + origin_dev
        + " "@ + decimal((granularity / 512) as nat)
}

/// Creates a dm-era device that tracks the writes to `origin_dev` on
/// `metadata_dev`, in blocks of `granularity` bytes.
pub fn create(
    name: &str,
    metadata_dev: &str,
    origin_dev: &str,
    origin_size_bytes: u64,
    granularity: u64,
) -> (command: Invocation)
    ensures
        command.runs(
            "dmsetup"@,
            seq![
                "create"@,
                name@,
                "--table"@,
                table_words(metadata_dev@, origin_dev@, origin_size_bytes, granularity),
            ],
        ),
{
    let mut table = "0 ".to_owned();
    table.append(decimal_text(origin_size_bytes / 512).as_str());
    table.append(" era ");
    table.append(metadata_dev);
    table.append(" ");
    table.append(origin_dev);
    table.append(" ");
    table.append(decimal_text(granularity / 512).as_str());
    let args = args_of(&["create", name, "--table", table.as_str()]);
    assert(texts(args@) =~= seq!["create"@, name@, "--table"@, table@]);
    Invocation { program: "dmsetup".to_owned(), args }
}

fn message(name: &str, text: &str) -> (command: Invocation)
    ensures
        command.runs("dmsetup"@, seq!["message"@, name@, "0"@, text@]),
{
    let args = args_of(&["message", name, "0", text]);
    assert(texts(args@) =~= seq!["message"@, name@, "0"@, text@]);
    Invocation { program: "dmsetup".to_owned(), args }
}

/// Starts a new era: writes are tracked from this point on.
pub fn checkpoint(name: &str) -> (command: Invocation)
    ensures
        command.runs("dmsetup"@, seq!["message"@, name@, "0"@, "checkpoint"@]),
{
    message(name, "checkpoint")
}

/// Removes a dm-era device.
pub fn remove(name: &str) -> (command: Invocation)
    ensures
        command.runs("dmsetup"@, seq!["remove"@, name@]),
{
    let args = args_of(&["remove", name]);
    assert(texts(args@) =~= seq!["remove"@, name@]);
    Invocation { program: "dmsetup".to_owned(), args }
}

/// Takes a snapshot of the metadata, to be read from outside the kernel.
pub fn take_metadata_snapshot(name: &str) -> (command: Invocation)
    ensures
        command.runs("dmsetup"@, seq!["message"@, name@, "0"@, "take_metadata_snap"@]),
{
    message(name, "take_metadata_snap")
}

/// Drops the snapshot of the metadata.
pub fn drop_metadata_snapshot(name: &str) -> (command: Invocation)
    ensures
        command.runs("dmsetup"@, seq!["message"@, name@, "0"@, "drop_metadata_snap"@]),
{
    message(name, "drop_metadata_snap")
}

/// Lists the blocks written since an era.
pub fn list_changed_blocks(metadata_dev: &str, since_era: u32) -> (command: Invocation)
    ensures
        command.runs(
            "era_invalidate"@,
            seq![
                "--metadata-snapshot"@,
                "--written-since"@,
                decimal(since_era as nat),
                metadata_dev@,
            ],
        ),
{
    let era = decimal_text(since_era as u64);
    let args = args_of(
        &["--metadata-snapshot", "--written-since", era.as_str(), metadata_dev],
    );
    assert(texts(args@) =~= seq!["--metadata-snapshot"@, "--written-since"@, era@, metadata_dev@]);
    Invocation { program: "era_invalidate".to_owned(), args }
}

// ---------------------------------------------------------------------------
// The changed blocks
// ---------------------------------------------------------------------------

/// An attribute that the elements of the document carry.
#[derive(Debug, Clone, Copy, PartialEq, Eq, Structural)]
pub enum BlockAttribute {
    Begin,
    End,
    Block,
}

/// Why the changed blocks could not be had.
#[derive(Debug)]
pub enum ChangedBlocksError {
    /// `era_invalidate` failed, with what it wrote to its error output.
    Failed { stderr: String },
    /// Its output is not text.
    NotText,
    /// The document is not well formed.
    Malformed { reason: String },
    /// The text of an attribute cannot be read.
    InvalidText { attribute: BlockAttribute },
    /// The value of an attribute is not a number.
    InvalidNumber { attribute: BlockAttribute },
    /// An attribute is missing.
    Missing { attribute: BlockAttribute },
}

/// The same with texts in place of strings.
pub ghost enum ChangedBlocksFault {
    Failed { stderr: Seq<char> },
    NotText,
    Malformed { reason: Seq<char> },
    InvalidText { attribute: BlockAttribute },
    InvalidNumber { attribute: BlockAttribute },
    Missing { attribute: BlockAttribute },
}

impl View for ChangedBlocksError {
    type V = ChangedBlocksFault;

    open spec fn view(&self) -> ChangedBlocksFault {
        match self {
            ChangedBlocksError::Failed { stderr } => ChangedBlocksFault::Failed { stderr: stderr@ },
            ChangedBlocksError::NotText => ChangedBlocksFault::NotText,
            ChangedBlocksError::Malformed { reason } => ChangedBlocksFault::Malformed {
                reason: reason@,
            },
            ChangedBlocksError::InvalidText { attribute } => ChangedBlocksFault::InvalidText {
                attribute: *attribute,
            },
            ChangedBlocksError::InvalidNumber { attribute } => ChangedBlocksFault::InvalidNumber {
                attribute: *attribute,
            },
            ChangedBlocksError::Missing { attribute } => ChangedBlocksFault::Missing {
                attribute: *attribute,
            },
        }
    }
}

impl BlockAttribute {
    /// The name of the attribute.
    pub open spec fn words(self) -> Seq<char> {
        match self {
            BlockAttribute::Begin => "begin"@,
            BlockAttribute::End => "end"@,
            BlockAttribute::Block => "block"@,
        }
    }

    /// The name of the attribute, in the bytes of the document.
    pub open spec fn key(self) -> Seq<u8> {
        match self {
            BlockAttribute::Begin => seq![0x62u8, 0x65u8, 0x67u8, 0x69u8, 0x6eu8],
            BlockAttribute::End => seq![0x65u8, 0x6eu8, 0x64u8],
            BlockAttribute::Block => seq![0x62u8, 0x6cu8, 0x6fu8, 0x63u8, 0x6bu8],
        }
    }

    fn is_key(self, bytes: &Vec<u8>) -> (yes: bool)
        ensures
            yes == (bytes@ == self.key()),
    {
        match self {
            BlockAttribute::Begin => {
                let b = vec![0x62u8, 0x65u8, 0x67u8, 0x69u8, 0x6eu8];
                assert(b@ =~= self.key());
                same_bytes(bytes, &b)
            },
            BlockAttribute::End => {
                let b = vec![0x65u8, 0x6eu8, 0x64u8];
                assert(b@ =~= self.key());
                same_bytes(bytes, &b)
            },
            BlockAttribute::Block => {
                let b = vec![0x62u8, 0x6cu8, 0x6fu8, 0x63u8, 0x6bu8];
                assert(b@ =~= self.key());
                same_bytes(bytes, &b)
            },
        }
    }

    fn text(self) -> (s: String)
        ensures
            s@ == self.words(),
    {
        match self {
            BlockAttribute::Begin => "begin".to_owned(),
            BlockAttribute::End => "end".to_owned(),
            BlockAttribute::Block => "block".to_owned(),
        }
    }
}

impl ChangedBlocksFault {
    /// The text of the error.
    pub open spec fn words(self) -> Seq<char> {
        match self {
            ChangedBlocksFault::Failed { stderr } => "era_invalidate failed: "@ + trimmed(stderr),
            ChangedBlocksFault::NotText => "era_invalidate output is not valid UTF-8"@,
            ChangedBlocksFault::Malformed { reason } => "XML parse error: "@ + reason,
            ChangedBlocksFault::InvalidText { attribute } => "Invalid UTF-8 in '"@
                + attribute.words() + "' attribute"@,
            ChangedBlocksFault::InvalidNumber { attribute } => "Invalid '"@ + attribute.words()
                + "' value"@,
            ChangedBlocksFault::Missing { attribute } => "Missing '"@ + attribute.words()
                + "' attribute"@,
        }
    }
}

impl ChangedBlocksError {
    /// The text of the error.
    pub fn message(&self) -> (s: String)
        ensures
            s@ == self@.words(),
    {
        match self {
            ChangedBlocksError::Failed { stderr } => joined(
                "era_invalidate failed: ",
                trim(stderr.as_str()).as_str(),
            ),
            ChangedBlocksError::NotText => "era_invalidate output is not valid UTF-8".to_owned(),
            ChangedBlocksError::Malformed { reason } => joined(
                "XML parse error: ",
                reason.as_str(),
            ),
            ChangedBlocksError::InvalidText { attribute } => {
                let mut s = joined("Invalid UTF-8 in '", attribute.text().as_str());
                s.append("' attribute");
                s
            },
            ChangedBlocksError::InvalidNumber { attribute } => {
                let mut s = joined("Invalid '", attribute.text().as_str());
                s.append("' value");
                s
            },
            ChangedBlocksError::Missing { attribute } => {
                let mut s = joined("Missing '", attribute.text().as_str());
                s.append("' attribute");
                s
            },
        }
    }
}

fn same_bytes(a: &Vec<u8>, b: &Vec<u8>) -> (same: bool)
    ensures
        same == (a@ == b@),
{
    if a.len() != b.len() {
        return false;
    }
    let mut i: usize = 0;
    while i < a.len()
        invariant
            a@.len() == b@.len(),
            i <= a@.len(),
            forall|j: int| 0 <= j < i ==> a@[j] == b@[j],
        decreases a@.len() - i,
    {
        if a[i] != b[i] {
            return false;
        }
        i = i + 1;
    }
    assert(a@ =~= b@);
    true
}

/// The bytes of the element name `range`.
pub open spec fn range_element() -> Seq<u8> {
    seq![0x72u8, 0x61u8, 0x6eu8, 0x67u8, 0x65u8]
}

/// The bytes of the element name `block`.
pub open spec fn block_element() -> Seq<u8> {
    seq![0x62u8, 0x6cu8, 0x6fu8, 0x63u8, 0x6bu8]
}

/// The number in the value of an attribute; `None` where its text cannot be read.
pub open spec fn attribute_number(
    value: Option<Seq<char>>,
    attribute: BlockAttribute,
) -> Result<u64, ChangedBlocksFault> {
    match value {
        None => Err(ChangedBlocksFault::InvalidText { attribute }),
        Some(text) => match unsigned_up_to(text, u64::MAX as nat) {
            Some(n) => Ok(n as u64),
            None => Err(ChangedBlocksFault::InvalidNumber { attribute }),
        },
    }
}

/// What the first `n` attributes of an element say of the attributes in
/// question: the last value of each, or the first fault. An attribute that is not
/// well formed is passed over.
pub open spec fn numbers(
    attributes: Seq<XmlAttributeView>,
    first: BlockAttribute,
    second: BlockAttribute,
    n: nat,
) -> Result<(Option<u64>, Option<u64>), ChangedBlocksFault>
    decreases n,
{
    if n == 0 {
        Ok((None, None))
    } else {
        match numbers(attributes, first, second, (n - 1) as nat) {
            Err(fault) => Err(fault),
            Ok((a, b)) => match attributes[n - 1] {
                XmlAttributeView::Malformed => Ok((a, b)),
                XmlAttributeView::Pair { key, value } => if key == first.key() {
                    match attribute_number(value, first) {
                        Ok(v) => Ok((Some(v), b)),
                        Err(fault) => Err(fault),
                    }
                } else if key == second.key() {
                    match attribute_number(value, second) {
                        Ok(v) => Ok((a, Some(v))),
                        Err(fault) => Err(fault),
                    }
                } else {
                    Ok((a, b))
                },
            },
        }
    }
}

/// The blocks that an element stands for: those from `begin` up to `end` for a
/// range, one for a block, none for any other element.
pub open spec fn element_blocks(
    name: Seq<u8>,
    attributes: Seq<XmlAttributeView>,
) -> Result<Seq<BlockRange>, ChangedBlocksFault> {
    if name == range_element() {
        match numbers(attributes, BlockAttribute::Begin, BlockAttribute::End, attributes.len()) {
            Err(fault) => Err(fault),
            Ok((None, _)) => Err(ChangedBlocksFault::Missing { attribute: BlockAttribute::Begin }),
            Ok((Some(_), None)) => Err(
                ChangedBlocksFault::Missing { attribute: BlockAttribute::End },
            ),
            Ok((Some(begin), Some(end))) => if end > begin {
                Ok(seq![BlockRange { start: begin, len: (end - begin) as u64 }])
            } else {
                Ok(Seq::empty())
            },
        }
    } else if name == block_element() {
        match numbers(attributes, BlockAttribute::Block, BlockAttribute::Block, attributes.len()) {
            Err(fault) => Err(fault),
            Ok((None, _)) => Err(ChangedBlocksFault::Missing { attribute: BlockAttribute::Block }),
            Ok((Some(block), _)) => Ok(seq![BlockRange { start: block, len: 1 }]),
        }
    } else {
        Ok(Seq::empty())
    }
}

/// The blocks that the first `n` tokens stand for, or the first fault.
pub open spec fn blocks_of_tokens(tokens: Seq<XmlTokenView>, n: nat) -> Result<
    Seq<BlockRange>,
    ChangedBlocksFault,
>
    decreases n,
{
    if n == 0 {
        Ok(Seq::empty())
    } else {
        match blocks_of_tokens(tokens, (n - 1) as nat) {
            Err(fault) => Err(fault),
            Ok(blocks) => match tokens[n - 1] {
                XmlTokenView::Empty { name, attributes } => match element_blocks(name, attributes) {
                    Err(fault) => Err(fault),
                    Ok(more) => Ok(blocks + more),
                },
                XmlTokenView::Other => Ok(blocks),
                XmlTokenView::Malformed { message } => Err(
                    ChangedBlocksFault::Malformed { reason: message },
                ),
            },
        }
    }
}

proof fn lemma_numbers_fault(
    attributes: Seq<XmlAttributeView>,
    first: BlockAttribute,
    second: BlockAttribute,
    n: nat,
    m: nat,
)
    requires
        n <= m,
        numbers(attributes, first, second, n) is Err,
    ensures
        numbers(attributes, first, second, m) == numbers(attributes, first, second, n),
    decreases m,
{
    if n < m {
        lemma_numbers_fault(attributes, first, second, n, (m - 1) as nat);
    }
}

proof fn lemma_tokens_fault(tokens: Seq<XmlTokenView>, n: nat, m: nat)
    requires
        n <= m,
        blocks_of_tokens(tokens, n) is Err,
    ensures
        blocks_of_tokens(tokens, m) == blocks_of_tokens(tokens, n),
    decreases m,
{
    if n < m {
        lemma_tokens_fault(tokens, n, (m - 1) as nat);
    }
}

fn read_number(value: &Option<String>, attribute: BlockAttribute) -> (number: Result<
    u64,
    ChangedBlocksError,
>)
    ensures
        match attribute_number(
            match value {
                Some(text) => Some(text@),
                None => None,
            },
            attribute,
        ) {
            Ok(n) => number == Ok::<u64, ChangedBlocksError>(n),
            Err(fault) => number is Err && number->Err_0@ == fault,
        },
{
    match value {
        None => Err(ChangedBlocksError::InvalidText { attribute }),
        Some(text) => match parse_u64(text.as_str()) {
            Some(n) => Ok(n),
            None => Err(ChangedBlocksError::InvalidNumber { attribute }),
        },
    }
}

fn read_numbers(
    attributes: &Vec<XmlAttribute>,
    first: BlockAttribute,
    second: BlockAttribute,
) -> (found: Result<(Option<u64>, Option<u64>), ChangedBlocksError>)
    ensures
        match numbers(attribute_views(attributes@), first, second, attributes@.len()) {
            Ok(pair) => found == Ok::<(Option<u64>, Option<u64>), ChangedBlocksError>(pair),
            Err(fault) => found is Err && found->Err_0@ == fault,
        },
{
    let ghost views = attribute_views(attributes@);
    let mut a: Option<u64> = None;
    let mut b: Option<u64> = None;
    let mut i: usize = 0;
    while i < attributes.len()
        invariant
            views == attribute_views(attributes@),
            i <= attributes@.len(),
            numbers(views, first, second, i as nat) == Ok::<
                (Option<u64>, Option<u64>),
                ChangedBlocksFault,
            >((a, b)),
        decreases attributes@.len() - i,
    {
        assert(views[i as int] == attributes@[i as int]@);
        match &attributes[i] {
            XmlAttribute::Malformed => {},
            XmlAttribute::Pair { key, value } => {
                if first.is_key(key) {
                    match read_number(value, first) {
                        Ok(n) => {
                            a = Some(n);
                        },
                        Err(e) => {
                            proof {
                                lemma_numbers_fault(
                                    views,
                                    first,
                                    second,
                                    (i + 1) as nat,
                                    views.len(),
                                );
                            }
                            return Err(e);
                        },
                    }
                } else if second.is_key(key) {
                    match read_number(value, second) {
                        Ok(n) => {
                            b = Some(n);
                        },
                        Err(e) => {
                            proof {
                                lemma_numbers_fault(
                                    views,
                                    first,
                                    second,
                                    (i + 1) as nat,
                                    views.len(),
                                );
                            }
                            return Err(e);
                        },
                    }
                }
            },
        }
        i = i + 1;
    }
    Ok((a, b))
}

/// The attributes with texts in place of strings.
pub open spec fn attribute_views(attributes: Seq<XmlAttribute>) -> Seq<XmlAttributeView> {
    attributes.map_values(|a: XmlAttribute| a@)
}

fn read_element(name: &Vec<u8>, attributes: &Vec<XmlAttribute>) -> (blocks: Result<
    Option<BlockRange>,
    ChangedBlocksError,
>)
    ensures
        match element_blocks(name@, attribute_views(attributes@)) {
            Ok(list) => match blocks {
                Ok(Some(r)) => list == seq![r],
                Ok(None) => list == Seq::<BlockRange>::empty(),
                Err(_) => false,
            },
            Err(fault) => blocks is Err && blocks->Err_0@ == fault,
        },
{
    let range = vec![0x72u8, 0x61u8, 0x6eu8, 0x67u8, 0x65u8];
    assert(range@ =~= range_element());
    let block = vec![0x62u8, 0x6cu8, 0x6fu8, 0x63u8, 0x6bu8];
    assert(block@ =~= block_element());
    assert(attribute_views(attributes@).len() == attributes@.len());
    if same_bytes(name, &range) {
        match read_numbers(attributes, BlockAttribute::Begin, BlockAttribute::End) {
            Err(e) => Err(e),
            Ok((None, _)) => Err(ChangedBlocksError::Missing { attribute: BlockAttribute::Begin }),
            Ok((Some(_), None)) => Err(
                ChangedBlocksError::Missing { attribute: BlockAttribute::End },
            ),
            Ok((Some(begin), Some(end))) => if end > begin {
                Ok(Some(BlockRange { start: begin, len: end - begin }))
            } else {
                Ok(None)
            },
        }
    } else if same_bytes(name, &block) {
        match read_numbers(attributes, BlockAttribute::Block, BlockAttribute::Block) {
            Err(e) => Err(e),
            Ok((None, _)) => Err(ChangedBlocksError::Missing { attribute: BlockAttribute::Block }),
            Ok((Some(start), _)) => Ok(Some(BlockRange { start, len: 1 })),
        }
    } else {
        Ok(None)
    }
}

/// The blocks that the tokens of a document stand for.
pub fn ranges_of_tokens(tokens: &Vec<XmlToken>) -> (ranges: Result<
    Vec<BlockRange>,
    ChangedBlocksError,
>)
    ensures
        match blocks_of_tokens(token_views(tokens@), tokens@.len()) {
            Ok(list) => ranges is Ok && ranges->Ok_0@ == list,
            Err(fault) => ranges is Err && ranges->Err_0@ == fault,
        },
{
    let ghost views = token_views(tokens@);
    let mut ranges: Vec<BlockRange> = Vec::new();
    let mut i: usize = 0;
    assert(ranges@ =~= Seq::<BlockRange>::empty());
    while i < tokens.len()
        invariant
            views == token_views(tokens@),
            i <= tokens@.len(),
            blocks_of_tokens(views, i as nat) == Ok::<Seq<BlockRange>, ChangedBlocksFault>(
                ranges@,
            ),
        decreases tokens@.len() - i,
    {
        assert(views[i as int] == tokens@[i as int]@);
        match &tokens[i] {
            XmlToken::Other => {},
            XmlToken::Malformed { message } => {
                proof {
                    lemma_tokens_fault(views, (i + 1) as nat, views.len());
                }
                return Err(ChangedBlocksError::Malformed { reason: message.clone() });
            },
            XmlToken::Empty { name, attributes } => {
                match read_element(name, attributes) {
                    Err(e) => {
                        proof {
                            lemma_tokens_fault(views, (i + 1) as nat, views.len());
                        }
                        return Err(e);
                    },
                    Ok(Some(r)) => {
                        assert(ranges@ + seq![r] =~= ranges@.push(r));
                        ranges.push(r);
                    },
                    Ok(None) => {
                        assert(ranges@ + Seq::<BlockRange>::empty() =~= ranges@);
                    },
                }
            },
        }
        i = i + 1;
    }
    Ok(ranges)
}

/// The blocks that a document of `era_invalidate` lists, such as
///
/// ```xml
/// <blocks>
///   <range begin="0" end = "10"/>
///   <block block="50"/>
/// </blocks>
/// ```
pub fn parse_era_invalidate_xml(xml: &str) -> (ranges: Result<Vec<BlockRange>, ChangedBlocksError>)
    ensures
        match blocks_of_tokens(document_tokens(xml@), document_tokens(xml@).len()) {
            Ok(list) => ranges is Ok && ranges->Ok_0@ == list,
            Err(fault) => ranges is Err && ranges->Err_0@ == fault,
        },
{
    let tokens = tokens_of(xml);
    assert(token_views(tokens@).len() == tokens@.len());
    ranges_of_tokens(&tokens)
}

/// The blocks that a run of `era_invalidate` reported; `stdout` is what it printed,
/// if that is text.
pub fn get_changed_blocks(success: bool, stdout: Option<&str>, stderr: &str) -> (ranges: Result<
    Vec<BlockRange>,
    ChangedBlocksError,
>)
    ensures
        match ranges {
            Ok(list) => {
                &&& success
                &&& stdout matches Some(xml) && blocks_of_tokens(
                    document_tokens(xml@),
                    document_tokens(xml@).len(),
                ) == Ok::<Seq<BlockRange>, ChangedBlocksFault>(list@)
            },
            Err(e) => if !success {
                e@ == (ChangedBlocksFault::Failed { stderr: stderr@ })
            } else {
                match stdout {
                    None => e@ == ChangedBlocksFault::NotText,
                    Some(xml) => blocks_of_tokens(
                        document_tokens(xml@),
                        document_tokens(xml@).len(),
                    ) == Err::<Seq<BlockRange>, ChangedBlocksFault>(e@),
                }
            },
        },
{
    if !success {
        return Err(ChangedBlocksError::Failed { stderr: stderr.to_owned() });
    }
    match stdout {
        None => Err(ChangedBlocksError::NotText),
        Some(xml) => parse_era_invalidate_xml(xml),
    }
}

/// Whether a token lists a block.
pub open spec fn token_lists(token: XmlTokenView, block: int) -> bool {
    token matches XmlTokenView::Empty { name, attributes } && (element_blocks(
        name,
        attributes,
    ) matches Ok(list) && blocks_cover(list, block))
}

/// The reported blocks are exactly those that the tokens list, each token on its own.
pub proof fn law_reported_blocks_are_those_listed(tokens: Seq<XmlTokenView>, n: nat, block: int)
    requires
        n <= tokens.len(),
        blocks_of_tokens(tokens, n) is Ok,
    ensures
        blocks_cover(blocks_of_tokens(tokens, n)->Ok_0, block) <==> exists|i: int|
            0 <= i < n && token_lists(#[trigger] tokens[i], block),
    decreases n,
{
    if n > 0 {
        let m = (n - 1) as nat;
        law_reported_blocks_are_those_listed(tokens, m, block);
        let before = blocks_of_tokens(tokens, m)->Ok_0;
        let all = blocks_of_tokens(tokens, n)->Ok_0;
        let more = all.skip(before.len() as int);
        assert(all =~= before + more);
        if let XmlTokenView::Empty { name, attributes } = tokens[m as int] {
            assert(more =~= element_blocks(name, attributes)->Ok_0);
        }
        if blocks_cover(all, block) {
            let i = choose|i: int| 0 <= i < all.len() && range_has(#[trigger] all[i], block);
            if i < before.len() {
                assert(range_has(before[i], block));
            } else {
                assert(range_has(more[i - before.len()], block));
                assert(blocks_cover(more, block));
                assert(token_lists(tokens[m as int], block));
            }
        }
        if blocks_cover(before, block) {
            let i = choose|i: int| 0 <= i < before.len() && range_has(#[trigger] before[i], block);
            assert(range_has(all[i], block));
        }
        if token_lists(tokens[m as int], block) {
            assert(blocks_cover(more, block));
            let i = choose|i: int| 0 <= i < more.len() && range_has(#[trigger] more[i], block);
            assert(range_has(all[before.len() + i], block));
        }
    }
}

/// No reported range is empty, and none reaches beyond the last block number.
pub proof fn law_reported_ranges_are_sound(tokens: Seq<XmlTokenView>, n: nat)
    requires
        n <= tokens.len(),
        blocks_of_tokens(tokens, n) is Ok,
    ensures
        forall|i: int|
            0 <= i < blocks_of_tokens(tokens, n)->Ok_0.len() ==> {
                let r = #[trigger] blocks_of_tokens(tokens, n)->Ok_0[i];
                r.len > 0 && r.start + r.len - 1 <= u64::MAX
            },
    decreases n,
{
    if n > 0 {
        law_reported_ranges_are_sound(tokens, (n - 1) as nat);
    }
}

// ---------------------------------------------------------------------------
// What an element says
// ---------------------------------------------------------------------------

/// Whether an attribute has this key.
pub open spec fn has_key(attribute: XmlAttributeView, name: Seq<u8>) -> bool {
    attribute matches XmlAttributeView::Pair { key, value } && key == name
}

/// The number that the value of an attribute denotes, if it denotes one of 64 bits.
pub open spec fn number_of(attribute: XmlAttributeView) -> Option<nat> {
    match attribute {
        XmlAttributeView::Pair { key, value: Some(text) } => match unsigned(text) {
            Some(n) => if n <= 0xffff_ffff_ffff_ffff {
                Some(n)
            } else {
                None
            },
            None => None,
        },
        _ => None,
    }
}

/// Whether the attribute at `i` is the last one with this key.
pub open spec fn is_last(attributes: Seq<XmlAttributeView>, name: Seq<u8>, i: int) -> bool {
    &&& 0 <= i < attributes.len()
    &&& has_key(attributes[i], name)
    &&& forall|j: int| i < j < attributes.len() ==> !has_key(#[trigger] attributes[j], name)
}

/// Whether every attribute with this key denotes a number.
pub open spec fn all_numbers(attributes: Seq<XmlAttributeView>, name: Seq<u8>) -> bool {
    forall|j: int|
        0 <= j < attributes.len() && has_key(#[trigger] attributes[j], name) ==> number_of(
            attributes[j],
        ) is Some
}

/// Whether one of the ranges holds the block.
pub open spec fn listed(ranges: Seq<BlockRange>, block: int) -> bool {
    exists|i: int|
        0 <= i < ranges.len() && (#[trigger] ranges[i]).start <= block < ranges[i].start
            + ranges[i].len
}

proof fn lemma_keys_differ()
    ensures
        BlockAttribute::Begin.key() != BlockAttribute::End.key(),
{
    assert(BlockAttribute::Begin.key().len() == 5);
    assert(BlockAttribute::End.key().len() == 3);
}

proof fn lemma_numbers(
    attributes: Seq<XmlAttributeView>,
    first: BlockAttribute,
    second: BlockAttribute,
    n: nat,
)
    requires
        n <= attributes.len(),
        first == second || first.key() != second.key(),
    ensures
        numbers(attributes, first, second, n) is Ok <==> forall|j: int|
            0 <= j < n && (has_key(#[trigger] attributes[j], first.key()) || has_key(
                attributes[j],
                second.key(),
            )) ==> number_of(attributes[j]) is Some,
        numbers(attributes, first, second, n) matches Ok((a, b)) ==> {
            &&& a is None <==> forall|j: int|
                0 <= j < n ==> !has_key(#[trigger] attributes[j], first.key())
            &&& forall|i: int|
                0 <= i < n && has_key(#[trigger] attributes[i], first.key()) && (forall|j: int|
                    i < j < n ==> !has_key(#[trigger] attributes[j], first.key())) ==> a is Some
                    && number_of(attributes[i]) == Some(a->0 as nat)
            &&& first != second ==> (b is None <==> forall|j: int|
                0 <= j < n ==> !has_key(#[trigger] attributes[j], second.key()))
            &&& first != second ==> forall|i: int|
                0 <= i < n && has_key(#[trigger] attributes[i], second.key()) && (forall|j: int|
                    i < j < n ==> !has_key(#[trigger] attributes[j], second.key())) ==> b is Some
                    && number_of(attributes[i]) == Some(b->0 as nat)
        },
    decreases n,
{
    if n > 0 {
        let m = (n - 1) as nat;
        lemma_numbers(attributes, first, second, m);
        let x = attributes[m as int];
        assert(has_key(x, first.key()) || has_key(x, second.key()) ==> (number_of(x) is Some <==> (
        x matches XmlAttributeView::Pair { key, value } && attribute_number(value, first) is Ok)));
        if numbers(attributes, first, second, n) is Ok {
            assert(numbers(attributes, first, second, m) is Ok);
            let (a0, b0) = numbers(attributes, first, second, m)->Ok_0;
            let (a, b) = numbers(attributes, first, second, n)->Ok_0;
            assert forall|i: int|
                0 <= i < n && has_key(#[trigger] attributes[i], first.key()) && (forall|j: int|
                    i < j < n ==> !has_key(#[trigger] attributes[j], first.key())) implies a is Some
                && number_of(attributes[i]) == Some(a->0 as nat) by {
                if i < m {
                    assert(!has_key(attributes[m as int], first.key()));
                    assert(a == a0);
                }
            }
            if first != second {
                assert forall|i: int|
                    0 <= i < n && has_key(#[trigger] attributes[i], second.key()) && (forall|j: int|
                        i < j < n ==> !has_key(#[trigger] attributes[j], second.key())) implies b
                    is Some && number_of(attributes[i]) == Some(b->0 as nat) by {
                    if i < m {
                        assert(!has_key(attributes[m as int], second.key()));
                        assert(b == b0);
                    }
                }
            }
        }
    }
}

/// A `range` element lists exactly the blocks from its last `begin` up to its last `end`,
/// the end excluded; none where the end does not lie behind the beginning.
pub proof fn law_range_lists_its_blocks(
    attributes: Seq<XmlAttributeView>,
    i: int,
    j: int,
    begin: nat,
    end: nat,
    block: int,
)
    requires
        is_last(attributes, seq![0x62u8, 0x65u8, 0x67u8, 0x69u8, 0x6eu8], i),
        is_last(attributes, seq![0x65u8, 0x6eu8, 0x64u8], j),
        all_numbers(attributes, seq![0x62u8, 0x65u8, 0x67u8, 0x69u8, 0x6eu8]),
        all_numbers(attributes, seq![0x65u8, 0x6eu8, 0x64u8]),
        number_of(attributes[i]) == Some(begin),
        number_of(attributes[j]) == Some(end),
    ensures
        element_blocks(seq![0x72u8, 0x61u8, 0x6eu8, 0x67u8, 0x65u8], attributes) matches Ok(ranges)
            && (listed(ranges, block) <==> begin <= block < end),
{
    lemma_keys_differ();
    lemma_numbers(attributes, BlockAttribute::Begin, BlockAttribute::End, attributes.len());
    let name = seq![0x72u8, 0x61u8, 0x6eu8, 0x67u8, 0x65u8];
    assert(name == range_element());
    let pair = numbers(attributes, BlockAttribute::Begin, BlockAttribute::End, attributes.len());
    assert(pair is Ok);
    assert(pair->Ok_0 == (Some(begin as u64), Some(end as u64)));
    let ranges = element_blocks(name, attributes)->Ok_0;
    if begin < end {
        assert(ranges[0].start == begin && ranges[0].len == end - begin);
    }
}

/// A `block` element lists exactly the block of its last `block` attribute.
pub proof fn law_block_lists_itself(
    attributes: Seq<XmlAttributeView>,
    i: int,
    number: nat,
    block: int,
)
    requires
        is_last(attributes, seq![0x62u8, 0x6cu8, 0x6fu8, 0x63u8, 0x6bu8], i),
        all_numbers(attributes, seq![0x62u8, 0x6cu8, 0x6fu8, 0x63u8, 0x6bu8]),
        number_of(attributes[i]) == Some(number),
    ensures
        element_blocks(seq![0x62u8, 0x6cu8, 0x6fu8, 0x63u8, 0x6bu8], attributes) matches Ok(ranges)
            && (listed(ranges, block) <==> block == number),
{
    lemma_numbers(attributes, BlockAttribute::Block, BlockAttribute::Block, attributes.len());
    let name = seq![0x62u8, 0x6cu8, 0x6fu8, 0x63u8, 0x6bu8];
    assert(name == block_element());
    assert(name[1] != range_element()[1]);
    let ranges = element_blocks(name, attributes)->Ok_0;
    assert(ranges[0].start == number && ranges[0].len == 1);
}

/// Any other element lists no block, whatever its attributes.
pub proof fn law_other_elements_list_nothing(
    name: Seq<u8>,
    attributes: Seq<XmlAttributeView>,
    block: int,
)
    requires
        name != seq![0x72u8, 0x61u8, 0x6eu8, 0x67u8, 0x65u8],
        name != seq![0x62u8, 0x6cu8, 0x6fu8, 0x63u8, 0x6bu8],
    ensures
        element_blocks(name, attributes) matches Ok(ranges) && ranges.len() == 0 && !listed(
            ranges,
            block,
        ),
{
}

/// A `range` element is refused exactly where a `begin` or `end` is no number or where one of
/// the two is missing, and a `block` element where a `block` is no number or missing.
pub proof fn law_elements_are_refused_where_unreadable(attributes: Seq<XmlAttributeView>)
    ensures
        ({
            let begin = seq![0x62u8, 0x65u8, 0x67u8, 0x69u8, 0x6eu8];
            let end = seq![0x65u8, 0x6eu8, 0x64u8];
            element_blocks(seq![0x72u8, 0x61u8, 0x6eu8, 0x67u8, 0x65u8], attributes) is Ok <==> {
                &&& all_numbers(attributes, begin)
                &&& all_numbers(attributes, end)
                &&& exists|i: int|
                    0 <= i < attributes.len() && has_key(#[trigger] attributes[i], begin)
                &&& exists|i: int|
                    0 <= i < attributes.len() && has_key(#[trigger] attributes[i], end)
            }
        }),
        ({
            let block = seq![0x62u8, 0x6cu8, 0x6fu8, 0x63u8, 0x6bu8];
            element_blocks(block, attributes) is Ok <==> {
                &&& all_numbers(attributes, block)
                &&& exists|i: int|
                    0 <= i < attributes.len() && has_key(#[trigger] attributes[i], block)
            }
        }),
{
    lemma_keys_differ();
    lemma_numbers(attributes, BlockAttribute::Begin, BlockAttribute::End, attributes.len());
    lemma_numbers(attributes, BlockAttribute::Block, BlockAttribute::Block, attributes.len());
    let range = seq![0x72u8, 0x61u8, 0x6eu8, 0x67u8, 0x65u8];
    let block = seq![0x62u8, 0x6cu8, 0x6fu8, 0x63u8, 0x6bu8];
    assert(range == range_element());
    assert(block == block_element());
    assert(block[1] != range[1]);
}

/// A document is refused exactly where one of its tokens is: where it is not well formed, or
/// where it is an element that is refused. Otherwise its ranges are those of its elements,
/// one element after another.
pub proof fn law_documents_are_read_token_by_token(tokens: Seq<XmlTokenView>, n: nat)
    requires
        n < tokens.len(),
    ensures
        blocks_of_tokens(tokens, 0) == Ok::<Seq<BlockRange>, ChangedBlocksFault>(Seq::empty()),
        match (blocks_of_tokens(tokens, n), tokens[n as int]) {
            (Err(fault), _) => blocks_of_tokens(tokens, n + 1) == Err::<
                Seq<BlockRange>,
                ChangedBlocksFault,
            >(fault),
            (Ok(ranges), XmlTokenView::Other) => blocks_of_tokens(tokens, n + 1) == Ok::<
                Seq<BlockRange>,
                ChangedBlocksFault,
            >(ranges),
            (Ok(ranges), XmlTokenView::Malformed { message }) => blocks_of_tokens(tokens, n + 1)
                == Err::<Seq<BlockRange>, ChangedBlocksFault>(
                ChangedBlocksFault::Malformed { reason: message },
            ),
            (Ok(ranges), XmlTokenView::Empty { name, attributes }) => match element_blocks(
                name,
                attributes,
            ) {
                Ok(more) => blocks_of_tokens(tokens, n + 1) == Ok::<
                    Seq<BlockRange>,
                    ChangedBlocksFault,
                >(ranges + more),
                Err(fault) => blocks_of_tokens(tokens, n + 1) == Err::<
                    Seq<BlockRange>,
                    ChangedBlocksFault,
                >(fault),
            },
        },
{
}

/// The first attribute in question that is no number is what an element is refused for: its
/// text cannot be read, or it denotes no number of 64 bits.
pub proof fn law_the_first_unreadable_attribute_is_named(
    attributes: Seq<XmlAttributeView>,
    first: BlockAttribute,
    second: BlockAttribute,
    i: int,
    n: nat,
)
    requires
        0 <= i < n <= attributes.len(),
        first == second || first.key() != second.key(),
        has_key(attributes[i], first.key()) || has_key(attributes[i], second.key()),
        number_of(attributes[i]) is None,
        forall|j: int|
            0 <= j < i && (has_key(#[trigger] attributes[j], first.key()) || has_key(
                attributes[j],
                second.key(),
            )) ==> number_of(attributes[j]) is Some,
    ensures
        ({
            let attribute = if has_key(attributes[i], first.key()) {
                first
            } else {
                second
            };
            numbers(attributes, first, second, n) == Err::<
                (Option<u64>, Option<u64>),
                ChangedBlocksFault,
            >(
                match attributes[i] {
                    XmlAttributeView::Pair { key, value: Some(text) } =>
                        ChangedBlocksFault::InvalidNumber { attribute },
                    _ => ChangedBlocksFault::InvalidText { attribute },
                },
            )
        }),
    decreases n,
{
    lemma_numbers(attributes, first, second, i as nat);
    if n > i + 1 {
        law_the_first_unreadable_attribute_is_named(
            attributes,
            first,
            second,
            i,
            (n - 1) as nat,
        );
    }
}

/// The warning names the version that was found.
pub proof fn law_the_warning_names_the_version(version: Seq<char>)
    ensures
        slow_words(version) == "Warning: era_invalidate version "@ + version
            + " is slow. For better performance, compile version 1.0+ from https://github.com/device-mapper-utils/thin-provisioning-tools"@,
        DM_ERA_NAME@ == "bench_era"@,
{
}

/// The device lies in `/dev/mapper` under its name.
pub proof fn law_devices_lie_in_the_mapper(name: Seq<char>)
    requires
        name.len() > 0,
        name[0] != '/',
    ensures
        mapper_path(name) == "/dev/mapper/"@ + name,
{
    reveal_strlit("/dev/mapper");
    reveal_strlit("/dev/mapper/");
    assert("/dev/mapper"@ + seq!['/'] =~= "/dev/mapper/"@);
}

/// The table of the device: from its first sector on, as many sectors of 512 bytes as the
/// origin has, with the metadata device before the origin and the sectors of a block last.
pub proof fn law_the_table_counts_sectors(
    metadata_dev: Seq<char>,
    origin_dev: Seq<char>,
    sectors: nat,
    per_block: nat,
    origin_size: u64,
    granularity: u64,
)
    requires
        512 * sectors <= origin_size < 512 * sectors + 512,
        512 * per_block <= granularity < 512 * per_block + 512,
    ensures
        table_words(metadata_dev, origin_dev, origin_size, granularity) == "0 "@ + decimal(sectors)
            + " era "@ + metadata_dev + " "@ + origin_dev + " "@ + decimal(per_block),
{
}

/// A version is below 1.0 exactly where the number before its first dot is zero, whatever
/// follows; what is no number is not below it.
pub proof fn law_versions_go_by_their_first_number(major: nat, rest: Seq<char>, other: Seq<char>)
    requires
        lacks(other, '.'),
        unsigned(other) is None,
    ensures
        below_1_0(decimal(major) + seq!['.'] + rest) <==> major == 0,
        below_1_0(decimal(major)) <==> major == 0,
        !below_1_0(other + seq!['.'] + rest),
        !below_1_0(other),
{
    let number = decimal(major);
    law_decimal_is_digits(major);
    assert forall|i: int| 0 <= i < number.len() implies #[trigger] number[i] != '.' by {
        assert(is_digit(number[i]));
    }
    law_a_search_ends_at_the_first_place(number, '.', rest);
    law_a_search_ends_at_the_first_place(other, '.', rest);
    law_bounded_numbers_are_read(major, u32::MAX as nat);
    assert((number + seq!['.'] + rest).take(number.len() as int) =~= number);
    assert(number.take(number.len() as int) =~= number);
    assert((other + seq!['.'] + rest).take(other.len() as int) =~= other);
    assert(other.take(other.len() as int) =~= other);
}

/// What the errors say.
pub proof fn law_what_the_errors_say(attribute: BlockAttribute, text: Seq<char>)
    ensures
        ({
            let name = match attribute {
                BlockAttribute::Begin => "begin"@,
                BlockAttribute::End => "end"@,
                BlockAttribute::Block => "block"@,
            };
            &&& (ChangedBlocksFault::Failed { stderr: text }).words() == "era_invalidate failed: "@
                + trimmed(text)
            &&& ChangedBlocksFault::NotText.words() == "era_invalidate output is not valid UTF-8"@
            &&& (ChangedBlocksFault::Malformed { reason: text }).words() == "XML parse error: "@
                + text
            &&& (ChangedBlocksFault::InvalidText { attribute }).words() == "Invalid UTF-8 in '"@
                + name + "' attribute"@
            &&& (ChangedBlocksFault::InvalidNumber { attribute }).words() == "Invalid '"@ + name
                + "' value"@
            &&& (ChangedBlocksFault::Missing { attribute }).words() == "Missing '"@ + name
                + "' attribute"@
        }),
{
}

/// What an error is, as the laws speak of it: each part of it is itself.
pub proof fn law_errors_are_seen_as_they_are(error: ChangedBlocksError)
    ensures
        match error {
            ChangedBlocksError::Failed { stderr } => error@ == (ChangedBlocksFault::Failed {
                stderr: stderr@,
            }),
            ChangedBlocksError::NotText => error@ is NotText,
            ChangedBlocksError::Malformed { reason } => error@ == (ChangedBlocksFault::Malformed {
                reason: reason@,
            }),
            ChangedBlocksError::InvalidText { attribute } => error@ == (
            ChangedBlocksFault::InvalidText { attribute }),
            ChangedBlocksError::InvalidNumber { attribute } => error@ == (
            ChangedBlocksFault::InvalidNumber { attribute }),
            ChangedBlocksError::Missing { attribute } => error@ == (ChangedBlocksFault::Missing {
                attribute,
            }),
        },
{
}

} // verus!
