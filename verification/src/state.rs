//! The persistent state: what it holds, where it lies, and how it is replaced.

use vstd::prelude::*;
use vstd::string::*;
use crate::text::{
    components, find, joined, kept, lemma_find, path_join, path_joined, pieces,
};

verus! {

/// Where the state lies unless another place is chosen.
pub const DEFAULT_STATE_PATH: &'static str = "/var/lib/schelk/state.json";

/// What schelk remembers between commands.
#[derive(Debug)]
pub struct AppState {
    /// The golden image.
    pub virgin: String,
    /// The working copy.
    pub scratch: String,
    /// The RAM disk for the metadata of dm-era.
    pub ramdisk: String,
    /// Where the scratch volume is mounted.
    pub mount_point: String,
    /// The type of the filesystem, such as `ext4`.
    pub fstype: String,
    /// Options of the mount, such as `noatime`.
    pub mount_options: Option<String>,
    /// The size of a tracked block, in bytes.
    pub granularity: u64,
    /// The hash of the superblock that both volumes have while nothing is mounted.
    pub virgin_superblock_hash: [u8; 32],
    /// The device-mapper name of the dm-era target.
    pub dm_era_name: String,
    /// Whether dm-era is active and the volume is mounted.
    pub is_mounted: bool,
    /// The era from which changes are tracked.
    pub current_era: Option<u64>,
}

impl AppState {
    /// The era from which changes are listed.
    pub open spec fn base_era(self) -> u32 {
        match self.current_era {
            Some(era) => (era % 0x1_0000_0000) as u32,
            None => 0,
        }
    }

    /// The state after the volume was unmounted and its changes dealt with.
    pub open spec fn unmounted(self) -> AppState {
        AppState { is_mounted: false, current_era: None, ..self }
    }

    /// The state after the volume was mounted: tracking starts with the first era.
    pub open spec fn mounted(self) -> AppState {
        AppState { is_mounted: true, current_era: Some(1), ..self }
    }

    /// The state with another superblock hash.
    pub open spec fn with_hash(self, hash: [u8; 32]) -> AppState {
        AppState { virgin_superblock_hash: hash, ..self }
    }

    /// The era from which changes are listed.
    pub fn since_era(&self) -> (era: u32)
        ensures
            era == self.base_era(),
    {
        match self.current_era {
            Some(era) => (era % 0x1_0000_0000) as u32,
            None => 0,
        }
    }

    /// A copy of the state.
    pub fn duplicate(&self) -> (copy: AppState)
        ensures
            copy == *self,
    {
        AppState {
            virgin: self.virgin.clone(),
            scratch: self.scratch.clone(),
            ramdisk: self.ramdisk.clone(),
            mount_point: self.mount_point.clone(),
            fstype: self.fstype.clone(),
            mount_options: match &self.mount_options {
                Some(o) => Some(o.clone()),
                None => None,
            },
            granularity: self.granularity,
            virgin_superblock_hash: self.virgin_superblock_hash,
            dm_era_name: self.dm_era_name.clone(),
            is_mounted: self.is_mounted,
            current_era: self.current_era,
        }
    }
}

/// The name of the dm-era target in a state that holds none.
pub fn default_dm_era_name() -> (name: String)
    ensures
        name@ == "bench_era"@,
{
    "bench_era".to_owned()
}

/// Where the state lies; another place can be chosen once.
#[derive(Debug)]
pub struct StateLocation {
    pub chosen: Option<String>,
}

impl StateLocation {
    /// The usual place.
    pub fn new() -> (location: StateLocation)
        ensures
            location.chosen is None,
    {
        StateLocation { chosen: None }
    }

    /// Chooses another place.
    pub fn set_path_override(&mut self, path: String)
        requires
            old(self).chosen is None,
        ensures
            final(self).chosen == Some(path),
    {
        self.chosen = Some(path);
    }

    /// The path of the state file.
    pub open spec fn path(self) -> Seq<char> {
        match self.chosen {
            Some(p) => p@,
            None => DEFAULT_STATE_PATH@,
        }
    }

    /// The path of the state file.
    pub fn state_path(&self) -> (path: String)
        ensures
            path@ == self.path(),
    {
        match &self.chosen {
            Some(p) => p.clone(),
            None => DEFAULT_STATE_PATH.to_owned(),
        }
    }

    /// The directory of the state file.
    pub open spec fn dir(self) -> Seq<char> {
        directory(path_parent(self.path()))
    }

    /// The directory of the state file.
    pub fn state_dir(&self) -> (dir: String)
        ensures
            dir@ == self.dir(),
            components(dir@) == (if ends_in_root(self.path()) || components(self.path()).len()
                == 0 {
                seq![seq!['/']]
            } else {
                components(self.path()).drop_last()
            }),
    {
        proof {
            lemma_root_components();
        }
        directory_or_root(parent_of(self.state_path().as_str()))
    }

    /// The lock file, beside the state file.
    pub fn lock_path(&self) -> (path: String)
        ensures
            path@ == path_joined(self.dir(), "schelk.lock"@),
    {
        path_join(self.state_dir().as_str(), "schelk.lock")
    }
}

/// Whether the last component of a path is the root directory.
pub open spec fn ends_in_root(path: Seq<char>) -> bool {
    components(path).len() == 1 && components(path)[0] == seq!['/']
}

/// The path without its last component, if it has one.
pub uninterp spec fn path_parent(path: Seq<char>) -> Option<Seq<char>>;

/// `std::path::Path::parent`: the path without its last component, or `None` for a
/// root and for the empty path. How the path is spelled between its components is left to
/// the name `path_parent`.
#[verifier::external_body]
fn parent_of(path: &str) -> (parent: Option<String>)
    ensures
        match parent {
            Some(p) => path_parent(path@) == Some(p@),
            None => path_parent(path@) is None,
        },
        parent is None <==> ends_in_root(path@) || components(path@).len() == 0,
        parent matches Some(p) ==> components(p@) == components(path@).drop_last(),
{
    std::path::Path::new(path).parent().map(|p| p.to_string_lossy().into_owned())
}

proof fn lemma_root_components()
    ensures
        components("/"@) == seq![seq!['/']],
{
    reveal_strlit("/");
    let root = "/"@;
    assert(root =~= seq!['/']);
    lemma_find(root, '/');
    assert(find(root, '/') == 0);
    let rest = root.skip(1);
    assert(rest =~= Seq::<char>::empty());
    lemma_find(rest, '/');
    assert(pieces(rest) =~= seq![rest]);
    assert(pieces(root) =~= seq![root.take(0), rest]);
    reveal_with_fuel(kept, 3);
    assert(kept(pieces(root), 2) =~= Seq::empty());
    assert(components(root) =~= seq![seq!['/']]);
}

/// The directory of a file, given its parent: the root where it has none.
pub open spec fn directory(parent: Option<Seq<char>>) -> Seq<char> {
    match parent {
        Some(p) => p,
        None => "/"@,
    }
}

/// The directory of a file, given its parent.
pub fn directory_or_root(parent: Option<String>) -> (dir: String)
    ensures
        dir@ == directory(
            match parent {
                Some(p) => Some(p@),
                None => None,
            },
        ),
{
    match parent {
        Some(p) => p,
        None => "/".to_owned(),
    }
}

/// What was found where the state lies.
#[derive(Debug)]
pub enum StoredState {
    /// No file.
    Missing,
    /// A file that does not hold a state.
    Corrupted,
    /// The fields of a state.
    Parsed { fields: StoredFields },
}

/// Takes what was found where the state lies: nothing is fine, and of a state every field
/// is kept; the dm-era target has its usual name where the file gives none.
pub fn load(stored: StoredState) -> (loaded: Result<Option<AppState>, String>)
    ensures
        match stored {
            StoredState::Missing => loaded == Ok::<Option<AppState>, String>(None),
            StoredState::Corrupted => loaded is Err && loaded->Err_0@
                == "State file is corrupted"@,
            StoredState::Parsed { fields } => loaded matches Ok(Some(state)) && fields.describes(
                state,
            ),
        },
{
    match stored {
        StoredState::Missing => Ok(None),
        StoredState::Corrupted => Err("State file is corrupted".to_owned()),
        StoredState::Parsed { fields } => Ok(Some(fields.into_state())),
    }
}

/// The fields of the state as the file holds them: older files have no name of the
/// dm-era target.
#[derive(Debug)]
pub struct StoredFields {
    pub virgin: String,
    pub scratch: String,
    pub ramdisk: String,
    pub mount_point: String,
    pub fstype: String,
    pub mount_options: Option<String>,
    pub granularity: u64,
    pub virgin_superblock_hash: [u8; 32],
    pub dm_era_name: Option<String>,
    pub is_mounted: bool,
    pub current_era: Option<u64>,
}

impl StoredFields {
    /// Whether the state holds what the file holds, with the usual name of the dm-era
    /// target where the file has none.
    pub open spec fn describes(self, state: AppState) -> bool {
        &&& state == (AppState {
            virgin: self.virgin,
            scratch: self.scratch,
            ramdisk: self.ramdisk,
            mount_point: self.mount_point,
            fstype: self.fstype,
            mount_options: self.mount_options,
            granularity: self.granularity,
            virgin_superblock_hash: self.virgin_superblock_hash,
            dm_era_name: state.dm_era_name,
            is_mounted: self.is_mounted,
            current_era: self.current_era,
        })
        &&& match self.dm_era_name {
            Some(name) => state.dm_era_name == name,
            None => state.dm_era_name@ == "bench_era"@,
        }
    }

    /// The state that the fields describe.
    pub fn into_state(self) -> (state: AppState)
        ensures
            self.describes(state),
    {
        AppState {
            virgin: self.virgin,
            scratch: self.scratch,
            ramdisk: self.ramdisk,
            mount_point: self.mount_point,
            fstype: self.fstype,
            mount_options: self.mount_options,
            granularity: self.granularity,
            virgin_superblock_hash: self.virgin_superblock_hash,
            dm_era_name: match self.dm_era_name {
                Some(name) => name,
                None => default_dm_era_name(),
            },
            is_mounted: self.is_mounted,
            current_era: self.current_era,
        }
    }
}

impl AppState {
    /// The fields that are written to the file.
    pub open spec fn stored(self) -> StoredFields {
        StoredFields {
            virgin: self.virgin,
            scratch: self.scratch,
            ramdisk: self.ramdisk,
            mount_point: self.mount_point,
            fstype: self.fstype,
            mount_options: self.mount_options,
            granularity: self.granularity,
            virgin_superblock_hash: self.virgin_superblock_hash,
            dm_era_name: Some(self.dm_era_name),
            is_mounted: self.is_mounted,
            current_era: self.current_era,
        }
    }

    /// The fields that are written to the file.
    pub fn into_stored(self) -> (fields: StoredFields)
        ensures
            fields == self.stored(),
    {
        StoredFields {
            virgin: self.virgin,
            scratch: self.scratch,
            ramdisk: self.ramdisk,
            mount_point: self.mount_point,
            fstype: self.fstype,
            mount_options: self.mount_options,
            granularity: self.granularity,
            virgin_superblock_hash: self.virgin_superblock_hash,
            dm_era_name: Some(self.dm_era_name),
            is_mounted: self.is_mounted,
            current_era: self.current_era,
        }
    }
}

/// What was saved is loaded back, with every field: the fields that are written describe
/// no other state.
pub proof fn law_saved_state_is_loaded_back(saved: AppState, loaded: AppState)
    requires
        saved.stored().describes(loaded),
    ensures
        loaded == saved,
{
}

/// The error text for a lock that another process holds.
pub fn lock_held(path: &str, reason: &str) -> (s: String)
    ensures
        s@ == "Another schelk process is already running (flock on "@ + path@ + "): "@ + reason@,
{
    let mut s = joined("Another schelk process is already running (flock on ", path);
    s.append("): ");
    s.append(reason);
    s
}

// ---------------------------------------------------------------------------
// Saving
// ---------------------------------------------------------------------------

/// A step of replacing the state file.
#[derive(Debug, Clone, Copy, PartialEq, Eq, Structural)]
pub enum SaveStep {
    CreateDirectory,
    CreateTemporary,
    WriteTemporary,
    SyncTemporary,
    RenameTemporary,
    SyncDirectory,
    Saved,
}

impl SaveStep {
    /// The step that follows.
    pub open spec fn next(self) -> SaveStep {
        match self {
            SaveStep::CreateDirectory => SaveStep::CreateTemporary,
            SaveStep::CreateTemporary => SaveStep::WriteTemporary,
            SaveStep::WriteTemporary => SaveStep::SyncTemporary,
            SaveStep::SyncTemporary => SaveStep::RenameTemporary,
            SaveStep::RenameTemporary => SaveStep::SyncDirectory,
            SaveStep::SyncDirectory => SaveStep::Saved,
            SaveStep::Saved => SaveStep::Saved,
        }
    }

    /// The step that follows.
    pub fn advance(self) -> (step: SaveStep)
        ensures
            step == self.next(),
    {
        match self {
            SaveStep::CreateDirectory => SaveStep::CreateTemporary,
            SaveStep::CreateTemporary => SaveStep::WriteTemporary,
            SaveStep::WriteTemporary => SaveStep::SyncTemporary,
            SaveStep::SyncTemporary => SaveStep::RenameTemporary,
            SaveStep::RenameTemporary => SaveStep::SyncDirectory,
            SaveStep::SyncDirectory => SaveStep::Saved,
            SaveStep::Saved => SaveStep::Saved,
        }
    }

    /// The text for a step that failed.
    pub open spec fn words(self) -> Seq<char> {
        match self {
            SaveStep::CreateDirectory => "Failed to create state directory"@,
            SaveStep::CreateTemporary => "Failed to create temp state file"@,
            SaveStep::WriteTemporary => "Failed to write temp state file"@,
            SaveStep::SyncTemporary => "Failed to fsync state file"@,
            SaveStep::RenameTemporary => "Failed to rename state file"@,
            SaveStep::SyncDirectory => "Failed to fsync state directory"@,
            SaveStep::Saved => ""@,
        }
    }

    /// The text for a step that failed.
    pub fn failure(self) -> (s: String)
        ensures
            s@ == self.words(),
    {
        match self {
            SaveStep::CreateDirectory => "Failed to create state directory".to_owned(),
            SaveStep::CreateTemporary => "Failed to create temp state file".to_owned(),
            SaveStep::WriteTemporary => "Failed to write temp state file".to_owned(),
            SaveStep::SyncTemporary => "Failed to fsync state file".to_owned(),
            SaveStep::RenameTemporary => "Failed to rename state file".to_owned(),
            SaveStep::SyncDirectory => "Failed to fsync state directory".to_owned(),
            SaveStep::Saved => "".to_owned(),
        }
    }
}

/// Starts to replace the state file: the first step, and the temporary file, which
/// lies in the directory of the state file.
pub fn save(location: &StateLocation) -> (start: (SaveStep, String))
    ensures
        start.0 == SaveStep::CreateDirectory,
        start.1@ == path_joined(location.dir(), ".state.json.tmp"@),
{
    let temporary = path_join(location.state_dir().as_str(), ".state.json.tmp");
    (SaveStep::CreateDirectory, temporary)
}

/// A file on a disk that may lose power: what its name leads to now and after a
/// crash, if there is a file of that name, and what is known of the temporary file.
pub ghost struct Disk {
    pub visible: Option<Seq<u8>>,
    pub durable: Set<Option<Seq<u8>>>,
    pub temporary: Seq<u8>,
    pub temporary_synced: bool,
}

impl Disk {
    /// The disk after a step that succeeded, where `contents` are what is saved. A
    /// rename may or may not survive a crash until the directory is synced, and a
    /// file that was renamed before it was synced may hold anything after a crash.
    pub open spec fn after(self, step: SaveStep, contents: Seq<u8>) -> Disk {
        match step {
            SaveStep::CreateTemporary => Disk {
                temporary: Seq::empty(),
                temporary_synced: false,
                ..self
            },
            SaveStep::WriteTemporary => Disk {
                temporary: contents,
                temporary_synced: false,
                ..self
            },
            SaveStep::SyncTemporary => Disk { temporary_synced: true, ..self },
            SaveStep::RenameTemporary => Disk {
                visible: Some(self.temporary),
                durable: if self.temporary_synced {
                    self.durable.insert(Some(self.temporary))
                } else {
                    Set::full()
                },
                ..self
            },
            SaveStep::SyncDirectory => Disk {
                durable: if self.temporary_synced {
                    set![self.visible]
                } else {
                    self.durable
                },
                ..self
            },
            _ => self,
        }
    }

    /// The disk after the first `n` steps of a save.
    pub open spec fn saving(self, contents: Seq<u8>, n: nat) -> Disk
        decreases n,
    {
        if n == 0 {
            self
        } else {
            self.saving(contents, (n - 1) as nat).after(save_step((n - 1) as nat), contents)
        }
    }
}

/// The step number `n` of a save.
pub open spec fn save_step(n: nat) -> SaveStep
    decreases n,
{
    if n == 0 {
        SaveStep::CreateDirectory
    } else {
        save_step((n - 1) as nat).next()
    }
}

/// Saving is atomic: at whatever step a crash comes, the state file holds what it held
/// before or what was saved; until the rename it is as it was, so that a file that did not
/// exist is absent; and once every step has succeeded it holds what was saved.
pub proof fn law_save_is_atomic(disk: Disk, contents: Seq<u8>, n: nat)
    requires
        disk.durable == set![disk.visible],
    ensures
        disk.saving(contents, n).durable.subset_of(set![disk.visible, Some(contents)]),
        disk.saving(contents, n).visible == disk.visible || disk.saving(contents, n).visible
            == Some(contents),
        (forall|k: nat| k < n ==> #[trigger] save_step(k) != SaveStep::RenameTemporary) ==> {
            &&& disk.saving(contents, n).visible == disk.visible
            &&& disk.saving(contents, n).durable == set![disk.visible]
        },
        n >= 6 ==> disk.saving(contents, n).durable == set![Some(contents)] && disk.saving(
            contents,
            n,
        ).visible == Some(contents),
    decreases n,
{
    reveal_with_fuel(save_step, 7);
    reveal_with_fuel(Disk::saving, 7);
    assert(save_step(4) == SaveStep::RenameTemporary);
    if n > 6 {
        law_save_is_atomic(disk, contents, (n - 1) as nat);
        lemma_saved_stays((n - 1) as nat);
    }
}

proof fn lemma_saved_stays(n: nat)
    requires
        n >= 6,
    ensures
        save_step(n) == SaveStep::Saved,
    decreases n,
{
    reveal_with_fuel(save_step, 7);
    if n > 6 {
        lemma_saved_stays((n - 1) as nat);
    }
}

/// Mounting changes nothing but that the state is mounted, in its first era.
pub proof fn law_mounting_keeps_the_configuration(s: AppState)
    ensures
        s.mounted().virgin == s.virgin,
        s.mounted().scratch == s.scratch,
        s.mounted().ramdisk == s.ramdisk,
        s.mounted().mount_point == s.mount_point,
        s.mounted().fstype == s.fstype,
        s.mounted().mount_options == s.mount_options,
        s.mounted().granularity == s.granularity,
        s.mounted().dm_era_name == s.dm_era_name,
        s.mounted().virgin_superblock_hash == s.virgin_superblock_hash,
        s.mounted().is_mounted,
        s.mounted().current_era == Some(1u64),
{
}

/// Unmounting changes nothing but that the state is not mounted and has no era.
pub proof fn law_unmounting_keeps_the_configuration(s: AppState)
    ensures
        s.unmounted().virgin == s.virgin,
        s.unmounted().scratch == s.scratch,
        s.unmounted().ramdisk == s.ramdisk,
        s.unmounted().mount_point == s.mount_point,
        s.unmounted().fstype == s.fstype,
        s.unmounted().mount_options == s.mount_options,
        s.unmounted().granularity == s.granularity,
        s.unmounted().dm_era_name == s.dm_era_name,
        s.unmounted().virgin_superblock_hash == s.virgin_superblock_hash,
        !s.unmounted().is_mounted,
        s.unmounted().current_era is None,
{
}

/// Another superblock hash changes nothing else.
pub proof fn law_a_new_hash_keeps_the_rest(s: AppState, hash: [u8; 32])
    ensures
        s.with_hash(hash).virgin == s.virgin,
        s.with_hash(hash).scratch == s.scratch,
        s.with_hash(hash).ramdisk == s.ramdisk,
        s.with_hash(hash).mount_point == s.mount_point,
        s.with_hash(hash).fstype == s.fstype,
        s.with_hash(hash).mount_options == s.mount_options,
        s.with_hash(hash).granularity == s.granularity,
        s.with_hash(hash).dm_era_name == s.dm_era_name,
        s.with_hash(hash).virgin_superblock_hash == hash,
        s.with_hash(hash).is_mounted == s.is_mounted,
        s.with_hash(hash).current_era == s.current_era,
{
}

/// Changes are listed since the era of the state, of which the low 32 bits count, and since
/// the very beginning where it has none.
pub proof fn law_changes_are_listed_since_the_era(s: AppState)
    ensures
        s.current_era matches Some(era) ==> (era - s.base_era()) % 0x1_0000_0000 == 0,
        s.current_era matches Some(era) ==> era < 0x1_0000_0000 ==> s.base_era() == era,
        s.current_era is None ==> s.base_era() == 0,
{
}

/// Each field is written to the file under its own name.
pub proof fn law_each_field_is_stored_as_itself(s: AppState)
    ensures
        s.stored().virgin == s.virgin,
        s.stored().scratch == s.scratch,
        s.stored().ramdisk == s.ramdisk,
        s.stored().mount_point == s.mount_point,
        s.stored().fstype == s.fstype,
        s.stored().mount_options == s.mount_options,
        s.stored().granularity == s.granularity,
        s.stored().virgin_superblock_hash == s.virgin_superblock_hash,
        s.stored().dm_era_name == Some(s.dm_era_name),
        s.stored().is_mounted == s.is_mounted,
        s.stored().current_era == s.current_era,
{
}

/// Each field is read from the file under its own name; a file without a name of the dm-era
/// target means the usual one.
pub proof fn law_each_field_is_read_as_itself(fields: StoredFields, s: AppState)
    requires
        fields.describes(s),
    ensures
        s.virgin == fields.virgin,
        s.scratch == fields.scratch,
        s.ramdisk == fields.ramdisk,
        s.mount_point == fields.mount_point,
        s.fstype == fields.fstype,
        s.mount_options == fields.mount_options,
        s.granularity == fields.granularity,
        s.virgin_superblock_hash == fields.virgin_superblock_hash,
        s.is_mounted == fields.is_mounted,
        s.current_era == fields.current_era,
        fields.dm_era_name matches Some(name) ==> s.dm_era_name == name,
        fields.dm_era_name is None ==> s.dm_era_name@ == "bench_era"@,
{
}

/// The order in which the state file is replaced: what is saved is complete and on the disk
/// under another name before it takes the name of the state file.
pub proof fn law_the_steps_of_a_save_are_in_order(n: nat)
    ensures
        save_step(n) == (if n == 0 {
            SaveStep::CreateDirectory
        } else if n == 1 {
            SaveStep::CreateTemporary
        } else if n == 2 {
            SaveStep::WriteTemporary
        } else if n == 3 {
            SaveStep::SyncTemporary
        } else if n == 4 {
            SaveStep::RenameTemporary
        } else if n == 5 {
            SaveStep::SyncDirectory
        } else {
            SaveStep::Saved
        }),
{
    reveal_with_fuel(save_step, 7);
    if n >= 6 {
        lemma_saved_stays(n);
    }
}

/// The place of the state is the chosen one, or the usual one where none was chosen.
pub proof fn law_the_chosen_place_is_used(location: StateLocation)
    ensures
        location.chosen matches Some(path) ==> location.path() == path@,
        location.chosen is None ==> location.path() == "/var/lib/schelk/state.json"@,
        location.dir() == (match path_parent(location.path()) {
            Some(parent) => parent,
            None => "/"@,
        }),
{
}

/// A step that fails says which one it was.
pub proof fn law_failed_steps_are_named(step: SaveStep)
    ensures
        step.words() == (match step {
            SaveStep::CreateDirectory => "Failed to create state directory"@,
            SaveStep::CreateTemporary => "Failed to create temp state file"@,
            SaveStep::WriteTemporary => "Failed to write temp state file"@,
            SaveStep::SyncTemporary => "Failed to fsync state file"@,
            SaveStep::RenameTemporary => "Failed to rename state file"@,
            SaveStep::SyncDirectory => "Failed to fsync state directory"@,
            SaveStep::Saved => ""@,
        }),
{
}

} // verus!
