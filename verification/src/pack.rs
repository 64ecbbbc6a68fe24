//! Planning the install of a pack into a profile, and the removal of its files.
//!
//! A pack comes as an archive: a manifest, which lists files to fetch, and the files
//! of the overrides, which are laid over the root directory of the instance.
use crate::error::{Error, InputFault};
use crate::path::{
    head_of, is_override, is_override_entry, is_writable, lands, lemma_parent_first_is_left_out,
    lemma_stripped_path_is_writable, spelled, strip_first_segment, stripped, writable, Head,
};
use crate::profile::ProfileInstallStage;
use crate::text::{copy_texts, same_text, split, strings};
use vstd::prelude::*;

verus! {

/// The name of the manifest in the archive of a pack.
pub const MANIFEST_NAME: &'static str = "modrinth.index.json";

/// The game that packs are installed for.
pub const SUPPORTED_GAME: &'static str = "minecraft";

/// The name of the file that serves as the icon of a profile which has none.
pub const ICON_NAME: &'static str = "icon.png";

/// The share of the progress that fetching the files of a pack takes, of 100 units.
pub const DOWNLOAD_WEIGHT: u32 = 70;

/// The share of the progress that extracting the overrides takes.
pub const OVERRIDE_WEIGHT: u32 = 30;

/// What a side has to do with a file.
#[derive(Debug, Clone, Copy, PartialEq, Eq, Structural)]
pub enum SideType {
    Required,
    Optional,
    Unsupported,
}

/// What each side has to do with a file, as far as the pack says.
#[derive(Debug, Clone, Copy, PartialEq, Eq)]
pub struct PackEnv {
    pub client: Option<SideType>,
    pub server: Option<SideType>,
}

/// The digests of a file, by algorithm.
#[derive(Debug, Clone, PartialEq, Eq)]
pub struct PackFileHashes {
    pub sha1: Option<String>,
    pub sha512: Option<String>,
}

/// A file of a pack.
#[derive(Debug, Clone, PartialEq, Eq)]
pub struct PackFile {
    /// Where the file goes, relative to the root directory of the instance.
    pub path: String,
    pub hashes: PackFileHashes,
    pub env: Option<PackEnv>,
    /// The mirrors that offer the file, in the order in which they are tried.
    pub downloads: Vec<String>,
    pub file_size: u32,
}

/// What a pack depends on.
#[derive(Debug, Clone, Copy, PartialEq, Eq, Structural)]
pub enum PackDependency {
    Forge,
    FabricLoader,
    QuiltLoader,
    Minecraft,
}

/// The manifest of a pack.
#[derive(Debug, Clone, PartialEq, Eq)]
pub struct PackFormat {
    pub game: String,
    pub format_version: i32,
    pub version_id: String,
    pub name: String,
    pub summary: Option<String>,
    pub files: Vec<PackFile>,
    pub dependencies: Vec<(PackDependency, String)>,
}

/// Whether the pack says that the client cannot use the file.
pub open spec fn client_unsupported(file: PackFile) -> bool {
    file.env is Some && file.env->0.client == Some(SideType::Unsupported)
}

/// What is done with a file of a pack.
#[derive(Debug, Clone, Copy, PartialEq, Eq, Structural)]
pub enum FileStep {
    /// The file is passed over: nothing is fetched.
    Skip,
    /// The file is fetched and dropped, for its path leaves the instance.
    FetchOnly,
    /// The file is fetched and written at its path below the root of the instance.
    FetchAndWrite,
}

/// What is done with `file`.
pub open spec fn file_step(file: PackFile) -> FileStep {
    if client_unsupported(file) {
        FileStep::Skip
    } else if writable(file.path@) {
        FileStep::FetchAndWrite
    } else {
        FileStep::FetchOnly
    }
}

/// What is done with `file`.
pub fn plan_step(file: &PackFile) -> (step: FileStep)
    ensures
        step == file_step(*file),
{
    let unsupported = match &file.env {
        Some(env) => match env.client {
            Some(side) => side == SideType::Unsupported,
            None => false,
        },
        None => false,
    };
    if unsupported {
        FileStep::Skip
    } else if is_writable(file.path.as_str()) {
        FileStep::FetchAndWrite
    } else {
        FileStep::FetchOnly
    }
}

/// One file of a pack to deal with.
#[derive(Debug, Clone, PartialEq, Eq)]
pub struct FileTask {
    /// What is done with the file.
    pub step: FileStep,
    /// The mirrors to fetch the file from, in the order in which they are tried.
    pub mirrors: Vec<String>,
    /// The SHA-1 digest that the content must have, where the pack names one.
    pub sha1: Option<String>,
    /// Where the content is written, relative to the root of the instance.
    pub path: String,
}

/// Whether `task` is the task for `file`: the file's step, with the file's mirrors,
/// SHA-1 digest and path.
pub open spec fn is_task_of(task: FileTask, file: PackFile) -> bool {
    &&& task.step == file_step(file)
    &&& task.mirrors@ == file.downloads@
    &&& task.sha1 == file.hashes.sha1
    &&& task.path == file.path
}

/// The task for `file`.
pub fn plan_file(file: &PackFile) -> (task: FileTask)
    ensures
        is_task_of(task, *file),
{
    let sha1 = match &file.hashes.sha1 {
        Some(digest) => Some(digest.clone()),
        None => None,
    };
    let mirrors = copy_texts(&file.downloads);
    FileTask { step: plan_step(file), mirrors, sha1, path: file.path.clone() }
}

/// Whether `entries[i]` is the first entry with the name `name`.
pub open spec fn is_first_entry(entries: Seq<String>, name: Seq<char>, i: int) -> bool {
    &&& 0 <= i < entries.len()
    &&& entries[i]@ == name
    &&& forall|j: int| 0 <= j < i ==> (#[trigger] entries[j])@ != name
}

/// Whether some entry has the name `name`.
pub open spec fn has_entry(entries: Seq<String>, name: Seq<char>) -> bool {
    exists|i: int| 0 <= i < entries.len() && (#[trigger] entries[i])@ == name
}

/// The place of the entry `name` in an archive, if it has such an entry.
pub fn locate(entries: &Vec<String>, name: &str) -> (r: Option<usize>)
    ensures
        match r {
            Some(i) => is_first_entry(entries@, name@, i as int),
            None => !has_entry(entries@, name@),
        },
{
    let mut i: usize = 0;
    while i < entries.len()
        invariant
            i <= entries.len(),
            forall|j: int| 0 <= j < i ==> (#[trigger] entries[j])@ != name@,
        decreases entries.len() - i,
    {
        if same_text(entries[i].as_str(), name) {
            return Some(i);
        }
        i += 1;
    }
    None
}

/// The place of the manifest in the archive of a pack.
pub fn locate_manifest(entries: &Vec<String>) -> (r: Result<usize, Error>)
    ensures
        match r {
            Ok(i) => is_first_entry(entries@, MANIFEST_NAME@, i as int),
            Err(e) => !has_entry(entries@, MANIFEST_NAME@) && e == Error::Input(
                InputFault::MissingManifest,
            ),
        },
{
    match locate(entries, MANIFEST_NAME) {
        Some(i) => Ok(i),
        None => Err(Error::Input(InputFault::MissingManifest)),
    }
}

/// Refuses a pack that is for another game.
pub fn check_game(pack: &PackFormat) -> (r: Result<(), Error>)
    ensures
        pack.game@ == SUPPORTED_GAME@ ==> r is Ok,
        pack.game@ != SUPPORTED_GAME@ ==> r == Err::<(), Error>(
            Error::Input(InputFault::UnsupportedGame),
        ),
{
    if same_text(pack.game.as_str(), SUPPORTED_GAME) {
        Ok(())
    } else {
        Err(Error::Input(InputFault::UnsupportedGame))
    }
}

/// The places of the first `n` entries that are files of the overrides, in their order.
pub open spec fn override_entries(entries: Seq<String>, n: int) -> Seq<int>
    decreases n,
{
    if n <= 0 {
        Seq::<int>::empty()
    } else if is_override(entries[n - 1]@) {
        override_entries(entries, n - 1).push(n - 1)
    } else {
        override_entries(entries, n - 1)
    }
}

/// Where the file of the overrides with the entry name `name` goes, relative to the
/// root of the instance: the name without its first segment. A name that then names
/// no file, or begins with the parent directory, goes nowhere.
pub open spec fn override_target(name: Seq<char>) -> Option<Seq<char>> {
    if lands(stripped(name)) {
        Some(spelled(stripped(name)))
    } else {
        None
    }
}

/// One file of the overrides to extract.
#[derive(Debug, Clone, PartialEq, Eq)]
pub struct OverrideStep {
    /// The place of the entry in the archive.
    pub entry: usize,
    /// Where its content is written, relative to the root of the instance; nowhere
    /// where this is absent.
    pub target: Option<String>,
}

/// The text of an optional string.
pub open spec fn text_of(s: Option<String>) -> Option<Seq<char>> {
    match s {
        Some(t) => Some(t@),
        None => None,
    }
}

/// Whether `steps` extract the overrides of an archive: one step for each entry that
/// is a file of the overrides, in the entries' order, each with the entry's target.
pub open spec fn are_override_steps(steps: Seq<OverrideStep>, entries: Seq<String>) -> bool {
    let due = override_entries(entries, entries.len() as int);
    &&& steps.len() == due.len()
    &&& forall|k: int|
        0 <= k < steps.len() ==> (#[trigger] steps[k]).entry == due[k] && text_of(
            steps[k].target,
        ) == override_target(entries[due[k]]@)
}

/// The steps that extract the overrides of an archive.
pub fn plan_overrides(entries: &Vec<String>) -> (steps: Vec<OverrideStep>)
    ensures
        are_override_steps(steps@, entries@),
        forall|k: int| 0 <= k < steps.len() ==> (#[trigger] steps[k]).entry < entries.len(),
{
    let mut steps: Vec<OverrideStep> = Vec::new();
    let mut i: usize = 0;
    while i < entries.len()
        invariant
            i <= entries.len(),
            steps.len() == override_entries(entries@, i as int).len(),
            forall|k: int|
                0 <= k < steps.len() ==> (#[trigger] steps[k]).entry == override_entries(
                    entries@,
                    i as int,
                )[k] && steps[k].entry < i && text_of(steps[k].target) == override_target(
                    entries[steps[k].entry as int]@,
                ),
        decreases entries.len() - i,
    {
        let name = entries[i].as_str();
        if is_override_entry(name) {
            let (path, lands) = strip_first_segment(name);
            let target = if lands {
                Some(path)
            } else {
                None
            };
            steps.push(OverrideStep { entry: i, target });
        }
        i += 1;
    }
    steps
}

/// What the install of a pack does, in this order: the files are fetched, then the
/// overrides are extracted.
pub struct InstallPlan {
    /// The place of the manifest in the archive.
    pub manifest: usize,
    /// What is done with each file of the pack, in the files' order. Each file that
    /// is done moves the progress by `DOWNLOAD_WEIGHT` divided by the number of files.
    pub files: Vec<FileTask>,
    /// The overrides to extract. Each moves the progress by `OVERRIDE_WEIGHT` divided
    /// by their number.
    pub overrides: Vec<OverrideStep>,
}

/// Why a pack cannot be installed or removed, if anything stands in the way: its
/// archive holds no manifest, or the pack is for another game.
pub open spec fn pack_fault(entries: Seq<String>, pack: PackFormat) -> Option<InputFault> {
    if !has_entry(entries, MANIFEST_NAME@) {
        Some(InputFault::MissingManifest)
    } else if pack.game@ != SUPPORTED_GAME@ {
        Some(InputFault::UnsupportedGame)
    } else {
        None
    }
}

/// Plans the install of the files of a pack. `entries` are the names of the entries
/// of the archive, in its order, and `pack` is what its manifest says.
pub fn install_zipped_mrpack_files(entries: &Vec<String>, pack: &PackFormat) -> (r: Result<
    InstallPlan,
    Error,
>)
    ensures
        match r {
            Err(e) => e is Input && pack_fault(entries@, *pack) == Some(e->Input_0),
            Ok(plan) => {
                &&& pack_fault(entries@, *pack) is None
                &&& is_first_entry(entries@, MANIFEST_NAME@, plan.manifest as int)
                &&& are_file_tasks(plan.files@, pack.files@)
                &&& are_override_steps(plan.overrides@, entries@)
            },
        },
{
    let manifest = match locate_manifest(entries) {
        Ok(i) => i,
        Err(e) => {
            return Err(e);
        },
    };
    match check_game(pack) {
        Ok(_) => {},
        Err(e) => {
            return Err(e);
        },
    }
    let mut files: Vec<FileTask> = Vec::new();
    let mut i: usize = 0;
    while i < pack.files.len()
        invariant
            i <= pack.files.len(),
            files.len() == i,
            forall|j: int| 0 <= j < i ==> is_task_of(#[trigger] files[j], pack.files[j]),
        decreases pack.files.len() - i,
    {
        files.push(plan_file(&pack.files[i]));
        i += 1;
    }
    let overrides = plan_overrides(entries);
    Ok(InstallPlan { manifest, files, overrides })
}

/// Whether the icon file of the instance becomes the icon of the profile: the
/// profile has none and the file is there.
pub fn adopts_icon(icon_set: bool, icon_file_exists: bool) -> (b: bool)
    ensures
        b == (!icon_set && icon_file_exists),
{
    !icon_set && icon_file_exists
}

/// What is done after the install of the files of a pack has ended.
#[derive(Debug, PartialEq, Eq)]
pub struct InstallEnd {
    /// The profile to remove, where the install failed.
    pub remove_profile: Option<String>,
    /// What the caller gets: the profile, or the failure.
    pub result: Result<String, Error>,
}

/// Closes the install of a pack into the profile `profile_path`: a failed install
/// takes the profile with it, and its failure is handed on as it is.
pub fn install_zipped_mrpack(installed: Result<String, Error>, profile_path: String) -> (end:
    InstallEnd)
    ensures
        end.result == installed,
        installed is Ok ==> end.remove_profile is None,
        installed is Err ==> end.remove_profile == Some(profile_path),
{
    match installed {
        Ok(profile) => InstallEnd { remove_profile: None, result: Ok(profile) },
        Err(e) => InstallEnd { remove_profile: Some(profile_path), result: Err(e) },
    }
}

/// The paths at which the install of a pack writes the first `n` of its files: the
/// path of each file that is fetched and written, in the files' order.
pub open spec fn written_files(files: Seq<PackFile>, n: int) -> Seq<Seq<char>>
    decreases n,
{
    if n <= 0 {
        Seq::<Seq<char>>::empty()
    } else if file_step(files[n - 1]) == FileStep::FetchAndWrite {
        written_files(files, n - 1).push(files[n - 1].path@)
    } else {
        written_files(files, n - 1)
    }
}

/// The paths at which the install of a pack writes the files of the overrides among
/// the first `n` entries of its archive: the target of each such entry that has one,
/// in the entries' order.
pub open spec fn written_overrides(entries: Seq<String>, n: int) -> Seq<Seq<char>>
    decreases n,
{
    if n <= 0 {
        Seq::<Seq<char>>::empty()
    } else if is_override(entries[n - 1]@) && override_target(entries[n - 1]@) is Some {
        written_overrides(entries, n - 1).push(override_target(entries[n - 1]@)->0)
    } else {
        written_overrides(entries, n - 1)
    }
}

/// Whether the install of a pack writes one of its first `n` files at `path`.
pub open spec fn writes_file(files: Seq<PackFile>, n: int, path: Seq<char>) -> bool {
    exists|i: int|
        0 <= i < n && file_step(#[trigger] files[i]) == FileStep::FetchAndWrite && files[i].path@
            == path
}

/// Whether the install of a pack writes one of the first `n` entries of its archive
/// at `path`, as a file of the overrides.
pub open spec fn writes_override(entries: Seq<String>, n: int, path: Seq<char>) -> bool {
    exists|i: int|
        0 <= i < n && is_override((#[trigger] entries[i])@) && override_target(entries[i]@)
            == Some(path)
}

/// The paths that the removal of a pack deletes, where there is a file: the paths at
/// which the install writes the files of the pack, then those at which it writes the
/// files of the overrides.
pub open spec fn removal_paths(entries: Seq<String>, pack: PackFormat) -> Seq<Seq<char>> {
    written_files(pack.files@, pack.files.len() as int) + written_overrides(
        entries,
        entries.len() as int,
    )
}

/// What the removal of a pack does.
#[derive(Debug, Clone, PartialEq, Eq)]
pub struct RemovalPlan {
    /// The stage that the profile is put into before anything is deleted. It is not
    /// put back afterwards.
    pub stage: ProfileInstallStage,
    /// The paths, relative to the root of the instance, at which a file is deleted
    /// if there is one.
    pub paths: Vec<String>,
}

/// Plans the removal of the files that a pack has brought into a profile.
pub fn remove_all_related_files(entries: &Vec<String>, pack: &PackFormat) -> (r: Result<
    RemovalPlan,
    Error,
>)
    ensures
        match r {
            Err(e) => e is Input && pack_fault(entries@, *pack) == Some(e->Input_0),
            Ok(plan) => {
                &&& pack_fault(entries@, *pack) is None
                &&& plan.stage == ProfileInstallStage::PackInstalling
                &&& strings(plan.paths@) == removal_paths(entries@, *pack)
            },
        },
{
    match locate_manifest(entries) {
        Ok(_) => {},
        Err(e) => {
            return Err(e);
        },
    }
    match check_game(pack) {
        Ok(_) => {},
        Err(e) => {
            return Err(e);
        },
    }
    let mut paths: Vec<String> = Vec::new();
    let mut i: usize = 0;
    assert(strings(paths@) == written_files(pack.files@, 0));
    while i < pack.files.len()
        invariant
            i <= pack.files.len(),
            strings(paths@) == written_files(pack.files@, i as int),
        decreases pack.files.len() - i,
    {
        let file = &pack.files[i];
        if plan_step(file) == FileStep::FetchAndWrite {
            let ghost before = strings(paths@);
            paths.push(file.path.clone());
            assert(strings(paths@) == before.push(file.path@));
        }
        i += 1;
    }
    let ghost of_files = strings(paths@);
    let mut k: usize = 0;
    assert(strings(paths@) == of_files + written_overrides(entries@, 0));
    while k < entries.len()
        invariant
            k <= entries.len(),
            strings(paths@) == of_files + written_overrides(entries@, k as int),
        decreases entries.len() - k,
    {
        let name = entries[k].as_str();
        if is_override_entry(name) {
            let (path, lands) = strip_first_segment(name);
            if lands {
                let ghost before = strings(paths@);
                paths.push(path);
                assert(strings(paths@) == before.push(override_target(name@)->0));
            }
        }
        k += 1;
    }
    Ok(RemovalPlan { stage: ProfileInstallStage::PackInstalling, paths })
}

/// No file that the client cannot use is fetched: its task is to pass it over.
pub proof fn lemma_unsupported_is_not_fetched(file: PackFile, task: FileTask)
    requires
        client_unsupported(file),
        is_task_of(task, file),
    ensures
        task.step == FileStep::Skip,
{
}

/// No file of a pack is written at a path that leaves the root of the instance at its
/// first segment, be it for the parent directory or for the root of the file system.
pub proof fn lemma_traversal_is_not_written(file: PackFile, task: FileTask)
    requires
        head_of(file.path@) == Head::Parent || head_of(file.path@) == Head::Root,
        is_task_of(task, file),
    ensures
        task.step != FileStep::FetchAndWrite,
{
}

/// No file of the overrides is written at a path that leaves the root of the
/// instance at its first segment: each target begins with a name.
pub proof fn lemma_override_targets_are_writable(entries: Seq<String>, steps: Seq<OverrideStep>)
    requires
        are_override_steps(steps, entries),
    ensures
        forall|k: int|
            0 <= k < steps.len() && (#[trigger] steps[k]).target is Some ==> head_of(
                steps[k].target->0@,
            ) == Head::Normal,
{
    let due = override_entries(entries, entries.len() as int);
    assert forall|k: int|
        0 <= k < steps.len() && (#[trigger] steps[k]).target is Some implies head_of(
        steps[k].target->0@,
    ) == Head::Normal by {
        let name = entries[due[k]]@;
        assert(text_of(steps[k].target) == override_target(name));
        lemma_stripped_path_is_writable(name);
    }
}

/// No entry whose name begins with the parent directory is extracted as a file of
/// the overrides.
pub proof fn lemma_traversal_is_not_extracted(entries: Seq<String>, steps: Seq<OverrideStep>)
    requires
        are_override_steps(steps, entries),
    ensures
        forall|k: int|
            0 <= k < steps.len() ==> 0 <= (#[trigger] steps[k]).entry < entries.len() && split(
                entries[steps[k].entry as int]@,
                '/',
            )[0] != ".."@,
{
    lemma_override_entries(entries, entries.len() as int);
    let due = override_entries(entries, entries.len() as int);
    assert forall|k: int| 0 <= k < steps.len() implies 0 <= (#[trigger] steps[k]).entry
        < entries.len() && split(entries[steps[k].entry as int]@, '/')[0] != ".."@ by {
        let name = entries[due[k]]@;
        assert(is_override(name));
        if split(name, '/')[0] == ".."@ {
            lemma_parent_first_is_left_out(name);
        }
    }
}

/// The paths in `written_files` are the paths of the files that are written.
proof fn lemma_written_files(files: Seq<PackFile>, n: int)
    requires
        0 <= n <= files.len(),
    ensures
        forall|i: int|
            0 <= i < n && file_step(#[trigger] files[i]) == FileStep::FetchAndWrite
                ==> written_files(files, n).contains(files[i].path@),
        forall|j: int|
            0 <= j < written_files(files, n).len() ==> writes_file(
                files,
                n,
                #[trigger] written_files(files, n)[j],
            ),
    decreases n,
{
    if n > 0 {
        lemma_written_files(files, n - 1);
        let before = written_files(files, n - 1);
        let here = written_files(files, n);
        assert forall|i: int|
            0 <= i < n && file_step(#[trigger] files[i])
                == FileStep::FetchAndWrite implies here.contains(files[i].path@) by {
            if i == n - 1 {
                assert(here.last() == files[i].path@);
            } else {
                let j = choose|j: int| 0 <= j < before.len() && before[j] == files[i].path@;
                assert(here[j] == before[j]);
            }
        }
        assert forall|j: int| 0 <= j < here.len() implies writes_file(
            files,
            n,
            #[trigger] here[j],
        ) by {
            if j < before.len() {
                assert(here[j] == before[j]);
                assert(writes_file(files, n - 1, before[j]));
                let i = choose|i: int|
                    0 <= i < n - 1 && file_step(#[trigger] files[i]) == FileStep::FetchAndWrite
                        && files[i].path@ == before[j];
                assert(0 <= i < n && file_step(files[i]) == FileStep::FetchAndWrite);
            } else {
                assert(file_step(files[n - 1]) == FileStep::FetchAndWrite);
            }
        }
    }
}

/// The paths in `written_overrides` are the targets of the files of the overrides.
proof fn lemma_written_overrides(entries: Seq<String>, n: int)
    requires
        0 <= n <= entries.len(),
    ensures
        forall|i: int|
            0 <= i < n && is_override((#[trigger] entries[i])@) && override_target(entries[i]@)
                is Some ==> written_overrides(entries, n).contains(
                override_target(entries[i]@)->0,
            ),
        forall|j: int|
            0 <= j < written_overrides(entries, n).len() ==> writes_override(
                entries,
                n,
                #[trigger] written_overrides(entries, n)[j],
            ),
    decreases n,
{
    if n > 0 {
        lemma_written_overrides(entries, n - 1);
        let before = written_overrides(entries, n - 1);
        let here = written_overrides(entries, n);
        assert forall|i: int|
            0 <= i < n && is_override((#[trigger] entries[i])@) && override_target(entries[i]@)
                is Some implies here.contains(override_target(entries[i]@)->0) by {
            if i == n - 1 {
                assert(here.last() == override_target(entries[i]@)->0);
            } else {
                let j = choose|j: int|
                    0 <= j < before.len() && before[j] == override_target(entries[i]@)->0;
                assert(here[j] == before[j]);
            }
        }
        assert forall|j: int| 0 <= j < here.len() implies writes_override(
            entries,
            n,
            #[trigger] here[j],
        ) by {
            if j < before.len() {
                assert(here[j] == before[j]);
                assert(writes_override(entries, n - 1, before[j]));
                let i = choose|i: int|
                    0 <= i < n - 1 && is_override((#[trigger] entries[i])@) && override_target(
                        entries[i]@,
                    ) == Some(before[j]);
                assert(0 <= i < n && is_override(entries[i]@));
            } else {
                assert(is_override(entries[n - 1]@));
            }
        }
    }
}

/// Each entry listed by `override_entries` is a file of the overrides among the
/// first `n` entries.
proof fn lemma_override_entries(entries: Seq<String>, n: int)
    requires
        0 <= n <= entries.len(),
    ensures
        forall|k: int|
            0 <= k < override_entries(entries, n).len() ==> 0 <= (#[trigger] override_entries(
                entries,
                n,
            )[k]) < n && is_override(entries[override_entries(entries, n)[k]]@),
    decreases n,
{
    if n > 0 {
        lemma_override_entries(entries, n - 1);
        let before = override_entries(entries, n - 1);
        let here = override_entries(entries, n);
        assert forall|k: int| 0 <= k < here.len() implies 0 <= (#[trigger] here[k]) < n
            && is_override(entries[here[k]]@) by {
            if k < before.len() {
                assert(here[k] == before[k]);
            }
        }
    }
}

/// Whether `tasks` are the tasks for the files of a pack, one for each in their order.
pub open spec fn are_file_tasks(tasks: Seq<FileTask>, files: Seq<PackFile>) -> bool {
    &&& tasks.len() == files.len()
    &&& forall|i: int| 0 <= i < tasks.len() ==> is_task_of(#[trigger] tasks[i], files[i])
}

/// The removal of a pack deletes every file that its install writes: the path of each
/// file of the pack that is written, and the target of each override that is
/// extracted, are among the paths that the removal deletes.
pub proof fn lemma_removal_covers_install(
    entries: Seq<String>,
    pack: PackFormat,
    files: Seq<FileTask>,
    overrides: Seq<OverrideStep>,
)
    requires
        are_file_tasks(files, pack.files@),
        are_override_steps(overrides, entries),
    ensures
        forall|i: int|
            0 <= i < files.len() && (#[trigger] files[i]).step == FileStep::FetchAndWrite
                ==> removal_paths(entries, pack).contains(files[i].path@),
        forall|k: int|
            0 <= k < overrides.len() && (#[trigger] overrides[k]).target is Some
                ==> removal_paths(entries, pack).contains(overrides[k].target->0@),
{
    let all = removal_paths(entries, pack);
    let of_files = written_files(pack.files@, pack.files.len() as int);
    let of_overrides = written_overrides(entries, entries.len() as int);
    lemma_written_files(pack.files@, pack.files.len() as int);
    lemma_written_overrides(entries, entries.len() as int);
    assert forall|i: int|
        0 <= i < files.len() && (#[trigger] files[i]).step
            == FileStep::FetchAndWrite implies all.contains(files[i].path@) by {
        assert(is_task_of(files[i], pack.files[i]));
        assert(file_step(pack.files@[i]) == FileStep::FetchAndWrite);
        let j = choose|j: int| 0 <= j < of_files.len() && of_files[j] == pack.files[i].path@;
        assert(all[j] == of_files[j]);
    }
    lemma_override_entries(entries, entries.len() as int);
    let due = override_entries(entries, entries.len() as int);
    assert forall|k: int|
        0 <= k < overrides.len() && (#[trigger] overrides[k]).target is Some implies all.contains(
        overrides[k].target->0@,
    ) by {
        let e = due[k];
        assert(is_override(entries[e]@));
        assert(text_of(overrides[k].target) == override_target(entries[e]@));
        let t = override_target(entries[e]@)->0;
        let j = choose|j: int| 0 <= j < of_overrides.len() && of_overrides[j] == t;
        assert(all[of_files.len() + j] == of_overrides[j]);
    }
}

/// The removal of a pack deletes nothing but what its install writes: each path that
/// the removal deletes is the path of a file of the pack that is fetched and
/// written, or the target of a file of the overrides.
pub proof fn lemma_removal_deletes_only_installed(entries: Seq<String>, pack: PackFormat)
    ensures
        forall|j: int|
            0 <= j < removal_paths(entries, pack).len() ==> writes_file(
                pack.files@,
                pack.files.len() as int,
                #[trigger] removal_paths(entries, pack)[j],
            ) || writes_override(entries, entries.len() as int, removal_paths(entries, pack)[j]),
{
    let all = removal_paths(entries, pack);
    let of_files = written_files(pack.files@, pack.files.len() as int);
    let of_overrides = written_overrides(entries, entries.len() as int);
    lemma_written_files(pack.files@, pack.files.len() as int);
    lemma_written_overrides(entries, entries.len() as int);
    assert forall|j: int| 0 <= j < all.len() implies writes_file(
        pack.files@,
        pack.files.len() as int,
        #[trigger] all[j],
    ) || writes_override(entries, entries.len() as int, all[j]) by {
        if j < of_files.len() {
            assert(all[j] == of_files[j]);
        } else {
            assert(all[j] == of_overrides[j - of_files.len()]);
        }
    }
}

/// What the removal does at one of its paths.
#[derive(Debug, Clone, Copy, PartialEq, Eq, Structural)]
pub enum Deletion {
    /// The file at the path is deleted.
    Delete,
    /// There is no file at the path: the path is passed over, which is no failure.
    PassOver,
}

/// What the removal does at a path, given whether there is a file at it.
pub fn plan_deletion(file_exists: bool) -> (d: Deletion)
    ensures
        d == (if file_exists {
            Deletion::Delete
        } else {
            Deletion::PassOver
        }),
{
    if file_exists {
        Deletion::Delete
    } else {
        Deletion::PassOver
    }
}

/// The files below the root after the removal has dealt with the first `n` of its
/// paths: at each path the file is gone, if there was one.
pub open spec fn files_after(files: Set<Seq<char>>, paths: Seq<Seq<char>>, n: int) -> Set<
    Seq<char>,
>
    decreases n,
{
    if n <= 0 {
        files
    } else {
        files_after(files, paths, n - 1).remove(paths[n - 1])
    }
}

/// Whether `path` is none of the first `n` paths.
pub open spec fn is_none_of(paths: Seq<Seq<char>>, n: int, path: Seq<char>) -> bool {
    forall|i: int| 0 <= i < n ==> #[trigger] paths[i] != path
}

/// After the first `n` paths, the files that are left are those that were there and
/// are at none of these paths.
proof fn lemma_files_after(files: Set<Seq<char>>, paths: Seq<Seq<char>>, n: int)
    requires
        0 <= n <= paths.len(),
    ensures
        forall|p: Seq<char>|
            #[trigger] files_after(files, paths, n).contains(p) <==> files.contains(p)
                && is_none_of(paths, n, p),
    decreases n,
{
    if n > 0 {
        lemma_files_after(files, paths, n - 1);
        let before = files_after(files, paths, n - 1);
        let here = files_after(files, paths, n);
        assert forall|p: Seq<char>| #[trigger]
            here.contains(p) <==> files.contains(p) && is_none_of(paths, n, p) by {
            assert(before.contains(p) <==> files.contains(p) && is_none_of(paths, n - 1, p));
            if is_none_of(paths, n, p) {
                assert(paths[n - 1] != p);
                assert(is_none_of(paths, n - 1, p));
            }
            if is_none_of(paths, n - 1, p) && paths[n - 1] != p {
                assert(is_none_of(paths, n, p));
            }
        }
    }
}

/// A removal that follows a removal finds none of its files and changes nothing:
/// after the first removal there is no file at any of its paths, so the second one
/// passes every path over, and the files stay as the first one left them.
pub proof fn lemma_second_removal_changes_nothing(files: Set<Seq<char>>, paths: Seq<Seq<char>>)
    ensures
        forall|j: int|
            0 <= j < paths.len() ==> !files_after(files, paths, paths.len() as int).contains(
                #[trigger] paths[j],
            ),
        forall|n: int|
            0 <= n <= paths.len() ==> #[trigger] files_after(
                files_after(files, paths, paths.len() as int),
                paths,
                n,
            ) == files_after(files, paths, paths.len() as int),
{
    let after = files_after(files, paths, paths.len() as int);
    lemma_files_after(files, paths, paths.len() as int);
    assert forall|j: int| 0 <= j < paths.len() implies !after.contains(#[trigger] paths[j]) by {
        if after.contains(paths[j]) {
            assert(is_none_of(paths, paths.len() as int, paths[j]));
        }
    }
    assert forall|n: int| 0 <= n <= paths.len() implies #[trigger] files_after(after, paths, n)
        == after by {
        lemma_files_after(after, paths, n);
        assert forall|p: Seq<char>| after.contains(p) implies files_after(
            after,
            paths,
            n,
        ).contains(p) by {
            assert(is_none_of(paths, paths.len() as int, p));
            assert(is_none_of(paths, n, p));
        }
        assert(files_after(after, paths, n) =~= after);
    }
}

} // verus!
