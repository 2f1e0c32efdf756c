//! Ability definitions, collected from asset files.
use crate::ability::types::{
    AbilityDefs, AbilityId, AbilityManifest, AbilitySlots, DefaultAbilitySlots,
};
use crate::names::{texts, NameMap};
use vstd::prelude::*;
use vstd::string::{StrSliceExecFns, StringExecFns};

verus! {

/// What the name of an ability file ends in.
pub open spec fn ability_suffix() -> Seq<char> {
    ".ability.ron"@
}

/// Whether `text` ends in `suffix`.
pub open spec fn ends_in(text: Seq<char>, suffix: Seq<char>) -> bool {
    text.len() >= suffix.len() && text.skip(text.len() - suffix.len()) == suffix
}

/// The id of the ability that a file of the given name defines.
pub open spec fn id_of_file(file_name: Option<Seq<char>>) -> Option<Seq<char>> {
    match file_name {
        Some(name) => if ends_in(name, ability_suffix()) {
            Some(name.take(name.len() - ability_suffix().len()))
        } else {
            None
        },
        None => None,
    }
}

/// The text of an optional name.
pub open spec fn name_text(name: Option<String>) -> Option<Seq<char>> {
    match name {
        Some(text) => Some(text@),
        None => None,
    }
}

/// The id of the ability that a file defines: its name without `.ability.ron`.
///
/// A file whose name ends otherwise defines none.
pub fn ability_id_from_file_name(name: &str) -> (id: Option<AbilityId>)
    ensures
        id is Some <==> ends_in(name@, ability_suffix()),
        id matches Some(found) ==> id_of_file(Some(name@)) == Some(found.0@),
{
    let suffix: &str = ".ability.ron";
    let length: usize = name.unicode_len();
    let tail: usize = suffix.unicode_len();
    if length < tail {
        return None;
    }
    let cut: usize = length - tail;
    let mut i: usize = 0;
    while i < tail
        invariant
            i <= tail,
            tail == suffix@.len(),
            length == name@.len(),
            cut == length - tail,
            suffix@ == ability_suffix(),
            forall|j: int| 0 <= j < i ==> name@[cut + j] == suffix@[j],
        decreases tail - i,
    {
        if name.get_char(cut + i) != suffix.get_char(i) {
            assert(name@.skip(cut as int)[i as int] != suffix@[i as int]);
            return None;
        }
        i = i + 1;
    }
    assert(name@.skip(cut as int) =~= suffix@);
    let stem: &str = name.substring_char(0, cut);
    assert(stem@ =~= name@.take(cut as int));
    Some(AbilityId(stem.to_string()))
}

/// The id of a file whose name, if it has one that is text, is given.
fn id_from_optional_name(file_name: &Option<String>) -> (id: Option<AbilityId>)
    ensures
        (match id {
            Some(id) => Some(id.0@),
            None => None,
        }) == id_of_file(name_text(*file_name)),
{
    match file_name {
        Some(name) => ability_id_from_file_name(name.as_str()),
        None => None,
    }
}

/// The path of the file that defines an ability.
pub fn ability_asset_path(id: &AbilityId) -> (path: String)
    ensures
        path@ == asset_path(id.0@),
{
    String::from_str("abilities/").concat(id.0.as_str()).concat(".ability.ron")
}

/// The path of the file that defines the ability `id`.
pub open spec fn asset_path(id: Seq<char>) -> Seq<char> {
    "abilities/"@ + id + ability_suffix()
}

/// The files to be loaded once a manifest is there, one for each ability that it lists, if their
/// loading has not begun.
pub fn trigger_individual_ability_loads(begun: bool, manifest: Option<&AbilityManifest>) -> (paths:
    Option<Vec<String>>)
    ensures
        paths is Some <==> !begun && manifest is Some,
        paths matches Some(all) ==> manifest matches Some(listed) && texts(all@) == texts(
            listed.0@,
        ).map_values(|id: Seq<char>| asset_path(id)),
{
    if begun {
        return None;
    }
    match manifest {
        Some(manifest) => {
            let mut paths: Vec<String> = Vec::new();
            let mut i: usize = 0;
            while i < manifest.0.len()
                invariant
                    i <= manifest.0@.len(),
                    paths@.len() == i,
                    forall|k: int|
                        0 <= k < i ==> (#[trigger] paths@[k])@ == asset_path(manifest.0@[k]@),
                decreases manifest.0@.len() - i,
            {
                paths.push(ability_asset_path(&AbilityId(manifest.0[i].clone())));
                i = i + 1;
            }
            assert(texts(paths@) =~= texts(manifest.0@).map_values(
                |id: Seq<char>| asset_path(id),
            ));
            Some(paths)
        },
        None => None,
    }
}

/// The file that is written for an ability defines that ability.
pub proof fn law_ability_file_names_its_id(id: Seq<char>)
    ensures
        id_of_file(Some(id + ability_suffix())) == Some(id),
{
    let name = id + ability_suffix();
    assert(name.skip(id.len() as int) =~= ability_suffix());
    assert(name.take(id.len() as int) =~= id);
}

/// A file of the ability folder: its name, where it is text, and the handle of its asset.
#[derive(Debug)]
pub struct AbilityFile {
    pub file_name: Option<String>,
    pub handle: u64,
}

/// The handles that a list of files gives to ability ids; of two files the later one counts.
pub open spec fn handles_of_files(files: Seq<AbilityFile>) -> Map<Seq<char>, u64>
    decreases files.len(),
{
    if files.len() == 0 {
        Map::empty()
    } else {
        let init = handles_of_files(files.drop_last());
        match id_of_file(name_text(files.last().file_name)) {
            Some(id) => init.insert(id, files.last().handle),
            None => init,
        }
    }
}

/// The definitions in a folder. Files that define no ability are passed over.
pub fn collect_ability_handles_from_folder(files: &Vec<AbilityFile>) -> (defs: AbilityDefs)
    ensures
        defs.wf(),
        defs.abilities.view() == handles_of_files(files@),
{
    let mut abilities: NameMap<u64> = NameMap::new();
    let mut i: usize = 0;
    assert(handles_of_files(files@.take(0)) =~= Map::<Seq<char>, u64>::empty());
    while i < files.len()
        invariant
            i <= files@.len(),
            abilities.wf(),
            abilities.view() == handles_of_files(files@.take(i as int)),
        decreases files@.len() - i,
    {
        assert(files@.take(i + 1).drop_last() =~= files@.take(i as int));
        if let Some(id) = id_from_optional_name(&files[i].file_name) {
            abilities.insert(id.0, files[i].handle);
        }
        i = i + 1;
    }
    assert(files@.take(i as int) =~= files@);
    AbilityDefs { abilities }
}

/// A file of the manifest: its name, where it is text, its handle, and whether it has been loaded.
#[derive(Debug)]
pub struct PendingAbility {
    pub file_name: Option<String>,
    pub handle: u64,
    pub loaded: bool,
}

/// The id that a file of the manifest gives, once it is loaded.
pub open spec fn pending_id(file: PendingAbility) -> Option<Seq<char>> {
    if file.loaded {
        id_of_file(name_text(file.file_name))
    } else {
        None
    }
}

/// Every file is loaded and defines an ability, no two the same.
pub open spec fn all_defined(files: Seq<PendingAbility>) -> bool {
    &&& forall|i: int| 0 <= i < files.len() ==> pending_id(#[trigger] files[i]) is Some
    &&& forall|i: int, j: int|
        0 <= i < j < files.len() ==> pending_id(#[trigger] files[i]) != pending_id(
            #[trigger] files[j],
        )
}

/// The map holds the id and the handle of each file, and nothing else.
pub open spec fn defines_all(abilities: Map<Seq<char>, u64>, files: Seq<PendingAbility>) -> bool {
    &&& forall|i: int|
        0 <= i < files.len() ==> abilities.dom().contains(pending_id(#[trigger] files[i])->0)
            && abilities[pending_id(files[i])->0] == files[i].handle
    &&& forall|id: Seq<char>| #[trigger]
        abilities.dom().contains(id) ==> exists|i: int|
            0 <= i < files.len() && pending_id(#[trigger] files[i]) == Some(id)
}

/// The definitions that a manifest lists, once there is one for each of its files.
///
/// Until then, and where two files define the same ability, there are none.
pub fn complete_ability_defs(files: &Vec<PendingAbility>) -> (defs: Option<AbilityDefs>)
    ensures
        defs is Some <==> all_defined(files@),
        defs is Some ==> defs->0.wf() && defines_all(defs->0.abilities.view(), files@),
{
    let mut abilities: NameMap<u64> = NameMap::new();
    let mut i: usize = 0;
    while i < files.len()
        invariant
            i <= files@.len(),
            abilities.wf(),
            all_defined(files@.take(i as int)),
            defines_all(abilities.view(), files@.take(i as int)),
        decreases files@.len() - i,
    {
        let ghost seen = files@.take(i as int);
        let ghost next = files@.take(i + 1);
        assert(forall|k: int| 0 <= k < i ==> next[k] == seen[k]);
        assert(next[i as int] == files@[i as int]);
        if !files[i].loaded {
            assert(pending_id(files@[i as int]) is None);
            return None;
        }
        match id_from_optional_name(&files[i].file_name) {
            Some(id) => {
                let ghost text = id.0@;
                assert(pending_id(files@[i as int]) == Some(text));
                if abilities.get(&id.0).is_some() {
                    proof {
                        let k = choose|k: int|
                            0 <= k < seen.len() && pending_id(#[trigger] seen[k]) == Some(text);
                        assert(files@[k] == seen[k]);
                    }
                    return None;
                }
                let ghost before = abilities.view();
                abilities.insert(id.0, files[i].handle);
                proof {
                    assert forall|k: int, l: int| 0 <= k < l < next.len() implies pending_id(
                        #[trigger] next[k],
                    ) != pending_id(#[trigger] next[l]) by {
                        assert(next[k] == seen[k]);
                        assert(before.dom().contains(pending_id(seen[k])->0));
                        if l < i {
                            assert(next[l] == seen[l]);
                        }
                    }
                    assert forall|k: int| 0 <= k < next.len() implies abilities.view().dom().contains(
                        pending_id(#[trigger] next[k])->0) && abilities.view()[pending_id(next[k])->0]
                        == next[k].handle by {
                        if k < i {
                            assert(next[k] == seen[k]);
                            assert(before.dom().contains(pending_id(seen[k])->0));
                        }
                    }
                    assert forall|id: Seq<char>| #[trigger] abilities.view().dom().contains(id) implies exists|
                        k: int,
                    | 0 <= k < next.len() && pending_id(#[trigger] next[k]) == Some(id) by {
                        if id == text {
                            assert(pending_id(next[i as int]) == Some(id));
                        } else {
                            assert(before.dom().contains(id));
                            let k = choose|k: int|
                                0 <= k < seen.len() && pending_id(#[trigger] seen[k]) == Some(id);
                            assert(next[k] == seen[k]);
                        }
                    }
                }
            },
            None => {
                assert(pending_id(files@[i as int]) is None);
                return None;
            },
        }
        i = i + 1;
    }
    assert(files@.take(i as int) =~= files@);
    Some(AbilityDefs { abilities })
}

/// What happened to an asset.
#[derive(Clone, Copy, Debug, PartialEq, Eq, Structural)]
pub enum AssetEventKind {
    Added,
    Modified,
    Removed,
    Unused,
    LoadedWithDependencies,
}

/// An event about the asset with the given handle.
#[derive(Clone, Copy, Debug, PartialEq, Eq, Structural)]
pub struct AssetEvent {
    pub kind: AssetEventKind,
    pub handle: u64,
}

/// Whether some asset was modified.
pub open spec fn any_modified(events: Seq<AssetEvent>) -> bool {
    exists|i: int| 0 <= i < events.len() && (#[trigger] events[i]).kind == AssetEventKind::Modified
}

fn has_modified(events: &Vec<AssetEvent>) -> (modified: bool)
    ensures
        modified == any_modified(events@),
{
    let mut i: usize = 0;
    while i < events.len()
        invariant
            i <= events@.len(),
            forall|j: int| 0 <= j < i ==> (#[trigger] events@[j]).kind != AssetEventKind::Modified,
        decreases events@.len() - i,
    {
        if events[i].kind == AssetEventKind::Modified {
            assert(events@[i as int].kind == AssetEventKind::Modified);
            return true;
        }
        i = i + 1;
    }
    false
}

/// Where ability definitions come from.
#[derive(Debug)]
pub enum AbilitySource<'a> {
    /// The files of a folder, all of them loaded.
    Folder(&'a Vec<AbilityFile>),
    /// The files that a manifest lists, each loaded on its own.
    Manifest(&'a Vec<PendingAbility>),
}

impl<'a> AbilitySource<'a> {
    /// Whether the definitions can be had by now.
    pub open spec fn is_complete(self) -> bool {
        match self {
            AbilitySource::Folder(_) => true,
            AbilitySource::Manifest(files) => all_defined(files@),
        }
    }

    /// Whether `abilities` are the definitions of this source.
    pub open spec fn defines(self, abilities: Map<Seq<char>, u64>) -> bool {
        match self {
            AbilitySource::Folder(files) => abilities == handles_of_files(files@),
            AbilitySource::Manifest(files) => defines_all(abilities, files@),
        }
    }

    fn read(self) -> (defs: Option<AbilityDefs>)
        ensures
            defs is Some <==> self.is_complete(),
            defs is Some ==> defs->0.wf() && self.defines(defs->0.abilities.view()),
    {
        match self {
            AbilitySource::Folder(files) => Some(collect_ability_handles_from_folder(files)),
            AbilitySource::Manifest(files) => complete_ability_defs(files),
        }
    }
}

/// The definitions to start with, once they can be had, unless there are some already.
pub fn insert_ability_defs(existing: bool, source: Option<AbilitySource>) -> (defs: Option<
    AbilityDefs,
>)
    ensures
        defs is Some <==> !existing && source is Some && source->0.is_complete(),
        defs is Some ==> defs->0.wf() && source->0.defines(defs->0.abilities.view()),
{
    if existing {
        return None;
    }
    match source {
        Some(source) => source.read(),
        None => None,
    }
}

/// The definitions after a change, if some ability was modified and they can be had.
pub fn reload_ability_defs(events: &Vec<AssetEvent>, source: Option<AbilitySource>) -> (defs: Option<
    AbilityDefs,
>)
    ensures
        defs is Some <==> any_modified(events@) && source is Some && source->0.is_complete(),
        defs is Some ==> defs->0.wf() && source->0.defines(defs->0.abilities.view()),
{
    if !has_modified(events) {
        return None;
    }
    match source {
        Some(source) => source.read(),
        None => None,
    }
}

/// Whether `event` says that the slots with the given handle can be read anew.
pub open spec fn concerns_slots(event: AssetEvent, handle: u64) -> bool {
    event.handle == handle && (event.kind == AssetEventKind::Modified || event.kind
        == AssetEventKind::LoadedWithDependencies)
}

/// Whether some event says so.
pub open spec fn slots_arrived(events: Seq<AssetEvent>, handle: u64) -> bool {
    exists|i: int| 0 <= i < events.len() && concerns_slots(#[trigger] events[i], handle)
}

/// The default slots to use from now on, if an event about them came in and they can be read.
pub fn sync_default_ability_slots(
    handle: Option<u64>,
    events: &Vec<AssetEvent>,
    slots: Option<AbilitySlots>,
) -> (synced: Option<DefaultAbilitySlots>)
    ensures
        synced is Some <==> handle is Some && slots_arrived(events@, handle->0) && slots is Some,
        synced matches Some(current) ==> Some(current.0) == slots,
{
    let wanted: u64 = match handle {
        Some(wanted) => wanted,
        None => {
            return None;
        },
    };
    let mut i: usize = 0;
    let mut relevant: bool = false;
    while i < events.len() && !relevant
        invariant
            i <= events@.len(),
            relevant ==> slots_arrived(events@, wanted),
            !relevant ==> forall|j: int| 0 <= j < i ==> !concerns_slots(#[trigger] events@[j], wanted),
        decreases events@.len() - i,
    {
        let event: AssetEvent = events[i];
        if event.handle == wanted && (event.kind == AssetEventKind::Modified || event.kind
            == AssetEventKind::LoadedWithDependencies) {
            assert(concerns_slots(events@[i as int], wanted));
            relevant = true;
        }
        i = i + 1;
    }
    if !relevant {
        return None;
    }
    match slots {
        Some(slots) => Some(DefaultAbilitySlots(slots)),
        None => None,
    }
}

/// A file defines an ability if its name is the ability's id followed by `.ability.ron`, and only then.
pub proof fn law_files_are_named_after_their_ability(name: Seq<char>, id: Seq<char>)
    ensures
        id_of_file(Some(name)) == Some(id) <==> name == id + ".ability.ron"@,
        id_of_file(Some(name)) is Some <==> ends_in(name, ability_suffix()),
        id_of_file(None) is None,
        asset_path(id) == "abilities/"@ + id + ".ability.ron"@,
{
    let suffix = ".ability.ron"@;
    if id_of_file(Some(name)) == Some(id) {
        assert(name =~= name.take(name.len() - suffix.len()) + name.skip(
            name.len() - suffix.len(),
        ));
    }
    if name == id + suffix {
        law_ability_file_names_its_id(id);
    }
}

/// A name is known by its text.
pub proof fn law_names_are_known_by_their_text(name: Option<String>)
    ensures
        name_text(name) is Some <==> name is Some,
        name_text(name) is Some ==> name_text(name)->0 == name->0@,
{
}

/// Of a folder, an ability has the handle of the last file that defines it; an ability that no file
/// defines has none.
pub proof fn law_last_file_defines_an_ability(files: Seq<AbilityFile>, id: Seq<char>)
    ensures
        forall|i: int|
            0 <= i < files.len() && id_of_file(name_text((#[trigger] files[i]).file_name)) == Some(id)
                && (forall|j: int|
                i < j < files.len() ==> id_of_file(name_text((#[trigger] files[j]).file_name))
                    != Some(id)) ==> handles_of_files(files).dom().contains(id) && handles_of_files(
                files,
            )[id] == files[i].handle,
        handles_of_files(files).dom().contains(id) ==> exists|i: int|
            0 <= i < files.len() && id_of_file(name_text((#[trigger] files[i]).file_name)) == Some(id),
    decreases files.len(),
{
    if files.len() > 0 {
        let init = files.drop_last();
        let last = files.len() - 1;
        law_last_file_defines_an_ability(init, id);
        assert(forall|j: int| 0 <= j < init.len() ==> #[trigger] init[j] == files[j]);
        assert forall|i: int|
            0 <= i < files.len() && id_of_file(name_text((#[trigger] files[i]).file_name)) == Some(id)
                && (forall|j: int|
                i < j < files.len() ==> id_of_file(name_text((#[trigger] files[j]).file_name))
                    != Some(id)) implies handles_of_files(files).dom().contains(id)
            && handles_of_files(files)[id] == files[i].handle by {
            if i < last {
                assert(id_of_file(name_text(files[last].file_name)) != Some(id));
                assert(init[i] == files[i]);
                assert forall|j: int| i < j < init.len() implies id_of_file(
                    name_text((#[trigger] init[j]).file_name),
                ) != Some(id) by {
                    assert(init[j] == files[j]);
                }
            }
        }
        if handles_of_files(files).dom().contains(id) {
            if id_of_file(name_text(files[last].file_name)) != Some(id) {
                let i = choose|i: int|
                    0 <= i < init.len() && id_of_file(name_text((#[trigger] init[i]).file_name))
                        == Some(id);
                assert(id_of_file(name_text(files[i].file_name)) == Some(id));
            }
        }
    } else {
        assert(handles_of_files(files) =~= Map::empty());
    }
}

/// A manifest is complete once each of its files is loaded and defines an ability of its own.
pub proof fn law_manifests_wait_for_all_files(files: Seq<PendingAbility>)
    ensures
        all_defined(files) <==> (forall|i: int|
            0 <= i < files.len() ==> (#[trigger] files[i]).loaded && id_of_file(
                name_text(files[i].file_name),
            ) is Some) && (forall|i: int, j: int|
            0 <= i < files.len() && 0 <= j < files.len() && i != j ==> id_of_file(
                name_text((#[trigger] files[i]).file_name),
            ) != id_of_file(name_text((#[trigger] files[j]).file_name))),
{
    if all_defined(files) {
        assert forall|i: int, j: int|
            0 <= i < files.len() && 0 <= j < files.len() && i != j implies id_of_file(
            name_text((#[trigger] files[i]).file_name),
        ) != id_of_file(name_text((#[trigger] files[j]).file_name)) by {
            assert(pending_id(files[i]) is Some && pending_id(files[j]) is Some);
            if i < j {
                assert(pending_id(files[i]) != pending_id(files[j]));
            } else {
                assert(pending_id(files[j]) != pending_id(files[i]));
            }
        }
    }
}

/// The definitions of a complete manifest are the handles of its files, each under the id of its file,
/// and nothing else.
pub proof fn law_manifest_files_define_their_abilities(
    abilities: Map<Seq<char>, u64>,
    files: Seq<PendingAbility>,
    id: Seq<char>,
)
    requires
        all_defined(files),
        defines_all(abilities, files),
    ensures
        forall|i: int|
            0 <= i < files.len() && id_of_file(name_text((#[trigger] files[i]).file_name)) == Some(id)
                ==> abilities.dom().contains(id) && abilities[id] == files[i].handle,
        abilities.dom().contains(id) ==> exists|i: int|
            0 <= i < files.len() && id_of_file(name_text((#[trigger] files[i]).file_name)) == Some(id),
{
    assert forall|i: int|
        0 <= i < files.len() && id_of_file(name_text((#[trigger] files[i]).file_name)) == Some(
            id,
        ) implies abilities.dom().contains(id) && abilities[id] == files[i].handle by {
        assert(pending_id(files[i]) == Some(id));
    }
    if abilities.dom().contains(id) {
        let i = choose|i: int| 0 <= i < files.len() && pending_id(#[trigger] files[i]) == Some(id);
        assert(id_of_file(name_text(files[i].file_name)) == Some(id));
    }
}

/// A folder is complete as it is, and a manifest once all of its files are there; each defines what its
/// own files do.
pub proof fn law_sources_define_what_their_files_do<'a>(
    folder: &'a Vec<AbilityFile>,
    listed: &'a Vec<PendingAbility>,
    abilities: Map<Seq<char>, u64>,
)
    ensures
        AbilitySource::Folder(folder).is_complete(),
        AbilitySource::Folder(folder).defines(abilities) <==> abilities == handles_of_files(folder@),
        AbilitySource::Manifest(listed).is_complete() <==> all_defined(listed@),
        AbilitySource::Manifest(listed).defines(abilities) <==> defines_all(abilities, listed@),
{
}

/// Definitions are read again when an asset was modified, and the default slots when theirs was modified
/// or has come in. Other events, and events about other assets, change nothing.
pub proof fn law_events_say_what_to_read_again(events: Seq<AssetEvent>, handle: u64)
    ensures
        any_modified(events) <==> exists|i: int|
            0 <= i < events.len() && (#[trigger] events[i]).kind == AssetEventKind::Modified,
        slots_arrived(events, handle) <==> exists|i: int|
            0 <= i < events.len() && (#[trigger] events[i]).handle == handle && (events[i].kind
                == AssetEventKind::Modified || events[i].kind
                == AssetEventKind::LoadedWithDependencies),
{
    if slots_arrived(events, handle) {
        let i = choose|i: int| 0 <= i < events.len() && concerns_slots(#[trigger] events[i], handle);
        assert(events[i].handle == handle);
    }
    if exists|i: int|
        0 <= i < events.len() && (#[trigger] events[i]).handle == handle && (events[i].kind
            == AssetEventKind::Modified || events[i].kind
            == AssetEventKind::LoadedWithDependencies) {
        let i = choose|i: int|
            0 <= i < events.len() && (#[trigger] events[i]).handle == handle && (events[i].kind
                == AssetEventKind::Modified || events[i].kind
                == AssetEventKind::LoadedWithDependencies);
        assert(concerns_slots(events[i], handle));
    }
}

} // verus!
