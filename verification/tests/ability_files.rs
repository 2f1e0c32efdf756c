use lightyear_arena::ability::loading::{
    ability_asset_path, ability_id_from_file_name, collect_ability_handles_from_folder,
    complete_ability_defs, insert_ability_defs, reload_ability_defs, sync_default_ability_slots,
    trigger_individual_ability_loads, AbilityFile, AbilitySource, AssetEvent, AssetEventKind, PendingAbility,
};
use lightyear_arena::ability::manifest::{ability_manifest, sorted_ability_ids, ManifestSync};
use lightyear_arena::ability::types::{AbilityDefs, AbilityId, AbilityManifest, AbilitySlots};
use lightyear_arena::names::{names_to_load, NameMap};

fn id(text: &str) -> AbilityId {
    AbilityId(text.to_string())
}

fn file(name: &str, handle: u64) -> AbilityFile {
    AbilityFile { file_name: Some(name.to_string()), handle }
}

fn pending(name: &str, handle: u64, loaded: bool) -> PendingAbility {
    PendingAbility { file_name: Some(name.to_string()), handle, loaded }
}

fn defs_of(names: &[&str]) -> AbilityDefs {
    let mut abilities = NameMap::new();
    for (handle, name) in names.iter().enumerate() {
        abilities.insert(name.to_string(), handle as u64);
    }
    AbilityDefs { abilities }
}

#[test]
fn files_name_their_abilities() {
    assert_eq!(ability_id_from_file_name("punch.ability.ron"), Some(id("punch")));
    assert_eq!(ability_id_from_file_name(".ability.ron"), Some(id("")));
    assert_eq!(ability_id_from_file_name("a.b.ability.ron"), Some(id("a.b")));
    assert_eq!(ability_id_from_file_name("ünï.ability.ron"), Some(id("ünï")));
    assert_eq!(ability_id_from_file_name("punch.ability_ron"), None);
    assert_eq!(ability_id_from_file_name("ability.ron"), None);
    assert_eq!(ability_id_from_file_name(""), None);
    assert_eq!(ability_id_from_file_name("punch.ability.ron.bak"), None);
}

#[test]
fn paths_lead_back_to_their_abilities() {
    let path = ability_asset_path(&id("fireball"));
    assert_eq!(path, "abilities/fireball.ability.ron");
    let name = path.strip_prefix("abilities/").expect("the folder");
    assert_eq!(ability_id_from_file_name(name), Some(id("fireball")));
}

#[test]
fn folders_are_collected() {
    let files = vec![
        file("punch.ability.ron", 1),
        file("notes.txt", 2),
        AbilityFile { file_name: None, handle: 3 },
        file("dash.ability.ron", 4),
        file("punch.ability.ron", 5),
    ];
    let defs = collect_ability_handles_from_folder(&files);
    assert_eq!(defs.abilities.len(), 2);
    assert_eq!(defs.get(&id("punch")), Some(5));
    assert_eq!(defs.get(&id("dash")), Some(4));
    assert_eq!(defs.get(&id("notes")), None);
}

#[test]
fn manifests_wait_for_all_files() {
    let loading =
        vec![pending("punch.ability.ron", 1, true), pending("dash.ability.ron", 2, false)];
    assert!(complete_ability_defs(&loading).is_none());
    let stray = vec![pending("punch.ability.ron", 1, true), pending("notes.txt", 2, true)];
    assert!(complete_ability_defs(&stray).is_none());
    let twice =
        vec![pending("punch.ability.ron", 1, true), pending("punch.ability.ron", 2, true)];
    assert!(complete_ability_defs(&twice).is_none());
    let done = vec![pending("punch.ability.ron", 1, true), pending("dash.ability.ron", 2, true)];
    let defs = complete_ability_defs(&done).expect("all files are there");
    assert_eq!(defs.get(&id("punch")), Some(1));
    assert_eq!(defs.get(&id("dash")), Some(2));
}

#[test]
fn definitions_are_inserted_once_and_reloaded_on_change() {
    let files = vec![file("punch.ability.ron", 1)];
    assert!(insert_ability_defs(true, Some(AbilitySource::Folder(&files))).is_none());
    assert!(insert_ability_defs(false, None).is_none());
    let defs = insert_ability_defs(false, Some(AbilitySource::Folder(&files)))
        .expect("a loaded folder");
    assert_eq!(defs.get(&id("punch")), Some(1));

    let added = vec![AssetEvent { kind: AssetEventKind::Added, handle: 1 }];
    assert!(reload_ability_defs(&added, Some(AbilitySource::Folder(&files))).is_none());
    let modified = vec![
        AssetEvent { kind: AssetEventKind::Unused, handle: 9 },
        AssetEvent { kind: AssetEventKind::Modified, handle: 1 },
    ];
    assert!(reload_ability_defs(&modified, Some(AbilitySource::Folder(&files))).is_some());
    assert!(reload_ability_defs(&modified, None).is_none());
    let waiting = vec![pending("punch.ability.ron", 1, false)];
    assert!(reload_ability_defs(&modified, Some(AbilitySource::Manifest(&waiting))).is_none());
}

#[test]
fn default_slots_follow_their_asset() {
    let slots = || AbilitySlots([Some(id("punch")), None, None, None]);
    let about_it = vec![AssetEvent { kind: AssetEventKind::LoadedWithDependencies, handle: 3 }];
    let about_another = vec![AssetEvent { kind: AssetEventKind::Modified, handle: 4 }];
    let added = vec![AssetEvent { kind: AssetEventKind::Added, handle: 3 }];
    assert!(sync_default_ability_slots(None, &about_it, Some(slots())).is_none());
    assert!(sync_default_ability_slots(Some(3), &about_another, Some(slots())).is_none());
    assert!(sync_default_ability_slots(Some(3), &added, Some(slots())).is_none());
    assert!(sync_default_ability_slots(Some(3), &about_it, None).is_none());
    let synced =
        sync_default_ability_slots(Some(3), &about_it, Some(slots())).expect("slots arrived");
    assert_eq!(synced.0 .0[0], Some(id("punch")));
}

#[test]
fn ids_are_sorted() {
    let defs = defs_of(&["punch3", "dash", "punch", "Zap", "äther", "zap"]);
    let ids = sorted_ability_ids(&defs);
    let mut expected: Vec<&str> = vec!["punch3", "dash", "punch", "Zap", "äther", "zap"];
    expected.sort_unstable();
    assert_eq!(ids, expected);
}

#[test]
fn manifests_are_lists_of_ids() {
    let text = ability_manifest(&defs_of(&["punch", "dash", "fireball"])).expect("plain ids");
    assert_eq!(text, r#"["dash","fireball","punch"]"#);
    assert_eq!(ability_manifest(&defs_of(&[])).expect("no ids"), "[]");
    let odd = ability_manifest(&defs_of(&["say \"hi\""])).expect("a quoted id");
    assert_eq!(odd, r#"["say \"hi\""]"#);
}

#[test]
fn manifests_read_back_as_the_ids() {
    let defs = defs_of(&["punch", "say \"hi\"", "tab\there", "äther"]);
    let text = ability_manifest(&defs).expect("a manifest");
    let ids: Vec<String> = ron::from_str(&text).expect("a list of strings");
    assert_eq!(ids, sorted_ability_ids(&defs));
}

#[test]
fn manifests_are_written_on_change() {
    let mut sync = ManifestSync::default();
    assert!(sync.sync_ability_manifest(None, true).is_none());
    let one = defs_of(&["punch"]);
    assert!(sync.sync_ability_manifest(Some(&one), false).is_some());
    assert_eq!(sync.last_len, 1);
    assert!(sync.sync_ability_manifest(Some(&one), false).is_none());
    assert!(sync.sync_ability_manifest(Some(&one), true).is_some());
    let none = defs_of(&[]);
    assert!(sync.sync_ability_manifest(Some(&none), false).is_some());
    assert_eq!(sync.last_len, 0);
}

#[test]
fn names_are_loaded_once() {
    let mut known = NameMap::new();
    known.insert("idle".to_string(), 1u64);
    let wanted: Vec<String> =
        ["run", "idle", "run", "jab"].iter().map(|name| name.to_string()).collect();
    assert_eq!(names_to_load(&wanted, &known), vec!["run", "jab"]);
}

#[test]
fn name_maps_replace_values() {
    let mut map = NameMap::new();
    map.insert("a".to_string(), 1);
    map.insert("b".to_string(), 2);
    map.insert("a".to_string(), 3);
    assert_eq!(map.len(), 2);
    assert_eq!(map.get(&"a".to_string()), Some(&3));
    assert_eq!(map.get(&"c".to_string()), None);
    assert_eq!(map.names(), &vec!["a".to_string(), "b".to_string()]);
}

#[test]
fn manifests_start_loading_once() {
    let manifest = AbilityManifest(vec!["dash".to_string(), "punch".to_string()]);
    assert_eq!(
        trigger_individual_ability_loads(false, Some(&manifest)),
        Some(vec![
            "abilities/dash.ability.ron".to_string(),
            "abilities/punch.ability.ron".to_string(),
        ])
    );
    assert_eq!(trigger_individual_ability_loads(true, Some(&manifest)), None);
    assert_eq!(trigger_individual_ability_loads(false, None), None);
}
