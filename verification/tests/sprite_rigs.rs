use lightyear_arena::ability::types::{AbilityId, AbilityPhase, ActiveAbility};
use lightyear_arena::entity::Entity;
use lightyear_arena::names::NameMap;
use lightyear_arena::scalar::Scalar;
use lightyear_arena::sprite_rig::animation::{
    all_clips_built, bone_anim_defaults, collect_animset_clip_paths, compute_blend_bracket,
    plan_bone_curves, return_to_locomotion, update_facing_from_velocity, AbilityAnimation, AnimSet,
    BlendBracket, BoneAnimDefault, BoneCurves, CurveSource, Facing, LocomotionEntry, LocomotionRow,
    TimelineLengths,
};
use lightyear_arena::sprite_rig::bones::{topological_sort_bones, BoneDef, Vector2};
use lightyear_arena::sprite_rig::clips::{
    build_animation_clips, build_clip_from, event_counts, load_animset_clips,
    populate_anim_bone_defaults,
};
use lightyear_arena::sprite_rig::graph::{
    build_anim_graphs, build_graph_for_animset, trigger_ability_animations, AbilityClip,
};
use lightyear_arena::sprite_rig::mesh::{
    append_quad_indices, build_bone_index_map, build_rig_mesh, build_slot_lookup,
    collect_visible_bones, draw_order, joint_parents, AttachmentDef, SlotDef, SpriteAnchorDef,
};
use lightyear_arena::tick::Tick;
use std::collections::{HashMap, HashSet};

fn scalar(value: f32) -> Scalar {
    Scalar(value.to_bits())
}

fn entity(bits: u64) -> Entity {
    Entity::try_from_bits(bits).expect("bits of an entity")
}

/// The weight of each clip at `speed`.
fn blend_weights(speed: f32, thresholds: &[f32]) -> Vec<f32> {
    let mut weights = vec![0.0; thresholds.len()];
    let scalars: Vec<Scalar> = thresholds.iter().map(|t| scalar(*t)).collect();
    match compute_blend_bracket(scalar(speed), &scalars) {
        BlendBracket::Empty => {},
        BlendBracket::Only(i) => weights[i] = 1.0,
        BlendBracket::Between(i) => {
            let (lo, hi) = (thresholds[i], thresholds[i + 1]);
            let t = (speed - lo) / (hi - lo);
            weights[i] = 1.0 - t;
            weights[i + 1] = t;
        },
    }
    weights
}

#[test]
fn blend_weights_below_minimum() {
    assert_eq!(blend_weights(0.0, &[0.0, 2.0, 6.0]), vec![1.0, 0.0, 0.0]);
}

#[test]
fn blend_weights_above_maximum() {
    assert_eq!(blend_weights(10.0, &[0.0, 2.0, 6.0]), vec![0.0, 0.0, 1.0]);
}

#[test]
fn blend_weights_midpoint() {
    assert_eq!(blend_weights(1.0, &[0.0, 2.0, 6.0]), vec![0.5, 0.5, 0.0]);
}

#[test]
fn blend_weights_exact_threshold() {
    assert_eq!(blend_weights(2.0, &[0.0, 2.0, 6.0]), vec![0.0, 1.0, 0.0]);
}

#[test]
fn blend_weights_between_upper_pair() {
    assert_eq!(blend_weights(4.0, &[0.0, 2.0, 6.0]), vec![0.0, 0.5, 0.5]);
}

#[test]
fn blend_weights_single_entry() {
    assert_eq!(blend_weights(5.0, &[0.0]), vec![1.0]);
}

#[test]
fn blend_weights_empty() {
    assert!(blend_weights(5.0, &[]).is_empty());
}

#[test]
fn blending_without_a_number_falls_back() {
    let thresholds = vec![scalar(0.0), scalar(2.0)];
    assert_eq!(compute_blend_bracket(scalar(f32::NAN), &thresholds), BlendBracket::Only(0));
}

#[test]
fn facing_follows_fast_movement() {
    assert_eq!(update_facing_from_velocity(Facing::Right, scalar(0.2)), Facing::Left);
    assert_eq!(update_facing_from_velocity(Facing::Left, scalar(-0.2)), Facing::Right);
    assert_eq!(update_facing_from_velocity(Facing::Left, scalar(0.1)), Facing::Left);
    assert_eq!(update_facing_from_velocity(Facing::Right, scalar(0.05)), Facing::Right);
    assert_eq!(update_facing_from_velocity(Facing::Left, scalar(-0.05)), Facing::Left);
    assert_eq!(update_facing_from_velocity(Facing::Left, scalar(f32::NAN)), Facing::Left);
}

#[test]
fn events_of_faint_clips_do_not_count() {
    assert!(event_counts(scalar(1.0)));
    assert!(event_counts(scalar(0.011)));
    assert!(event_counts(scalar(0.01)));
    assert!(!event_counts(scalar(0.0099)));
    assert!(!event_counts(scalar(0.0)));
    assert!(!event_counts(scalar(f32::NAN)));
}

fn bone(name: &str, parent: Option<&str>) -> BoneDef {
    BoneDef {
        name: name.to_string(),
        parent: parent.map(|p| p.to_string()),
        translation: Vector2 { x: scalar(1.0), y: scalar(2.0) },
    }
}

fn rig() -> Vec<BoneDef> {
    vec![
        bone("hand", Some("arm")),
        bone("arm", Some("torso")),
        bone("torso", None),
        bone("head", Some("torso")),
    ]
}

#[test]
fn parents_come_before_children() {
    assert_eq!(topological_sort_bones(&rig()), Some(vec![2, 3, 1, 0]));
    assert_eq!(topological_sort_bones(&vec![]), Some(vec![]));
}

#[test]
fn broken_hierarchies_have_no_order() {
    let orphan = vec![bone("hand", Some("arm"))];
    assert_eq!(topological_sort_bones(&orphan), None);
    let circle = vec![bone("a", Some("b")), bone("b", Some("a"))];
    assert_eq!(topological_sort_bones(&circle), None);
    let twins = vec![bone("a", None), bone("a", None)];
    assert_eq!(topological_sort_bones(&twins), None);
}

fn slot(bone: &str, z: f32, attachment: &str) -> SlotDef {
    SlotDef {
        bone: bone.to_string(),
        z_order: scalar(z),
        default_attachment: attachment.to_string(),
    }
}

fn slots() -> Vec<SlotDef> {
    vec![slot("hand", 2.0, "fist"), slot("torso", 0.0, "body"), slot("head", 2.0, "face")]
}

fn skin() -> NameMap<AttachmentDef> {
    let mut skin = NameMap::new();
    for (name, image) in [("fist", "fist.png"), ("body", "body.png"), ("face", "face.png")] {
        skin.insert(
            name.to_string(),
            AttachmentDef {
                image: image.to_string(),
                size: Vector2 { x: scalar(3.0), y: scalar(4.0) },
                anchor: SpriteAnchorDef::TopCenter,
            },
        );
    }
    skin
}

#[test]
fn rigs_are_drawn_from_back_to_front() {
    let bones = rig();
    let order = topological_sort_bones(&bones).expect("a hierarchy");
    let lookup = build_slot_lookup(&slots(), Some(&skin()));
    let info = lookup.get(&"hand".to_string()).expect("something on the hand");
    assert_eq!(info.image_path, "fist.png");
    assert_eq!(info.anchor, SpriteAnchorDef::TopCenter);
    assert!(lookup.get(&"arm".to_string()).is_none());

    let index = build_bone_index_map(&bones, &order);
    assert_eq!(index.get(&"torso".to_string()), Some(&0));
    assert_eq!(index.get(&"hand".to_string()), Some(&3));
    assert_eq!(joint_parents(&bones, &order), vec![None, Some(0), Some(0), Some(2)]);

    let visible = collect_visible_bones(&bones, &order, &lookup);
    let names: Vec<&str> = visible.iter().map(|v| bones[v.bone].name.as_str()).collect();
    assert_eq!(names, vec!["torso", "head", "hand"]);
    assert_eq!(draw_order(&visible), vec![0, 1, 2]);

    let mesh = build_rig_mesh(&visible);
    assert_eq!(mesh.quads.len(), 3);
    assert_eq!(mesh.quads[2].joint, 3);
    assert_eq!(&mesh.indices[0..6], &[0, 1, 2, 0, 2, 3]);
    assert_eq!(&mesh.indices[12..18], &[8, 9, 10, 8, 10, 11]);
}

#[test]
fn bones_as_far_back_keep_their_order() {
    let bones = rig();
    let order = topological_sort_bones(&bones).expect("a hierarchy");
    let front = vec![slot("torso", 9.0, "body"), slot("hand", 1.0, "fist"), slot("head", 1.0, "x")];
    let lookup = build_slot_lookup(&front, None);
    let visible = collect_visible_bones(&bones, &order, &lookup);
    assert_eq!(draw_order(&visible), vec![1, 2, 0]);
}

#[test]
fn quads_are_two_triangles() {
    let mut indices = vec![7];
    append_quad_indices(8, &mut indices);
    assert_eq!(indices, vec![7, 8, 9, 10, 8, 10, 11]);
}

#[test]
fn bones_have_defaults() {
    let mut layered = slots();
    layered.push(slot("hand", 5.0, "glove"));
    let defaults = bone_anim_defaults(&rig(), &layered);
    assert_eq!(defaults.len(), 4);
    assert_eq!(defaults[0].name, "hand");
    assert_eq!(defaults[0].z_order, scalar(5.0));
    assert_eq!(defaults[1].z_order, scalar(0.0));
    assert_eq!(defaults[1].default_xy, Vector2 { x: scalar(1.0), y: scalar(2.0) });
}

#[test]
fn curves_need_two_keyframes() {
    let held = BoneCurves {
        rotation: CurveSource::Hold,
        translation: CurveSource::Hold,
        scale: CurveSource::Absent,
    };
    assert_eq!(plan_bone_curves(None), held);
    let short = TimelineLengths { rotation: 1, translation: 0, scale: 1 };
    assert_eq!(plan_bone_curves(Some(short)), held);
    let long = TimelineLengths { rotation: 2, translation: 3, scale: 2 };
    assert_eq!(
        plan_bone_curves(Some(long)),
        BoneCurves {
            rotation: CurveSource::Keyframes,
            translation: CurveSource::Keyframes,
            scale: CurveSource::Keyframes,
        }
    );
}

fn animset() -> AnimSet {
    AnimSet {
        locomotion: vec![
            LocomotionEntry { clip: "idle".to_string(), speed_threshold: scalar(0.0) },
            LocomotionEntry { clip: "run".to_string(), speed_threshold: scalar(2.0) },
        ],
        ability_animations: vec![AbilityAnimation {
            ability_id: "punch".to_string(),
            clip: "jab".to_string(),
        }],
        hit_react: Some("flinch".to_string()),
    }
}

#[test]
fn graphs_wait_for_their_clips() {
    let set = animset();
    assert_eq!(collect_animset_clip_paths(&set), vec!["idle", "run", "jab", "flinch"]);
    let mut loaded = NameMap::new();
    let mut built = HashMap::new();
    for (handle, path) in ["idle", "run", "jab", "flinch"].iter().enumerate() {
        assert!(!all_clips_built(&set, &loaded, &built));
        loaded.insert(path.to_string(), handle as u64);
        assert!(!all_clips_built(&set, &loaded, &built));
        built.insert(handle as u64, 100 + handle as u64);
    }
    assert!(all_clips_built(&set, &loaded, &built));

    let plan = build_graph_for_animset(&set, &loaded, &built);
    assert_eq!(plan.clips, vec![100, 101, 102, 103]);
    assert_eq!(plan.blended, 2);
    assert_eq!(plan.thresholds, vec![scalar(0.0), scalar(2.0)]);
    assert_eq!(plan.node_map.get(&"run".to_string()), Some(&1));
    assert_eq!(plan.node_map.get(&"flinch".to_string()), Some(&3));

    let mut graphs = HashMap::new();
    assert!(!build_anim_graphs(9, None, &loaded, &built, &mut graphs));
    assert!(!build_anim_graphs(9, Some(&set), &loaded, &HashMap::new(), &mut graphs));
    assert!(build_anim_graphs(9, Some(&set), &loaded, &built, &mut graphs));
    assert!(!build_anim_graphs(9, Some(&set), &loaded, &built, &mut graphs));
    assert_eq!(graphs[&9].clips, plan.clips);

    let mut characters = HashMap::new();
    characters.insert(1u64, 9u64);
    characters.insert(2u64, 8u64);
    let abilities =
        [ability("punch", 1), ability("dash", 1), ability("punch", 2), ability("punch", 3)];
    assert_eq!(
        trigger_ability_animations(&abilities.iter().collect(), &characters, &graphs),
        vec![AbilityClip { character: entity(1), node: 2 }]
    );
}

#[test]
fn locomotion_is_ordered_by_speed() {
    let entry = |clip: &str, speed| LocomotionEntry {
        clip: clip.to_string(),
        speed_threshold: scalar(speed),
    };
    let set = AnimSet {
        locomotion: vec![
            entry("sprint", 6.0),
            entry("run", 2.0),
            entry("idle", -0.0),
            entry("jog", 2.0),
            entry("still", 0.0),
        ],
        ..animset()
    };
    let mut loaded = NameMap::new();
    let mut built = HashMap::new();
    let paths = collect_animset_clip_paths(&set);
    assert_eq!(paths, vec!["sprint", "run", "idle", "jog", "still", "jab", "flinch"]);
    for (handle, path) in paths.into_iter().enumerate() {
        loaded.insert(path, handle as u64);
        built.insert(handle as u64, 100 + handle as u64);
    }
    let plan = build_graph_for_animset(&set, &loaded, &built);
    assert_eq!(plan.blended, 5);
    assert_eq!(
        plan.thresholds,
        vec![scalar(-0.0), scalar(0.0), scalar(2.0), scalar(2.0), scalar(6.0)]
    );
    assert_eq!(plan.clips, vec![102, 104, 101, 103, 100, 105, 106]);
    assert_eq!(plan.node_map.get(&"sprint".to_string()), Some(&4));
    assert_eq!(plan.node_map.get(&"idle".to_string()), Some(&0));
    assert_eq!(plan.node_map.get(&"punch".to_string()), Some(&5));
    assert_eq!(
        compute_blend_bracket(scalar(4.0), &plan.thresholds),
        BlendBracket::Between(3)
    );
}

fn ability(id: &str, caster: u64) -> ActiveAbility {
    ActiveAbility {
        def_id: AbilityId(id.to_string()),
        caster: entity(caster),
        original_caster: entity(caster),
        target: entity(caster),
        phase: AbilityPhase::Active,
        phase_start_tick: Tick(0),
        ability_slot: 0,
        depth: 0,
    }
}

#[test]
fn animations_are_loaded_and_built_once() {
    let set = animset();
    let mut loaded = NameMap::new();
    loaded.insert("run".to_string(), 1u64);
    assert_eq!(load_animset_clips(&set, &loaded), vec!["idle", "jab", "flinch"]);
    loaded.insert("idle".to_string(), 0u64);

    let mut resolved = HashSet::new();
    resolved.insert(1u64);
    assert_eq!(populate_anim_bone_defaults(&set, &loaded, &mut resolved), vec![0]);
    assert!(resolved.contains(&0));
    assert!(populate_anim_bone_defaults(&set, &loaded, &mut resolved).is_empty());

    let sources: HashSet<u64> = [0, 1].into_iter().collect();
    let mut built = HashMap::new();
    built.insert(1u64, 101u64);
    let work = build_animation_clips(&loaded, &built, &sources, &resolved, &vec![1, 0, 5]);
    assert_eq!(work.build, vec![0]);
    assert_eq!(work.rebuild, vec![1, 0]);
}

#[test]
fn clips_hold_the_bones_they_do_not_mention() {
    let bone = |name: &str| BoneAnimDefault {
        name: name.to_string(),
        default_xy: Vector2 { x: scalar(0.0), y: scalar(0.0) },
        z_order: scalar(0.0),
    };
    let mut timelines = NameMap::new();
    timelines
        .insert("arm".to_string(), TimelineLengths { rotation: 3, translation: 1, scale: 0 });
    assert_eq!(
        build_clip_from(&vec![bone("arm"), bone("leg")], &timelines),
        vec![
            BoneCurves {
                rotation: CurveSource::Keyframes,
                translation: CurveSource::Hold,
                scale: CurveSource::Absent,
            },
            BoneCurves {
                rotation: CurveSource::Hold,
                translation: CurveSource::Hold,
                scale: CurveSource::Absent,
            },
        ]
    );
}

#[test]
fn locomotion_resumes_when_abilities_end() {
    let punch = ability("punch", 1);
    let mut rows = vec![
        LocomotionRow { character: entity(1), active: false },
        LocomotionRow { character: entity(2), active: false },
        LocomotionRow { character: entity(3), active: true },
    ];
    assert_eq!(return_to_locomotion(&mut rows, &vec![&punch]), vec![entity(2)]);
    assert_eq!(rows.iter().map(|row| row.active).collect::<Vec<_>>(), vec![false, true, true]);
    assert_eq!(return_to_locomotion(&mut rows, &vec![]), vec![entity(1)]);
    assert!(return_to_locomotion(&mut rows, &vec![&punch]).is_empty());
}
