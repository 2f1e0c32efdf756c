//! The mesh of a rig: one quad for each bone that has a picture.
use crate::names::NameMap;
use crate::ranking::{
    is_ranking, law_ranking_is_sorted_and_stable, law_ranking_is_unique, ranking,
};
use crate::scalar::Scalar;
use crate::seqs::{filter_map, lemma_filter_map_picks, lemma_picks_same, picks};
use crate::sprite_rig::bones::{is_parent, well_placed, BoneDef, Vector2};
use vstd::prelude::*;

verus! {

/// Where on a picture its bone is.
#[derive(Clone, Copy, Debug, PartialEq, Eq, Structural)]
pub enum SpriteAnchorDef {
    Center,
    TopCenter,
    BottomCenter,
}

impl Default for SpriteAnchorDef {
    fn default() -> (anchor: SpriteAnchorDef)
        ensures
            anchor == SpriteAnchorDef::Center,
    {
        SpriteAnchorDef::Center
    }
}

/// A place for a picture on a bone.
#[derive(Debug)]
pub struct SlotDef {
    pub bone: String,
    pub z_order: Scalar,
    pub default_attachment: String,
}

/// A picture that a skin offers.
#[derive(Debug)]
pub struct AttachmentDef {
    pub image: String,
    pub size: Vector2,
    pub anchor: SpriteAnchorDef,
}

/// What is drawn on a bone.
#[derive(Debug)]
pub struct SlotInfo {
    pub z_order: Scalar,
    pub size: Vector2,
    pub anchor: SpriteAnchorDef,
    pub image_path: String,
}

/// The number one.
pub open spec fn one_spec() -> Scalar {
    Scalar(0x3f80_0000)
}

/// The attachment that a slot shows, if the skin has it.
pub open spec fn attachment_of(slot: SlotDef, skin: Option<&NameMap<AttachmentDef>>) -> Option<
    AttachmentDef,
> {
    match skin {
        Some(skin) if skin.view().dom().contains(slot.default_attachment@) => Some(
            skin.view()[slot.default_attachment@],
        ),
        _ => None,
    }
}

/// Whether `info` is what a slot draws: its attachment, or a unit square without a picture.
pub open spec fn is_slot_info(info: SlotInfo, slot: SlotDef, attachment: Option<AttachmentDef>) -> bool {
    &&& info.z_order == slot.z_order
    &&& match attachment {
        Some(a) => info.size == a.size && info.anchor == a.anchor && info.image_path@ == a.image@,
        None => info.size == (Vector2 { x: one_spec(), y: one_spec() }) && info.anchor
            == SpriteAnchorDef::Center && info.image_path@.len() == 0,
    }
}

/// The last of the first `n` slots on the bone of the given name.
pub open spec fn last_slot(slots: Seq<SlotDef>, n: int, bone: Seq<char>) -> Option<int>
    decreases n,
{
    if n <= 0 {
        None
    } else if slots[n - 1].bone@ == bone {
        Some(n - 1)
    } else {
        last_slot(slots, n - 1, bone)
    }
}

/// Whether `lookup` gives for each bone what the last of its first `n` slots draws.
pub open spec fn is_slot_lookup(
    lookup: NameMap<SlotInfo>,
    slots: Seq<SlotDef>,
    n: int,
    skin: Option<&NameMap<AttachmentDef>>,
) -> bool {
    &&& lookup.wf()
    &&& forall|bone: Seq<char>| #[trigger]
        lookup.view().dom().contains(bone) <==> last_slot(slots, n, bone) is Some
    &&& forall|bone: Seq<char>| #[trigger]
        lookup.view().dom().contains(bone) ==> is_slot_info(
            lookup.view()[bone],
            slots[last_slot(slots, n, bone)->0],
            attachment_of(slots[last_slot(slots, n, bone)->0], skin),
        )
}

/// What is drawn on each bone, in the default skin.
pub fn build_slot_lookup(slots: &Vec<SlotDef>, default_skin: Option<&NameMap<AttachmentDef>>) -> (lookup:
    NameMap<SlotInfo>)
    requires
        default_skin matches Some(skin) ==> skin.wf(),
    ensures
        is_slot_lookup(lookup, slots@, slots@.len() as int, default_skin),
{
    let mut lookup: NameMap<SlotInfo> = NameMap::new();
    let mut i: usize = 0;
    while i < slots.len()
        invariant
            i <= slots@.len(),
            default_skin matches Some(skin) ==> skin.wf(),
            is_slot_lookup(lookup, slots@, i as int, default_skin),
        decreases slots@.len() - i,
    {
        let slot = &slots[i];
        let attachment: Option<&AttachmentDef> = match default_skin {
            Some(skin) => skin.get(&slot.default_attachment),
            None => None,
        };
        let info = match attachment {
            Some(a) => SlotInfo {
                z_order: slot.z_order,
                size: a.size,
                anchor: a.anchor,
                image_path: a.image.clone(),
            },
            None => SlotInfo {
                z_order: slot.z_order,
                size: Vector2 { x: Scalar(0x3f80_0000), y: Scalar(0x3f80_0000) },
                anchor: SpriteAnchorDef::Center,
                image_path: String::new(),
            },
        };
        let ghost before = lookup;
        lookup.insert(slot.bone.clone(), info);
        proof {
            assert forall|bone: Seq<char>| #[trigger] lookup.view().dom().contains(bone)
                <==> last_slot(slots@, i + 1, bone) is Some by {
                assert(before.view().dom().contains(bone) <==> last_slot(slots@, i as int, bone)
                    is Some);
            }
            assert forall|bone: Seq<char>| #[trigger]
                lookup.view().dom().contains(bone) implies is_slot_info(
                lookup.view()[bone],
                slots@[last_slot(slots@, i + 1, bone)->0],
                attachment_of(slots@[last_slot(slots@, i + 1, bone)->0], default_skin),
            ) by {
                if bone != slot.bone@ {
                    assert(before.view().dom().contains(bone));
                }
            }
        }
        i = i + 1;
    }
    lookup
}

/// The place of each bone in the order of joints.
pub open spec fn is_bone_index_map(
    map: NameMap<u16>,
    bones: Seq<BoneDef>,
    order: Seq<usize>,
    n: int,
) -> bool {
    &&& map.wf()
    &&& forall|k: int|
        0 <= k < n ==> map.view().dom().contains(bones[#[trigger] order[k] as int].name@)
            && map.view()[bones[order[k] as int].name@] == k
    &&& forall|name: Seq<char>| #[trigger]
        map.view().dom().contains(name) ==> exists|k: int|
            0 <= k < n && bones[#[trigger] order[k] as int].name@ == name
}

/// Numbers the bones in the order of their joints.
pub fn build_bone_index_map(bones: &Vec<BoneDef>, order: &Vec<usize>) -> (map: NameMap<u16>)
    requires
        well_placed(bones@, order@),
        order@.len() <= 0x1_0000,
    ensures
        is_bone_index_map(map, bones@, order@, order@.len() as int),
{
    let mut map: NameMap<u16> = NameMap::new();
    let mut k: usize = 0;
    while k < order.len()
        invariant
            k <= order@.len() <= 0x1_0000,
            well_placed(bones@, order@),
            is_bone_index_map(map, bones@, order@, k as int),
        decreases order@.len() - k,
    {
        assert(order@[k as int] < bones@.len());
        let ghost before = map;
        map.insert(bones[order[k]].name.clone(), k as u16);
        proof {
            let name = bones@[order@[k as int] as int].name@;
            assert forall|m: int| 0 <= m < k + 1 implies map.view().dom().contains(
                bones@[#[trigger] order@[m] as int].name@,
            ) && map.view()[bones@[order@[m] as int].name@] == m by {
                if m < k {
                    assert(bones@[order@[m] as int].name@ != name);
                    assert(before.view().dom().contains(bones@[order@[m] as int].name@));
                }
            }
            assert forall|n: Seq<char>| #[trigger] map.view().dom().contains(n) implies exists|m: int|
                0 <= m < k + 1 && bones@[#[trigger] order@[m] as int].name@ == n by {
                if n == name {
                    assert(bones@[order@[k as int] as int].name@ == n);
                } else {
                    assert(before.view().dom().contains(n));
                    let m = choose|m: int|
                        0 <= m < k && bones@[#[trigger] order@[m] as int].name@ == n;
                    assert(bones@[order@[m] as int].name@ == n);
                }
            }
        }
        k = k + 1;
    }
    map
}

/// The joint of a bone's parent, among the joints before its own.
pub open spec fn is_parent_joint(
    bones: Seq<BoneDef>,
    order: Seq<usize>,
    k: int,
    parent: Option<usize>,
) -> bool {
    match parent {
        Some(m) => m < k && is_parent(bones, order[k] as int, order[m as int] as int),
        None => bones[order[k] as int].parent is None,
    }
}

/// The joint that each joint hangs on; those without one hang on the root.
pub fn joint_parents(bones: &Vec<BoneDef>, order: &Vec<usize>) -> (parents: Vec<Option<usize>>)
    requires
        well_placed(bones@, order@),
    ensures
        parents@.len() == order@.len(),
        forall|k: int|
            0 <= k < order@.len() ==> is_parent_joint(bones@, order@, k, #[trigger] parents@[k]),
{
    let mut parents: Vec<Option<usize>> = Vec::new();
    let mut k: usize = 0;
    while k < order.len()
        invariant
            k <= order@.len(),
            well_placed(bones@, order@),
            parents@.len() == k,
            forall|m: int| 0 <= m < k ==> is_parent_joint(bones@, order@, m, #[trigger] parents@[m]),
        decreases order@.len() - k,
    {
        assert(order@[k as int] < bones@.len());
        let bone = &bones[order[k]];
        let parent = match &bone.parent {
            Some(name) => {
                let ghost at = choose|m: int|
                    0 <= m < k && is_parent(
                        bones@,
                        order@[k as int] as int,
                        #[trigger] order@[m] as int,
                    );
                let mut m: usize = 0;
                while bones[order[m]].name != *name
                    invariant
                        0 <= m <= at < k < order@.len(),
                        well_placed(bones@, order@),
                        bones@[order@[at] as int].name@ == name@,
                        order@[m as int] < bones@.len(),
                    decreases at - m,
                {
                    m = m + 1;
                    assert(order@[m as int] < bones@.len());
                }
                Some(m)
            },
            None => None,
        };
        parents.push(parent);
        k = k + 1;
    }
    parents
}

/// A bone with a picture: its joint, and how far in front it is drawn.
#[derive(Clone, Copy, Debug, PartialEq, Eq, Structural)]
pub struct VisibleBone {
    /// The place of the bone in the rig.
    pub bone: usize,
    /// The place of the bone in the order of joints.
    pub joint: u16,
    pub z_order: Scalar,
}

/// The bone of a joint, if something is drawn on it.
pub open spec fn visible_bone(
    bones: Seq<BoneDef>,
    order: Seq<usize>,
    lookup: &NameMap<SlotInfo>,
    k: int,
) -> Option<VisibleBone> {
    if lookup.view().dom().contains(bones[order[k] as int].name@) {
        Some(
            VisibleBone {
                bone: order[k],
                joint: k as u16,
                z_order: lookup.view()[bones[order[k] as int].name@].z_order,
            },
        )
    } else {
        None
    }
}

/// The bones on which something is drawn, in the order of joints.
pub open spec fn visible_bones(
    bones: Seq<BoneDef>,
    order: Seq<usize>,
    lookup: &NameMap<SlotInfo>,
) -> Seq<VisibleBone> {
    filter_map(
        Seq::new(order.len(), |k: int| k),
        |k: int| visible_bone(bones, order, lookup, k),
    )
}

pub fn collect_visible_bones(
    bones: &Vec<BoneDef>,
    order: &Vec<usize>,
    lookup: &NameMap<SlotInfo>,
) -> (visible: Vec<VisibleBone>)
    requires
        well_placed(bones@, order@),
        order@.len() <= 0x1_0000,
        lookup.wf(),
    ensures
        visible@ == visible_bones(bones@, order@, lookup),
{
    let mut visible: Vec<VisibleBone> = Vec::new();
    let mut k: usize = 0;
    let ghost places = Seq::new(order@.len(), |k: int| k);
    let ghost f = |k: int| visible_bone(bones@, order@, lookup, k);
    assert(places.take(0) =~= Seq::empty());
    while k < order.len()
        invariant
            k <= order@.len() <= 0x1_0000,
            well_placed(bones@, order@),
            lookup.wf(),
            places == Seq::new(order@.len(), |k: int| k),
            f == (|k: int| visible_bone(bones@, order@, lookup, k)),
            visible@ == filter_map(places.take(k as int), f),
        decreases order@.len() - k,
    {
        proof {
            crate::seqs::lemma_filter_map_step(places, k as int, f);
        }
        assert(order@[k as int] < bones@.len());
        if let Some(info) = lookup.get(&bones[order[k]].name) {
            visible.push(
                VisibleBone { bone: order[k], joint: k as u16, z_order: info.z_order },
            );
        }
        k = k + 1;
    }
    assert(places.take(k as int) =~= places);
    visible
}

/// Whether all depths are numbers.
pub open spec fn depths_are_numbers(visible: Seq<VisibleBone>) -> bool {
    forall|i: int| 0 <= i < visible.len() ==> !(#[trigger] visible[i]).z_order.is_nan_spec()
}

/// How far in front each bone is drawn.
pub open spec fn depths(visible: Seq<VisibleBone>) -> Seq<Scalar> {
    visible.map_values(|bone: VisibleBone| bone.z_order)
}

/// Whether `order` lists all bones from back to front; bones that are as far back keep their order.
pub open spec fn is_draw_order(order: Seq<usize>, visible: Seq<VisibleBone>) -> bool {
    is_ranking(order, depths(visible))
}

/// The places of the bones from back to front.
pub fn draw_order(visible: &Vec<VisibleBone>) -> (order: Vec<usize>)
    requires
        depths_are_numbers(visible@),
    ensures
        is_draw_order(order@, visible@),
{
    let mut keys: Vec<Scalar> = Vec::new();
    let mut i: usize = 0;
    while i < visible.len()
        invariant
            i <= visible@.len(),
            keys@ == depths(visible@).take(i as int),
        decreases visible@.len() - i,
    {
        keys.push(visible[i].z_order);
        i = i + 1;
        assert(keys@ =~= depths(visible@).take(i as int));
    }
    assert(keys@ =~= depths(visible@));
    ranking(&keys)
}

/// The corners of the triangles of the quad whose first corner is `base`.
pub open spec fn quad_indices(base: int) -> Seq<u32> {
    seq![
        base as u32,
        (base + 1) as u32,
        (base + 2) as u32,
        base as u32,
        (base + 2) as u32,
        (base + 3) as u32,
    ]
}

/// The corners of the triangles of `n` quads of four corners each.
pub open spec fn all_quad_indices(n: int) -> Seq<u32>
    decreases n,
{
    if n <= 0 {
        Seq::empty()
    } else {
        all_quad_indices(n - 1) + quad_indices(4 * (n - 1))
    }
}

/// Adds two triangles for the quad whose first corner is `base_vertex`.
pub fn append_quad_indices(base_vertex: u32, indices: &mut Vec<u32>)
    requires
        base_vertex + 3 <= u32::MAX,
    ensures
        final(indices)@ == old(indices)@ + quad_indices(base_vertex as int),
{
    let ghost before = indices@;
    indices.push(base_vertex);
    indices.push(base_vertex + 1);
    indices.push(base_vertex + 2);
    indices.push(base_vertex);
    indices.push(base_vertex + 2);
    indices.push(base_vertex + 3);
    assert(indices@ =~= before + quad_indices(base_vertex as int));
}

/// The quads of a rig's mesh, from back to front, and the corners of their triangles.
#[derive(Debug)]
pub struct RigMesh {
    pub quads: Vec<VisibleBone>,
    pub indices: Vec<u32>,
}

/// Lays out the mesh of a rig: a quad for each bone on which something is drawn.
pub fn build_rig_mesh(visible: &Vec<VisibleBone>) -> (mesh: RigMesh)
    requires
        depths_are_numbers(visible@),
        4 * visible@.len() <= u32::MAX,
    ensures
        mesh.quads@.len() == visible@.len(),
        exists|order: Seq<usize>| #[trigger]
            is_draw_order(order, visible@) && forall|i: int|
                0 <= i < order.len() ==> #[trigger] mesh.quads@[i] == visible@[order[i] as int],
        mesh.indices@ == all_quad_indices(visible@.len() as int),
{
    let order = draw_order(visible);
    let mut quads: Vec<VisibleBone> = Vec::new();
    let mut indices: Vec<u32> = Vec::new();
    let mut i: usize = 0;
    while i < order.len()
        invariant
            i <= order@.len() == visible@.len(),
            4 * visible@.len() <= u32::MAX,
            is_draw_order(order@, visible@),
            quads@.len() == i,
            forall|k: int| 0 <= k < i ==> #[trigger] quads@[k] == visible@[order@[k] as int],
            indices@ == all_quad_indices(i as int),
        decreases order@.len() - i,
    {
        assert(order@[i as int] < visible@.len());
        quads.push(visible[order[i]]);
        append_quad_indices(4 * (i as u32), &mut indices);
        i = i + 1;
    }
    assert(is_draw_order(order@, visible@));
    RigMesh { quads, indices }
}

/// There is one order from back to front.
pub proof fn law_draw_order_is_unique(a: Seq<usize>, b: Seq<usize>, visible: Seq<VisibleBone>)
    requires
        is_draw_order(a, visible),
        is_draw_order(b, visible),
    ensures
        a == b,
{
    law_ranking_is_unique(a, b, depths(visible));
}

proof fn lemma_last_slot(slots: Seq<SlotDef>, n: int, bone: Seq<char>)
    requires
        0 <= n <= slots.len(),
    ensures
        last_slot(slots, n, bone) matches Some(i) ==> 0 <= i < n && slots[i].bone@ == bone && forall|
            j: int,
        |
            i < j < n ==> (#[trigger] slots[j]).bone@ != bone,
        last_slot(slots, n, bone) is None ==> forall|j: int|
            0 <= j < n ==> (#[trigger] slots[j]).bone@ != bone,
    decreases n,
{
    if n > 0 && slots[n - 1].bone@ != bone {
        lemma_last_slot(slots, n - 1, bone);
    }
}

/// Of the slots on a bone the last one counts, and a bone without slots has none.
pub proof fn law_last_slot_counts(slots: Seq<SlotDef>, bone: Seq<char>)
    ensures
        forall|i: int|
            0 <= i < slots.len() && (#[trigger] slots[i]).bone@ == bone && (forall|j: int|
                i < j < slots.len() ==> (#[trigger] slots[j]).bone@ != bone) ==> last_slot(
                slots,
                slots.len() as int,
                bone,
            ) == Some(i),
        (forall|i: int| 0 <= i < slots.len() ==> (#[trigger] slots[i]).bone@ != bone) ==> last_slot(
            slots,
            slots.len() as int,
            bone,
        ) is None,
{
    lemma_last_slot(slots, slots.len() as int, bone);
    assert forall|i: int|
        0 <= i < slots.len() && (#[trigger] slots[i]).bone@ == bone && (forall|j: int|
            i < j < slots.len() ==> (#[trigger] slots[j]).bone@ != bone) implies last_slot(
        slots,
        slots.len() as int,
        bone,
    ) == Some(i) by {
        let last = last_slot(slots, slots.len() as int, bone);
        assert(last is Some);
        assert(slots[last->0].bone@ == bone);
    }
}

/// What is drawn on a bone with slots: at the depth of the last one, the picture that the skin has for
/// it, or a unit square without a picture where the skin has none. On a bone without slots nothing is
/// drawn.
pub proof fn law_bones_show_their_last_slot(
    lookup: NameMap<SlotInfo>,
    slots: Seq<SlotDef>,
    skin: Option<&NameMap<AttachmentDef>>,
    bone: Seq<char>,
)
    requires
        is_slot_lookup(lookup, slots, slots.len() as int, skin),
    ensures
        lookup.view().dom().contains(bone) <==> exists|i: int|
            0 <= i < slots.len() && (#[trigger] slots[i]).bone@ == bone,
        forall|i: int|
            0 <= i < slots.len() && (#[trigger] slots[i]).bone@ == bone && (forall|j: int|
                i < j < slots.len() ==> (#[trigger] slots[j]).bone@ != bone) ==> {
                let info = lookup.view()[bone];
                let wanted = slots[i].default_attachment@;
                &&& info.z_order == slots[i].z_order
                &&& skin is Some && skin->0.view().dom().contains(wanted) ==> info.size
                    == skin->0.view()[wanted].size && info.anchor == skin->0.view()[wanted].anchor
                    && info.image_path@ == skin->0.view()[wanted].image@
                &&& !(skin is Some && skin->0.view().dom().contains(wanted)) ==> info.size.x
                    == Scalar(0x3f80_0000) && info.size.y == Scalar(0x3f80_0000) && info.anchor
                    == SpriteAnchorDef::Center && info.image_path@.len() == 0
            },
{
    let n = slots.len() as int;
    law_last_slot_counts(slots, bone);
    lemma_last_slot(slots, n, bone);
    assert(lookup.view().dom().contains(bone) <==> last_slot(slots, n, bone) is Some);
    if last_slot(slots, n, bone) is Some {
        assert(slots[last_slot(slots, n, bone)->0].bone@ == bone);
    }
}

/// The joints are numbered in their order, each bone by its own joint.
pub proof fn law_bones_are_numbered_by_joint(
    map: NameMap<u16>,
    bones: Seq<BoneDef>,
    order: Seq<usize>,
)
    requires
        is_bone_index_map(map, bones, order, order.len() as int),
    ensures
        forall|k: int|
            0 <= k < order.len() ==> map.view().dom().contains(
                bones[#[trigger] order[k] as int].name@,
            ) && map.view()[bones[order[k] as int].name@] == k,
        forall|name: Seq<char>| #[trigger]
            map.view().dom().contains(name) ==> exists|k: int|
                0 <= k < order.len() && bones[#[trigger] order[k] as int].name@ == name,
{
}

/// A joint hangs on an earlier one, that of the bone which its own bone names as its parent; the joint
/// of a bone without a parent hangs on none.
pub proof fn law_joints_hang_on_their_parents(
    bones: Seq<BoneDef>,
    order: Seq<usize>,
    k: int,
    parent: Option<usize>,
)
    requires
        is_parent_joint(bones, order, k, parent),
    ensures
        parent is Some <==> bones[order[k] as int].parent is Some,
        parent matches Some(m) ==> m < k && bones[order[m as int] as int].name@ == (
        bones[order[k] as int].parent->0)@,
{
}

/// Every bone on which something is drawn is visible, in the order of joints, with its own joint and the
/// depth of what is drawn. Gives the joint of each.
pub proof fn law_drawn_bones_are_visible(
    bones: Seq<BoneDef>,
    order: Seq<usize>,
    lookup: &NameMap<SlotInfo>,
) -> (at: Seq<int>)
    requires
        order.len() <= 0x1_0000,
    ensures
        at.len() == visible_bones(bones, order, lookup).len(),
        picks(
            at,
            order.len() as int,
            |k: int| lookup.view().dom().contains(bones[order[k] as int].name@),
        ),
        forall|v: int|
            #![trigger at[v]]
            0 <= v < at.len() ==> {
                let bone = visible_bones(bones, order, lookup)[v];
                &&& bone.bone == order[at[v]]
                &&& bone.joint == at[v]
                &&& bone.z_order == lookup.view()[bones[order[at[v]] as int].name@].z_order
            },
{
    let places = Seq::new(order.len(), |k: int| k);
    let f = |k: int| visible_bone(bones, order, lookup, k);
    let at = lemma_filter_map_picks(places, f);
    let a = |i: int| f(places[i]) is Some;
    let b = |k: int| lookup.view().dom().contains(bones[order[k] as int].name@);
    assert forall|i: int| 0 <= i < places.len() implies #[trigger] a(i) == #[trigger] b(i) by {}
    lemma_picks_same(at, order.len() as int, a, b);
    assert forall|v: int|
        #![trigger at[v]]
        0 <= v < at.len() implies f(at[v]) == Some(filter_map(places, f)[v]) by {
        assert(places[at[v]] == at[v]);
    }
    at
}

/// Bones are drawn from back to front, all of them, and those as far back in their order.
pub proof fn law_bones_are_drawn_from_back_to_front(order: Seq<usize>, visible: Seq<VisibleBone>)
    requires
        is_draw_order(order, visible),
    ensures
        order.len() == visible.len(),
        order.no_duplicates(),
        forall|i: int| 0 <= i < order.len() ==> (#[trigger] order[i]) < visible.len(),
        forall|i: int, j: int|
            0 <= i < j < order.len() ==> visible[#[trigger] order[i] as int].z_order.rank()
                <= visible[#[trigger] order[j] as int].z_order.rank() && (
            visible[order[i] as int].z_order.rank() == visible[order[j] as int].z_order.rank()
                ==> order[i] < order[j]),
{
    let keys = depths(visible);
    law_ranking_is_sorted_and_stable(order, keys);
    assert forall|i: int, j: int|
        0 <= i < j < order.len() implies visible[#[trigger] order[i] as int].z_order.rank()
        <= visible[#[trigger] order[j] as int].z_order.rank() && (
    visible[order[i] as int].z_order.rank() == visible[order[j] as int].z_order.rank() ==> order[i]
        < order[j]) by {
        assert(order[i] < visible.len() && order[j] < visible.len());
        assert(keys[order[i] as int] == visible[order[i] as int].z_order);
        assert(keys[order[j] as int] == visible[order[j] as int].z_order);
    }
}

/// A quad is made of two triangles that share the edge from its first corner to its third.
pub proof fn law_quads_share_a_diagonal(base: int)
    requires
        0 <= base,
        base + 3 <= u32::MAX,
    ensures
        quad_indices(base).len() == 6,
        quad_indices(base)[0] == base,
        quad_indices(base)[1] == base + 1,
        quad_indices(base)[2] == base + 2,
        quad_indices(base)[3] == base,
        quad_indices(base)[4] == base + 2,
        quad_indices(base)[5] == base + 3,
{
}

/// The quads of a mesh have four corners each, one quad after the other.
pub proof fn law_quads_follow_each_other(n: int)
    requires
        0 <= n,
    ensures
        all_quad_indices(n).len() == 6 * n,
        forall|q: int|
            0 <= q < n ==> all_quad_indices(n).subrange(6 * q, 6 * q + 6) == #[trigger] quad_indices(
                4 * q,
            ),
    decreases n,
{
    if n > 0 {
        law_quads_follow_each_other(n - 1);
        let part = all_quad_indices(n - 1);
        let whole = all_quad_indices(n);
        assert forall|q: int| 0 <= q < n implies whole.subrange(6 * q, 6 * q + 6)
            == #[trigger] quad_indices(4 * q) by {
            if q < n - 1 {
                assert(whole.subrange(6 * q, 6 * q + 6) =~= part.subrange(6 * q, 6 * q + 6));
            } else {
                assert(whole.subrange(6 * q, 6 * q + 6) =~= quad_indices(4 * q));
            }
        }
    }
}

} // verus!
