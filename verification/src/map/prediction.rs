//! Voxel edits on the client, which are shown before the server has confirmed them.
use crate::geometry::IVec3;
use crate::map::edits::{
    edit_response, is_first_character, law_every_edit_is_granted, ControlledCharacter, EditMessage,
    EditResponse,
};
use crate::map::types::{
    MapRegistry, VoxelEditAck, VoxelEditBroadcast, VoxelEditReject, VoxelEditRequest, VoxelType,
};
use crate::seqs::{filter_map, lemma_filter_map_picks, lemma_picks_same, picks};
use vstd::prelude::*;

verus! {

/// An edit that the server has not confirmed.
#[derive(Clone, Copy, Debug, PartialEq, Eq, Structural)]
pub struct VoxelPrediction {
    pub sequence: u32,
    pub position: IVec3,
    pub old_voxel: VoxelType,
    pub new_voxel: VoxelType,
}

/// The edits that the server has not confirmed, oldest first.
#[derive(Debug)]
pub struct VoxelPredictionState {
    pub next_sequence: u32,
    pub pending: Vec<VoxelPrediction>,
}

impl Default for VoxelPredictionState {
    fn default() -> (state: VoxelPredictionState)
        ensures
            state.wf(),
            state.next_sequence == 0,
            state.pending@.len() == 0,
    {
        VoxelPredictionState { next_sequence: 0, pending: Vec::new() }
    }
}

/// Where a ray from the camera meets a voxel, and the side on which it does.
#[derive(Clone, Copy, Debug, PartialEq, Eq, Structural)]
pub struct RayHit {
    pub position: IVec3,
    pub normal: Option<IVec3>,
}

/// An edit that a player makes.
#[derive(Clone, Copy, Debug, PartialEq, Eq, Structural)]
pub struct VoxelEdit {
    pub position: IVec3,
    pub voxel: VoxelType,
}

/// Whether the position beside a hit can be told.
pub open spec fn hit_in_range(hit: RayHit) -> bool {
    hit.normal matches Some(n) ==> {
        &&& i32::MIN <= hit.position.x + n.x <= i32::MAX
        &&& i32::MIN <= hit.position.y + n.y <= i32::MAX
        &&& i32::MIN <= hit.position.z + n.z <= i32::MAX
    }
}

/// The edit that a player makes: removing takes the voxel that was hit, placing puts one beside the
/// side that was hit. Removing goes first.
pub open spec fn edit_of_input(removing: bool, placing: bool, hit: RayHit) -> Option<VoxelEdit> {
    if removing {
        Some(VoxelEdit { position: hit.position, voxel: VoxelType::Air })
    } else if placing {
        match hit.normal {
            Some(n) => Some(
                VoxelEdit {
                    position: IVec3 {
                        x: (hit.position.x + n.x) as i32,
                        y: (hit.position.y + n.y) as i32,
                        z: (hit.position.z + n.z) as i32,
                    },
                    voxel: VoxelType::Solid(0),
                },
            ),
            None => None,
        }
    } else {
        None
    }
}

/// The edit that a player makes with what the camera points at.
pub fn handle_voxel_input(removing: bool, placing: bool, hit: &RayHit) -> (edit: Option<VoxelEdit>)
    requires
        hit_in_range(*hit),
    ensures
        edit == edit_of_input(removing, placing, *hit),
{
    if removing {
        Some(VoxelEdit { position: hit.position, voxel: VoxelType::Air })
    } else if placing {
        match hit.normal {
            Some(n) => Some(
                VoxelEdit {
                    position: IVec3 {
                        x: hit.position.x + n.x,
                        y: hit.position.y + n.y,
                        z: hit.position.z + n.z,
                    },
                    voxel: VoxelType::Solid(0),
                },
            ),
            None => None,
        }
    } else {
        None
    }
}

impl VoxelPredictionState {
    /// Edits are numbered in the order they are made.
    pub open spec fn wf(&self) -> bool {
        &&& forall|i: int, j: int|
            0 <= i < j < self.pending@.len() ==> (#[trigger] self.pending@[i]).sequence < (
            #[trigger] self.pending@[j]).sequence
        &&& forall|i: int|
            0 <= i < self.pending@.len() ==> (#[trigger] self.pending@[i]).sequence
                < self.next_sequence
    }

    /// Whether an edit at `position` awaits confirmation.
    pub open spec fn has_pending_at(&self, position: IVec3) -> bool {
        exists|i: int| 0 <= i < self.pending@.len() && (#[trigger] self.pending@[i]).position == position
    }

    /// The next sequence number.
    pub fn next(&mut self) -> (sequence: u32)
        requires
            old(self).next_sequence < u32::MAX,
        ensures
            sequence == old(self).next_sequence,
            final(self).next_sequence == old(self).next_sequence + 1,
            final(self).pending@ == old(self).pending@,
            old(self).wf() ==> final(self).wf(),
    {
        let sequence: u32 = self.next_sequence;
        self.next_sequence = self.next_sequence + 1;
        sequence
    }

    /// Remembers an edit of a voxel that was `old_voxel`, and asks the server for it.
    pub fn predict(&mut self, edit: &VoxelEdit, old_voxel: VoxelType) -> (request: VoxelEditRequest)
        requires
            old(self).wf(),
            old(self).next_sequence < u32::MAX,
        ensures
            final(self).wf(),
            final(self).next_sequence == old(self).next_sequence + 1,
            final(self).pending@ == old(self).pending@.push(
                VoxelPrediction {
                    sequence: old(self).next_sequence,
                    position: edit.position,
                    old_voxel,
                    new_voxel: edit.voxel,
                },
            ),
            request == (VoxelEditRequest {
                position: edit.position,
                voxel: edit.voxel,
                sequence: old(self).next_sequence,
            }),
    {
        let sequence: u32 = self.next();
        self.pending.push(
            VoxelPrediction {
                sequence,
                position: edit.position,
                old_voxel,
                new_voxel: edit.voxel,
            },
        );
        VoxelEditRequest { position: edit.position, voxel: edit.voxel, sequence }
    }

    /// Whether an edit at `position` awaits confirmation.
    pub fn is_pending(&self, position: IVec3) -> (pending: bool)
        ensures
            pending == self.has_pending_at(position),
    {
        let mut i: usize = 0;
        while i < self.pending.len()
            invariant
                i <= self.pending@.len(),
                forall|j: int| 0 <= j < i ==> (#[trigger] self.pending@[j]).position != position,
            decreases self.pending@.len() - i,
        {
            if self.pending[i].position == position {
                assert(self.pending@[i as int].position == position);
                return true;
            }
            i = i + 1;
        }
        false
    }

    /// Forgets the edits that the server has confirmed: all up to the acknowledged one.
    pub fn handle_voxel_edit_ack(&mut self, ack: &VoxelEditAck)
        ensures
            final(self).next_sequence == old(self).next_sequence,
            final(self).pending@ == old(self).pending@.filter(
                |p: VoxelPrediction| p.sequence > ack.sequence,
            ),
            old(self).wf() ==> final(self).wf(),
    {
        let ghost pred = |p: VoxelPrediction| p.sequence > ack.sequence;
        let mut kept: Vec<VoxelPrediction> = Vec::new();
        let mut i: usize = 0;
        proof {
            crate::seqs::lemma_filter_empty(self.pending@.take(0), pred);
        }
        while i < self.pending.len()
            invariant
                i <= self.pending@.len(),
                pred == (|p: VoxelPrediction| p.sequence > ack.sequence),
                kept@ == self.pending@.take(i as int).filter(pred),
            decreases self.pending@.len() - i,
        {
            proof {
                crate::seqs::lemma_filter_step(self.pending@, i as int, pred);
            }
            if self.pending[i].sequence > ack.sequence {
                kept.push(self.pending[i]);
            }
            i = i + 1;
        }
        assert(self.pending@.take(i as int) =~= self.pending@);
        proof {
            lemma_filter_keeps_order(self.pending@, pred, self.next_sequence);
        }
        self.pending = kept;
    }

    /// Forgets the edit that the server has refused; the voxel goes back to what the server says.
    pub fn handle_voxel_edit_reject(&mut self, reject: &VoxelEditReject) -> (restored: VoxelEdit)
        ensures
            restored == (VoxelEdit { position: reject.position, voxel: reject.correct_voxel }),
            final(self).next_sequence == old(self).next_sequence,
            final(self).pending@ == old(self).pending@.filter(
                |p: VoxelPrediction| p.sequence != reject.sequence,
            ),
            old(self).wf() ==> final(self).wf(),
    {
        let ghost pred = |p: VoxelPrediction| p.sequence != reject.sequence;
        let mut kept: Vec<VoxelPrediction> = Vec::new();
        let mut i: usize = 0;
        proof {
            crate::seqs::lemma_filter_empty(self.pending@.take(0), pred);
        }
        while i < self.pending.len()
            invariant
                i <= self.pending@.len(),
                pred == (|p: VoxelPrediction| p.sequence != reject.sequence),
                kept@ == self.pending@.take(i as int).filter(pred),
            decreases self.pending@.len() - i,
        {
            proof {
                crate::seqs::lemma_filter_step(self.pending@, i as int, pred);
            }
            if self.pending[i].sequence != reject.sequence {
                kept.push(self.pending[i]);
            }
            i = i + 1;
        }
        assert(self.pending@.take(i as int) =~= self.pending@);
        proof {
            lemma_filter_keeps_order(self.pending@, pred, self.next_sequence);
        }
        self.pending = kept;
        VoxelEdit { position: reject.position, voxel: reject.correct_voxel }
    }

    /// The change that a broadcast makes, unless an edit of one's own awaits confirmation there.
    pub open spec fn applied_change(&self, position: IVec3, voxel: VoxelType) -> Option<VoxelEdit> {
        if self.has_pending_at(position) {
            None
        } else {
            Some(VoxelEdit { position, voxel })
        }
    }

    /// The changes that the server's broadcasts make.
    pub fn handle_voxel_broadcasts(&self, broadcasts: &Vec<VoxelEditBroadcast>) -> (edits: Vec<
        VoxelEdit,
    >)
        ensures
            edits@ == filter_map(
                broadcasts@,
                |b: VoxelEditBroadcast| self.applied_change(b.position, b.voxel),
            ),
    {
        let mut edits: Vec<VoxelEdit> = Vec::new();
        let mut i: usize = 0;
        let ghost f = |b: VoxelEditBroadcast| self.applied_change(b.position, b.voxel);
        assert(broadcasts@.take(0) =~= Seq::empty());
        while i < broadcasts.len()
            invariant
                i <= broadcasts@.len(),
                f == (|b: VoxelEditBroadcast| self.applied_change(b.position, b.voxel)),
                edits@ == filter_map(broadcasts@.take(i as int), f),
            decreases broadcasts@.len() - i,
        {
            proof {
                crate::seqs::lemma_filter_map_step(broadcasts@, i as int, f);
            }
            let b = broadcasts[i];
            if !self.is_pending(b.position) {
                edits.push(VoxelEdit { position: b.position, voxel: b.voxel });
            }
            i = i + 1;
        }
        assert(broadcasts@.take(i as int) =~= broadcasts@);
        edits
    }

    /// The changes that a batch of edits makes.
    pub fn handle_section_blocks_update(&self, changes: &Vec<(IVec3, VoxelType)>) -> (edits: Vec<
        VoxelEdit,
    >)
        ensures
            edits@ == filter_map(
                changes@,
                |c: (IVec3, VoxelType)| self.applied_change(c.0, c.1),
            ),
    {
        let mut edits: Vec<VoxelEdit> = Vec::new();
        let mut i: usize = 0;
        let ghost f = |c: (IVec3, VoxelType)| self.applied_change(c.0, c.1);
        assert(changes@.take(0) =~= Seq::empty());
        while i < changes.len()
            invariant
                i <= changes@.len(),
                f == (|c: (IVec3, VoxelType)| self.applied_change(c.0, c.1)),
                edits@ == filter_map(changes@.take(i as int), f),
            decreases changes@.len() - i,
        {
            proof {
                crate::seqs::lemma_filter_map_step(changes@, i as int, f);
            }
            let position = changes[i].0;
            let voxel = changes[i].1;
            if !self.is_pending(position) {
                edits.push(VoxelEdit { position, voxel });
            }
            i = i + 1;
        }
        assert(changes@.take(i as int) =~= changes@);
        edits
    }
}

/// Filtering keeps predictions in order, and adds none.
proof fn lemma_filter_keeps_order(
    s: Seq<VoxelPrediction>,
    pred: spec_fn(VoxelPrediction) -> bool,
    limit: u32,
)
    ensures
        (forall|i: int, j: int|
            0 <= i < j < s.len() ==> (#[trigger] s[i]).sequence < (#[trigger] s[j]).sequence) ==> (
        forall|i: int, j: int|
            0 <= i < j < s.filter(pred).len() ==> (#[trigger] s.filter(pred)[i]).sequence < (
            #[trigger] s.filter(pred)[j]).sequence),
        (forall|i: int| 0 <= i < s.len() ==> (#[trigger] s[i]).sequence < limit) ==> (forall|i: int|
            0 <= i < s.filter(pred).len() ==> (#[trigger] s.filter(pred)[i]).sequence < limit),
    decreases s.len(),
{
    reveal(Seq::filter);
    if s.len() > 0 {
        let init = s.drop_last();
        let bound = s.last().sequence;
        lemma_filter_keeps_order(init, pred, limit);
        lemma_filter_keeps_order(init, pred, bound);
        assert forall|i: int| 0 <= i < init.len() implies #[trigger] init[i] == s[i] by {}
        if forall|i: int, j: int|
            0 <= i < j < s.len() ==> (#[trigger] s[i]).sequence < (#[trigger] s[j]).sequence {
            assert forall|i: int| 0 <= i < init.len() implies (#[trigger] init[i]).sequence
                < bound by {
                assert(s[i].sequence < s[s.len() - 1].sequence);
            }
        }
    }
}

/// An edit that the server has neither confirmed nor refused keeps what others do at its position
/// from being shown.
pub proof fn law_prediction_shadows_broadcasts(
    before: VoxelPredictionState,
    after: VoxelPredictionState,
    edit: VoxelEdit,
    old_voxel: VoxelType,
    voxel: VoxelType,
)
    requires
        after.pending@ == before.pending@.push(
            VoxelPrediction {
                sequence: before.next_sequence,
                position: edit.position,
                old_voxel,
                new_voxel: edit.voxel,
            },
        ),
    ensures
        after.applied_change(edit.position, voxel) is None,
{
    assert(after.pending@[before.pending@.len() as int].position == edit.position);
}

/// Confirming an edit confirms all earlier ones, and no later one.
pub proof fn law_ack_confirms_up_to(
    before: VoxelPredictionState,
    after: VoxelPredictionState,
    ack: VoxelEditAck,
    prediction: VoxelPrediction,
)
    requires
        after.pending@ == before.pending@.filter(|p: VoxelPrediction| p.sequence > ack.sequence),
    ensures
        after.pending@.contains(prediction) <==> before.pending@.contains(prediction)
            && prediction.sequence > ack.sequence,
{
    let pred = |p: VoxelPrediction| p.sequence > ack.sequence;
    if after.pending@.contains(prediction) {
        before.pending@.lemma_filter_contains_rev(pred, prediction);
        let k = choose|k: int| 0 <= k < after.pending@.len() && after.pending@[k] == prediction;
        before.pending@.lemma_filter_pred(pred, k);
    }
    if before.pending@.contains(prediction) && pred(prediction) {
        let k = choose|k: int| 0 <= k < before.pending@.len() && before.pending@[k] == prediction;
        before.pending@.lemma_filter_contains(pred, k);
    }
}

/// Refusing an edit leaves the others awaiting confirmation.
pub proof fn law_reject_spares_others(
    before: VoxelPredictionState,
    after: VoxelPredictionState,
    reject: VoxelEditReject,
    prediction: VoxelPrediction,
)
    requires
        after.pending@ == before.pending@.filter(
            |p: VoxelPrediction| p.sequence != reject.sequence,
        ),
    ensures
        after.pending@.contains(prediction) <==> before.pending@.contains(prediction)
            && prediction.sequence != reject.sequence,
{
    let pred = |p: VoxelPrediction| p.sequence != reject.sequence;
    if after.pending@.contains(prediction) {
        before.pending@.lemma_filter_contains_rev(pred, prediction);
        let k = choose|k: int| 0 <= k < after.pending@.len() && after.pending@[k] == prediction;
        before.pending@.lemma_filter_pred(pred, k);
    }
    if before.pending@.contains(prediction) && pred(prediction) {
        let k = choose|k: int| 0 <= k < before.pending@.len() && before.pending@[k] == prediction;
        before.pending@.lemma_filter_contains(pred, k);
    }
}

/// Removing clears the voxel that was hit. Placing fills the one that lies beside it on the side that
/// was hit, which is as far from it as the side's normal says. Removing goes before placing, and
/// without either nothing is edited.
pub proof fn law_input_edits_where_it_points(removing: bool, placing: bool, hit: RayHit)
    requires
        hit_in_range(hit),
    ensures
        edit_of_input(removing, placing, hit) is Some <==> removing || placing && hit.normal is Some,
        removing ==> edit_of_input(removing, placing, hit) == Some(
            VoxelEdit { position: hit.position, voxel: VoxelType::Air },
        ),
        !removing && placing && hit.normal is Some ==> {
            let edit = edit_of_input(removing, placing, hit)->0;
            &&& edit.voxel == VoxelType::Solid(0)
            &&& edit.position.x - hit.position.x == hit.normal->0.x
            &&& edit.position.y - hit.position.y == hit.normal->0.y
            &&& edit.position.z - hit.position.z == hit.normal->0.z
        },
{
}

/// What a player edits the server grants: the request that a prediction makes of an input is answered
/// with the same edit, under the number of the prediction.
pub proof fn law_predicted_edits_are_granted(
    removing: bool,
    placing: bool,
    hit: RayHit,
    prediction: VoxelPrediction,
    message: EditMessage,
    characters: Seq<ControlledCharacter>,
    registry: &MapRegistry,
    c: int,
)
    requires
        edit_of_input(removing, placing, hit) == Some(
            VoxelEdit { position: prediction.position, voxel: prediction.new_voxel },
        ),
        message.request == (VoxelEditRequest {
            position: prediction.position,
            voxel: prediction.new_voxel,
            sequence: prediction.sequence,
        }),
        is_first_character(characters, message.client, c),
    ensures
        edit_response(message, characters, registry) == Some(
            EditResponse::Apply {
                client: message.client,
                map_entity: registry.view()[characters[c].map_id],
                position: prediction.position,
                voxel: prediction.new_voxel,
                ack: VoxelEditAck { sequence: prediction.sequence },
            },
        ),
{
    law_every_edit_is_granted(message, characters, registry, c);
}

/// Broadcasts are shown in their order, all but those at the positions of edits of one's own that await
/// confirmation. Gives the broadcast that each change comes of.
pub proof fn law_broadcasts_are_shown_unless_predicted(
    state: &VoxelPredictionState,
    broadcasts: Seq<VoxelEditBroadcast>,
    edits: Seq<VoxelEdit>,
) -> (at: Seq<int>)
    requires
        edits == filter_map(
            broadcasts,
            |b: VoxelEditBroadcast| state.applied_change(b.position, b.voxel),
        ),
    ensures
        at.len() == edits.len(),
        picks(
            at,
            broadcasts.len() as int,
            |i: int|
                forall|p: int|
                    0 <= p < state.pending@.len() ==> (#[trigger] state.pending@[p]).position
                        != broadcasts[i].position,
        ),
        forall|k: int|
            0 <= k < at.len() ==> edits[k].position == broadcasts[#[trigger] at[k]].position
                && edits[k].voxel == broadcasts[at[k]].voxel,
{
    let f = |b: VoxelEditBroadcast| state.applied_change(b.position, b.voxel);
    let at = lemma_filter_map_picks(broadcasts, f);
    let shown = |i: int| f(broadcasts[i]) is Some;
    let free = |i: int|
        forall|p: int|
            0 <= p < state.pending@.len() ==> (#[trigger] state.pending@[p]).position
                != broadcasts[i].position;
    assert forall|i: int| 0 <= i < broadcasts.len() implies #[trigger] shown(i)
        == #[trigger] free(i) by {}
    lemma_picks_same(at, broadcasts.len() as int, shown, free);
    at
}

/// The changes of a batch are shown in their order, all but those at the positions of edits of one's own
/// that await confirmation. Gives the place of each in the batch.
pub proof fn law_batches_are_shown_unless_predicted(
    state: &VoxelPredictionState,
    changes: Seq<(IVec3, VoxelType)>,
    edits: Seq<VoxelEdit>,
) -> (at: Seq<int>)
    requires
        edits == filter_map(changes, |c: (IVec3, VoxelType)| state.applied_change(c.0, c.1)),
    ensures
        at.len() == edits.len(),
        picks(
            at,
            changes.len() as int,
            |i: int|
                forall|p: int|
                    0 <= p < state.pending@.len() ==> (#[trigger] state.pending@[p]).position
                        != changes[i].0,
        ),
        forall|k: int|
            0 <= k < at.len() ==> edits[k].position == changes[#[trigger] at[k]].0 && edits[k].voxel
                == changes[at[k]].1,
{
    let f = |c: (IVec3, VoxelType)| state.applied_change(c.0, c.1);
    let at = lemma_filter_map_picks(changes, f);
    let shown = |i: int| f(changes[i]) is Some;
    let free = |i: int|
        forall|p: int|
            0 <= p < state.pending@.len() ==> (#[trigger] state.pending@[p]).position
                != changes[i].0;
    assert forall|i: int| 0 <= i < changes.len() implies #[trigger] shown(i)
        == #[trigger] free(i) by {}
    lemma_picks_same(at, changes.len() as int, shown, free);
    at
}

} // verus!
