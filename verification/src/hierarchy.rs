//! Entities and what belongs to them.
use crate::entity::Entity;
use crate::seqs::cuts;
use vstd::prelude::*;

verus! {

/// An entity and its children, each with theirs.
#[derive(Debug)]
pub struct EntityTree {
    pub entity: Entity,
    pub children: Vec<EntityTree>,
}

impl EntityTree {
    /// All entities below, each before those below it.
    pub open spec fn descendants(self) -> Seq<Entity>
        decreases self,
    {
        self.descendants_of(self.children@.len())
    }

    /// The first `count` children, each followed by all entities below it.
    pub open spec fn descendants_of(self, count: nat) -> Seq<Entity>
        decreases self, count,
    {
        if count == 0 || count > self.children@.len() {
            Seq::empty()
        } else {
            let child = self.children@[count - 1];
            self.descendants_of((count - 1) as nat).push(child.entity) + child.descendants()
        }
    }

    /// Appends all entities below.
    fn append_descendants(&self, entities: &mut Vec<Entity>)
        ensures
            final(entities)@ == old(entities)@ + self.descendants(),
        decreases self,
    {
        let ghost before = entities@;
        let mut i: usize = 0;
        assert(before + self.descendants_of(0) =~= before);
        while i < self.children.len()
            invariant
                i <= self.children@.len(),
                entities@ == before + self.descendants_of(i as nat),
            decreases self.children@.len() - i,
        {
            let child: &EntityTree = &self.children[i];
            entities.push(child.entity);
            child.append_descendants(entities);
            assert(entities@ =~= before + self.descendants_of((i + 1) as nat));
            i = i + 1;
        }
    }
}

/// Whether an entity and what belongs to it can be seen.
#[derive(Clone, Copy, Debug, PartialEq, Eq, Structural)]
pub enum Visibility {
    Hidden,
    Inherited,
}

/// What happens to an entity that waits to come back, or that comes back.
#[derive(Clone, Copy, Debug, PartialEq, Eq, Structural)]
pub enum PresenceCommand {
    /// Takes part in collisions and forces, or does not.
    SetSimulated { entity: Entity, simulated: bool },
    SetVisibility { entity: Entity, visibility: Visibility },
}

/// Shows or hides an entity and all that is below it, and puts it into the simulation or takes it
/// out.
pub open spec fn presence_commands(tree: EntityTree, present: bool) -> Seq<PresenceCommand> {
    let visibility = if present {
        Visibility::Inherited
    } else {
        Visibility::Hidden
    };
    seq![PresenceCommand::SetSimulated { entity: tree.entity, simulated: present }]
        + seq![tree.entity].add(tree.descendants()).map_values(
        |entity: Entity| PresenceCommand::SetVisibility { entity, visibility },
    )
}

fn set_presence(tree: &EntityTree, present: bool) -> (commands: Vec<PresenceCommand>)
    ensures
        commands@ == presence_commands(*tree, present),
{
    let visibility: Visibility = if present {
        Visibility::Inherited
    } else {
        Visibility::Hidden
    };
    let mut entities: Vec<Entity> = Vec::new();
    entities.push(tree.entity);
    tree.append_descendants(&mut entities);
    let ghost all = seq![tree.entity].add(tree.descendants());
    assert(entities@ =~= all);
    let mut commands: Vec<PresenceCommand> = Vec::new();
    commands.push(PresenceCommand::SetSimulated { entity: tree.entity, simulated: present });
    let mut i: usize = 0;
    while i < entities.len()
        invariant
            i <= entities@.len(),
            commands@.len() == i + 1,
            commands@[0] == (PresenceCommand::SetSimulated {
                entity: tree.entity,
                simulated: present,
            }),
            forall|k: int|
                1 <= k <= i ==> #[trigger] commands@[k] == (PresenceCommand::SetVisibility {
                    entity: entities@[k - 1],
                    visibility,
                }),
        decreases entities@.len() - i,
    {
        commands.push(PresenceCommand::SetVisibility { entity: entities[i], visibility });
        i = i + 1;
    }
    assert(commands@ =~= presence_commands(*tree, present));
    commands
}

/// An entity waits to come back: it and all that is below it are hidden, and it leaves the
/// simulation.
pub fn on_respawn_timer_added(tree: &EntityTree) -> (commands: Vec<PresenceCommand>)
    ensures
        commands@ == presence_commands(*tree, false),
{
    set_presence(tree, false)
}

/// An entity comes back: it and all that is below it are shown, and it enters the simulation.
pub fn on_respawn_timer_removed(tree: &EntityTree) -> (commands: Vec<PresenceCommand>)
    ensures
        commands@ == presence_commands(*tree, true),
{
    set_presence(tree, true)
}

/// Whoever comes back is shown again: what was hidden is exactly what is shown.
pub proof fn law_return_undoes_absence(tree: EntityTree, entity: Entity)
    ensures
        presence_commands(tree, false).contains(
            PresenceCommand::SetVisibility { entity, visibility: Visibility::Hidden },
        ) <==> presence_commands(tree, true).contains(
            PresenceCommand::SetVisibility { entity, visibility: Visibility::Inherited },
        ),
{
    let hide = presence_commands(tree, false);
    let show = presence_commands(tree, true);
    assert(hide.len() == show.len());
    let hidden = PresenceCommand::SetVisibility { entity, visibility: Visibility::Hidden };
    let shown = PresenceCommand::SetVisibility { entity, visibility: Visibility::Inherited };
    if hide.contains(hidden) {
        let k = choose|k: int| 0 <= k < hide.len() && hide[k] == hidden;
        assert(show[k] == shown);
    }
    if show.contains(shown) {
        let k = choose|k: int| 0 <= k < show.len() && show[k] == shown;
        assert(hide[k] == hidden);
    }
}

proof fn lemma_descendants_of(tree: EntityTree, count: nat) -> (starts: Seq<int>)
    requires
        count <= tree.children@.len(),
    ensures
        cuts(starts, count as int, tree.descendants_of(count).len() as int),
        forall|i: int|
            #![trigger tree.children@[i]]
            0 <= i < count ==> tree.descendants_of(count).subrange(starts[i], starts[i + 1])
                == seq![tree.children@[i].entity] + tree.children@[i].descendants(),
    decreases count,
{
    if count == 0 {
        seq![0int]
    } else {
        let fewer = (count - 1) as nat;
        let before = lemma_descendants_of(tree, fewer);
        let part = tree.descendants_of(fewer);
        let whole = tree.descendants_of(count);
        let child = tree.children@[fewer as int];
        let own = seq![child.entity] + child.descendants();
        assert(whole =~= part + own);
        let starts = before.push(whole.len() as int);
        assert forall|i: int|
            #![trigger tree.children@[i]]
            0 <= i < count implies whole.subrange(starts[i], starts[i + 1]) == seq![
            tree.children@[i].entity,
        ] + tree.children@[i].descendants() by {
            if i < fewer {
                assert(starts[i] == before[i] && starts[i + 1] == before[i + 1]);
                assert(before[i] <= before[i + 1] && before[i + 1] <= before[fewer as int]
                    && before[0] <= before[i]);
                assert(whole.subrange(starts[i], starts[i + 1]) =~= part.subrange(
                    before[i],
                    before[i + 1],
                ));
            } else {
                assert(starts[i] == part.len());
                assert(whole.subrange(starts[i], starts[i + 1]) =~= own);
            }
        }
        starts
    }
}

/// Below an entity are its children, one after the other, each followed by all that is below it, and
/// nothing else. Gives where each child stands.
pub proof fn law_everything_below_is_listed(tree: EntityTree) -> (starts: Seq<int>)
    ensures
        cuts(starts, tree.children@.len() as int, tree.descendants().len() as int),
        forall|i: int|
            #![trigger tree.children@[i]]
            0 <= i < tree.children@.len() ==> tree.descendants().subrange(starts[i], starts[i + 1])
                == seq![tree.children@[i].entity] + tree.children@[i].descendants(),
{
    lemma_descendants_of(tree, tree.children@.len())
}

/// An entity that waits leaves the simulation and is hidden with all that is below it; one that comes
/// back enters it and is shown with all that is below it.
pub proof fn law_presence_reaches_everything_below(tree: EntityTree, present: bool)
    ensures
        ({
            let commands = presence_commands(tree, present);
            let below = tree.descendants();
            let visibility = if present {
                Visibility::Inherited
            } else {
                Visibility::Hidden
            };
            &&& commands.len() == below.len() + 2
            &&& commands[0] == (PresenceCommand::SetSimulated {
                entity: tree.entity,
                simulated: present,
            })
            &&& commands[1] == (PresenceCommand::SetVisibility { entity: tree.entity, visibility })
            &&& forall|k: int|
                0 <= k < below.len() ==> commands[k + 2] == (PresenceCommand::SetVisibility {
                    entity: #[trigger] below[k],
                    visibility,
                })
        }),
{
}

} // verus!
