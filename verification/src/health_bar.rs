//! The health bars over characters.
use crate::entity::Entity;
use crate::hierarchy::EntityTree;
use crate::seqs::{
    cuts, filter_map, flat_map, lemma_filter_map_picks, lemma_filter_map_step, lemma_flat_map_cuts,
    lemma_flat_map_step, lemma_picks_same, picks,
};
use std::collections::HashSet;
use vstd::prelude::*;

verus! {

broadcast use vstd::std_specs::hash::group_hash_axioms;

/// How the foreground of a health bar is coloured.
#[derive(Clone, Copy, Debug, PartialEq, Eq, Structural)]
pub enum BarColor {
    Normal,
    Invulnerable,
}

/// A part of a health bar that takes on a colour.
#[derive(Clone, Copy, Debug, PartialEq, Eq, Structural)]
pub struct BarPaint {
    pub entity: Entity,
    pub color: BarColor,
}

/// The paint for an entity, if it is the foreground of a bar.
pub open spec fn painted(part: EntityTree, foregrounds: Set<u64>, color: BarColor) -> Option<BarPaint> {
    if foregrounds.contains(part.entity.bits_spec()) {
        Some(BarPaint { entity: part.entity, color })
    } else {
        None
    }
}

/// The paints for the parts of an entity, if it is the root of a bar.
pub open spec fn part_paints(
    bar: EntityTree,
    roots: Set<u64>,
    foregrounds: Set<u64>,
    color: BarColor,
) -> Seq<BarPaint> {
    if roots.contains(bar.entity.bits_spec()) {
        filter_map(bar.children@, |part: EntityTree| painted(part, foregrounds, color))
    } else {
        Seq::empty()
    }
}

/// What a new colour paints: the foregrounds of the bars that belong to a character. The root of a bar
/// is a child of the character, and its parts are children of the root.
pub open spec fn bar_paints(
    character: EntityTree,
    roots: Set<u64>,
    foregrounds: Set<u64>,
    color: BarColor,
) -> Seq<BarPaint> {
    flat_map(
        character.children@,
        |bar: EntityTree| part_paints(bar, roots, foregrounds, color),
    )
}

/// The health bars that there are, by the bits of their entities.
pub struct HealthBars {
    pub roots: HashSet<u64>,
    pub foregrounds: HashSet<u64>,
}

fn paint_parts(bar: &EntityTree, bars: &HealthBars, color: BarColor) -> (paints: Vec<BarPaint>)
    ensures
        paints@ == part_paints(*bar, bars.roots@, bars.foregrounds@, color),
{
    let mut paints: Vec<BarPaint> = Vec::new();
    if !bars.roots.contains(&bar.entity.to_bits()) {
        return paints;
    }
    let ghost f = |part: EntityTree| painted(part, bars.foregrounds@, color);
    let mut i: usize = 0;
    assert(bar.children@.take(0) =~= Seq::empty());
    while i < bar.children.len()
        invariant
            i <= bar.children@.len(),
            f == (|part: EntityTree| painted(part, bars.foregrounds@, color)),
            paints@ == filter_map(bar.children@.take(i as int), f),
        decreases bar.children@.len() - i,
    {
        proof {
            lemma_filter_map_step(bar.children@, i as int, f);
        }
        let entity: Entity = bar.children[i].entity;
        if bars.foregrounds.contains(&entity.to_bits()) {
            paints.push(BarPaint { entity, color });
        }
        i = i + 1;
    }
    assert(bar.children@.take(i as int) =~= bar.children@);
    paints
}

/// Gives the foregrounds of a character's bars a colour.
pub fn set_fg_color(character: &EntityTree, bars: &HealthBars, color: BarColor) -> (paints: Vec<
    BarPaint,
>)
    ensures
        paints@ == bar_paints(*character, bars.roots@, bars.foregrounds@, color),
{
    let mut paints: Vec<BarPaint> = Vec::new();
    let ghost f = |bar: EntityTree| part_paints(bar, bars.roots@, bars.foregrounds@, color);
    let mut i: usize = 0;
    assert(character.children@.take(0) =~= Seq::empty());
    while i < character.children.len()
        invariant
            i <= character.children@.len(),
            f == (|bar: EntityTree| part_paints(bar, bars.roots@, bars.foregrounds@, color)),
            paints@ == flat_map(character.children@.take(i as int), f),
        decreases character.children@.len() - i,
    {
        proof {
            lemma_flat_map_step(character.children@, i as int, f);
        }
        let mut parts: Vec<BarPaint> = paint_parts(&character.children[i], bars, color);
        paints.append(&mut parts);
        i = i + 1;
    }
    assert(character.children@.take(i as int) =~= character.children@);
    paints
}

/// A character becomes invulnerable.
pub fn on_invulnerable_added(character: &EntityTree, bars: &HealthBars) -> (paints: Vec<BarPaint>)
    ensures
        paints@ == bar_paints(*character, bars.roots@, bars.foregrounds@, BarColor::Invulnerable),
{
    set_fg_color(character, bars, BarColor::Invulnerable)
}

/// A character becomes vulnerable again.
pub fn on_invulnerable_removed(character: &EntityTree, bars: &HealthBars) -> (paints: Vec<BarPaint>)
    ensures
        paints@ == bar_paints(*character, bars.roots@, bars.foregrounds@, BarColor::Normal),
{
    set_fg_color(character, bars, BarColor::Normal)
}

proof fn lemma_same_parts(
    parts: Seq<EntityTree>,
    foregrounds: Set<u64>,
    one: BarColor,
    other: BarColor,
)
    ensures
        filter_map(parts, |part: EntityTree| painted(part, foregrounds, other)) == filter_map(
            parts,
            |part: EntityTree| painted(part, foregrounds, one),
        ).map_values(|paint: BarPaint| BarPaint { color: other, ..paint }),
    decreases parts.len(),
{
    let repaint = |paint: BarPaint| BarPaint { color: other, ..paint };
    let a = |part: EntityTree| painted(part, foregrounds, one);
    let b = |part: EntityTree| painted(part, foregrounds, other);
    if parts.len() > 0 {
        lemma_same_parts(parts.drop_last(), foregrounds, one, other);
    }
    assert(filter_map(parts, b) =~= filter_map(parts, a).map_values(repaint));
}

proof fn lemma_same_bars(
    bars: Seq<EntityTree>,
    roots: Set<u64>,
    foregrounds: Set<u64>,
    one: BarColor,
    other: BarColor,
)
    ensures
        flat_map(bars, |bar: EntityTree| part_paints(bar, roots, foregrounds, other)) == flat_map(
            bars,
            |bar: EntityTree| part_paints(bar, roots, foregrounds, one),
        ).map_values(|paint: BarPaint| BarPaint { color: other, ..paint }),
    decreases bars.len(),
{
    let repaint = |paint: BarPaint| BarPaint { color: other, ..paint };
    let a = |bar: EntityTree| part_paints(bar, roots, foregrounds, one);
    let b = |bar: EntityTree| part_paints(bar, roots, foregrounds, other);
    if bars.len() > 0 {
        lemma_same_bars(bars.drop_last(), roots, foregrounds, one, other);
        lemma_same_parts(bars.last().children@, foregrounds, one, other);
        assert(b(bars.last()) =~= a(bars.last()).map_values(repaint));
    }
    assert(flat_map(bars, b) =~= flat_map(bars, a).map_values(repaint));
}

/// The colour goes as it came: a character that becomes vulnerable again has painted back exactly what
/// was painted when it became invulnerable.
pub proof fn law_bar_color_returns(character: EntityTree, roots: Set<u64>, foregrounds: Set<u64>)
    ensures
        bar_paints(character, roots, foregrounds, BarColor::Normal) == bar_paints(
            character,
            roots,
            foregrounds,
            BarColor::Invulnerable,
        ).map_values(|paint: BarPaint| BarPaint { color: BarColor::Normal, ..paint }),
{
    lemma_same_bars(
        character.children@,
        roots,
        foregrounds,
        BarColor::Invulnerable,
        BarColor::Normal,
    );
}

/// A new colour goes to the children of a character one after the other, and of each that is the root of
/// a bar to every child that is a foreground, in order. Gives where the paints of each child begin.
pub proof fn law_bars_are_painted_in_turn(
    character: EntityTree,
    roots: Set<u64>,
    foregrounds: Set<u64>,
    color: BarColor,
) -> (starts: Seq<int>)
    ensures
        ({
            let paints = bar_paints(character, roots, foregrounds, color);
            let bars = character.children@;
            &&& cuts(starts, bars.len() as int, paints.len() as int)
            &&& forall|i: int|
                0 <= i < bars.len() ==> part_paints(#[trigger] bars[i], roots, foregrounds, color)
                    == paints.subrange(starts[i], starts[i + 1])
        }),
{
    let f = |bar: EntityTree| part_paints(bar, roots, foregrounds, color);
    let starts = lemma_flat_map_cuts(character.children@, f);
    assert forall|i: int| 0 <= i < character.children@.len() implies part_paints(
        #[trigger] character.children@[i],
        roots,
        foregrounds,
        color,
    ) == bar_paints(character, roots, foregrounds, color).subrange(starts[i], starts[i + 1]) by {
        assert(f(character.children@[i]) == part_paints(
            character.children@[i],
            roots,
            foregrounds,
            color,
        ));
    }
    starts
}

/// Of a bar every foreground is painted with the colour, in order, and of what is no bar nothing is.
/// Gives the part that each paint is for.
pub proof fn law_foregrounds_are_painted(
    bar: EntityTree,
    roots: Set<u64>,
    foregrounds: Set<u64>,
    color: BarColor,
) -> (at: Seq<int>)
    ensures
        ({
            let paints = part_paints(bar, roots, foregrounds, color);
            let parts = bar.children@;
            &&& at.len() == paints.len()
            &&& picks(
                at,
                parts.len() as int,
                |i: int|
                    roots.contains(bar.entity.bits_spec()) && foregrounds.contains(
                        parts[i].entity.bits_spec(),
                    ),
            )
            &&& forall|k: int|
                #![trigger at[k]]
                0 <= k < at.len() ==> paints[k].entity == parts[at[k]].entity && paints[k].color
                    == color
        }),
{
    let parts = bar.children@;
    let f = |part: EntityTree| painted(part, foregrounds, color);
    let raw = |i: int|
        roots.contains(bar.entity.bits_spec()) && foregrounds.contains(parts[i].entity.bits_spec());
    if roots.contains(bar.entity.bits_spec()) {
        let at = lemma_filter_map_picks(parts, f);
        let a = |i: int| f(parts[i]) is Some;
        assert forall|i: int| 0 <= i < parts.len() implies #[trigger] a(i) == #[trigger] raw(i) by {}
        lemma_picks_same(at, parts.len() as int, a, raw);
        assert forall|k: int|
            #![trigger at[k]]
            0 <= k < at.len() implies f(parts[at[k]]) == Some(filter_map(parts, f)[k]) by {}
        at
    } else {
        assert(picks(Seq::empty(), parts.len() as int, raw));
        Seq::empty()
    }
}

} // verus!
