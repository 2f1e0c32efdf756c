# lightyear_arena

The rules of a networked voxel arena game, verified with Verus: abilities and hits, maps and the
travel between them, voxel edits that clients predict and the server settles, chunk streaming, saving,
character rigs, and the screens of the client.

The rules know no engine. Each system of the game is a function from plain rows, and a snapshot of what
it looks up, to the commands that it asks for, in order. Entities are the bits that identify them, and
floating-point numbers are their bit patterns: the rules compare and carry numbers, and leave arithmetic
on them to whoever carries out the commands.

## Layout

- `src/ability`: what abilities are, how they start, pass through their phases and take effect, how long
  what they leave behind lasts, and the files that define them.
- `src/hit_detection.rs`, `src/physics.rs`: who is struck and with which outcome, and who may collide.
- `src/map`: map instances and rooms, voxel edits on the server and ahead of it on the client,
  broadcasts, chunk streaming, transitions between maps, terrain, and what is saved when.
- `src/sprite_rig`, `src/vox_model`: the bones, clips and graphs of characters, and voxel models.
- `src/gameplay.rs`, `src/health_bar.rs`, `src/hierarchy.rs`, `src/player.rs`, `src/ui.rs`: characters
  and their respawns, the player's inputs, and the screens of the client.
- `src/network.rs`, `src/diagnostics.rs`: how the server is reached, which way messages go, and what is
  measured.
- `src/entity.rs`, `src/geometry.rs`, `src/names.rs`, `src/ranking.rs`, `src/scalar.rs`, `src/seqs.rs`,
  `src/tick.rs`: the values that all of these are made of.
- `tests`: the library in use, on concrete values.
- `app`: a Bevy application around the library. It gathers the rows, does the floating-point arithmetic
  and carries out the commands. Physics, transport and voxel storage are supplied by its host.

## What is proved

Every function says in its contract what it returns or changes. What holds of several functions together
stands in public proof functions whose names begin with `law_`: that no edit is lost and no chunk is sent
twice, that edits are told on their own map only, that a rejected edit leaves the others alone, that a
hitbox strikes a target once, that a saved world is clean, that a client mirrors what the server has sent
it, and so on.

What is believed without proof are the contracts of the functions that call `bevy`'s entity sets,
`block-mesh`, `ndshape`, `ron` and `u64::to_ne_bytes`; the comment above each says what it claims.
