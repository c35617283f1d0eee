# TermCraft

A voxel world played in the terminal: terrain with trees, building and
breaking blocks, water that flows, redstone circuits with a small CPU,
structures, the Nether and its portals, mobs that find their way to the
player, items, crafting, tools, experience and enchantments, and a
multiplayer server.

## Layout

- `src/` is the game's logic, written in Verus with its contracts and
  proofs: `block`, `world` (storage, generation from terrain heights,
  reads and writes), `fluid`, `redstone`, `cpu`, `structure`, `dimension`,
  `mob` (A* path search), `item`, `tool`, `xp`, `biome`, `network` (the
  server's decisions), `input` (what each key asks for) and `rng`.
- `tests/` exercises the library on concrete worlds and values.
- `app/` is the terminal program around it: input, rendering, physics,
  terrain noise, saving, sound, Lua scripting and the UDP networking.
