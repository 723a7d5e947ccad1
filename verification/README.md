# roguelike

The rules of a small libtcod dungeon crawler, verified with Verus.

- `src/` is the library: the tile map (`tile`), rectangles (`geometry`),
  objects and their templates (`object`), dungeon generation with random
  rooms, monsters and corridors (`dungeon`, drawing numbers through `rand`
  in `random`), movement and the monsters' decisions (`movement`), key
  handling (`input`), exploration and background colors (`render`), and
  properties of the whole (`laws`).
- `app/main.rs` is the game: the libtcod window, keyboard, field of view,
  drawing, and the floating-point step of a chasing monster.
- `tests/` exercise the library on concrete values.
