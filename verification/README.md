# bc-lifehash, verified

LifeHash draws an icon from a SHA-256 digest: the digest seeds Conway's Game of
Life on a torus, the history of the run shades the cells, and bits of the digest
choose a colour gradient and a symmetry.

`src/` is the library, verified with Verus:

- `bit_enumerator` reads bits and numbers from bytes and packs bits into bytes;
- `grid`, `cell_grid`, `change_grid` hold the cells and run the Game of Life with
  change tracking, proved equal to the plain Game of Life step;
- `generation_grid` records the last generation in which each cell lived;
- `gradients` and `patterns` choose the gradient and the symmetry from the digest,
  and `patterns` places the cells by that symmetry;
- `lib.rs` hashes with SHA-256, runs the history, and scales images.

`app/` adds the colour arithmetic, which is floating point, and offers
`make_from_utf8`, `make_from_data` and `make_from_digest`.
