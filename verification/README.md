# shape_editor

Selecting, moving and joining the points of vector shapes, and the operations that a graph of nodes runs over
them, verified with Verus.

- `src/` is the library. `selection`, `shape_state`, `deletion`, `topology`, `movement`, `handles`, `colinear`,
  `pairing`, `connectivity`, `picking`, `segment`, `region` and `snapping` make up the path tool: what is selected
  and which changes it asks of the document. `paths`, `morph`, `bevel`, `bevel_run`, `chamfer`, `cut_search`,
  `subpath`, `tangents`, `rounding`, `jitter`, `warp`, `splitting`, `polyline`, `instancing`, `style`, `traversal`, `measures`,
  `sampling`, `flatten`, `lengths` and `offset` are the nodes. What holds of several functions is stated by public
  proof functions, some of them in `selection_laws`, `deletion_laws` and `corners`.
- Numbers and vectors are those of `glam`, and paths those of `kurbo`; both are opaque to the proofs. The functions
  in `geometry` and `paths` give names to what they compute, and contracts speak of these names. A number by
  itself is carried as a vector with that number in both coordinates. Where a result differs from one platform
  to another, as that of a sine does, the name stands for all the results that there may be, and a contract says
  that one of them was used; beside such a function stands one that takes the result as an argument and has the
  exact contract.
- `tests/` runs the library with `glam`, `kurbo` and `rand`.
- `app/` is ordinary Rust around the library: what is computed along curves, and the nodes over whole
  tables, with what the shapes of a document offer as traits.
