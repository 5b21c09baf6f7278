# oxide

A path tracer whose integer and index logic is a library verified with Verus.

* `src/` — the library:
  * `mesh` — the pre-order layout of a triangle mesh's bounding-volume
    hierarchy, the cube's faces, face index checks and narrowing, the lists of
    faces around each vertex, and STL decoding (through `stl_io`);
  * `bvh` — the plan of the hierarchy over a scene's objects, with a random
    sorting axis per node (through `fastrand`);
  * `renderer` — the RGB image buffer: pixel writes, row-major stores, the
    RGBA form, the hash, and the convergence schedule of adaptive sampling;
  * `world` — the outline around a selection;
  * `sky` — sky-map decoding (through `image`, channels kept as bit patterns)
    and the texel lookup; `scene` — the bundled sky maps and the gzip layer of
    scene files (through `flate2`);
  * `editor` — the object lists, sky presets, material codes and pick filter
    of the scene editor.
* `app/` — the program: floating-point geometry, materials, cameras and light
  transport, rendering in parallel, image output, file I/O and the bincode encoding of
  scenes.
* `tests/` — tests of the library.
