# concinnity_gfx

The render-prep logic of the Concinnity engine as a verified library: everything between
the asset components and a GPU backend that can be decided on plain values. Each
function states in its contract what it returns or changes, and Verus proves it.

- `src/` is the library. Floating-point numbers are carried as bit patterns
  (`float_bits`), which can be compared, bounded and negated exactly; arithmetic on them is
  handed in as functions, and a contract says what each of them is called with.
- `app/` is the renderer around it: floating-point math, the backend interface, the
  settings file, and the loops that start the driver and run a frame.
- `tests/` runs the library on concrete values.

| Part | Modules |
| --- | --- |
| Scene assembly | `mesh_load`, `materials`, `skinned`, `draw_list`, `geometry`, `lights`, `particles`, `scene_setup`, `scene`, `world_matrices` |
| Culling and passes | `bvh`, `planar_reflection`, `csm`, `frame_pacer`, `fullscreen`, `mipmap`, `hdr_output`, `backend_init` |
| The frame | `graphics_system`, `input`, `camera_controller`, `animation`, `spawn`, `despawn`, `cursor`, `label_layout` |
| Streaming | `stream_prep`, `streaming`, `chunk_window`, `chunk_coord`, `coord_map`, `draw_slot` |
| Settings | `settings`, `setting_rows`, `quality`, `menu`, `keymap`, `display_mode` |
| Reloading | `hot_reload_sources`, `path_order` |

Laws that span several functions are public proof functions whose names begin with
`law_`.
