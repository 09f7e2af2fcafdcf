//! Render-prep logic of the Concinnity engine: everything between the asset
//! components and a GPU backend that can be decided on plain values.

pub mod animation;
pub mod backend;
pub mod backend_init;
pub mod bvh;
pub mod camera_controller;
pub mod chunk_coord;
pub mod chunk_window;
pub mod coord_map;
pub mod csm;
pub mod cursor;
pub mod despawn;
pub mod display_mode;
pub mod draw_list;
pub mod draw_slot;
pub mod float_bits;
pub mod frame_pacer;
pub mod fullscreen;
pub mod geometry;
pub mod graphics_system;
pub mod hdr_output;
pub mod hot_reload_sources;
pub mod input;
pub mod internal_systems;
pub mod keymap;
pub mod label_layout;
pub mod lights;
pub mod materials;
pub mod menu;
pub mod mesh_load;
pub mod mipmap;
pub mod order;
pub mod particles;
pub mod path_order;
pub mod planar_reflection;
pub mod quality;
pub mod render_types;
pub mod scene;
pub mod scene_setup;
pub mod setting_rows;
pub mod settings;
pub mod skinned;
pub mod spawn;
pub mod stream_prep;
pub mod streaming;
pub mod tables;
pub mod text;
pub mod world_matrices;
