//! A live document runtime: documents are flat streams of typed nodes, read
//! from text or built node by node, kept in a registry under pointers that a
//! new registration invalidates, and reconciled into live objects by an apply
//! engine that matches nodes to fields by name. Around it stand the pieces of
//! an application that the runtime serves: menus, textures, shader types, and
//! what a desktop loop and a renderer decide.

pub mod live_id;
pub mod live_float;
pub mod live_node;
pub mod live_node_slice;
pub mod live_node_vec;
pub mod live_format;
pub mod live_parser;
pub mod live_error;
pub mod cx;
pub mod live_registry;
pub mod live_edit;
pub mod live_traits;
pub mod live_prims;
pub mod live_prims_laws;
pub mod live_data;
pub mod live_data_laws;
pub mod live_data_idempotence;
pub mod live_types;
pub mod live_instances;
pub mod event;
pub mod texture;
pub mod menu;
pub mod ty;
pub mod font;
pub mod platform;
pub mod render;
pub mod cx_platform;
pub mod desktop_loop;
pub mod fold_header;
pub mod shader_view;
pub mod file_tree;
