//! Data-processing core of a level editor for a tile-based 2D game.
//!
//! - [`binary_reader`]: little-endian reads over an in-memory byte buffer.
//! - [`atlas_data`], [`atlas`], [`xnb_reader`]: the run-length-encoded atlas
//!   images, the atlas meta index with the sprite registry, and the XNB
//!   texture container.
//! - [`tileset`], [`tile_xml`], [`rule_cache`]: tileset rules read from the
//!   rule files, with `copy` inheritance.
//! - [`autotile`]: choosing each cell's tile variant from its 3x3
//!   neighborhood; [`autotile_laws`] and [`tile_xml_laws`] state what holds
//!   of it.
//! - [`level`]: the generic map tree and the level records taken from it.
//! - [`tile_neighbors`], [`tiles`], [`keybindings`], [`assets`]: smaller
//!   editor models.

pub mod text;
pub mod binary_reader;
pub mod atlas_data;
pub mod atlas;
pub mod xnb_reader;
pub mod tileset;
pub mod tile_xml;
pub mod tile_xml_laws;
pub mod rule_cache;
pub mod autotile;
pub mod autotile_laws;
pub mod level;
pub mod tile_neighbors;
pub mod tiles;
pub mod keybindings;
pub mod assets;
