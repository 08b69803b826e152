//! Retained-mode widget tree, layout, input routing and render caching for
//! a tile-based game view.
//!
//! The widget tree (`tree`) is an arena of nodes owned through their
//! parents' child lists; removal and layout happen in explicit sweeps.
//! The area view (`area_view`) scrolls over an area and turns each frame
//! into renderer commands (`render`), rasterizing terrain and fog of war
//! into cached textures only when they are invalid.

pub mod geometry;
pub mod text;
pub mod callback;
pub mod widget_state;
pub mod kind;
pub mod tree;
pub mod theme;
pub mod label;
pub mod confirmation_window;
pub mod render;
pub mod effect;
pub mod entity_state;
pub mod area;
pub mod area_view;
pub mod character_selector;
pub mod ability_pane;
