//! A tile-map ray caster: a packed RGB canvas, palette-indexed textures, a
//! validated tile map, player movement with collision sliding, and the
//! per-column ray march that renders a frame, all in fixed-point arithmetic.
pub mod canvas;
pub mod geometry;
pub mod movement;
pub mod pacing;
pub mod raycaster;
pub mod texture;
pub mod tilemap;
