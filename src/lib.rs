//! A raycasting engine for grid maps of colored walls.
//!
//! A map of cells (`map`) becomes a list of unit wall segments (`walls`). A
//! camera (`trace`, `camera`) casts one ray per screen column; the nearest
//! wall it meets is shaded as a vertical band, flat or textured (`shade`,
//! `texture`), and the columns are composed into a frame buffer (`frame`).
//! The same walls stood up as unit panels (`panels`) can be traced one ray
//! per pixel instead. All geometry is exact integer and fixed-point arithmetic.

pub mod camera;
pub mod color;
pub mod frame;
pub mod map;
pub mod panels;
pub mod shade;
pub mod texture;
pub mod trace;
pub mod walls;
