//! Utilities to manipulate 2d & 3d grid data: position/index conversions,
//! neighbour resolution on bounded or looping axes, flat data buffers and
//! flood fill.

/// Defines directions
pub mod direction;

/// Defines coordinate systems
pub mod coordinate_system;

/// Cartesian coordinates
pub mod coordinates;

/// Cartesian grid definitions
pub mod cartesian_grid;

/// Defines grid structures
pub mod grid;

/// Cartesian accessors and bulk fills of grid data
pub mod grid_data;

/// Flood fill over 2d grid data
pub mod flood_fill;
