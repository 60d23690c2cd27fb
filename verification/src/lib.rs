//! Spiral-filled hexagonal-adjacency grids.
//!
//! A sequence of symbols is laid out on a square grid by walking an outward
//! hexagonal spiral from the centre. On the finished grid a symbol can be
//! located, and a sequence of symbols can be traced greedily from cell to
//! neighbouring cell under a six-direction adjacency rule.

pub mod builder;
pub mod coords;
pub mod error;
pub mod grid;
pub mod render;
pub mod route;
pub mod sizing;
pub mod spiral;

pub use coords::{Coordinates, Direction};
pub use builder::construct_grid;
pub use error::GridError;
pub use grid::{find_neighbors, find_tile, Grid, EMPTY};
pub use render::render_grid;
pub use route::find_route;
pub use sizing::{grid_width, inv_fibish, layers_n, width_for};
