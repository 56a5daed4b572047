//! Grid-based rail network engine: an eight-way direction and connection
//! model, track-piece geometry, an append-only track network with a
//! connection adjacency map, a best-first pathfinder over user-drawn grid
//! points, and a multi-segment train motion simulator that replays the head
//! segment's junction decisions to the trailing segments.
//!
//! All geometry is carried in integer grid units; lengths and distances
//! along a track use thousandths of a grid unit ("milli-units") so that the
//! motion simulator needs no floating point.

mod geom;
mod network;
mod path;
mod rng;
mod track;
mod train;

pub use geom::snap_to_grid;
pub use geom::Dir;
pub use geom::Pos;
pub use geom::COORD_LIMIT;
pub use geom::DIAG_FULL_STEP;
pub use geom::GRID_CELL_SIZE;
pub use network::ConnectionMap;
pub use network::Network;
pub use path::dir_toward;
pub use path::Connection;
pub use path::Path;
pub use path::ALIGN_WEIGHT;
pub use path::DIST_WEIGHT;
pub use path::PATH_COORD_LIMIT;
pub use path::SEARCH_LIMIT;
pub use track::Track;
pub use track::DIAG_LEN;
pub use track::DIAG_MILLI_PER_UNIT;
pub use track::STRT_LEN;
pub use track::TURN_LEN;
pub use track::TURN_LEN_MILLI;
pub use train::Segment;
pub use train::Train;
pub use train::SPEED_CAP;
pub use train::TRAVEL_CAP;
