//! Generation, editing and removal of per-map configuration files for a
//! game installation, and discovery of that installation.
//!
//! - [`text`]: trimming, line splitting and substring replacement on characters.
//! - [`bsp`]: which directory entries are maps, whitelist filtering, and the
//!   configuration file name of each map.
//! - [`cvar`]: the cvar catalogs read from the marker files.
//! - [`writer`]: checking a request and the effect of each write operation.
//! - [`removal`]: why removing cvars from a file just written with them
//!   leaves none of their lines.
//! - [`store`]: the record of the installation directory and its location.
//! - [`locator`]: the steps that resolve the installation directory.
pub mod text;
pub mod bsp;
pub mod cvar;
pub mod writer;
pub mod removal;
pub mod store;
pub mod locator;
