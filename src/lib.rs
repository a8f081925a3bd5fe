//! Rendering, caching and archiving of a pixel-art logo.
//!
//! The logo is described as a list of characters, each a list of 8x8
//! panels, each a list of color tokens. The library decodes those tokens,
//! composes RGBA bitmaps at any scale, decides when a freshly fetched
//! description replaces the cached one, and prepares what the timeline
//! store and its history payload need.

pub mod cache;
pub mod color;
pub mod db;
pub mod history;
pub mod logo;
pub mod raster;

pub use cache::{same_description, LogoCache};
pub use color::{decode_color, hex_digit_value, ColorError};
pub use db::{history_query, init_db, save_logo, DbStatement, GetHistoryOptions};
pub use history::{get_history_payload, json_records, HistoryError, LogoState, Timestamp};
pub use logo::{get_logo_data, get_logo_png, Logo, LogoOptions, LogoResponse, RenderError};
pub use raster::fill_block;
