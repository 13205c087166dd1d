//! Parser for Tenhou game-log records: a legacy-encoded, tag-based markup
//! stream is decoded, scanned into a tag stream, and folded by a round
//! state machine into a strongly typed document.
//!
//! - [`tile`] holds the tile codec between identifiers 0..=135 and
//!   canonical tile names.
//! - [`text`] holds the shared decimal parsing and rendering, splitting
//!   and character helpers.
//! - [`scan`] reads the decoded text into its sequence of tags.
//! - [`parser`] folds the tag stream into the document: [`parse_mjlog`]
//!   is the whole pipeline over a raw byte buffer.
//! - [`models`] is the typed document, [`error`] the failure taxonomy.

pub mod error;
pub mod models;
pub mod parser;
pub mod scan;
pub mod text;
pub mod tile;

pub use error::ErrorKind;
pub use error::ParserError;
pub use models::Event;
pub use models::Init;
pub use models::KanType;
pub use models::ParserOptions;
pub use models::ParserOutput;
pub use models::Player;
pub use models::Round;
pub use models::Rules;
pub use models::RyuukyokuReason;
pub use models::Yaku;
pub use parser::MjlogParser;
pub use parser::decode_player_id;
pub use parser::parse_mjlog;
pub use parser::MAX_FILE_SIZE;
pub use tile::parse_tile_list;
pub use tile::tile_id_to_string;
pub use tile::tile_id_to_type;
pub use tile::tile_string_to_id;
pub use tile::TileType;
