//! Postal-code and house-number lookup over the Dutch BAG address register.
//!
//! The crate has three parts: the sortable postal-code key, the builder that
//! folds address records into contiguous house-number ranges, and the binary
//! database format with its two readers.

pub mod assembly;
pub mod coalesce;
pub mod create;
pub mod database;
pub mod decimal;
pub mod decode;
pub mod encode;
pub mod entries;
pub mod error;
pub mod gzip;
pub mod handle;
pub mod layout;
pub mod lookup;
pub mod names;
pub mod order;
pub mod parser;
pub mod postal;
pub mod public_space_map;
pub mod records;
pub mod roundtrip;
pub mod search;
pub mod service;
pub mod sorting;
pub mod text;
pub mod soundness;
pub mod transform;
pub mod view;
pub mod wire;

pub use database::{Database, NumberRange};
pub use error::{BuildError, DatabaseError};
pub use handle::{DatabaseHandle, Localities};
pub use postal::encode_pc;
pub use public_space_map::PublicSpaceMap;
pub use records::{Address, Locality, ParsedData, PublicSpace};
pub use transform::{encode_addresses, index_localities, index_public_spaces, LocalityMap};
pub use view::DatabaseView;
