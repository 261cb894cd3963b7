//! Deterministic identities and a tag-scored journal store for jots.

pub mod cli;
pub mod config;
pub mod gui;
pub mod ids;
pub mod laws;
pub mod lawg;
pub mod session;
pub mod stardate;
pub mod models;
pub mod store;
pub mod text;

pub use ids::{fmt_uuid, get_joenal_root, get_jotlog_root, mk_jot_ns_uuid, mk_jot_id, mk_mapping_id, mk_tag_id, Uuid};
pub use stardate::StarDate;
pub use models::{Content, Jot, Mapping, RawJot, Tag};
pub use store::{bump_score, insert_jot, resolve_jot_id, JotDb, JotIdentity, StoreError};
pub use text::{canonicalize_tag, parse_tags};
pub use lawg::{parse_lawg, LawgError};
pub use config::{get_device_id, ConfigError, JotlogConfig};
pub use gui::{resolve_selection, Item, JotCard, Labelable};
pub use cli::{collect_tags, compose_content};
pub use session::{Event, InsertSession, Phase, Step};
