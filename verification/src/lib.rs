pub mod cursor;
pub mod agent;
pub mod entry;
pub mod error;
pub mod geo;
pub mod http;
pub mod ip;
pub mod services;
pub mod text;
pub mod urls;

pub use crate::cursor::{find, Patt};
pub use crate::entry::{LogEntry, ParseConfig};
pub use crate::error::{LogError, ParseError};
pub use crate::agent::Agent;
pub use crate::geo::GeoLocation;
pub use crate::services::ParserServices;
pub use crate::http::{HttpMethod, HttpVersion};
