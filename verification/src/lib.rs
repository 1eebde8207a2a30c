//! Reading, decoding, editing and converting MapleStory WZ image data.
pub mod error;
pub mod types;
pub mod pixel;
pub mod dxt;
pub mod image;
pub mod crypto;
pub mod text;
pub mod reader;
pub mod property;
pub mod grammar;
pub mod parse;
pub mod names;
pub mod path;
pub mod lookup;
pub mod inflate;
pub mod b64;
pub mod xml;
pub mod canvas_png;
pub mod export;
pub mod attrs;
pub mod xml_import;
pub mod xml_laws;
pub mod tree;
pub mod json;
pub mod typed;
pub mod lazy;
pub mod node;
pub mod limits;
pub mod version;
pub mod directory;
