//! Verified core of a command-line anime streaming client: the text
//! rules that decide which episode sources are usable, the decoding of
//! obfuscated source paths, the extraction of search results, episode
//! lists and source links from the API's JSON replies, and the menu
//! texts exchanged with the interactive picker.
pub mod text;
pub mod provider;
pub mod decode;
pub mod json;
pub mod api;
pub mod menu;
pub mod player;
