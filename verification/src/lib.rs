//! Core logic of a Roblox place editor: the asset-id and mesh parsers, the
//! bundled-asset tables, the procedural material textures, the asset caches
//! and the scan of a place for the assets it uses, the event queues between
//! the platform bridge and the editor, the soft-keyboard diffing, the
//! rich-text and font rules of the GUI preview, and the live-session bridge
//! to Studio with its WebSocket protocol (SHA-1, base64, handshake and
//! framing).

pub mod sha1;
pub mod base64;
pub mod text;
pub mod websocket;
pub mod events;
pub mod textures;
pub mod assets;
pub mod bundled;
pub mod mesh;
pub mod ime;
pub mod session;
pub mod gui;
pub mod editor;
pub mod scan;
