//! Locating, naming and describing YouTube media preserved by the Wayback
//! Machine: input parsing, format tables, archive URL handling and metadata
//! extraction, with their contracts checked by Verus.

pub mod cdx;
pub mod clock;
pub mod download;
pub mod formats;
pub mod html;
pub mod naming;
pub mod pattern;
pub mod size;
pub mod sort;
pub mod text;
pub mod video_id;
pub mod wayback;
