//! Planning and checking of hard-disk file-list copies: re-rooting entry
//! directories, building the copy list from a list file, checking it against
//! the disk before copying, and the decisions of the window around them.
pub mod text;
pub mod evaldirs;
pub mod listing;
pub mod testpress;
pub mod copying;
pub mod makelist;
pub mod panel;
pub mod roundtrip;
pub mod tasks;
