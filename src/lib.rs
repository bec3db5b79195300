//! Keeps two directory trees in step by the names of the files in them.
//!
//! A walk of each root becomes a `Bookshelf`: the files found, one per name, in name
//! order. Set algebra on shelves tells what one side lacks; the `Updater` turns that into
//! transfers, and each `Transfer` decides step by step what to ask of the file system and
//! what became of the file.
pub mod book;
pub mod bookshelf;
pub mod config;
pub mod indexer;
pub mod opt;
pub mod path;
pub mod text;
pub mod updater;
