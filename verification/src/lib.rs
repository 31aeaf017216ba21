//! The storage engine of a vault of notes on countries and topics.
//!
//! A vault keeps the notes of each country in one Markdown file: a block of
//! frontmatter and, under it, one block for each note. Beside the pages it
//! keeps a manifest that counts the notes of each country, and a manifest of
//! the topics that group notes across countries. This library reads and
//! writes the texts of these files; it opens no file itself. Every function
//! states in its contract what it gives.

pub mod catalog;
pub mod document;
pub mod feeds;
pub mod frontmatter;
pub mod ident;
pub mod manifest;
pub mod models;
pub mod notes;
pub mod order;
pub mod reader;
pub mod roundtrip;
pub mod search;
pub mod splice;
pub mod stats;
pub mod text;
pub mod topic_store;
pub mod topics;
pub mod writer;
pub mod yaml;
