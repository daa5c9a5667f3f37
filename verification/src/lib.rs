//! A content pipeline for a small publishing site.
//!
//! Authors write a tree of categories, items and attachments. The pipeline
//! scans what was read off that tree, parses every document, has every page
//! rendered, and writes pages and attachments to a keyed store that can be
//! searched. Every step says in its contract what it computes, over the
//! texts as sequences of characters:
//!
//! - [`markdown`]: documents with a metadata block, titles, days, and the
//!   rewriting of references to attachments;
//! - [`source`], [`attachments`], [`scanner`]: from directory listings to the
//!   [`content`] of the site, in order and with a name of its own for every
//!   attachment;
//! - [`compiler`]: from the content and its rendered pages to the rows that
//!   are written, failing before anything is written;
//! - [`page`], [`table`], [`query`], [`storage`]: the store, its rows, and
//!   what its queries return;
//! - [`results`], [`recommender`]: what a search shows of a page, the site
//!   as the stored pages show it, and the keywords of its items;
//! - [`text`], [`order`]: searching, replacing and ordering texts, and a
//!   stable sort;
//! - [`config`], [`theme`], [`scaffold`], [`analytics`], [`error`]: settings,
//!   colours, new content, visits, and what can go wrong.

pub mod analytics;
pub mod attachments;
pub mod compiler;
pub mod config;
pub mod content;
pub mod error;
pub mod markdown;
pub mod order;
pub mod page;
pub mod query;
pub mod recommender;
pub mod results;
pub mod scaffold;
pub mod scanner;
pub mod source;
pub mod storage;
pub mod table;
pub mod text;
pub mod theme;
