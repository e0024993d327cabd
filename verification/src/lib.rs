//! A report-generation pipeline for a chat-community bot command.
//!
//! Given the role tokens held by a caller, the pipeline retrieves matching
//! catalog records ("classes"), optionally narrows them by a case-insensitive
//! text filter, partitions the remainder into groups ordered by tag, and
//! renders a structured report (title, color, footer, grouped fields).
//!
//! The catalog storage layer and the chat platform are external collaborators:
//! the host program performs the catalog query and fills the name cache, and
//! hands this library plain values. Everything from that seam inward is
//! verified.

pub mod filter;
pub mod group;
pub mod record;
pub mod report;
pub mod text;
