//! Rule-driven autolinking and restricted rendering helpers for Markdown documents.
//!
//! The verified core: URL template substitution, collection of rule matches from
//! regular-expression captures, planning of the text and link pieces that replace a
//! matched text node, the pass over a document's nodes that decides which text nodes are
//! rewritten (outside links and raw HTML anchors), the anchor tag that opens links in a new
//! browsing context, and the list numbering and inline-HTML recognition of the restricted
//! renderer.

mod text;
pub mod template;
pub mod rule;
pub mod autolink;
pub mod document;
pub mod plain;
pub mod render;

pub use autolink::{find_matches, plan_pieces, records_from_captures, MatchRecord, Piece};
pub use document::{autolink_plan, has_link_ancestor, plan_rewrites, AnchorTracker, NodeEvent, NodeKind, Rewrite};
pub use plain::{
    classify_inline_html, classify_lowered, plain_step, Delimiter, InlineHtml, ListMarker, ListStack, PlainNode,
    PlainOutput,
};
pub use render::link_open_tag;
pub use rule::{Capture, LinkRule, LinkRuleError};
pub use template::substitute_url;
