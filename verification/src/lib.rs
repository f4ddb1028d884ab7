//! A transparent LSP middleware that lets an editor treat single-file
//! rust-script sources as full Cargo packages understood by
//! rust-analyzer.
//!
//! Messages arrive as `Content-Length`-framed JSON-RPC over byte
//! streams ([`codec`], [`parse`], [`json`]); the routing engine
//! ([`router`]) correlates requests with responses, rewrites
//! configuration and `didOpen` payloads against the script cache
//! ([`script`]), translates file URIs between the editor's and the
//! backend's view ([`uri`]), and debounces reload signalling
//! ([`event`]).  Every routing decision is verified; the surrounding
//! process — streams, threads, the backend child, the packaging tool —
//! lives outside and acts only on the actions a step hands back.

pub mod bytes;
pub mod codec;
pub mod event;
pub mod handler;
pub mod json;
pub mod lsp_extra;
pub mod msg;
pub mod parse;
pub mod roundtrip;
pub mod router;
pub mod script;
pub mod uri;
