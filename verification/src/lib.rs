//! Verified core of a toolkit that rewrites Ogg Opus streams in place:
//! it adjusts the Opus output gain and R128 loudness tags, and edits the
//! Vorbis-style comment header, while re-emitting every other packet
//! byte-for-byte.
#![allow(unused_imports)]
#![verifier::loop_isolation(false)]

pub mod bytes;
pub mod comment_args;
pub mod comment_header;
pub mod comment_list;
pub mod comment_rewriter;
pub mod error;
pub mod escaping;
pub mod fixed_point_gain;
pub mod header_rewriter;
pub mod opus_header;
pub mod volume_analyzer;
pub mod volume_rewriter;
