//! Plain argument records for the four chunk-level operations. Parsing the
//! command line itself is left to the surrounding program.

use vstd::prelude::*;

verus! {

/// One invocation: embed, reveal, remove, or dump.
#[derive(Debug)]
pub enum Args {
    Encode(EncodeArgs),
    Decode(DecodeArgs),
    Remove(RemoveArgs),
    Print(PrintArgs),
}

/// Embed a message as a new chunk.
#[derive(Debug)]
pub struct EncodeArgs {
    pub path: String,
    pub chunk_type: String,
    pub message: String,
    pub output_file: Option<String>,
}

/// Reveal the payload of the first chunk with a given tag.
#[derive(Debug)]
pub struct DecodeArgs {
    pub path: String,
    pub chunk_type: String,
}

/// Remove the first chunk with a given tag.
#[derive(Debug)]
pub struct RemoveArgs {
    pub path: String,
    pub chunk_type: String,
}

/// Print a diagnostic dump of all chunks.
#[derive(Debug)]
pub struct PrintArgs {
    pub path: String,
}

} // verus!
