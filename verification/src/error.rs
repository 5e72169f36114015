//! The errors that the storage layer and the engine report.

use vstd::prelude::*;
use vstd::string::*;

use crate::text::{decimal, id_to_decimal, lemma_text_concat, text};

verus! {

/// What can go wrong. Reads never fail: they answer `None`. Only decoding a
/// segment and flushing report an error.
#[derive(Debug)]
pub enum GraphError {
    NodeNotFound(u128),
    EdgeNotFound { src: u128, dst: u128 },
    /// A failure of the file system, by its message.
    Io(String),
    /// A failure to decode stored binary data, by its message.
    Serialization(String),
    /// A failure to read or write a JSON document, by its message.
    Json(String),
    Index(String),
    InvalidFormat(String),
    Compaction(String),
    DeltaLogOverflow(usize),
}

/// What `message` prints for an error.
pub open spec fn spec_message(e: GraphError) -> Seq<u8> {
    match e {
        GraphError::NodeNotFound(id) => text("Node not found: "@) + decimal(id as nat),
        GraphError::EdgeNotFound { src, dst } => text("Edge not found: "@) + decimal(src as nat)
            + text(" -> "@) + decimal(dst as nat),
        GraphError::Io(m) => text("IO error: "@) + text(m@),
        GraphError::Serialization(m) => text("Serialization error: "@) + text(m@),
        GraphError::Json(m) => text("JSON error: "@) + text(m@),
        GraphError::Index(m) => text("Index error: "@) + text(m@),
        GraphError::InvalidFormat(m) => text("Invalid file format: "@) + text(m@),
        GraphError::Compaction(m) => text("Compaction error: "@) + text(m@),
        GraphError::DeltaLogOverflow(n) => text("Delta log overflow (>"@) + decimal(n as nat)
            + text(" entries)"@),
    }
}

/// Appends `piece` to `out`.
pub fn push_text(out: &mut String, piece: &str)
    ensures
        final(out)@ == old(out)@ + piece@,
        text(final(out)@) == text(old(out)@) + text(piece@),
{
    proof {
        lemma_text_concat(out@, piece@);
    }
    out.append(piece);
}

/// A string that holds `prefix` followed by `rest`.
pub fn join2(prefix: &str, rest: &str) -> (r: String)
    ensures
        text(r@) == text(prefix@) + text(rest@),
{
    let mut out = String::new();
    push_text(&mut out, prefix);
    push_text(&mut out, rest);
    assert(text(Seq::<char>::empty()) =~= Seq::<u8>::empty());
    assert(Seq::<u8>::empty() + text(prefix@) =~= text(prefix@));
    out
}

impl GraphError {
    /// The error as a line of text.
    pub fn message(&self) -> (r: String)
        ensures
            text(r@) == spec_message(*self),
    {
        match self {
            GraphError::NodeNotFound(id) => {
                let d = id_to_decimal(*id);
                join2("Node not found: ", d.as_str())
            },
            GraphError::EdgeNotFound { src, dst } => {
                let a = id_to_decimal(*src);
                let b = id_to_decimal(*dst);
                let mut out = join2("Edge not found: ", a.as_str());
                push_text(&mut out, " -> ");
                push_text(&mut out, b.as_str());
                out
            },
            GraphError::Io(m) => join2("IO error: ", m.as_str()),
            GraphError::Serialization(m) => join2("Serialization error: ", m.as_str()),
            GraphError::Json(m) => join2("JSON error: ", m.as_str()),
            GraphError::Index(m) => join2("Index error: ", m.as_str()),
            GraphError::InvalidFormat(m) => join2("Invalid file format: ", m.as_str()),
            GraphError::Compaction(m) => join2("Compaction error: ", m.as_str()),
            GraphError::DeltaLogOverflow(n) => {
                let d = id_to_decimal(*n as u128);
                let mut out = join2("Delta log overflow (>", d.as_str());
                push_text(&mut out, " entries)");
                out
            },
        }
    }
}

} // verus!
