//! Splitting entity text into bounded chunks, the unit of embedding.

use vstd::prelude::*;

verus! {

/// The longest chunk, in characters, that entity text is split into for
/// embedding.
pub const MAX_CHUNK_CHARS: usize = 2048;

/// The chunks the recursive chunker splits a text into: a function of the
/// characters alone — the same text always chunks the same way.
pub uninterp spec fn chunks_of(text: Seq<char>) -> Seq<Seq<char>>;

/// Split entity text into bounded chunks along structural boundaries
/// (paragraphs, then sentences, then words) for embedding.
///
/// Relies on chonkier's `RecursiveChunker::chunk` over a character
/// tokenizer with chunk size `MAX_CHUNK_CHARS` and the default rules: it
/// never yields a chunk of more than `MAX_CHUNK_CHARS` characters, and
/// returns a text that already fits in one chunk as that single chunk,
/// unchanged.
#[verifier::external_body]
pub fn chunk_entity(text: &String) -> (r: Vec<String>)
    ensures
        r.deep_view() == chunks_of(text@),
        forall|i: int| 0 <= i < r@.len() ==> r@[i]@.len() <= MAX_CHUNK_CHARS,
        text@.len() <= MAX_CHUNK_CHARS ==> r@.len() == 1 && r@[0]@ == text@,
{
    let tokenizer = chonkier::CharacterTokenizer::new();
    let chunker = chonkier::RecursiveChunker::new(
        tokenizer,
        MAX_CHUNK_CHARS,
        chonkier::types::RecursiveRules::default(),
    );
    let chunks: Vec<chonkier::types::RecursiveChunk> = chunker.chunk(text);
    chunks.into_iter().map(|chunk| chunk.text).collect()
}

} // verus!
