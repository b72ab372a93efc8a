use vstd::prelude::*;
use crate::chunker::{buffers_view, chunks_of, flatten, Chunker};

verus! {

/// An upload ready to be stored: its name, its format, its size in bytes and its chunks in order.
#[derive(Debug)]
pub struct RequestFile {
    pub name: String,
    pub format: String,
    pub space: i64,
    pub chunk_data: Vec<Vec<u8>>,
}

/// A stored file's metadata row.
#[derive(Clone, Debug)]
pub struct FileMetadata {
    pub id: i32,
    pub name: String,
    pub format: String,
    pub space: i64,
    pub chunk_ids: Vec<i32>,
}

/// A stored chunk row: `alignment` is the chunk's 1-based position within its file.
#[derive(Clone, Debug)]
pub struct FileChunk {
    pub id: i32,
    pub file_id: i32,
    pub alignment: i32,
    pub chunk_data: Vec<u8>,
}

/// Index of the last `.` in `s`, or -1 when there is none.
pub open spec fn last_dot(s: Seq<char>) -> int
    decreases s.len(),
{
    if s.len() == 0 {
        -1
    } else if s.last() == '.' {
        s.len() - 1
    } else {
        last_dot(s.drop_last())
    }
}

/// The format of a file named `name`: what follows its last `.`, or `unknown` when it has none.
pub open spec fn format_of(name: Seq<char>) -> Seq<char> {
    if last_dot(name) < 0 {
        "unknown"@
    } else {
        name.subrange(last_dot(name) + 1, name.len() as int)
    }
}

/// Total number of bytes in a list of buffers.
pub open spec fn total_len(chunks: Seq<Seq<u8>>) -> nat
    decreases chunks.len(),
{
    if chunks.len() == 0 {
        0
    } else {
        total_len(chunks.drop_last()) + chunks.last().len()
    }
}

proof fn lemma_last_dot_prefix(s: Seq<char>, k: int)
    requires
        0 <= k <= s.len(),
        forall|j: int| k <= j < s.len() ==> s[j] != '.',
    ensures
        last_dot(s) == last_dot(s.take(k)),
    decreases s.len() - k,
{
    if k < s.len() {
        assert(s.take(k + 1).drop_last() == s.take(k));
        lemma_last_dot_prefix(s, k + 1);
    } else {
        assert(s.take(k) == s);
    }
}

/// The format of the file named `name`.
pub fn file_format(name: &str) -> (r: String)
    ensures
        r@ == format_of(name@),
{
    let n = name.unicode_len();
    let mut i: usize = n;
    while i > 0
        invariant
            i <= n,
            n == name@.len(),
            forall|j: int| i <= j < n ==> name@[j] != '.',
        decreases i,
    {
        if name.get_char(i - 1) == '.' {
            proof {
                lemma_last_dot_prefix(name@, i as int);
            }
            return name.substring_char(i, n).to_owned();
        }
        i = i - 1;
    }
    proof {
        lemma_last_dot_prefix(name@, 0);
    }
    "unknown".to_owned()
}

proof fn lemma_total_len_flatten(chunks: Seq<Seq<u8>>)
    ensures
        total_len(chunks) == flatten(chunks).len(),
    decreases chunks.len(),
{
    if chunks.len() > 0 {
        lemma_total_len_flatten(chunks.drop_last());
    }
}

impl RequestFile {
    /// The upload named `name` whose bytes were fed to `chunker`: its format comes from the name,
    /// its size is the number of bytes fed, and its chunks are those bytes cut at the chunk size.
    pub fn from_chunker(name: String, chunker: Chunker) -> (r: RequestFile)
        requires
            chunker.wf(),
            chunker.consumed().len() <= i64::MAX,
        ensures
            r.name@ == name@,
            r.format@ == format_of(name@),
            r.space == chunker.consumed().len(),
            buffers_view(r.chunk_data@) == chunks_of(chunker.consumed(), chunker.size()),
    {
        let format = file_format(name.as_str());
        let space = chunker.len() as i64;
        let chunk_data = chunker.finish();
        RequestFile { name, format, space, chunk_data }
    }
}

/// The chunks of a prepared upload add up to its size.
pub proof fn lemma_size_is_sum_of_chunks(data: Seq<u8>, c: nat, file: RequestFile)
    requires
        c > 0,
        file.space == data.len(),
        buffers_view(file.chunk_data@) == chunks_of(data, c),
    ensures
        total_len(buffers_view(file.chunk_data@)) == file.space,
{
    crate::chunker::lemma_chunks_of_sound(data, c);
    lemma_total_len_flatten(chunks_of(data, c));
}

} // verus!
