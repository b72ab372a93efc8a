use vstd::prelude::*;
use crate::chunker::{buffers_view, chunks_of, flatten, lemma_chunks_of_sound};
use crate::ingest::{chunk_rows, NewChunk};
use crate::structure::{FileChunk, FileMetadata};

verus! {

/// Why a file cannot be handed out.
#[derive(PartialEq, Eq, Structural, Clone, Copy, Debug)]
pub enum RetrieveError {
    /// No such file, or its chunks are missing.
    NotFound,
    /// The store failed.
    Internal,
}

/// A file ready to be sent: its name, its size and its bytes as buffers in order.
#[derive(Debug)]
pub struct Download {
    pub name: String,
    pub space: i64,
    pub chunks: Vec<Vec<u8>>,
}

/// `order` lists each index of `rows` once, by ascending ordinal.
pub open spec fn orders_by_alignment(rows: Seq<FileChunk>, order: Seq<int>) -> bool {
    &&& order.len() == rows.len()
    &&& forall|k: int| 0 <= k < order.len() ==> 0 <= #[trigger] order[k] < rows.len()
    &&& forall|a: int, b: int|
        0 <= a < order.len() && 0 <= b < order.len() && a != b ==> order[a] != order[b]
    &&& forall|a: int, b: int|
        0 <= a < b < order.len() ==> rows[order[a]].alignment <= rows[order[b]].alignment
}

/// `out` holds the bytes of `rows`, taken by ascending ordinal.
pub open spec fn assembled(rows: Seq<FileChunk>, out: Seq<Seq<u8>>) -> bool {
    exists|order: Seq<int>|
        orders_by_alignment(rows, order) && out.len() == order.len() && forall|k: int|
            0 <= k < out.len() ==> #[trigger] out[k] == rows[order[k]].chunk_data@
}

/// The indices of `rows` by ascending ordinal; rows with equal ordinals keep their order.
pub fn order_by_alignment(rows: &Vec<FileChunk>) -> (r: Vec<usize>)
    ensures
        orders_by_alignment(rows@, r@.map_values(|i: usize| i as int)),
{
    let mut order: Vec<usize> = Vec::new();
    let mut i: usize = 0;
    while i < rows.len()
        invariant
            i <= rows@.len(),
            order@.len() == i,
            forall|k: int| 0 <= k < order@.len() ==> #[trigger] order@[k] < i,
            forall|a: int, b: int|
                0 <= a < order@.len() && 0 <= b < order@.len() && a != b ==> order@[a]
                    != order@[b],
            forall|a: int, b: int|
                0 <= a < b < order@.len() ==> rows@[order@[a] as int].alignment
                    <= rows@[order@[b] as int].alignment,
        decreases rows@.len() - i,
    {
        let key = rows[i].alignment;
        let mut p: usize = 0;
        while p < order.len() && rows[order[p]].alignment <= key
            invariant
                p <= order@.len(),
                order@.len() == i,
                i < rows@.len(),
                key == rows@[i as int].alignment,
                forall|k: int| 0 <= k < order@.len() ==> #[trigger] order@[k] < i,
                forall|k: int| 0 <= k < p ==> rows@[(#[trigger] order@[k]) as int].alignment <= key,
            decreases order@.len() - p,
        {
            p = p + 1;
        }
        let ghost before = order@;
        order.insert(p, i);
        assert(order@ == before.insert(p as int, i));
        assert forall|a: int, b: int|
            0 <= a < b < order@.len() implies rows@[order@[a] as int].alignment
                <= rows@[order@[b] as int].alignment by {
            if p < before.len() {
                assert(rows@[before[p as int] as int].alignment > key);
            }
            if a < p && b > p {
                assert(rows@[before[a] as int].alignment <= key);
            }
            if a == p && b > p + 0 && (b - 1) > p {
                assert(rows@[before[p as int] as int].alignment <= rows@[before[b - 1] as int].alignment);
            }
        }
        i = i + 1;
    }
    let ghost order_int = order@.map_values(|i: usize| i as int);
    assert forall|a: int, b: int|
        0 <= a < order_int.len() && 0 <= b < order_int.len() && a != b implies order_int[a]
        != order_int[b] by {
        assert(order@[a] != order@[b]);
    }
    order
}

/// The file of `meta` assembled from its chunk rows, read back in any order. A file whose
/// rows are all missing is found only when it is empty.
pub fn assemble_download(meta: FileMetadata, rows: Vec<FileChunk>) -> (r: Result<
    Download,
    RetrieveError,
>)
    ensures
        rows@.len() == 0 && meta.space != 0 ==> r == Err::<Download, RetrieveError>(
            RetrieveError::NotFound,
        ),
        rows@.len() != 0 || meta.space == 0 ==> (r matches Ok(d) && d.name@ == meta.name@
            && d.space == meta.space && assembled(rows@, buffers_view(d.chunks@))),
{
    if rows.len() == 0 && meta.space != 0 {
        return Err(RetrieveError::NotFound);
    }
    let order = order_by_alignment(&rows);
    let ghost order_int = order@.map_values(|i: usize| i as int);
    let mut chunks: Vec<Vec<u8>> = Vec::new();
    let mut k: usize = 0;
    while k < order.len()
        invariant
            orders_by_alignment(rows@, order_int),
            order_int == order@.map_values(|i: usize| i as int),
            k <= order@.len(),
            chunks@.len() == k,
            forall|j: int| 0 <= j < k ==> #[trigger] chunks@[j]@ == rows@[order_int[j]].chunk_data@,
        decreases order@.len() - k,
    {
        assert(0 <= order_int[k as int] < rows@.len());
        let data = rows[order[k]].chunk_data.clone();
        assert(data@ =~= rows@[order_int[k as int]].chunk_data@);
        chunks.push(data);
        k = k + 1;
    }
    assert(buffers_view(chunks@).len() == order_int.len());
    assert(forall|j: int|
        0 <= j < chunks@.len() ==> #[trigger] buffers_view(chunks@)[j] == rows@[order_int[j]].chunk_data@);
    Ok(Download { name: meta.name, space: meta.space, chunks })
}

/// `row` is one of the rows of `inserted`, as the store gives it back.
pub open spec fn inserted_row(row: FileChunk, inserted: Seq<NewChunk>) -> bool {
    exists|i: int|
        0 <= i < inserted.len() && (#[trigger] inserted[i]).alignment == row.alignment
            && inserted[i].file_id == row.file_id && inserted[i].chunk_data@ == row.chunk_data@
}

/// `rows` are the rows of `inserted`, each once, in any order.
pub open spec fn stored_rows(rows: Seq<FileChunk>, inserted: Seq<NewChunk>) -> bool {
    &&& rows.len() == inserted.len()
    &&& forall|r: int| 0 <= r < rows.len() ==> inserted_row(#[trigger] rows[r], inserted)
    &&& forall|a: int, b: int|
        0 <= a < rows.len() && 0 <= b < rows.len() && a != b ==> rows[a].alignment
            != rows[b].alignment
}

proof fn lemma_increasing_lower(s: Seq<int>, k: int)
    requires
        0 <= k < s.len(),
        forall|a: int, b: int| 0 <= a < b < s.len() ==> s[a] < s[b],
        forall|j: int| 0 <= j < s.len() ==> 1 <= #[trigger] s[j],
    ensures
        s[k] >= k + 1,
    decreases k,
{
    if k > 0 {
        lemma_increasing_lower(s, k - 1);
        assert(s[k - 1] < s[k]);
    }
}

proof fn lemma_increasing_upper(s: Seq<int>, k: int)
    requires
        0 <= k < s.len(),
        forall|a: int, b: int| 0 <= a < b < s.len() ==> s[a] < s[b],
        forall|j: int| 0 <= j < s.len() ==> #[trigger] s[j] <= s.len(),
    ensures
        s[k] <= k + 1,
    decreases s.len() - k,
{
    if k < s.len() - 1 {
        lemma_increasing_upper(s, k + 1);
        assert(s[k] < s[k + 1]);
    }
}

/// Round trip: cut `data` into chunks, hand them to the store as rows with their ordinals, read
/// the rows back in any order and assemble them: the bytes come out as they went in.
pub proof fn lemma_round_trip(
    data: Seq<u8>,
    c: nat,
    file_id: i32,
    file_chunks: Seq<Vec<u8>>,
    inserted: Seq<NewChunk>,
    rows: Seq<FileChunk>,
    out: Seq<Seq<u8>>,
)
    requires
        c > 0,
        buffers_view(file_chunks) == chunks_of(data, c),
        chunk_rows(inserted, file_id, file_chunks),
        stored_rows(rows, inserted),
        assembled(rows, out),
    ensures
        flatten(out) == data,
{
    let order = choose|order: Seq<int>|
        orders_by_alignment(rows, order) && out.len() == order.len() && forall|k: int|
            0 <= k < out.len() ==> #[trigger] out[k] == rows[order[k]].chunk_data@;
    let n = rows.len() as int;
    let keys = Seq::new(n as nat, |k: int| rows[order[k]].alignment as int);
    assert forall|a: int, b: int| 0 <= a < b < keys.len() implies keys[a] < keys[b] by {
        assert(order[a] != order[b]);
        assert(0 <= order[a] < n && 0 <= order[b] < n);
    }
    assert forall|j: int| 0 <= j < keys.len() implies 1 <= #[trigger] keys[j] <= keys.len() by {
        let r = order[j];
        assert(0 <= r < n);
        assert(inserted_row(rows[r], inserted));
    }
    let want = chunks_of(data, c);
    assert forall|k: int| 0 <= k < out.len() implies #[trigger] out[k] == want[k] by {
        lemma_increasing_lower(keys, k);
        lemma_increasing_upper(keys, k);
        let r = order[k];
        assert(0 <= r < n);
        assert(inserted_row(rows[r], inserted));
        let i = choose|i: int|
            0 <= i < inserted.len() && (#[trigger] inserted[i]).alignment == rows[r].alignment
                && inserted[i].file_id == rows[r].file_id && inserted[i].chunk_data@
                == rows[r].chunk_data@;
        assert(inserted[i].alignment == i + 1);
        assert(buffers_view(file_chunks)[k] == file_chunks[k]@);
    }
    assert(out =~= want);
    lemma_chunks_of_sound(data, c);
}

/// The outcome of looking a file up: an absent metadata row means the file is not found.
pub fn found_metadata(meta: Option<FileMetadata>) -> (r: Result<FileMetadata, RetrieveError>)
    ensures
        meta is None ==> r == Err::<FileMetadata, RetrieveError>(RetrieveError::NotFound),
        meta is Some ==> r == Ok::<FileMetadata, RetrieveError>(meta->Some_0),
{
    match meta {
        Some(m) => Ok(m),
        None => Err(RetrieveError::NotFound),
    }
}

} // verus!
