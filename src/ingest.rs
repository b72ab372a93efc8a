use vstd::prelude::*;
use crate::structure::RequestFile;

verus! {

/// Why an ingest did not complete.
#[derive(PartialEq, Eq, Structural, Clone, Copy, Debug)]
pub enum IngestError {
    /// The upload's byte stream could not be read.
    SourceRead,
    /// No handle to the store could be obtained.
    StoreUnavailable,
    /// A metadata insert or update failed.
    MetadataWrite,
    /// At least one chunk insert failed.
    ChunkWrite,
    /// The store reported an outcome that does not answer the pending request.
    UnexpectedEvent,
}

/// A chunk row to insert: the file it belongs to, its 1-based ordinal and its bytes.
#[derive(Debug)]
pub struct NewChunk {
    pub file_id: i32,
    pub alignment: i32,
    pub chunk_data: Vec<u8>,
}

/// What the store is asked to do next, or how the ingest ended.
#[derive(Debug)]
pub enum IngestAction {
    /// Insert the metadata row with an empty chunk-id list, and report its identifier.
    InsertMetadata { name: String, format: String, space: i64 },
    /// Insert all these chunk rows concurrently, and report each outcome in this order.
    InsertChunks { chunks: Vec<NewChunk> },
    /// Set the chunk-id list of the metadata row `file_id`.
    UpdateChunkIds { file_id: i32, chunk_ids: Vec<i32> },
    /// The file is stored under `file_id`.
    Done { file_id: i32 },
    /// The ingest failed; rows written so far stay behind.
    Failed { error: IngestError },
}

/// What the store answered to the last action.
#[derive(Debug)]
pub enum IngestEvent {
    /// The metadata row was inserted under this identifier.
    MetadataInserted { file_id: i32 },
    /// The outcome of each chunk insert, in the order the chunks were handed out.
    ChunksWritten { results: Vec<Option<i32>> },
    /// The chunk-id list was stored.
    ChunkIdsUpdated,
    /// The metadata insert or update failed.
    StoreFailed,
}

/// Where an ingest stands.
#[derive(PartialEq, Eq, Structural, Clone, Copy, Debug)]
pub enum IngestPhase {
    Start,
    AwaitMetadata,
    AwaitChunks { file_id: i32 },
    AwaitUpdate { file_id: i32 },
    Finished,
}

/// The decisions of one ingest: which store request comes next, given the answers so far.
pub struct IngestSession {
    pub file: RequestFile,
    pub phase: IngestPhase,
}

/// `chunks` are the rows of file `file_id` for `data`, chunk `i` at ordinal `i + 1`.
pub open spec fn chunk_rows(chunks: Seq<NewChunk>, file_id: i32, data: Seq<Vec<u8>>) -> bool {
    &&& chunks.len() == data.len()
    &&& forall|i: int|
        0 <= i < chunks.len() ==> {
            &&& (#[trigger] chunks[i]).file_id == file_id
            &&& chunks[i].alignment == i + 1
            &&& chunks[i].chunk_data@ == data[i]@
        }
}

/// Every chunk insert succeeded.
pub open spec fn all_written(results: Seq<Option<i32>>) -> bool {
    forall|i: int| 0 <= i < results.len() ==> (#[trigger] results[i]) is Some
}

/// The identifiers of successful chunk inserts, in order.
pub open spec fn written_ids(results: Seq<Option<i32>>) -> Seq<i32> {
    Seq::new(results.len(), |i: int| results[i]->Some_0)
}

/// The answer of an ingest in `phase`, for a file with chunks `data`, to `event`: the phase it
/// moves to and the action it asks for.
pub open spec fn step_spec(
    phase: IngestPhase,
    data: Seq<Vec<u8>>,
    event: IngestEvent,
    next: IngestPhase,
    action: IngestAction,
) -> bool {
    let n = data.len();
    match (phase, event) {
        (IngestPhase::AwaitMetadata, IngestEvent::MetadataInserted { file_id }) => {
            &&& next == (IngestPhase::AwaitChunks { file_id })
            &&& action matches IngestAction::InsertChunks { chunks } && chunk_rows(chunks@, file_id, data)
        },
        (IngestPhase::AwaitChunks { file_id }, IngestEvent::ChunksWritten { results }) => {
            if results@.len() == n && all_written(results@) {
                &&& next == (IngestPhase::AwaitUpdate { file_id })
                &&& action matches IngestAction::UpdateChunkIds { file_id: id, chunk_ids }
                    && id == file_id && chunk_ids@ == written_ids(results@)
            } else {
                &&& next == IngestPhase::Finished
                &&& action == (IngestAction::Failed { error: IngestError::ChunkWrite })
            }
        },
        (IngestPhase::AwaitUpdate { file_id }, IngestEvent::ChunkIdsUpdated) => {
            &&& next == IngestPhase::Finished
            &&& action == (IngestAction::Done { file_id })
        },
        (IngestPhase::AwaitMetadata, IngestEvent::StoreFailed) | (
            IngestPhase::AwaitUpdate { .. },
            IngestEvent::StoreFailed,
        ) => {
            &&& next == IngestPhase::Finished
            &&& action == (IngestAction::Failed { error: IngestError::MetadataWrite })
        },
        _ => {
            &&& next == IngestPhase::Finished
            &&& action == (IngestAction::Failed { error: IngestError::UnexpectedEvent })
        },
    }
}

/// Some row of `chunks` carries ordinal `o`.
pub open spec fn has_ordinal(chunks: Seq<NewChunk>, o: int) -> bool {
    exists|i: int| 0 <= i < chunks.len() && (#[trigger] chunks[i]).alignment == o
}

/// The chunk rows an ingest hands out carry the ordinals `1..=N`, each once, in ascending order.
pub proof fn lemma_ordinals_contiguous(chunks: Seq<NewChunk>, file_id: i32, data: Seq<Vec<u8>>)
    requires
        chunk_rows(chunks, file_id, data),
    ensures
        forall|i: int, j: int|
            0 <= i < j < chunks.len() ==> chunks[i].alignment < chunks[j].alignment,
        forall|i: int| 0 <= i < chunks.len() ==> 1 <= (#[trigger] chunks[i]).alignment <= chunks.len(),
        forall|o: int| 1 <= o <= chunks.len() ==> #[trigger] has_ordinal(chunks, o),
{
    assert forall|o: int| 1 <= o <= chunks.len() implies #[trigger] has_ordinal(chunks, o) by {
        assert(chunks[o - 1].alignment == o);
    }
}

/// When any chunk insert fails, the ingest fails, and from then on it never asks for the
/// metadata row's chunk-id list to be set: the file is never finalized.
pub proof fn lemma_failed_chunk_write_never_finalizes(
    file_id: i32,
    data: Seq<Vec<u8>>,
    results: Vec<Option<i32>>,
    next: IngestPhase,
    action: IngestAction,
    later: IngestEvent,
    after: IngestPhase,
    later_action: IngestAction,
)
    requires
        exists|i: int| 0 <= i < results@.len() && results@[i] is None,
        step_spec(
            IngestPhase::AwaitChunks { file_id },
            data,
            IngestEvent::ChunksWritten { results },
            next,
            action,
        ),
        step_spec(next, data, later, after, later_action),
    ensures
        action == (IngestAction::Failed { error: IngestError::ChunkWrite }),
        next == IngestPhase::Finished,
        after == IngestPhase::Finished,
        !(later_action is UpdateChunkIds),
        !(later_action is Done),
{
    let i = choose|i: int| 0 <= i < results@.len() && results@[i] is None;
    assert(!all_written(results@));
}

impl IngestSession {
    /// An ingest of `file` that has not yet talked to the store.
    pub fn new(file: RequestFile) -> (r: IngestSession)
        requires
            file.chunk_data@.len() < i32::MAX,
        ensures
            r.file == file,
            r.phase == IngestPhase::Start,
    {
        IngestSession { file, phase: IngestPhase::Start }
    }

    /// The first request: the metadata row with the file's name, format and size.
    pub fn begin(&mut self) -> (r: IngestAction)
        requires
            old(self).phase == IngestPhase::Start,
        ensures
            final(self).file == old(self).file,
            final(self).phase == IngestPhase::AwaitMetadata,
            r matches IngestAction::InsertMetadata { name, format, space } && name@
                == old(self).file.name@ && format@ == old(self).file.format@ && space
                == old(self).file.space,
    {
        self.phase = IngestPhase::AwaitMetadata;
        IngestAction::InsertMetadata {
            name: self.file.name.clone(),
            format: self.file.format.clone(),
            space: self.file.space,
        }
    }

    /// The chunk rows of the file, each carrying `file_id` and its ordinal.
    fn chunk_inserts(&self, file_id: i32) -> (r: Vec<NewChunk>)
        requires
            self.file.chunk_data@.len() < i32::MAX,
        ensures
            chunk_rows(r@, file_id, self.file.chunk_data@),
    {
        let mut rows: Vec<NewChunk> = Vec::new();
        let n = self.file.chunk_data.len();
        let mut i: usize = 0;
        while i < n
            invariant
                n == self.file.chunk_data@.len(),
                n < i32::MAX,
                i <= n,
                chunk_rows(rows@, file_id, self.file.chunk_data@.take(i as int)),
            decreases n - i,
        {
            let data = self.file.chunk_data[i].clone();
            assert(data@ =~= self.file.chunk_data@[i as int]@);
            assert(self.file.chunk_data@.take(i + 1) =~= self.file.chunk_data@.take(i as int).push(
                self.file.chunk_data@[i as int],
            ));
            rows.push(NewChunk { file_id, alignment: (i + 1) as i32, chunk_data: data });
            i = i + 1;
        }
        assert(self.file.chunk_data@.take(n as int) == self.file.chunk_data@);
        rows
    }

    /// Takes the store's answer to the last request and gives the next one.
    pub fn step(&mut self, event: IngestEvent) -> (r: IngestAction)
        requires
            old(self).file.chunk_data@.len() < i32::MAX,
        ensures
            final(self).file == old(self).file,
            step_spec(old(self).phase, old(self).file.chunk_data@, event, final(self).phase, r),
    {
        let ghost given = event;
        match (self.phase, event) {
            (IngestPhase::AwaitMetadata, IngestEvent::MetadataInserted { file_id }) => {
                let chunks = self.chunk_inserts(file_id);
                self.phase = IngestPhase::AwaitChunks { file_id };
                IngestAction::InsertChunks { chunks }
            },
            (IngestPhase::AwaitChunks { file_id }, IngestEvent::ChunksWritten { results }) => {
                if results.len() != self.file.chunk_data.len() {
                    self.phase = IngestPhase::Finished;
                    return IngestAction::Failed { error: IngestError::ChunkWrite };
                }
                let mut ids: Vec<i32> = Vec::new();
                let mut i: usize = 0;
                while i < results.len()
                    invariant
                        self.file == old(self).file,
                        old(self).phase == (IngestPhase::AwaitChunks { file_id }),
                        given == (IngestEvent::ChunksWritten { results }),
                        event == given,
                        i <= results@.len(),
                        all_written(results@.take(i as int)),
                        ids@ == written_ids(results@.take(i as int)),
                    decreases results@.len() - i,
                {
                    match results[i] {
                        Some(id) => ids.push(id),
                        None => {
                            assert(!all_written(results@));
                            self.phase = IngestPhase::Finished;
                            return IngestAction::Failed { error: IngestError::ChunkWrite };
                        },
                    }
                    assert(results@.take(i + 1) =~= results@.take(i as int).push(results@[i as int]));
                    assert(ids@ =~= written_ids(results@.take(i + 1)));
                    i = i + 1;
                }
                assert(results@.take(results@.len() as int) == results@);
                self.phase = IngestPhase::AwaitUpdate { file_id };
                IngestAction::UpdateChunkIds { file_id, chunk_ids: ids }
            },
            (IngestPhase::AwaitUpdate { file_id }, IngestEvent::ChunkIdsUpdated) => {
                self.phase = IngestPhase::Finished;
                IngestAction::Done { file_id }
            },
            (IngestPhase::AwaitMetadata, IngestEvent::StoreFailed) | (
                IngestPhase::AwaitUpdate { .. },
                IngestEvent::StoreFailed,
            ) => {
                self.phase = IngestPhase::Finished;
                IngestAction::Failed { error: IngestError::MetadataWrite }
            },
            _ => {
                self.phase = IngestPhase::Finished;
                IngestAction::Failed { error: IngestError::UnexpectedEvent }
            },
        }
    }
}

} // verus!
