use chunkstore::chunker::Chunker;
use chunkstore::ingest::{IngestAction, IngestError, IngestEvent, IngestPhase, IngestSession};
use chunkstore::retrieve::{
    assemble_download, found_metadata, order_by_alignment, Download, RetrieveError,
};
use chunkstore::structure::{FileChunk, FileMetadata, RequestFile};

/// A store held in memory that answers the session's requests, optionally failing one chunk.
struct MemoryStore {
    metas: Vec<FileMetadata>,
    chunks: Vec<FileChunk>,
    next_id: i32,
    fail_ordinal: Option<i32>,
}

impl MemoryStore {
    fn new() -> MemoryStore {
        MemoryStore { metas: Vec::new(), chunks: Vec::new(), next_id: 1, fail_ordinal: None }
    }

    fn fresh_id(&mut self) -> i32 {
        let id = self.next_id;
        self.next_id += 1;
        id
    }

    fn prepare(name: &str, data: &[u8], chunk_size: usize) -> RequestFile {
        let mut chunker = Chunker::new(chunk_size);
        chunker.feed(data);
        RequestFile::from_chunker(name.to_string(), chunker)
    }

    fn ingest(&mut self, name: &str, data: &[u8], chunk_size: usize) -> Result<i32, IngestError> {
        let file = MemoryStore::prepare(name, data, chunk_size);
        let mut session = IngestSession::new(file);
        let mut action = session.begin();
        loop {
            let event = match action {
                IngestAction::InsertMetadata { name, format, space } => {
                    let id = self.fresh_id();
                    self.metas.push(FileMetadata { id, name, format, space, chunk_ids: Vec::new() });
                    IngestEvent::MetadataInserted { file_id: id }
                }
                IngestAction::InsertChunks { chunks } => {
                    // writes complete in reverse order of submission
                    let mut results = vec![None; chunks.len()];
                    for (i, c) in chunks.into_iter().enumerate().rev() {
                        if Some(c.alignment) == self.fail_ordinal {
                            continue;
                        }
                        let id = self.fresh_id();
                        self.chunks.push(FileChunk {
                            id,
                            file_id: c.file_id,
                            alignment: c.alignment,
                            chunk_data: c.chunk_data,
                        });
                        results[i] = Some(id);
                    }
                    IngestEvent::ChunksWritten { results }
                }
                IngestAction::UpdateChunkIds { file_id, chunk_ids } => {
                    let meta = self.metas.iter_mut().find(|m| m.id == file_id).unwrap();
                    meta.chunk_ids = chunk_ids;
                    IngestEvent::ChunkIdsUpdated
                }
                IngestAction::Done { file_id } => return Ok(file_id),
                IngestAction::Failed { error } => return Err(error),
            };
            action = session.step(event);
        }
    }

    fn retrieve(&self, file_id: i32) -> Result<Download, RetrieveError> {
        let meta = found_metadata(self.metas.iter().find(|m| m.id == file_id).cloned())?;
        let rows: Vec<FileChunk> =
            self.chunks.iter().rev().filter(|c| c.file_id == file_id).cloned().collect();
        assemble_download(meta, rows)
    }
}

fn concat(d: &Download) -> Vec<u8> {
    let mut out = Vec::new();
    for c in &d.chunks {
        out.extend_from_slice(c);
    }
    out
}

fn round_trip(data: &[u8], chunk_size: usize) {
    let mut store = MemoryStore::new();
    let id = store.ingest("blob.bin", data, chunk_size).unwrap();
    let d = store.retrieve(id).unwrap();
    assert_eq!(concat(&d), data.to_vec());
    assert_eq!(d.space as usize, data.len());
    assert_eq!(d.name, "blob.bin");
}

#[test]
fn round_trip_empty_input() {
    round_trip(b"", 4);
}

#[test]
fn round_trip_smaller_than_one_chunk() {
    round_trip(b"AB", 4);
}

#[test]
fn round_trip_exactly_one_chunk() {
    round_trip(b"ABCD", 4);
}

#[test]
fn round_trip_several_chunks_and_remainder() {
    let data: Vec<u8> = (0..1000u32).map(|i| (i % 256) as u8).collect();
    round_trip(&data, 64);
}

#[test]
fn nine_bytes_stored_as_three_ordered_chunks() {
    let mut store = MemoryStore::new();
    let id = store.ingest("letters.txt", b"ABCDEFGHI", 4).unwrap();
    let meta = store.metas.iter().find(|m| m.id == id).unwrap();
    assert_eq!(meta.space, 9);
    assert_eq!(meta.format, "txt");
    assert_eq!(meta.chunk_ids.len(), 3);
    let mut rows: Vec<&FileChunk> = store.chunks.iter().filter(|c| c.file_id == id).collect();
    rows.sort_by_key(|c| c.alignment);
    let ordinals: Vec<i32> = rows.iter().map(|c| c.alignment).collect();
    assert_eq!(ordinals, vec![1, 2, 3]);
    let datas: Vec<Vec<u8>> = rows.iter().map(|c| c.chunk_data.clone()).collect();
    assert_eq!(datas, vec![b"ABCD".to_vec(), b"EFGH".to_vec(), b"I".to_vec()]);
    for r in &rows {
        let pos = (r.alignment - 1) as usize;
        assert_eq!(meta.chunk_ids[pos], r.id);
    }
    let d = store.retrieve(id).unwrap();
    assert_eq!(concat(&d), b"ABCDEFGHI".to_vec());
}

#[test]
fn zero_byte_file_is_found_and_empty() {
    let mut store = MemoryStore::new();
    let id = store.ingest("empty.dat", b"", 4).unwrap();
    let meta = store.metas.iter().find(|m| m.id == id).unwrap();
    assert_eq!(meta.space, 0);
    assert!(meta.chunk_ids.is_empty());
    assert!(store.chunks.is_empty());
    let d = store.retrieve(id).unwrap();
    assert!(d.chunks.is_empty());
    assert_eq!(d.space, 0);
}

#[test]
fn one_failed_chunk_write_fails_the_ingest() {
    let mut store = MemoryStore::new();
    store.fail_ordinal = Some(2);
    let r = store.ingest("letters.txt", b"ABCDEFGHIJ", 4);
    assert_eq!(r, Err(IngestError::ChunkWrite));
    assert_eq!(store.metas.len(), 1);
    assert!(store.metas[0].chunk_ids.is_empty());
    assert_eq!(store.chunks.len(), 2);
}

#[test]
fn unknown_identifier_is_not_found() {
    let store = MemoryStore::new();
    assert!(matches!(store.retrieve(42), Err(RetrieveError::NotFound)));
    assert!(matches!(found_metadata(None), Err(RetrieveError::NotFound)));
}

#[test]
fn missing_chunks_of_nonempty_file_is_not_found() {
    let meta = FileMetadata {
        id: 5,
        name: "x.bin".to_string(),
        format: "bin".to_string(),
        space: 10,
        chunk_ids: Vec::new(),
    };
    assert!(matches!(assemble_download(meta, Vec::new()), Err(RetrieveError::NotFound)));
}

#[test]
fn rows_are_ordered_by_ordinal_stably() {
    let row = |id: i32, alignment: i32| FileChunk {
        id,
        file_id: 1,
        alignment,
        chunk_data: vec![id as u8],
    };
    let rows = vec![row(10, 3), row(11, 1), row(12, 2), row(13, 1)];
    assert_eq!(order_by_alignment(&rows), vec![1, 3, 2, 0]);
}

#[test]
fn metadata_insert_failure_is_reported() {
    let file = MemoryStore::prepare("a.txt", b"abc", 2);
    let mut session = IngestSession::new(file);
    let _ = session.begin();
    let action = session.step(IngestEvent::StoreFailed);
    assert!(matches!(action, IngestAction::Failed { error: IngestError::MetadataWrite }));
    assert_eq!(session.phase, IngestPhase::Finished);
}

#[test]
fn update_failure_is_reported() {
    let file = MemoryStore::prepare("a.txt", b"abc", 2);
    let mut session = IngestSession::new(file);
    let _ = session.begin();
    let _ = session.step(IngestEvent::MetadataInserted { file_id: 7 });
    let a = session.step(IngestEvent::ChunksWritten { results: vec![Some(1), Some(2)] });
    match a {
        IngestAction::UpdateChunkIds { file_id, chunk_ids } => {
            assert_eq!(file_id, 7);
            assert_eq!(chunk_ids, vec![1, 2]);
        }
        other => panic!("unexpected action {:?}", other),
    }
    let a = session.step(IngestEvent::StoreFailed);
    assert!(matches!(a, IngestAction::Failed { error: IngestError::MetadataWrite }));
}

#[test]
fn chunk_rows_carry_file_and_ordinals() {
    let file = MemoryStore::prepare("a.txt", b"abcde", 2);
    let mut session = IngestSession::new(file);
    let first = session.begin();
    match first {
        IngestAction::InsertMetadata { name, format, space } => {
            assert_eq!(name, "a.txt");
            assert_eq!(format, "txt");
            assert_eq!(space, 5);
        }
        other => panic!("unexpected action {:?}", other),
    }
    match session.step(IngestEvent::MetadataInserted { file_id: 3 }) {
        IngestAction::InsertChunks { chunks } => {
            assert_eq!(chunks.len(), 3);
            for (i, c) in chunks.iter().enumerate() {
                assert_eq!(c.file_id, 3);
                assert_eq!(c.alignment, i as i32 + 1);
            }
            assert_eq!(chunks[2].chunk_data, b"e".to_vec());
        }
        other => panic!("unexpected action {:?}", other),
    }
    assert_eq!(session.phase, IngestPhase::AwaitChunks { file_id: 3 });
}

#[test]
fn wrong_number_of_results_fails() {
    let file = MemoryStore::prepare("a.txt", b"abcde", 2);
    let mut session = IngestSession::new(file);
    let _ = session.begin();
    let _ = session.step(IngestEvent::MetadataInserted { file_id: 3 });
    let a = session.step(IngestEvent::ChunksWritten { results: vec![Some(1)] });
    assert!(matches!(a, IngestAction::Failed { error: IngestError::ChunkWrite }));
}

#[test]
fn event_out_of_turn_fails() {
    let file = MemoryStore::prepare("a.txt", b"abc", 2);
    let mut session = IngestSession::new(file);
    let a = session.step(IngestEvent::ChunkIdsUpdated);
    assert!(matches!(a, IngestAction::Failed { error: IngestError::UnexpectedEvent }));
    let a = session.step(IngestEvent::MetadataInserted { file_id: 1 });
    assert!(matches!(a, IngestAction::Failed { error: IngestError::UnexpectedEvent }));
}
