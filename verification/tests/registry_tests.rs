use chunk_server::models::{Dir, FilePath, NewChunk, RegistryError};
use chunk_server::registry::ChunkRegistry;

fn new_chunk(name: &str, size: u64) -> NewChunk {
    NewChunk {
        filename: name.to_string(),
        file_path: FilePath { dir: Dir::Chunks, name: name.to_string() },
        size,
        content_type: None,
    }
}

#[test]
fn insert_assigns_ids_and_stamps() {
    let mut reg = ChunkRegistry::new();
    let a = reg.insert_chunk(new_chunk("a", 1), 100).unwrap();
    let b = reg.insert_chunk(new_chunk("b", 2), 250).unwrap();
    assert_eq!(a.id, 1);
    assert_eq!(b.id, 2);
    assert_eq!(a.created_at, 100);
    assert_eq!(b.created_at, 250);
    assert_eq!(a.updated_at, a.created_at);
    assert_eq!(b.updated_at, b.created_at);
}

#[test]
fn timestamps_never_run_backwards() {
    let mut reg = ChunkRegistry::new();
    reg.insert_chunk(new_chunk("late", 1), 500).unwrap();
    // A clock that jumped back is clamped to the high-water mark.
    let early = reg.insert_chunk(new_chunk("early", 1), 120).unwrap();
    assert_eq!(early.created_at, 500);
}

#[test]
fn duplicate_name_is_refused_atomically() {
    let mut reg = ChunkRegistry::new();
    reg.insert_chunk(new_chunk("same", 1), 10).unwrap();
    let err = reg.insert_chunk(new_chunk("same", 9), 20).unwrap_err();
    assert_eq!(err, RegistryError::DuplicateName);
    let listed = reg.list_all_chunks();
    assert_eq!(listed.len(), 1);
    assert_eq!(listed[0].size, 1);
}

#[test]
fn exhausted_id_space_is_refused() {
    let mut reg = ChunkRegistry { records: Vec::new(), next_id: i32::MAX, clock: 0 };
    let err = reg.insert_chunk(new_chunk("x", 1), 5).unwrap_err();
    assert_eq!(err, RegistryError::IdSpaceExhausted);
    assert!(reg.list_all_chunks().is_empty());
}

#[test]
fn find_by_name_matches_exactly() {
    let mut reg = ChunkRegistry::new();
    reg.insert_chunk(new_chunk("hello.txt", 11), 1).unwrap();
    let found = reg.get_chunk_by_filename("hello.txt").unwrap();
    assert_eq!(found.filename, "hello.txt");
    assert_eq!(found.size, 11);
    assert!(reg.get_chunk_by_filename("hello").is_none());
    assert!(reg.get_chunk_by_filename("").is_none());
}

#[test]
fn listing_is_newest_first_with_id_ties_ascending() {
    let mut reg = ChunkRegistry::new();
    // Two records with the same timestamp, then a newer one, then one whose
    // clock reading collides with the newest after clamping.
    reg.insert_chunk(new_chunk("a", 1), 5).unwrap(); // id 1, t 5
    reg.insert_chunk(new_chunk("b", 1), 5).unwrap(); // id 2, t 5
    reg.insert_chunk(new_chunk("c", 1), 10).unwrap(); // id 3, t 10
    reg.insert_chunk(new_chunk("d", 1), 3).unwrap(); // id 4, t clamped to 10
    let names: Vec<String> = reg.list_all_chunks().into_iter().map(|c| c.filename).collect();
    assert_eq!(names, vec!["c", "d", "a", "b"]);
}

#[test]
fn listing_is_deterministic_across_calls() {
    let mut reg = ChunkRegistry::new();
    reg.insert_chunk(new_chunk("one", 1), 7).unwrap();
    reg.insert_chunk(new_chunk("two", 2), 7).unwrap();
    reg.insert_chunk(new_chunk("three", 3), 7).unwrap();
    let first: Vec<(i32, String)> =
        reg.list_all_chunks().into_iter().map(|c| (c.id, c.filename)).collect();
    let second: Vec<(i32, String)> =
        reg.list_all_chunks().into_iter().map(|c| (c.id, c.filename)).collect();
    assert_eq!(first, second);
    assert_eq!(first, vec![(1, "one".to_string()), (2, "two".to_string()), (3, "three".to_string())]);
}

#[test]
fn delete_removes_exactly_the_named_record() {
    let mut reg = ChunkRegistry::new();
    reg.insert_chunk(new_chunk("keep", 1), 1).unwrap();
    reg.insert_chunk(new_chunk("drop", 1), 2).unwrap();
    assert!(reg.delete_chunk("drop"));
    assert!(!reg.delete_chunk("drop"));
    assert!(reg.get_chunk_by_filename("drop").is_none());
    assert!(reg.get_chunk_by_filename("keep").is_some());
    assert_eq!(reg.list_all_chunks().len(), 1);
}
