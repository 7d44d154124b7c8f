use chunk_server::models::{check_name, FsError, Dir, FilePath, StoreError};
use chunk_server::registry::ChunkRegistry;
use chunk_server::storage::ChunkFs;
use chunk_server::store::ChunkStore;

fn chunk_path(name: &str) -> FilePath {
    FilePath { dir: Dir::Chunks, name: name.to_string() }
}

fn staging_path(name: &str) -> FilePath {
    FilePath { dir: Dir::Staging, name: name.to_string() }
}

#[test]
fn upload_then_fetch_returns_exact_bytes() {
    let mut store = ChunkStore::new(1024);
    let data = vec![1u8, 2, 3, 4, 5];
    let rec = store.put("blob.bin", data.clone(), None).unwrap();
    assert_eq!(rec.filename, "blob.bin");
    assert_eq!(rec.size, 5);
    assert_eq!(store.get("blob.bin").unwrap(), &data);
}

#[test]
fn delete_then_fetch_yields_not_found() {
    let mut store = ChunkStore::new(1024);
    store.put("gone.txt", vec![9u8; 3], None).unwrap();
    assert!(store.delete("gone.txt").is_ok());
    assert_eq!(store.get("gone.txt").unwrap_err(), StoreError::NotFound);
    // Deleting a name that never existed is NotFound too, and a fetch
    // afterwards still says NotFound.
    assert_eq!(store.delete("never.txt").unwrap_err(), StoreError::NotFound);
    assert_eq!(store.get("never.txt").unwrap_err(), StoreError::NotFound);
}

#[test]
fn duplicate_upload_keeps_first_bytes() {
    let mut store = ChunkStore::new(1024);
    let first = vec![10u8, 20, 30];
    let second = vec![99u8; 8];
    store.put("twice.bin", first.clone(), None).unwrap();
    let err = store.put("twice.bin", second, None).unwrap_err();
    assert_eq!(err, StoreError::NameAlreadyExists);
    // Registry and byte store still reflect only the first upload.
    assert_eq!(store.get("twice.bin").unwrap(), &first);
    let listed = store.registry.list_all_chunks();
    assert_eq!(listed.len(), 1);
    assert_eq!(listed[0].size, 3);
    assert!(!store.fs.has_file(&staging_path("twice.bin")));
}

#[test]
fn failed_write_leaves_no_record() {
    // A store whose backing filesystem cannot take more than 4 bytes in
    // one write: a 10-byte upload fails mid-stream.
    let mut store = ChunkStore::new(4);
    let err = store.put("big.bin", vec![0u8; 10], None).unwrap_err();
    assert_eq!(err, StoreError::StorageWriteFailed);
    assert_eq!(store.registry.list_all_chunks().len(), 0);
    assert_eq!(store.get("big.bin").unwrap_err(), StoreError::NotFound);
    assert!(store.fs.files.is_empty());
}

#[test]
fn traversal_name_is_rejected_before_any_write() {
    let mut store = ChunkStore::new(1024);
    let err = store.put("../../etc/passwd", vec![1u8], None).unwrap_err();
    assert_eq!(err, StoreError::InvalidName);
    assert!(store.fs.files.is_empty());
    assert_eq!(store.registry.list_all_chunks().len(), 0);
}

#[test]
fn report_pdf_scenario() {
    let mut store = ChunkStore::new(1024);
    let rec = store.put("report.pdf", vec![7u8; 10], Some("application/pdf".to_string())).unwrap();
    assert_eq!(rec.size, 10);
    let listed = store.registry.list_all_chunks();
    assert_eq!(listed.len(), 1);
    assert_eq!(listed[0].filename, "report.pdf");
    assert!(store.delete("report.pdf").is_ok());
    assert_eq!(store.get("report.pdf").unwrap_err(), StoreError::NotFound);
    assert!(store.registry.list_all_chunks().is_empty());
}

#[test]
fn missing_bytes_surface_as_corrupted_record() {
    let mut store = ChunkStore::new(1024);
    store.put("fragile.bin", vec![5u8; 4], None).unwrap();
    // Lose the bytes behind the live record.
    assert!(store.fs.remove_file(&chunk_path("fragile.bin")));
    assert_eq!(store.get("fragile.bin").unwrap_err(), StoreError::CorruptedRecord);
    // Delete removes the record first and then reports that the bytes
    // could not be removed.
    assert_eq!(store.delete("fragile.bin").unwrap_err(), StoreError::PartialDelete);
    assert_eq!(store.get("fragile.bin").unwrap_err(), StoreError::NotFound);
}

#[test]
fn registry_failure_leaves_orphan_bytes() {
    // A registry with no assignable id left refuses the record; the staged
    // bytes stay behind as a flagged orphan instead of being destroyed.
    let mut store = ChunkStore {
        registry: ChunkRegistry { records: Vec::new(), next_id: i32::MAX, clock: 0 },
        fs: ChunkFs::new(1024),
    };
    let err = store.put("orphan.bin", vec![3u8; 6], None).unwrap_err();
    assert_eq!(err, StoreError::RegistryWriteFailed);
    assert_eq!(store.registry.list_all_chunks().len(), 0);
    assert!(store.fs.has_file(&staging_path("orphan.bin")));
}

#[test]
fn name_validity_rules() {
    assert!(!check_name(""));
    assert!(!check_name("."));
    assert!(!check_name(".."));
    assert!(!check_name("a/b"));
    assert!(!check_name("a\\b"));
    assert!(!check_name("nul\0byte"));
    assert!(check_name("report.pdf"));
    assert!(check_name("...")); // three dots is an ordinary name
    assert!(check_name("name with spaces"));
}

#[test]
fn empty_name_upload_is_invalid() {
    let mut store = ChunkStore::new(64);
    assert_eq!(store.put("", vec![1u8], None).unwrap_err(), StoreError::InvalidName);
}

#[test]
fn byte_store_write_read_rename_remove() {
    let mut fs = ChunkFs::new(8);
    assert!(fs.write_file(staging_path("a"), vec![1u8, 2]).is_ok());
    assert_eq!(fs.file_size(&staging_path("a")), Some(2));
    assert_eq!(fs.write_file(staging_path("b"), vec![0u8; 9]).unwrap_err(), FsError::NoSpace);
    assert!(fs.rename(&staging_path("a"), chunk_path("a")));
    assert!(!fs.has_file(&staging_path("a")));
    assert_eq!(fs.read_file(&chunk_path("a")).unwrap(), &vec![1u8, 2]);
    assert!(fs.remove_file(&chunk_path("a")));
    assert!(!fs.remove_file(&chunk_path("a")));
}

#[test]
fn upload_stamps_and_orders_through_the_store() {
    let mut store = ChunkStore::new(64);
    let a = store.put_at(5, "a.bin", vec![1u8], None).unwrap();
    let b = store.put_at(5, "b.bin", vec![2u8], None).unwrap();
    // A clock reading that ran backwards is clamped to the high-water mark.
    let c = store.put_at(2, "c.bin", vec![3u8], None).unwrap();
    assert_eq!(a.created_at, 5);
    assert_eq!(b.created_at, 5);
    assert_eq!(c.created_at, 5);
    let names: Vec<String> =
        store.registry.list_all_chunks().into_iter().map(|x| x.filename).collect();
    assert_eq!(names, vec!["a.bin", "b.bin", "c.bin"]);
    // The staged copies are gone once the bytes reached their final paths.
    assert!(!store.fs.has_file(&staging_path("a.bin")));
    assert!(!store.fs.has_file(&staging_path("b.bin")));
    assert!(!store.fs.has_file(&staging_path("c.bin")));
}
