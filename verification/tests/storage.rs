use mini_p2p::chunk::{optimal_chunk_size, Chunk, ChunkManager, CHUNK_SIZE};
use mini_p2p::crypto::{CryptoUtils, HashUtils};
use mini_p2p::error::P2PError;
use mini_p2p::file_manager::FileManager;
use mini_p2p::storage_engine::StorageEngine;

const ABC_SHA256: &str = "ba7816bf8f01cfea414140de5dae2223b00361a396177a9cb410ff61f20015ad";
const EMPTY_SHA256: &str = "e3b0c44298fc1c149afbf4c8996fb92427ae41e4649b934ca495991b7852b855";

#[test]
fn hash_data_is_hex_sha256() {
    assert_eq!(HashUtils::hash_data(b"abc"), ABC_SHA256);
    assert_eq!(HashUtils::hash_data(b""), EMPTY_SHA256);
    assert_eq!(CryptoUtils::hash_sha256(b"abc"), ABC_SHA256);
}

#[test]
fn verify_data_accepts_own_hash_only() {
    let h = HashUtils::hash_data(b"some bytes");
    assert!(HashUtils::verify_data(b"some bytes", &h));
    assert!(!HashUtils::verify_data(b"other bytes", &h));
    assert!(CryptoUtils::verify_integrity(b"abc", ABC_SHA256));
    assert!(!CryptoUtils::verify_integrity(b"abd", ABC_SHA256));
}

#[test]
fn hash_fast_is_stable() {
    assert_eq!(CryptoUtils::hash_fast(&"abc"), CryptoUtils::hash_fast(&"abc"));
}

#[test]
fn chunk_sizes_by_file_size() {
    assert_eq!(optimal_chunk_size(0), 0);
    assert_eq!(optimal_chunk_size(4096), 4096);
    assert_eq!(optimal_chunk_size(4097), 4096);
    assert_eq!(optimal_chunk_size(32768), 4096);
    assert_eq!(optimal_chunk_size(32769), 16384);
    assert_eq!(optimal_chunk_size(131072), 16384);
    assert_eq!(optimal_chunk_size(131073), 65536);
    assert_eq!(CHUNK_SIZE, 65536);
}

#[test]
fn new_chunk_verifies() {
    let c = Chunk::new(3, b"abc".to_vec());
    assert_eq!(c.index, 3);
    assert_eq!(c.size, 3);
    assert_eq!(c.hash, ABC_SHA256);
    assert!(c.verify());
    assert!(c.is_complete());
}

#[test]
fn tampered_chunk_fails_verification() {
    let mut c = Chunk::new(0, b"abc".to_vec());
    c.data[0] = b'x';
    assert!(!c.verify());
    let mut m = ChunkManager::new();
    match m.add_chunk(c) {
        Err(P2PError::ChunkVerificationFailed(h)) => assert_eq!(h, ABC_SHA256),
        other => panic!("unexpected {:?}", other),
    }
    assert_eq!(m.chunk_count(), 0);
}

#[test]
fn chunk_manager_stores_and_orders() {
    let mut m = ChunkManager::new();
    let a = Chunk::new(0, b"first".to_vec());
    let b = Chunk::new(1, b"second".to_vec());
    let ha = a.hash.clone();
    let hb = b.hash.clone();
    m.add_chunk(a).unwrap();
    m.add_chunk(b).unwrap();
    assert_eq!(m.chunk_count(), 2);
    assert!(m.has_chunk(&ha));
    assert_eq!(m.get_chunk(&hb).unwrap().data, b"second".to_vec());
    assert_eq!(m.get_chunk_by_index(0).unwrap().hash, ha);
    assert!(m.get_chunk_by_index(7).is_none());
    let ordered = m.get_chunks_ordered(&[hb.clone(), ha.clone()]).unwrap();
    assert_eq!(ordered, vec![b"second".to_vec(), b"first".to_vec()]);
    match m.get_chunks_ordered(&[ha.clone(), "missing".to_string()]) {
        Err(P2PError::ChunkNotFound(h)) => assert_eq!(h, "missing"),
        other => panic!("unexpected {:?}", other),
    }
    let removed = m.remove_chunk(&ha).unwrap();
    assert_eq!(removed.index, 0);
    assert!(!m.has_chunk(&ha));
    assert!(m.get_chunk_by_index(0).is_none());
    assert!(m.remove_chunk(&ha).is_none());
}

#[test]
fn small_file_is_one_chunk() {
    let chunks = FileManager::create_chunks(b"hello");
    assert_eq!(chunks.len(), 1);
    assert_eq!(chunks[0].data, b"hello".to_vec());
    assert!(FileManager::create_chunks(b"").is_empty());
}

#[test]
fn pieces_join_back_to_content() {
    let content: Vec<u8> = (0..10000u32).map(|i| (i % 251) as u8).collect();
    let chunks = FileManager::create_chunks(&content);
    assert_eq!(chunks.len(), 3);
    assert_eq!(chunks[0].data.len(), 4096);
    assert_eq!(chunks[2].data.len(), 10000 - 8192);
    let joined: Vec<u8> = chunks.iter().flat_map(|c| c.data.clone()).collect();
    assert_eq!(joined, content);
    for (i, c) in chunks.iter().enumerate() {
        assert_eq!(c.index, i);
        assert!(c.verify());
    }
}

#[test]
fn added_file_is_listed_and_served() {
    let mut fm = FileManager::new("./shared".to_string());
    assert_eq!(fm.shared_dir(), "./shared");
    let content: Vec<u8> = (0..5000u32).map(|i| (i % 7) as u8).collect();
    let hash = fm.add_file("data.bin".to_string(), &content, 5000, 1234);
    assert_eq!(hash, HashUtils::hash_data(&content));
    assert_eq!(fm.get_file_count(), 1);
    let info = fm.get_file_info(&hash).unwrap();
    assert_eq!(info.name, "data.bin");
    assert_eq!(info.size, 5000);
    assert_eq!(info.chunk_count, 2);
    assert_eq!(info.created_at, 1234);
    for h in &info.chunk_hashes {
        assert!(fm.get_chunk(h).unwrap().verify());
    }
    assert_eq!(fm.get_chunk_count(), 2);
    assert_eq!(fm.list_files().len(), 1);
    assert!(fm.get_file_info("nope").is_none());
}

#[test]
fn duplicate_info_is_equal() {
    let mut fm = FileManager::new("d".to_string());
    let h = fm.add_file("x".to_string(), b"xyz", 3, 9);
    let info = fm.get_file_info(&h).unwrap();
    let copy = info.duplicate();
    assert_eq!(copy.hash, info.hash);
    assert_eq!(copy.chunk_hashes, info.chunk_hashes);
}

#[test]
fn storage_engine_names_chunk_files() {
    let e = StorageEngine::new("/var/p2p".to_string());
    assert_eq!(e.base_dir(), "/var/p2p");
    assert_eq!(StorageEngine::chunk_file_name("abcd"), "abcd.chunk");
    assert_eq!(StorageEngine::chunks_dir_name(), "chunks");
    assert_eq!(StorageEngine::temp_dir_name(), "temp");
}

#[test]
fn records_are_filed_under_their_hash() {
    let mut fm = FileManager::new("d".to_string());
    let h1 = fm.add_file("a".to_string(), b"alpha", 5, 1);
    let h2 = fm.add_file("b".to_string(), b"beta", 4, 2);
    let listed = fm.list_files();
    assert_eq!(listed.len(), 2);
    for f in &listed {
        assert_eq!(fm.get_file_info(&f.hash).unwrap().hash, f.hash);
        assert_eq!(f.chunk_count, f.chunk_hashes.len());
    }
    assert_ne!(h1, h2);
    let mut m = ChunkManager::new();
    let c = Chunk::new(4, b"data".to_vec());
    let h = c.hash.clone();
    m.add_chunk(c).unwrap();
    let found = m.get_chunk_by_index(4).unwrap();
    assert_eq!(found.hash, h);
    assert!(found.verify());
}

#[test]
fn chunk_count_follows_adds_and_removes() {
    let mut m = ChunkManager::new();
    let a = Chunk::new(0, b"one".to_vec());
    let ha = a.hash.clone();
    m.add_chunk(a.clone()).unwrap();
    assert_eq!(m.chunk_count(), 1);
    m.add_chunk(a).unwrap();
    assert_eq!(m.chunk_count(), 1);
    m.add_chunk(Chunk::new(1, b"two".to_vec())).unwrap();
    assert_eq!(m.chunk_count(), 2);
    m.remove_chunk(&ha).unwrap();
    assert_eq!(m.chunk_count(), 1);
    assert!(m.get_chunk_by_index(0).is_none());
}
