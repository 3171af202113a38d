use mini_p2p::downloader::{file_info_failure, ChunkDownload, Downloader};
use mini_p2p::error::P2PError;
use mini_p2p::file_manager::FileInfo;
use mini_p2p::scheduler::ChunkScheduler;
use mini_p2p::swarm::SwarmManager;

fn info(n: usize) -> FileInfo {
    FileInfo {
        hash: "file".to_string(),
        name: "f".to_string(),
        size: 100,
        chunk_count: n,
        chunk_hashes: (0..n).map(|i| format!("c{}", i)).collect(),
        created_at: 0,
    }
}

#[test]
fn download_rounds_take_five_missing_chunks() {
    let fi = info(7);
    let mut d = ChunkDownload::new(&fi);
    assert!(!d.is_finished());
    let b = d.next_batch(3);
    let idx: Vec<usize> = b.iter().map(|t| t.index).collect();
    assert_eq!(idx, vec![0, 1, 2, 3, 4]);
    assert_eq!(b[4].hash, "c4");
    assert_eq!(b[4].peer, 1);
    d.record_chunk(1, vec![1]);
    d.record_chunk(3, vec![3]);
    assert_eq!(d.completed_count(), 2);
    let idx: Vec<usize> = d.next_batch(2).iter().map(|t| t.index).collect();
    assert_eq!(idx, vec![0, 2, 4, 5, 6]);
    for i in [0usize, 2, 4, 5] {
        d.record_chunk(i, vec![i as u8]);
    }
    let last = d.next_batch(4);
    assert_eq!(last.len(), 1);
    assert_eq!((last[0].index, last[0].peer), (6, 2));
}

#[test]
fn assembled_download_is_in_order() {
    let mut d = ChunkDownload::new(&info(3));
    d.record_chunk(2, vec![30]);
    d.record_chunk(0, vec![10]);
    d.record_chunk(1, vec![20]);
    assert!(d.is_finished());
    assert!(d.next_batch(1).is_empty());
    assert_eq!(d.assemble().unwrap(), vec![vec![10], vec![20], vec![30]]);
}

#[test]
fn incomplete_download_names_first_missing_chunk() {
    let mut d = ChunkDownload::new(&info(12));
    for i in 0..12 {
        if i != 10 && i != 11 {
            d.record_chunk(i, vec![]);
        }
    }
    match d.assemble() {
        Err(P2PError::IncompleteDownload(s)) => assert_eq!(s, "Missing chunk 10"),
        other => panic!("unexpected {:?}", other),
    }
}

#[test]
fn download_progress_is_tracked() {
    let mut dl = Downloader::new();
    dl.start_download(&info(4));
    let p = dl.get_download_progress("file").unwrap();
    assert_eq!((p.total_chunks, p.completed_chunks, p.total_bytes, p.peers_count), (4, 0, 100, 0));
    dl.update_progress("file", 2, 3);
    let p = dl.get_download_progress("file").unwrap();
    assert_eq!((p.completed_chunks, p.peers_count), (2, 3));
    dl.update_progress("other", 1, 1);
    assert!(dl.get_download_progress("other").is_none());
    dl.finish_download("file");
    assert!(dl.get_download_progress("file").is_none());
    assert!(matches!(file_info_failure(0, "h"), P2PError::NoPeersAvailable));
    assert!(matches!(file_info_failure(2, "h"), P2PError::FileNotFound(ref s) if s == "h"));
}

#[test]
fn scheduler_moves_requests_between_queues() {
    let mut s = ChunkScheduler::new();
    s.add_chunk_request("a".to_string(), 0, 100);
    s.add_chunk_request("b".to_string(), 1, 100);
    s.add_chunk_request("c".to_string(), 2, 100);
    assert_eq!(s.get_progress(), (0, 0, 3));
    s.mark_in_progress("b".to_string(), 77, 1_000);
    assert_eq!(s.get_progress(), (0, 1, 2));
    s.mark_in_progress("zzz".to_string(), 77, 1_000);
    assert_eq!(s.get_progress(), (0, 1, 2));
    s.mark_failed("b");
    assert_eq!(s.get_progress(), (0, 0, 3));
    let first = s.get_next_request().unwrap();
    assert_eq!((first.chunk_hash.as_str(), first.chunk_index), ("a", 0));
    s.mark_in_progress("c".to_string(), 5, 2_000);
    s.mark_completed("c".to_string(), vec![1, 2]);
    assert_eq!(s.get_progress(), (1, 0, 1));
}

#[test]
fn stale_requests_are_requeued() {
    let mut s = ChunkScheduler::new();
    s.add_chunk_request("a".to_string(), 0, 0);
    s.add_chunk_request("b".to_string(), 1, 0);
    s.mark_in_progress("a".to_string(), 1, 1_000);
    s.mark_in_progress("b".to_string(), 2, 20_000);
    s.cleanup_stale_requests(10, 15_000);
    assert_eq!(s.get_progress(), (0, 1, 1));
    let back = s.get_next_request().unwrap();
    assert_eq!(back.chunk_hash, "a");
    assert_eq!(back.peer_id, Some(1));
    s.cleanup_stale_requests(u64::MAX, u64::MAX);
    assert_eq!(s.get_progress(), (0, 1, 0));
}

#[test]
fn swarms_track_peers_and_chunks() {
    let mut sm = SwarmManager::new();
    sm.join_swarm("f".to_string(), 4);
    sm.add_peer_to_swarm("f", 1);
    sm.add_peer_to_swarm("f", 1);
    sm.add_peer_to_swarm("f", 2);
    sm.add_peer_to_swarm("g", 3);
    let mut peers = sm.get_swarm_peers("f");
    peers.sort();
    assert_eq!(peers, vec![1, 2]);
    assert!(sm.get_swarm_peers("g").is_empty());
    sm.mark_chunk_completed("f", "c1".to_string());
    sm.mark_chunk_completed("f", "c1".to_string());
    assert_eq!(sm.completion_counts("f"), Some((1, 4)));
    assert_eq!(sm.completion_counts("g"), None);
    sm.leave_swarm("f");
    assert_eq!(sm.completion_counts("f"), None);
}
