use peerchat::protocol::{InternalMessage, Message};
use peerchat::session::{ReadAction, SessionCore};
use peerchat::transfer::{
    candidate_file_name, chunk_file, is_loading_bar_free, pick_destination, ChunkOutcome,
    DownloadState, LoadingBar, LoadingBarStatus, LoadingBarWrap, CHUNK_SIZE,
};

#[test]
fn file_transfer_successful() {
    // The file offered by peer1: long enough for several chunks, with a
    // ragged tail.
    let content: Vec<u8> = (0..(2 * CHUNK_SIZE + 1234)).map(|i| (i % 251) as u8).collect();
    let file_id = 42;

    // peer1 owns the file; peer2 asks for it.
    let mut peer1 = SessionCore::new("USER_A".to_string());
    peer1.register_owned(file_id, "/tmp/big.bin".to_string());

    let mut peer2 = SessionCore::new("USER_B".to_string());
    peer2.register_download(file_id);
    let mut download = DownloadState::new(content.len() as u64);

    // peer1's read loop sees the request and starts the upload worker.
    let action = peer1.handle_incoming(Message::Internal(InternalMessage::FileRequest(file_id)));
    assert!(matches!(action, ReadAction::StartUpload(_, id) if id == file_id));

    // The upload worker's whole chunk schedule.
    let chunks = chunk_file(file_id, &content);
    assert_eq!(chunks.len(), 3);

    // peer2's read loop forwards each chunk; the download worker accepts it
    // and writes the bytes.
    let mut written: Vec<u8> = Vec::new();
    for chunk in chunks {
        match peer2.handle_incoming(chunk) {
            ReadAction::Forward(InternalMessage::FileContent(id, offset, bytes)) => {
                assert_eq!(id, file_id);
                let outcome = download.accept_chunk(offset, bytes.len() as u64);
                assert_eq!(outcome, ChunkOutcome::Accepted);
                written.extend_from_slice(&bytes);
            }
            _ => panic!("chunk was not forwarded to the download worker"),
        }
    }

    // The local copy is byte-identical and the progress handle agrees.
    assert_eq!(written, content);
    assert!(download.is_complete());
    assert_eq!(download.bytes_accepted, download.total);
    assert!(matches!(
        download.bar.loadingbar,
        LoadingBar::Status(LoadingBarStatus { position, end })
            if position == content.len() as u64 && end == content.len() as u64
    ));

    peer2.unregister_download(file_id);
}

#[test]
fn chunk_offsets_and_sizes() {
    let content = vec![7u8; CHUNK_SIZE + 5];
    let chunks = chunk_file(9, &content);
    assert_eq!(chunks.len(), 2);

    match &chunks[0] {
        Message::Internal(InternalMessage::FileContent(9, 0, bytes)) => {
            assert_eq!(bytes.len(), CHUNK_SIZE);
        }
        _ => panic!("unexpected first chunk"),
    }
    match &chunks[1] {
        Message::Internal(InternalMessage::FileContent(9, offset, bytes)) => {
            assert_eq!(*offset, CHUNK_SIZE as u64);
            assert_eq!(bytes.len(), 5);
        }
        _ => panic!("unexpected second chunk"),
    }
}

#[test]
fn exact_chunk_size_file_is_one_chunk() {
    let content = vec![3u8; CHUNK_SIZE];
    let chunks = chunk_file(4, &content);
    assert_eq!(chunks.len(), 1);
    match &chunks[0] {
        Message::Internal(InternalMessage::FileContent(4, 0, bytes)) => {
            assert_eq!(bytes.len(), CHUNK_SIZE);
        }
        _ => panic!("unexpected chunk"),
    }
}

#[test]
fn empty_file_sends_no_chunks() {
    let content: Vec<u8> = Vec::new();
    assert_eq!(chunk_file(1, &content).len(), 0);
}

#[test]
fn corrupt_offset_freezes_download() {
    let mut download = DownloadState::new(100);

    assert_eq!(download.accept_chunk(0, 60), ChunkOutcome::Accepted);
    assert_eq!(download.bytes_accepted, 60);

    // A gap: the next chunk claims offset 70 while only 60 bytes arrived.
    assert_eq!(download.accept_chunk(70, 10), ChunkOutcome::Corrupted);
    assert!(matches!(download.bar.loadingbar, LoadingBar::Error(_)));
    assert_eq!(download.bytes_accepted, 60);
    assert!(!download.is_complete());
}

#[test]
fn overlapping_chunk_is_corruption() {
    let mut download = DownloadState::new(100);
    assert_eq!(download.accept_chunk(0, 60), ChunkOutcome::Accepted);
    assert_eq!(download.accept_chunk(50, 10), ChunkOutcome::Corrupted);
    assert_eq!(download.bytes_accepted, 60);
}

#[test]
fn overflow_past_announced_total_is_corruption() {
    let mut download = DownloadState::new(100);
    assert_eq!(download.accept_chunk(0, 60), ChunkOutcome::Accepted);
    assert_eq!(download.accept_chunk(60, 41), ChunkOutcome::Corrupted);
    assert_eq!(download.bytes_accepted, 60);
}

#[test]
fn upload_error_report_fails_download() {
    let mut download = DownloadState::new(100);
    download.fail("peer lost the file".to_string());
    assert!(matches!(download.bar.loadingbar, LoadingBar::Error(_)));
    assert!(!download.is_complete());
}

#[test]
fn progress_sets_dirty_flag_for_renderer() {
    let mut download = DownloadState::new(10);
    assert!(download.take_changed());
    assert!(!download.take_changed());

    download.accept_chunk(0, 4);
    assert!(download.take_changed());
    assert!(!download.take_changed());
}

#[test]
fn candidate_names_in_order() {
    let base = "photo.png".to_string();
    assert_eq!(candidate_file_name(&base, 0), Some("photo.png".to_string()));
    assert_eq!(candidate_file_name(&base, 1), Some("photo.png (1)".to_string()));
    assert_eq!(candidate_file_name(&base, 9), Some("photo.png (9)".to_string()));
    assert_eq!(candidate_file_name(&base, 10), None);
}

#[test]
fn name_collisions_pick_next_suffix() {
    let base = "photo.png".to_string();

    // The plain name is free.
    let taken: Vec<String> = Vec::new();
    assert_eq!(pick_destination(&base, &taken), Some("photo.png".to_string()));

    // The plain name exists: the first download picks " (1)".
    let taken = vec!["photo.png".to_string()];
    assert_eq!(pick_destination(&base, &taken), Some("photo.png (1)".to_string()));

    // That one exists too: the second picks " (2)".
    let taken = vec!["photo.png".to_string(), "photo.png (1)".to_string()];
    assert_eq!(pick_destination(&base, &taken), Some("photo.png (2)".to_string()));
}

#[test]
fn eleventh_collision_aborts_instead_of_overwriting() {
    let base = "photo.png".to_string();
    let mut taken = vec!["photo.png".to_string()];
    for i in 1..=9 {
        taken.push(format!("photo.png ({})", i));
    }
    assert_eq!(pick_destination(&base, &taken), None);
}

#[test]
fn is_loading_bar_free_cases() {
    assert!(is_loading_bar_free(&None));

    let done = LoadingBarWrap {
        loadingbar: LoadingBar::Status(LoadingBarStatus { position: 5, end: 5 }),
        changed: false,
    };
    assert!(is_loading_bar_free(&Some(done)));

    let running = LoadingBarWrap {
        loadingbar: LoadingBar::Status(LoadingBarStatus { position: 3, end: 5 }),
        changed: false,
    };
    assert!(!is_loading_bar_free(&Some(running)));

    let failed = LoadingBarWrap {
        loadingbar: LoadingBar::Error("disk full".to_string()),
        changed: true,
    };
    assert!(is_loading_bar_free(&Some(failed)));
}
