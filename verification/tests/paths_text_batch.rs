use audioscan::{
    byte_unit, byte_unit_label, container_of, decimal_text, is_audio_extension, is_audio_path,
    join_with, slowest, tally, BatchTally, Status,
};

#[test]
fn container_is_the_lowercased_extension() {
    assert_eq!(container_of("take.wav"), "wav");
    assert_eq!(container_of("/archive/TAKE.WAV"), "wav");
    assert_eq!(container_of("mix.Flac"), "flac");
    assert_eq!(container_of("a/b/song.tar.GZ"), "gz");
    assert_eq!(container_of("dir/song.MP3/"), "mp3");
    assert_eq!(container_of("dir/song.ogg/."), "ogg");
}

#[test]
fn container_is_empty_without_an_extension() {
    assert_eq!(container_of("take"), "");
    assert_eq!(container_of("dir.d/take"), "");
    assert_eq!(container_of(".bashrc"), "");
    assert_eq!(container_of("name."), "");
    assert_eq!(container_of("a/.."), "");
    assert_eq!(container_of("/"), "");
    assert_eq!(container_of(""), "");
    assert_eq!(container_of("."), "");
}

#[test]
fn audio_paths_are_picked_by_extension() {
    assert!(is_audio_path("/archive/take_03.wav"));
    assert!(is_audio_path("x/Y.MP3"));
    assert!(is_audio_path("song.opus"));
    assert!(is_audio_path("song.AIFF"));
    assert!(!is_audio_path("notes.txt"));
    assert!(!is_audio_path("wav"));
    assert!(!is_audio_path(".wav"));
    assert!(is_audio_extension("m4a"));
    assert!(!is_audio_extension("M4A"));
    assert!(!is_audio_extension(""));
}

#[test]
fn decimal_rendering() {
    assert_eq!(decimal_text(0), "0");
    assert_eq!(decimal_text(7), "7");
    assert_eq!(decimal_text(1_234_567_890), "1234567890");
    assert_eq!(decimal_text(u64::MAX), u64::MAX.to_string());
}

#[test]
fn joining() {
    let parts = vec!["a".to_string(), "bc".to_string(), "".to_string()];
    assert_eq!(join_with(&parts, "; "), "a; bc; ");
    assert_eq!(join_with(&Vec::new(), "; "), "");
    assert_eq!(join_with(&vec!["x".to_string()], ", "), "x");
}

#[test]
fn tally_counts_each_row_once() {
    let rows = vec![
        Some(Status::Clean),
        None,
        Some(Status::Partial),
        Some(Status::Clean),
        Some(Status::Clean),
    ];
    assert_eq!(tally(&rows), BatchTally { ok: 3, partial: 1, failed: 1 });
    assert_eq!(tally(&Vec::new()), BatchTally { ok: 0, partial: 0, failed: 0 });
}

#[test]
fn slowest_lists_longest_first_ties_in_row_order() {
    let elapsed: Vec<u128> = vec![5, 30, 12, 30, 1];
    assert_eq!(slowest(&elapsed, 3), vec![1, 3, 2]);
    assert_eq!(slowest(&elapsed, 0), Vec::<usize>::new());
    assert_eq!(slowest(&elapsed, 10), vec![1, 3, 2, 0, 4]);
    assert_eq!(slowest(&Vec::new(), 3), Vec::<usize>::new());
}

#[test]
fn byte_units() {
    assert_eq!(byte_unit(0), 0);
    assert_eq!(byte_unit(1023), 0);
    assert_eq!(byte_unit(1024), 1);
    assert_eq!(byte_unit(8 * 1024 * 1024 + 100_000), 2);
    assert_eq!(byte_unit(1 << 30), 3);
    assert_eq!(byte_unit(1 << 40), 4);
    assert_eq!(byte_unit(u64::MAX), 4);
    assert_eq!(byte_unit_label(byte_unit(3 << 20)), "MB");
    assert_eq!(byte_unit_label(0), "B");
    assert_eq!(byte_unit_label(4), "TB");
}

#[test]
fn container_agrees_with_std_path_extension() {
    let paths = [
        "a.wav", "A.WAV", "a", ".a", "..", ".", "/", "", "a/", "a/.", "a/..", "a/b.c/", "a//b.FLAC",
        "./x.mp3", "x.y.z", "x.", ".x.y", "dir.v2/file", "/abs/path/Track.M4A", "a/./b.ogg/./",
        "ünï/cödé.ÄIF", "a..b", "...", "a/...", "name.tar.GZ//",
    ];
    for p in paths {
        let expected = std::path::Path::new(p)
            .extension()
            .and_then(|e| e.to_str())
            .map(|e| e.to_lowercase())
            .unwrap_or_default();
        assert_eq!(container_of(p), expected, "path {p:?}");
    }
}
