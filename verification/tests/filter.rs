use watch_time::filter::{get_video_files, is_video_file};

fn names(list: &[&str]) -> Vec<String> {
    list.iter().map(|s| s.to_string()).collect()
}

#[test]
fn filter_selects_lowercase_extensions_only() {
    let files = names(&["a.mp4", "b.txt", "c.MKV", "d.mov"]);
    let videos = get_video_files(files).unwrap();
    assert_eq!(videos, names(&["a.mp4", "d.mov"]));
}

#[test]
fn filter_knows_all_four_extensions() {
    let files = names(&["a.mp4", "b.mkv", "c.mov", "d.webm", "e.avi", "f.mp3"]);
    let videos = get_video_files(files).unwrap();
    assert_eq!(videos, names(&["a.mp4", "b.mkv", "c.mov", "d.webm"]));
}

#[test]
fn suffix_match_needs_no_dot() {
    assert!(is_video_file("amp4"));
    assert!(is_video_file("xxxxxmp4"));
    assert!(is_video_file("mp4"));
    assert!(is_video_file("webm"));
    assert!(!is_video_file("ebm"));
    assert!(!is_video_file("mp"));
    assert!(!is_video_file("a.mp4 "));
    assert!(!is_video_file("a.mp4/"));
    assert!(!is_video_file(""));
}

#[test]
fn match_is_case_sensitive() {
    assert!(!is_video_file("c.MKV"));
    assert!(!is_video_file("c.Mp4"));
    assert!(!is_video_file("c.WEBM"));
    assert!(is_video_file("C.mkv"));
}

#[test]
fn match_reads_whole_characters() {
    assert!(is_video_file("vidéo.mp4"));
    assert!(is_video_file("映画.webm"));
    assert!(!is_video_file("film.mp4é"));
    assert!(!is_video_file("film.mｐ4"));
}

#[test]
fn filter_twice_is_filter_once() {
    let files = names(&["x/a.mp4", "b.txt", "amp4", "c.MKV", "d.mov", "d.mov", "e"]);
    let once = get_video_files(files).unwrap();
    let twice = get_video_files(once.clone()).unwrap();
    assert_eq!(once, twice);
}

#[test]
fn filter_keeps_order_and_invents_nothing() {
    let files = names(&["z.webm", "b.txt", "a.mp4", "m.mkv", "notes", "a.mp4"]);
    let videos = get_video_files(files.clone()).unwrap();
    assert_eq!(videos, names(&["z.webm", "a.mp4", "m.mkv", "a.mp4"]));
    let mut from = 0;
    for video in &videos {
        let at = files[from..].iter().position(|f| f == video).unwrap();
        from += at + 1;
    }
}

#[test]
fn filter_of_nothing_is_nothing() {
    assert_eq!(get_video_files(Vec::new()).unwrap(), Vec::<String>::new());
    assert_eq!(get_video_files(names(&["a", "b.txt"])).unwrap(), Vec::<String>::new());
}

#[test]
fn nested_paths_are_judged_by_their_end() {
    let files = names(&["root/a/b/c/deep.mp4", "root/a.mp4/notes.txt", "root/x.mkv"]);
    let videos = get_video_files(files).unwrap();
    assert_eq!(videos, names(&["root/a/b/c/deep.mp4", "root/x.mkv"]));
}
