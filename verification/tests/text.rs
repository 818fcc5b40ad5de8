use watch_time::listing::join_path;
use watch_time::text::{decode, ends_with, same_text};

#[test]
fn ends_with_agrees_with_std() {
    let texts = ["", "a", "mp4", "a.mp4", "é", "aé", "éa", "日本語", "本語", "語", "x.webm", "\u{10348}z"];
    for s in texts {
        for t in texts {
            assert_eq!(ends_with(s, t), s.ends_with(t), "{:?} {:?}", s, t);
            assert_eq!(same_text(s, t), s == t, "{:?} {:?}", s, t);
        }
    }
}

#[test]
fn join_puts_a_slash_between() {
    assert_eq!(join_path("videos", "a.mp4"), "videos/a.mp4");
    assert_eq!(join_path("videos/", "a.mp4"), "videos//a.mp4");
    assert_eq!(join_path("", ""), "/");
}

#[test]
fn decode_takes_utf8_only() {
    assert_eq!(decode(b"12.5\n"), Some("12.5\n"));
    assert_eq!(decode("日本語".as_bytes()), Some("日本語"));
    assert_eq!(decode(b""), Some(""));
    assert_eq!(decode(&[0x80]), None);
    assert_eq!(decode(&[0xe6, 0x97]), None);
    assert_eq!(decode(&[0xc0, 0xaf]), None);
    assert_eq!(decode(&[0xf4, 0x90, 0x80, 0x80]), None);
}
