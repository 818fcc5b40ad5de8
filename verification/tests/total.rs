use watch_time::duration::{Duration, ParseError};
use watch_time::filter::get_video_files;
use watch_time::probe::{get_watch_time, ProbeError, ProbeRun};
use watch_time::total::{
    aggregate, diagnostic_line, fmt_watch_time, summary_line, tally, Probed, Report, WatchTime,
};

fn ok(path: &str, nanos: u64) -> Probed {
    Probed { path: path.to_string(), outcome: Ok(Duration { nanos: nanos }) }
}

fn failed(path: &str, error: ProbeError) -> Probed {
    Probed { path: path.to_string(), outcome: Err(error) }
}

#[test]
fn nothing_adds_up_to_nothing() {
    assert_eq!(tally(&Vec::new()), Report { total: WatchTime { nanos: 0 }, diagnostics: vec![] });
}

#[test]
fn durations_are_added_before_the_fraction_is_dropped() {
    let report = tally(&vec![ok("a.mp4", 600_000_000), ok("b.mp4", 700_000_000)]);
    assert_eq!(report.total, WatchTime { nanos: 1_300_000_000 });
    assert!(report.diagnostics.is_empty());
    assert_eq!(fmt_watch_time(report.total), "00 Hours, 00 Minutes, 01 Seconds");
}

#[test]
fn one_failure_among_three() {
    let report = tally(&vec![
        ok("a.mp4", 60_000_000_000),
        failed("b.mkv", ProbeError::Exit("moov atom not found".to_string())),
        ok("c.mov", 3_600_500_000_000),
    ]);
    assert_eq!(report.total, WatchTime { nanos: 3_660_500_000_000 });
    assert_eq!(
        report.diagnostics,
        vec!["Error processing video b.mkv: ffprobe failed with error: moov atom not found"]
    );
    assert_eq!(
        summary_line(report.total),
        "You have 01 Hours, 01 Minutes, 00 Seconds worth of contents"
    );
}

#[test]
fn every_probe_failing_leaves_zero() {
    let report = tally(&vec![
        failed("a.mp4", ProbeError::Launch("No such file or directory".to_string())),
        failed("b.mp4", ProbeError::NotText),
        failed("c.mp4", ProbeError::NotDuration(ParseError::Malformed)),
        failed("d.mp4", ProbeError::NotDuration(ParseError::OutOfRange)),
    ]);
    assert_eq!(report.total, WatchTime { nanos: 0 });
    assert_eq!(
        report.diagnostics,
        vec![
            "Error processing video a.mp4: Failed to execute ffprobe: No such file or directory",
            "Error processing video b.mp4: Failed to parse ffprobe output: invalid UTF-8",
            "Error processing video c.mp4: Failed to parse duration: not a decimal number",
            "Error processing video d.mp4: Failed to parse duration: number too large",
        ]
    );
}

#[test]
fn total_holds_more_than_one_longest_duration() {
    let report = tally(&vec![ok("a.mp4", u64::MAX), ok("b.mp4", u64::MAX), ok("c.mp4", 2)]);
    assert_eq!(report.total, WatchTime { nanos: 2 * (u64::MAX as u128) + 2 });
}

#[test]
fn diagnostic_names_the_path_and_the_reason() {
    assert_eq!(
        diagnostic_line("dir/x.webm", &ProbeError::NotText),
        "Error processing video dir/x.webm: Failed to parse ffprobe output: invalid UTF-8"
    );
}

#[test]
fn aggregate_asks_once_for_each_path_in_order() {
    let asked = std::cell::RefCell::new(Vec::new());
    let paths = vec!["a.mp4".to_string(), "b.mp4".to_string(), "c.mp4".to_string()];
    let report = aggregate(&paths, |path: &String| {
        asked.borrow_mut().push(path.clone());
        Ok(Duration { nanos: 1_000_000_000 })
    });
    assert_eq!(*asked.borrow(), paths);
    assert_eq!(report.total, WatchTime { nanos: 3_000_000_000 });
    assert!(report.diagnostics.is_empty());
}

#[test]
fn aggregate_goes_on_after_a_failure() {
    let paths = vec!["a.mp4".to_string(), "b.mp4".to_string(), "c.mp4".to_string()];
    let report = aggregate(&paths, |path: &String| {
        if path == "b.mp4" {
            get_watch_time(&ProbeRun::NotStarted("ffprobe: not found".to_string()))
        } else {
            get_watch_time(&ProbeRun::Finished {
                success: true,
                stdout: b"30.75\n".to_vec(),
                stderr: Vec::new(),
            })
        }
    });
    assert_eq!(report.total, WatchTime { nanos: 61_500_000_000 });
    assert_eq!(
        report.diagnostics,
        vec!["Error processing video b.mp4: Failed to execute ffprobe: ffprobe: not found"]
    );
    assert_eq!(fmt_watch_time(report.total), "00 Hours, 01 Minutes, 01 Seconds");
}

#[test]
fn total_counts_matching_files_only() {
    let listing: Vec<String> =
        ["a.mp4", "b.txt", "c.MKV", "d.mov"].iter().map(|s| s.to_string()).collect();
    let videos = get_video_files(listing).unwrap();
    let report = aggregate(&videos, |path: &String| match path.as_str() {
        "a.mp4" => Ok(Duration { nanos: 1_900_000_000 }),
        "d.mov" => Ok(Duration { nanos: 2_100_000_000 }),
        _ => Ok(Duration { nanos: 1_000_000_000_000 }),
    });
    assert_eq!(report.total, WatchTime { nanos: 4_000_000_000 });
    assert_eq!(fmt_watch_time(report.total), "00 Hours, 00 Minutes, 04 Seconds");
}

#[test]
fn aggregate_of_no_paths() {
    let report = aggregate(&Vec::new(), |_: &String| Err(ProbeError::NotText));
    assert_eq!(report, Report { total: WatchTime { nanos: 0 }, diagnostics: vec![] });
}
