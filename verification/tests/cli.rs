use watch_time::cli::{help_message, parse_args, version_line, Invocation};

fn args(list: &[&str]) -> Vec<String> {
    list.iter().map(|s| s.to_string()).collect()
}

#[test]
fn help_flags() {
    assert_eq!(parse_args(&args(&["wt", "-h"])), Invocation::Help);
    assert_eq!(parse_args(&args(&["wt", "--help"])), Invocation::Help);
}

#[test]
fn version_flags() {
    assert_eq!(parse_args(&args(&["wt", "-v"])), Invocation::Version);
    assert_eq!(parse_args(&args(&["wt", "--version"])), Invocation::Version);
}

#[test]
fn one_directory() {
    assert_eq!(parse_args(&args(&["wt", "videos"])), Invocation::Scan("videos".to_string()));
    assert_eq!(parse_args(&args(&["wt", "/srv/My Films"])), Invocation::Scan("/srv/My Films".to_string()));
}

#[test]
fn directory_is_taken_without_white_space_around_it() {
    assert_eq!(parse_args(&args(&["wt", "  videos\n"])), Invocation::Scan("videos".to_string()));
    assert_eq!(parse_args(&args(&["wt", " "])), Invocation::Scan(String::new()));
}

#[test]
fn flags_are_matched_whole() {
    assert_eq!(parse_args(&args(&["wt", "-help"])), Invocation::Scan("-help".to_string()));
    assert_eq!(parse_args(&args(&["wt", "--Help"])), Invocation::Scan("--Help".to_string()));
    assert_eq!(parse_args(&args(&["wt", " -h"])), Invocation::Scan("-h".to_string()));
    assert_eq!(parse_args(&args(&["wt", "-V"])), Invocation::Scan("-V".to_string()));
}

#[test]
fn any_other_count_of_arguments_shows_help() {
    assert_eq!(parse_args(&args(&[])), Invocation::Help);
    assert_eq!(parse_args(&args(&["wt"])), Invocation::Help);
    assert_eq!(parse_args(&args(&["wt", "a", "b"])), Invocation::Help);
    assert_eq!(parse_args(&args(&["wt", "-v", "videos"])), Invocation::Help);
}

#[test]
fn usage_banner() {
    assert_eq!(
        help_message("0.1.0"),
        "[Video Watch Time]\n\
         Version: 0.1.0\n\
         Usage: wt <video folder>\n\
         Options:\n    -h, --help     Display help message\n    -v, --version  Display version"
    );
}

#[test]
fn version_text() {
    assert_eq!(version_line("1.2.3"), "Version: 1.2.3");
}
