//! The command line, as the program declares it, read into what the library takes.

use clap::{Arg, ArgAction, ArgMatches, Command};
use duscape::cli::Opt;

fn flag(name: &'static str) -> Arg {
    Arg::new(name).long(name).action(ArgAction::SetTrue)
}

fn value(name: &'static str) -> Arg {
    Arg::new(name).long(name)
}

fn command() -> Command {
    Command::new("duscape")
        .arg(Arg::new("folder"))
        .arg(flag("gui").conflicts_with("tui"))
        .arg(flag("tui"))
        .arg(flag("no-elevate"))
        .arg(flag("apparent-size").short('a'))
        .arg(value("config").short('c').value_name("FILE"))
        .arg(flag("snapshots"))
        .arg(flag("one-file-system").short('x'))
        .arg(value("hard-link-threshold").value_name("BYTES"))
        .arg(flag("benchmark"))
        .arg(flag("issues"))
        .arg(value("bench-repeat").value_name("N").default_value("1"))
        .arg(flag("bench-profile"))
        .arg(value("bench-shards").value_name("N").default_value("8"))
        .arg(value("bench-shard-depth").value_name("N").default_value("2"))
        .arg(value("max-depth").value_name("N"))
        .arg(flag("single-thread"))
        .arg(flag("no-device-read"))
        .arg(value("threads").value_name("N"))
}

fn text(matches: &ArgMatches, name: &str) -> Option<String> {
    matches.get_one::<String>(name).cloned()
}

fn number<T: std::str::FromStr>(matches: &ArgMatches, name: &str) -> Option<T> {
    text(matches, name)?.parse().ok()
}

fn parse_from(args: &[&str]) -> Opt {
    let matches = command().try_get_matches_from(args).expect("parsed");
    Opt {
        folder: text(&matches, "folder").map(String::into_bytes),
        gui: matches.get_flag("gui"),
        tui: matches.get_flag("tui"),
        no_elevate: matches.get_flag("no-elevate"),
        apparent_size: matches.get_flag("apparent-size"),
        config: text(&matches, "config").map(String::into_bytes),
        snapshots: matches.get_flag("snapshots"),
        one_file_system: matches.get_flag("one-file-system"),
        hard_link_threshold: number(&matches, "hard-link-threshold"),
        benchmark: matches.get_flag("benchmark"),
        issues: matches.get_flag("issues"),
        bench_repeat: number(&matches, "bench-repeat").expect("a default"),
        bench_profile: matches.get_flag("bench-profile"),
        bench_shards: number(&matches, "bench-shards").expect("a default"),
        bench_shard_depth: number(&matches, "bench-shard-depth").expect("a default"),
        max_depth: number(&matches, "max-depth"),
        single_thread: matches.get_flag("single-thread"),
        no_device_read: matches.get_flag("no-device-read"),
        threads: number(&matches, "threads"),
    }
}

#[test]
fn parses_defaults() {
    let opt = parse_from(&["diskonaut"]);
    assert_eq!(opt.folder, None);
    assert!(!opt.apparent_size);
    assert_eq!(opt.config, None);
    assert!(!opt.benchmark);
    assert_eq!(opt.max_depth, None);
    assert_eq!(opt.threads, None);
    let options = opt.scan_options(false);
    assert!(options.parallel && options.read_device);
    assert!(!options.show_apparent_size && !options.one_file_system && !options.snapshots);
}

#[test]
fn parses_apparent_size_and_folder() {
    let opt = parse_from(&["diskonaut", "-a", "/tmp"]);
    assert_eq!(opt.folder, Some(b"/tmp".to_vec()));
    assert!(opt.apparent_size);
    assert_eq!(opt.config, None);
    assert!(opt.scan_options(false).show_apparent_size);
}

#[test]
fn parses_long_flags() {
    let opt = parse_from(&["diskonaut", "--apparent-size", "/var"]);
    assert!(opt.apparent_size);
    assert_eq!(opt.folder, Some(b"/var".to_vec()));
}

#[test]
fn cli_definition_is_valid() {
    command().debug_assert();
    assert!(command().try_get_matches_from(["duscape", "--gui", "--tui"]).is_err());
}

#[test]
fn the_config_file_can_ask_for_apparent_sizes_too() {
    let opt = parse_from(&["duscape", "-x", "--max-depth", "3", "--single-thread"]);
    let options = opt.scan_options(true);
    assert!(options.show_apparent_size && options.one_file_system && !options.parallel);
    assert_eq!(options.max_depth, Some(3));
}
