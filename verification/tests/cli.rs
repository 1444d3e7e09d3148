use simaai_sentinel::cli::{
    argument_value, export_format, interval_bounds, metadata_path, parse_checkpoint_args,
    is_float_text, parse_command, parse_export_args, parse_global_options, parse_runs_args, take_value,
    temp_output_path, truncate, CheckpointRequest, CliError, Command, ExportFormat, Invocation,
    RunsRequest,
};

fn args(items: &[&str]) -> Vec<String> {
    items.iter().map(|s| s.to_string()).collect()
}

#[test]
fn take_value_removes_flag_and_value() {
    let mut list = args(&["x", "--cache", "/tmp/c.json", "y"]);
    assert_eq!(take_value(&mut list, 1, "--cache").unwrap(), "/tmp/c.json");
    assert_eq!(list, args(&["x", "y"]));
    let mut short = args(&["--cache"]);
    let error = take_value(&mut short, 0, "--cache").unwrap_err();
    assert_eq!(error.message(), "--cache requires a value");
    assert_eq!(short, args(&["--cache"]));
}

#[test]
fn argument_value_advances_past_the_value() {
    let list = args(&["--name", "base", "--note"]);
    let mut index = 0;
    assert_eq!(argument_value(&list, &mut index, "--name").unwrap(), "base");
    assert_eq!(index, 2);
    assert!(matches!(
        argument_value(&list, &mut index, "--note"),
        Err(CliError::MissingValue(flag)) if flag == "--note"
    ));
    assert_eq!(index, 2);
}

#[test]
fn truncation_uses_an_ellipsis() {
    assert_eq!(truncate("short", 20), "short");
    assert_eq!(truncate("abcdef", 4), "abc…");
    assert_eq!(truncate("abc", 0), "…");
}

#[test]
fn global_options_are_taken_from_anywhere() {
    let (options, invocation) = parse_global_options(&args(&[
        "runs", "--cache", "/c.json", "list", "--history", "10", "--once", "--interval", "0.25",
    ]))
    .unwrap();
    assert_eq!(options.cache, "/c.json");
    assert_eq!(options.history, 10);
    assert!(options.once);
    assert_eq!(options.interval.as_deref(), Some("0.25"));
    assert_eq!(options.runs_dir, "/var/lib/simaai-sentinel/runs");
    assert_eq!(options.api_socket, "/run/simaai-sentinel/api.sock");
    match invocation {
        Invocation::Command(rest) => assert_eq!(rest, args(&["runs", "list"])),
        other => panic!("unexpected {other:?}"),
    }
    let (defaults, _) = parse_global_options(&[]).unwrap();
    assert_eq!(defaults.cache, "/run/simaai-sentinel/cache.json");
    assert_eq!(defaults.history, 240);
    assert!(matches!(
        parse_global_options(&args(&["x", "--help", "--history"])).unwrap().1,
        Invocation::Help
    ));
    assert!(matches!(
        parse_global_options(&args(&["-V"])).unwrap().1,
        Invocation::Version
    ));
    assert!(matches!(
        parse_global_options(&args(&["--history", "ten"])),
        Err(CliError::BadNumber(value)) if value == "ten"
    ));
    assert!(matches!(
        parse_global_options(&args(&["--runs-dir"])),
        Err(CliError::MissingValue(flag)) if flag == "--runs-dir"
    ));
}

#[test]
fn commands_and_their_intervals() {
    assert_eq!(parse_command(&[], false).unwrap(), Command::Ops);
    assert_eq!(parse_command(&[], true).unwrap(), Command::OpsOnce);
    assert_eq!(parse_command(&args(&["export"]), false).unwrap(), Command::ExportCache);
    assert_eq!(parse_command(&args(&["export", "a"]), false).unwrap(), Command::ExportRuns);
    assert_eq!(parse_command(&args(&["metrics"]), false).unwrap(), Command::Sensors);
    assert_eq!(parse_command(&args(&["daemon"]), false).unwrap(), Command::Daemon);
    assert_eq!(
        parse_command(&args(&["bogus"]), false).unwrap_err().message(),
        "unknown command 'bogus'"
    );
    assert_eq!(interval_bounds(Command::Daemon), (2000, 500));
    assert_eq!(interval_bounds(Command::Ops), (500, 500));
    assert_eq!(interval_bounds(Command::Table), (500, 200));
}

#[test]
fn checkpoint_options() {
    match parse_checkpoint_args(&args(&["--name", "base", "--tag", "a", "--tag", "b"])).unwrap() {
        CheckpointRequest::Start { name, note, tags } => {
            assert_eq!(name, "base");
            assert_eq!(note, None);
            assert_eq!(tags, args(&["a", "b"]));
        }
        other => panic!("unexpected {other:?}"),
    }
    assert!(matches!(
        parse_checkpoint_args(&args(&["--stop"])).unwrap(),
        CheckpointRequest::Stop
    ));
    assert_eq!(
        parse_checkpoint_args(&args(&["--stop", "--note", "n"])).unwrap_err().message(),
        "--stop cannot be combined with --name, --note, or --tag"
    );
    assert_eq!(
        parse_checkpoint_args(&[]).unwrap_err().message(),
        "checkpoint requires --name NAME or --stop"
    );
    assert_eq!(
        parse_checkpoint_args(&args(&["--force"])).unwrap_err().message(),
        "unknown checkpoint option '--force'"
    );
}

#[test]
fn runs_subcommands() {
    assert!(matches!(parse_runs_args(&[]).unwrap(), RunsRequest::List));
    assert!(matches!(parse_runs_args(&args(&["show", "a"])).unwrap(), RunsRequest::Show(s) if s == "a"));
    assert!(matches!(parse_runs_args(&args(&["delete", "a"])).unwrap(), RunsRequest::Delete(s) if s == "a"));
    assert!(matches!(parse_runs_args(&args(&["clear", "--force"])).unwrap(), RunsRequest::Clear));
    assert_eq!(
        parse_runs_args(&args(&["clear"])).unwrap_err().message(),
        "clearing all completed runs is destructive; confirm with: simaai-sentinel runs clear --force"
    );
    assert_eq!(
        parse_runs_args(&args(&["show"])).unwrap_err().message(),
        "usage: simaai-sentinel runs show [RUN]"
    );
    assert_eq!(
        parse_runs_args(&args(&["purge"])).unwrap_err().message(),
        "unknown runs command 'purge'"
    );
}

#[test]
fn export_options() {
    let request = parse_export_args(&args(&["a", "--format", "csv", "b", "--output", "out.csv"])).unwrap();
    assert_eq!(request.selectors, args(&["a", "b"]));
    assert_eq!(request.format, "csv");
    assert_eq!(request.output, "out.csv");
    assert_eq!(
        parse_export_args(&args(&["--format", "csv"])).unwrap_err().message(),
        "export requires at least one RUN name or ID"
    );
    assert_eq!(
        parse_export_args(&args(&["a", "--output", "o"])).unwrap_err().message(),
        "export requires --format csv|json"
    );
    assert_eq!(
        parse_export_args(&args(&["a", "--format", "json"])).unwrap_err().message(),
        "export requires --output PATH"
    );
    assert_eq!(
        parse_export_args(&args(&["-x"])).unwrap_err().message(),
        "unknown export option '-x'"
    );
    assert_eq!(export_format("json").unwrap(), ExportFormat::Json);
    assert_eq!(
        export_format("xml").unwrap_err().message(),
        "unsupported export format 'xml'; use csv or json"
    );
}

#[test]
fn export_side_files() {
    assert_eq!(metadata_path("/tmp/cmp.csv"), "/tmp/cmp.csv.metadata.json");
    assert_eq!(metadata_path("/tmp/cmp"), "/tmp/cmp.csv.metadata.json");
    assert_eq!(temp_output_path("/tmp/cmp.csv"), "/tmp/cmp.csv.tmp");
    assert_eq!(temp_output_path("/tmp/cmp"), "/tmp/cmp..tmp");
    // A file name whose only `.` comes first has no extension.
    assert_eq!(metadata_path("/tmp/.cmp"), "/tmp/.cmp.csv.metadata.json");
    assert_eq!(temp_output_path("/tmp/a.b/c.d.e"), "/tmp/a.b/c.d.e.tmp");
}

#[test]
fn float_text_follows_f64_parsing() {
    let cases = [
        "0.25", "2", "1.", ".5", "-.5e3", "+1E-2", "1e+10", "inf", "-Infinity", "NaN", "+nan",
        "INF", "", ".", "e5", "1e", "1e+", "abc", " 1", "1 ", "1.2.3", "--1", "+", "0x10", "1_000",
        "infinit", "nan1", "1.5e3.2", "١", "00.00e00",
    ];
    for case in cases {
        assert_eq!(is_float_text(case), case.parse::<f64>().is_ok(), "{case:?}");
    }
}

#[test]
fn a_bad_interval_stops_the_scan() {
    assert!(matches!(
        parse_global_options(&args(&["--interval", "abc", "--help"])),
        Err(CliError::BadFloat(value)) if value == "abc"
    ));
    assert!(matches!(
        parse_global_options(&args(&["--interval", "abc", "--history", "x"])),
        Err(CliError::BadFloat(value)) if value == "abc"
    ));
    assert!(matches!(
        parse_global_options(&args(&["--help", "--interval", "abc"])).unwrap().1,
        Invocation::Help
    ));
    let (options, _) = parse_global_options(&args(&["--interval", "1e-1"])).unwrap();
    assert_eq!(options.interval.as_deref(), Some("1e-1"));
}
