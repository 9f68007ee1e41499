use rbfmt::cli::{decide_action, is_ruby_extension, need_file_separator, Action, FormatTarget};
use rbfmt::config::{
    config_of_dir, config_of_path, first_config_step, next_config_step, parent_dir, Config, ConfigStep,
    FormatConfig,
};
use rbfmt::error::AppError;
use rbfmt::FormatResult;

#[test]
fn default_line_width_is_100() {
    assert_eq!(FormatConfig::default().line_width, 100);
    assert_eq!(Config::default().format.line_width, 100);
}

#[test]
fn config_search_starts_in_the_directory_of_the_file() {
    match config_of_path("/a/b/c.rb") {
        ConfigStep::Probe { dir, candidate } => {
            assert_eq!(dir, "/a/b");
            assert_eq!(candidate, "/a/b/.rbfmt.yml");
        }
        other => panic!("unexpected step {:?}", other),
    }
}

#[test]
fn config_search_of_a_bare_root_uses_defaults() {
    assert!(matches!(config_of_path("/"), ConfigStep::UseDefault));
    assert!(matches!(first_config_step(None), ConfigStep::UseDefault));
}

#[test]
fn config_search_loads_an_existing_file() {
    match next_config_step("/a/.rbfmt.yml".to_string(), true, Some("/".to_string())) {
        ConfigStep::Load { path } => assert_eq!(path, "/a/.rbfmt.yml"),
        other => panic!("unexpected step {:?}", other),
    }
}

#[test]
fn config_search_goes_up_to_the_parent() {
    match next_config_step("/a/b/.rbfmt.yml".to_string(), false, parent_dir("/a/b")) {
        ConfigStep::Probe { dir, candidate } => {
            assert_eq!(dir, "/a");
            assert_eq!(candidate, "/a/.rbfmt.yml");
        }
        other => panic!("unexpected step {:?}", other),
    }
    assert!(matches!(next_config_step("/.rbfmt.yml".to_string(), false, parent_dir("/")), ConfigStep::UseDefault));
}

#[test]
fn config_of_dir_probes_that_directory() {
    match config_of_dir("proj") {
        ConfigStep::Probe { dir, candidate } => {
            assert_eq!(dir, "proj");
            assert_eq!(candidate, "proj/.rbfmt.yml");
        }
        other => panic!("unexpected step {:?}", other),
    }
}

#[test]
fn help_without_arguments() {
    match decide_action(false, false, vec![], "Usage: rbfmt".to_string()) {
        Action::Help(usage) => assert!(usage.starts_with("Usage:")),
        other => panic!("unexpected action {:?}", other),
    }
    assert!(matches!(decide_action(true, false, vec!["a.rb".to_string()], "u".to_string()), Action::Help(_)));
}

#[test]
fn a_dash_reads_the_standard_input() {
    match decide_action(false, false, vec!["a.rb".to_string(), "-".to_string()], "u".to_string()) {
        Action::Format(request) => {
            assert!(!request.write_to_file);
            assert!(matches!(request.target, FormatTarget::Stdin));
        }
        other => panic!("unexpected action {:?}", other),
    }
}

#[test]
fn paths_are_formatted_in_place_with_write() {
    match decide_action(false, true, vec!["a.rb".to_string(), "lib".to_string()], "u".to_string()) {
        Action::Format(request) => {
            assert!(request.write_to_file);
            match request.target {
                FormatTarget::Files { paths } => assert_eq!(paths, vec!["a.rb".to_string(), "lib".to_string()]),
                FormatTarget::Stdin => panic!("stdin"),
            }
        }
        other => panic!("unexpected action {:?}", other),
    }
}

#[test]
fn ruby_files_and_separators() {
    assert!(is_ruby_extension("rb"));
    assert!(!is_ruby_extension("rbs"));
    assert!(!need_file_separator(&vec!["a".to_string()]));
    assert!(need_file_separator(&vec!["a".to_string(), "b".to_string()]));
}

#[test]
fn app_error_messages() {
    let e = AppError::ParseFailed(vec!["[0,1] bad".to_string(), "[2,3] worse".to_string()]);
    assert_eq!(e.to_message(), "parse error:\n[0,1] bad\n[2,3] worse\n");
    assert_eq!(AppError::Misc("oops".to_string()).to_message(), "oops");
}

#[test]
fn meaning_diff_only_when_meanings_differ() {
    let same = FormatResult::new("x\n".to_string(), "m".to_string(), "m".to_string());
    assert!(same.meaning_diff.is_none());
    assert!(same.is_meaning_kept());
    let changed = FormatResult::new("x\n".to_string(), "m1".to_string(), "m2".to_string());
    assert_eq!(changed.meaning_diff, Some(("m1".to_string(), "m2".to_string())));
    assert_eq!(changed.code, "x\n");
}

#[test]
fn config_search_of_paths_without_a_parent_uses_defaults() {
    assert!(matches!(config_of_path(""), ConfigStep::UseDefault));
    assert!(matches!(parent_dir("/"), None));
}

#[test]
fn config_search_of_a_bare_file_name_probes_the_current_directory() {
    match config_of_path("x.rb") {
        ConfigStep::Probe { dir, candidate } => {
            assert_eq!(dir, "");
            assert_eq!(candidate, ".rbfmt.yml");
        }
        other => panic!("unexpected step {:?}", other),
    }
    assert_eq!(parent_dir("/x"), Some("/".to_string()));
    assert_eq!(parent_dir("a/b"), Some("a".to_string()));
}

#[test]
fn command_line_flags() {
    match rbfmt::cli::parse_args(vec![]) {
        Ok(Action::Help(usage)) => assert!(usage.starts_with("Usage: rbfmt [options] [path/-]...")),
        other => panic!("unexpected {:?}", other),
    }
    assert!(matches!(rbfmt::cli::parse_args(vec!["-h".to_string(), "a.rb".to_string()]), Ok(Action::Help(_))));
    match rbfmt::cli::parse_args(vec!["-w".to_string(), "a.rb".to_string()]) {
        Ok(Action::Format(request)) => {
            assert!(request.write_to_file);
            match request.target {
                FormatTarget::Files { paths } => assert_eq!(paths, vec!["a.rb".to_string()]),
                other => panic!("unexpected {:?}", other),
            }
        }
        other => panic!("unexpected {:?}", other),
    }
    assert_eq!(rbfmt::cli::parse_args(vec!["--bogus".to_string()]).unwrap_err(), "Unrecognized option: 'bogus'");
}

#[test]
fn print_help_when_no_args_provided() {
    match rbfmt::cli::parse_args(vec![]) {
        Ok(Action::Help(output)) => assert!(output.starts_with("Usage:")),
        other => panic!("unexpected {:?}", other),
    }
}
