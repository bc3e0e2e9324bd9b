use cower_rs::config::{Config, ConfigError, OpMask, ParseStep, SearchBy, SortKey, SortOrder};
use cower_rs::ops::{allow_regex, check_operation_combinations, regex_failure, CowerError};
use cower_rs::strutil::parse_u64;
use cower_rs::strutil::{i64_to_string, u64_to_string};

fn fresh() -> Config {
    Config::new(SortKey::Name)
}

#[test]
fn defaults_match_the_documented_values() {
    let c = fresh();
    assert_eq!(c.aur_domain, "aur.archlinux.org");
    assert!(matches!(c.search_by, SearchBy::NameDesc));
    assert_eq!(c.working_dir, "");
    assert_eq!(c.delim, "  ");
    assert_eq!(c.format, "");
    assert!(!c.opmask.search && !c.opmask.info && !c.opmask.download && !c.opmask.update);
    assert!(!c.color);
    assert!(matches!(c.sortorder, SortOrder::Forward));
    assert!(matches!(c.sort_key, SortKey::Name));
    assert!(!c.force && !c.getdeps && !c.literal && !c.quiet && !c.skiprepos && !c.srcinfo);
    assert_eq!(c.maxthreads, 10);
    assert_eq!(c.timeout, 10);
    assert!(c.ignore_pkgs.is_empty() && c.ignore_repos.is_empty() && c.args.is_empty());
}

#[test]
fn set_color_handles_the_three_tokens() {
    let mut c = fresh();
    assert!(c.set_color("always", false).is_ok());
    assert!(c.color);
    assert!(c.set_color("never", true).is_ok());
    assert!(!c.color);
    assert!(c.set_color(" auto ", true).is_ok());
    assert!(c.color);
    assert!(c.set_color("auto", false).is_ok());
    assert!(!c.color);
}

#[test]
fn set_color_rejects_other_tokens() {
    let mut c = fresh();
    match c.set_color("sometimes", true) {
        Err(ConfigError::InvalidColorArg { val }) => assert_eq!(val, "sometimes"),
        other => panic!("expected an invalid-color fault, got {:?}", other),
    }
}

#[test]
fn set_search_by_maps_the_three_tokens() {
    let mut c = fresh();
    assert!(c.set_search_by("maintainer").is_ok());
    assert!(matches!(c.search_by, SearchBy::Maintainer));
    assert!(c.set_search_by("name-desc").is_ok());
    assert!(matches!(c.search_by, SearchBy::NameDesc));
    assert!(c.set_search_by(" name ").is_ok());
    assert!(matches!(c.search_by, SearchBy::Name));
}

#[test]
fn set_search_by_rejects_other_tokens() {
    let mut c = fresh();
    match c.set_search_by("description") {
        Err(ConfigError::InvalidSearchByArg { val }) => assert_eq!(val, "description"),
        other => panic!("expected an invalid-search-field fault, got {:?}", other),
    }
}

#[test]
fn parse_operations_records_flags_and_the_maintainer_shortcut() {
    let mut c = fresh();
    c.parse_operations(false, true, false, true, true, false);
    assert!(c.opmask.update && c.opmask.download && c.getdeps);
    assert!(!c.opmask.search && !c.opmask.info);

    let mut m = fresh();
    m.parse_operations(false, false, false, false, false, true);
    assert!(m.opmask.search);
    assert!(matches!(m.search_by, SearchBy::Maintainer));
}

#[test]
fn info_and_search_together_are_rejected() {
    let mut c = fresh();
    c.opmask = OpMask { search: true, info: true, download: false, update: false };
    assert!(matches!(
        check_operation_combinations(&c),
        Err(CowerError::InvalidOperation)
    ));
}

#[test]
fn update_with_download_is_accepted() {
    let mut c = fresh();
    c.opmask = OpMask { search: false, info: false, download: true, update: true };
    assert!(check_operation_combinations(&c).is_ok());
}

#[test]
fn info_alone_is_accepted() {
    let mut c = fresh();
    c.opmask = OpMask { search: false, info: true, download: false, update: false };
    assert!(check_operation_combinations(&c).is_ok());
}

#[test]
fn an_empty_selector_is_rejected() {
    let c = fresh();
    assert!(matches!(
        check_operation_combinations(&c),
        Err(CowerError::InvalidOperation)
    ));
}

#[test]
fn regexes_are_vetted_only_for_non_literal_searches() {
    let mut c = fresh();
    c.opmask.search = true;
    c.search_by = SearchBy::NameDesc;
    assert!(allow_regex(&c));
    c.literal = true;
    assert!(!allow_regex(&c));
    c.literal = false;
    c.search_by = SearchBy::Maintainer;
    assert!(!allow_regex(&c));
}

#[test]
fn bad_regexes_are_reported_joined() {
    let args = vec![String::from("("), String::from("ok.*"), String::from("[")];
    match regex_failure(&args) {
        Some(CowerError::InvalidRegexes { regex }) => assert_eq!(regex, "(\n["),
        other => panic!("expected an invalid-regex fault, got {:?}", other),
    }
    let fine = vec![String::from("ok.*")];
    assert!(regex_failure(&fine).is_none());
}

fn lines(text: &str) -> Vec<String> {
    text.lines().map(String::from).collect()
}

#[test]
fn config_lines_apply_in_order() {
    let mut c = fresh();
    let mut warnings: Vec<String> = Vec::new();
    let file = lines(
        "# a comment\n\
         \n\
         IgnorePkg = linux\n\
         IgnorePkg = pacman\n\
         IgnoreRepo = testing\n\
         MaxThreads = 4\n\
         ConnectTimeout = 60\n\
         Color = always\n\
         NewFangledKey = whatever\n\
         not a key value line\n",
    );
    let step = c.parse_config_lines(&file, 0, false, &mut warnings);
    assert!(matches!(step, Ok(ParseStep::Done)));
    assert_eq!(c.ignore_pkgs, vec!["linux", "pacman"]);
    assert_eq!(c.ignore_repos, vec!["testing"]);
    assert_eq!(c.maxthreads, 4);
    assert_eq!(c.timeout, 60);
    assert!(c.color);
    assert_eq!(warnings, vec!["NewFangledKey"]);
}

#[test]
fn target_dir_pauses_for_the_directory_check() {
    let mut c = fresh();
    let mut warnings: Vec<String> = Vec::new();
    let file = lines("TargetDir = /tmp\nMaxThreads = 2\n");
    match c.parse_config_lines(&file, 0, false, &mut warnings) {
        Ok(ParseStep::CheckDir { val, next_line }) => {
            assert_eq!(val, "/tmp");
            assert_eq!(next_line, 1);
            assert_eq!(c.working_dir, "/tmp");
            assert!(c.confirm_target_dir(&val, true).is_ok());
            let rest = c.parse_config_lines(&file, next_line, false, &mut warnings);
            assert!(matches!(rest, Ok(ParseStep::Done)));
            assert_eq!(c.maxthreads, 2);
        },
        other => panic!("expected a directory check, got {:?}", other),
    }
}

#[test]
fn a_missing_target_dir_fails_the_load() {
    let c = fresh();
    match c.confirm_target_dir("nowhere", false) {
        Err(ConfigError::TargetDirNotDir { path }) => assert_eq!(path, "nowhere"),
        other => panic!("expected a not-a-directory fault, got {:?}", other),
    }
}

#[test]
fn a_relative_target_dir_fails_the_load() {
    let mut c = fresh();
    let mut warnings: Vec<String> = Vec::new();
    let file = lines("TargetDir = relative/path\n");
    match c.parse_config_lines(&file, 0, false, &mut warnings) {
        Ok(ParseStep::CheckDir { val, .. }) => {
            assert_eq!(c.working_dir, "relative/path");
            match c.confirm_target_dir(&val, true) {
                Err(ConfigError::TargetDirNotAbsolute { path }) => {
                    assert_eq!(path, "relative/path")
                },
                other => panic!("expected a not-absolute fault, got {:?}", other),
            }
        },
        other => panic!("expected a directory check, got {:?}", other),
    }
}

#[test]
fn a_bad_max_threads_value_aborts_the_load() {
    let mut c = fresh();
    let mut warnings: Vec<String> = Vec::new();
    let file = lines("MaxThreads = many\n");
    match c.parse_config_lines(&file, 0, false, &mut warnings) {
        Err(ConfigError::InvalidMaxThreadArg { val }) => assert_eq!(val, "many"),
        other => panic!("expected an invalid-thread-count fault, got {:?}", other),
    }
}

#[test]
fn a_bad_timeout_value_aborts_the_load() {
    let mut c = fresh();
    let mut warnings: Vec<String> = Vec::new();
    let file = lines("ConnectTimeout = -3\n");
    match c.parse_config_lines(&file, 0, false, &mut warnings) {
        Err(ConfigError::InvalidConnectTimeoutArg { val }) => assert_eq!(val, "-3"),
        other => panic!("expected an invalid-timeout fault, got {:?}", other),
    }
}

#[test]
fn parse_u64_accepts_what_the_standard_parser_accepts() {
    assert_eq!(parse_u64("10"), Some(10));
    assert_eq!(parse_u64("+7"), Some(7));
    assert_eq!(parse_u64("0"), Some(0));
    assert_eq!(parse_u64("18446744073709551615"), Some(u64::MAX));
    assert_eq!(parse_u64("18446744073709551616"), None);
    assert_eq!(parse_u64(""), None);
    assert_eq!(parse_u64("+"), None);
    assert_eq!(parse_u64("1x"), None);
    assert_eq!(parse_u64("-1"), None);
}

#[test]
fn decimal_rendering_round_trips() {
    assert_eq!(u64_to_string(0), "0");
    assert_eq!(u64_to_string(905), "905");
    assert_eq!(u64_to_string(u64::MAX), "18446744073709551615");
    assert_eq!(i64_to_string(-42), "-42");
    assert_eq!(i64_to_string(i64::MIN), "-9223372036854775808");
}
