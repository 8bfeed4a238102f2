use grammar_pipeline::catalog::{filter_entries, CatalogEntry, RunConfiguration};
use grammar_pipeline::codec::merge_registry_text;
use grammar_pipeline::coordinator::{run_exit_code, tally_outcomes, validate_pool_size, RunCounters};
use grammar_pipeline::executor::{
    artifact_path, fetch_destination, job_step, metadata_file_name, primary_source_name,
    secondary_source_name, JobEvent, JobOutcome, JobState,
};

fn config() -> RunConfiguration {
    RunConfiguration {
        output_dir: "./shared_libs/".to_string(),
        source_dir: "./shared_libs_src/".to_string(),
        registry_path: "./config.json".to_string(),
        pool_size: 10,
        allow_list: Vec::new(),
    }
}

fn entry(name: &str, locator: &str) -> CatalogEntry {
    CatalogEntry {
        name: name.to_string(),
        source_locator: locator.to_string(),
    }
}

#[test]
fn well_known_file_names() {
    assert_eq!(primary_source_name(), "parser.c");
    assert_eq!(secondary_source_name(), "scanner.c");
    assert_eq!(metadata_file_name(), "tree-sitter.json");
}

#[test]
fn paths_are_namespaced_by_name() {
    let c = config();
    let e = entry("demo", "locator-ok");
    assert_eq!(fetch_destination(&c, &e), "./shared_libs_src/demo");
    assert_eq!(artifact_path(&c, &e), "./shared_libs/libdemo.so");
}

#[test]
fn fetch_failure_ends_the_job_with_its_diagnostics() {
    let c = config();
    let e = entry("bad", "locator-404");
    let next = job_step(
        &e,
        &c,
        JobState::Fetching,
        JobEvent::FetchFinished {
            success: false,
            diagnostics: "repository not found".to_string(),
        },
    );
    match next {
        JobState::Done {
            outcome: JobOutcome::Failure { stage, message },
        } => {
            assert_eq!(stage, grammar_pipeline::executor::Stage::Fetch);
            assert_eq!(message, "failed to fetch locator-404: repository not found");
        }
        _ => panic!("fetch failure must end the job"),
    }
}

#[test]
fn missing_primary_source_fails_at_discover() {
    let c = config();
    let e = entry("demo", "locator-ok");
    let s1 = job_step(
        &e,
        &c,
        JobState::Fetching,
        JobEvent::FetchFinished {
            success: true,
            diagnostics: String::new(),
        },
    );
    assert!(matches!(s1, JobState::Discovering));
    let s2 = job_step(
        &e,
        &c,
        s1,
        JobEvent::DiscoverFinished {
            primary: None,
            secondary: Some("./shared_libs_src/demo/scanner.c".to_string()),
        },
    );
    match s2 {
        JobState::Done {
            outcome: JobOutcome::Failure { stage, message },
        } => {
            assert_eq!(stage, grammar_pipeline::executor::Stage::Discover);
            assert_eq!(
                message,
                "required file parser.c not found in the tree fetched for demo"
            );
        }
        _ => panic!("a tree without parser.c must fail at discover"),
    }
}

#[test]
fn missing_secondary_source_still_compiles() {
    let c = config();
    let e = entry("demo", "locator-ok");
    let s = job_step(
        &e,
        &c,
        JobState::Discovering,
        JobEvent::DiscoverFinished {
            primary: Some("./shared_libs_src/demo/src/parser.c".to_string()),
            secondary: None,
        },
    );
    match &s {
        JobState::Compiling { primary, secondary } => {
            assert_eq!(primary, "./shared_libs_src/demo/src/parser.c");
            assert!(secondary.is_none());
        }
        _ => panic!("a missing optional file must not stop the job"),
    }
    let s2 = job_step(
        &e,
        &c,
        s,
        JobEvent::CompileFinished {
            success: true,
            diagnostics: String::new(),
        },
    );
    assert!(matches!(s2, JobState::Merging { .. }));
}

#[test]
fn successful_run_of_one_job_end_to_end() {
    let c = config();
    let e = entry("demo", "locator-ok");
    let s1 = job_step(
        &e,
        &c,
        JobState::Fetching,
        JobEvent::FetchFinished {
            success: true,
            diagnostics: String::new(),
        },
    );
    let s2 = job_step(
        &e,
        &c,
        s1,
        JobEvent::DiscoverFinished {
            primary: Some("./shared_libs_src/demo/parser.c".to_string()),
            secondary: None,
        },
    );
    let artifact = match &s2 {
        JobState::Compiling { .. } => artifact_path(&c, &e),
        _ => panic!("expected to be compiling"),
    };
    let s3 = job_step(
        &e,
        &c,
        s2,
        JobEvent::CompileFinished {
            success: true,
            diagnostics: String::new(),
        },
    );
    match &s3 {
        JobState::Merging { artifact_path } => {
            assert_eq!(artifact_path, "./shared_libs/libdemo.so")
        }
        _ => panic!("expected to be merging"),
    }
    let metadata = "{\"grammars\":[{\"name\":\"demo\",\"file-types\":[\"demo\"]}]}";
    let registry = merge_registry_text(None, metadata, &artifact).unwrap();
    assert_eq!(
        registry,
        "{\"known_languages\":{\"demo\":{\"extension\":\"demo\",\"path\":\"./shared_libs/libdemo.so\"}}}"
    );
    let s4 = job_step(&e, &c, s3, JobEvent::MergeFinished);
    let outcome = match s4 {
        JobState::Done { outcome } => outcome,
        _ => panic!("expected the job to be done"),
    };
    match &outcome {
        JobOutcome::Success { artifact_path } => {
            assert_eq!(artifact_path, "./shared_libs/libdemo.so")
        }
        _ => panic!("expected success"),
    }
    let summary = tally_outcomes(&vec![outcome]);
    assert_eq!(summary.completed, 1);
    assert_eq!(summary.failed, 0);
}

#[test]
fn failed_fetch_counts_as_completed_and_failed() {
    let c = config();
    let e = entry("bad", "locator-404");
    let s = job_step(
        &e,
        &c,
        JobState::Fetching,
        JobEvent::FetchFinished {
            success: false,
            diagnostics: "404".to_string(),
        },
    );
    let outcome = match s {
        JobState::Done { outcome } => outcome,
        _ => panic!("expected the job to be done"),
    };
    assert!(outcome.is_failure());
    let summary = tally_outcomes(&vec![outcome]);
    assert_eq!(summary.completed, 1);
    assert_eq!(summary.failed, 1);
}

#[test]
fn tally_counts_mixed_outcomes() {
    let outcomes = vec![
        JobOutcome::Success {
            artifact_path: "a".to_string(),
        },
        JobOutcome::Failure {
            stage: grammar_pipeline::executor::Stage::Compile,
            message: "boom".to_string(),
        },
        JobOutcome::Success {
            artifact_path: "b".to_string(),
        },
    ];
    let summary = tally_outcomes(&outcomes);
    assert_eq!(summary.completed, 3);
    assert_eq!(summary.failed, 1);
}

#[test]
fn counters_move_once_per_job() {
    let mut c = RunCounters::new();
    c.record(false);
    c.record(true);
    c.record(false);
    let s = c.summary();
    assert_eq!(s.completed, 3);
    assert_eq!(s.failed, 1);
}

#[test]
fn empty_allow_list_keeps_every_entry() {
    let entries = vec![entry("a", "la"), entry("b", "lb")];
    let kept = filter_entries(entries, &Vec::new());
    assert_eq!(kept.len(), 2);
    assert_eq!(kept[0].name, "a");
    assert_eq!(kept[1].name, "b");
}

#[test]
fn allow_list_keeps_only_named_entries_in_order() {
    let entries = vec![entry("a", "la"), entry("b", "lb"), entry("c", "lc")];
    let allow = vec!["c".to_string(), "a".to_string()];
    let kept = filter_entries(entries, &allow);
    assert_eq!(kept.len(), 2);
    assert_eq!(kept[0].name, "a");
    assert_eq!(kept[1].name, "c");
}

#[test]
fn pool_size_zero_is_a_configuration_error() {
    assert!(!validate_pool_size(0));
    assert!(validate_pool_size(1));
    assert!(validate_pool_size(10));
}

#[test]
fn only_a_catalog_failure_changes_the_exit_code() {
    assert_eq!(run_exit_code(true), 0);
    assert_eq!(run_exit_code(false), 1);
}
