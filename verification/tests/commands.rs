use swift_precompiled::commands::{
    plan_clean, plan_init, plan_precompile, CleanPlan, InitPlan, PrecompilePlan,
};
use swift_precompiled::report::{format_elapsed, shows_hint};
use swift_precompiled::roots::{join_roots, split_roots, ROOT_SEPARATOR};
use swift_precompiled::run::{Fault, FaultKind};

fn strings(items: &[&str]) -> Vec<String> {
    items.iter().map(|s| s.to_string()).collect()
}

#[test]
fn clean_fails_where_nothing_is_there() {
    let plan = plan_clean(false, false);
    assert_eq!(plan, CleanPlan::Missing);
    assert_ne!(plan.exit_code(), 0);
    assert_eq!(plan.exit_code(), 1);
}

#[test]
fn clean_removes_the_file_that_is_there() {
    let plan = plan_clean(false, true);
    assert_eq!(plan, CleanPlan::Remove);
    assert_eq!(plan.exit_code(), 0);
}

#[test]
fn clean_leaves_a_directory_alone() {
    assert_eq!(plan_clean(true, true), CleanPlan::Conflict);
    assert_eq!(plan_clean(true, false), CleanPlan::Conflict);
    assert_eq!(plan_clean(true, true).exit_code(), 0);
}

#[test]
fn init_fails_where_a_configuration_is_there() {
    assert_eq!(plan_init(true), InitPlan::Exists);
    assert_eq!(plan_init(true).exit_code(), 1);
    assert_eq!(plan_init(false), InitPlan::Create);
    assert_eq!(plan_init(false).exit_code(), 0);
}

#[test]
fn precompile_stops_where_the_output_path_is_a_directory() {
    assert_eq!(plan_precompile(true), PrecompilePlan::Conflict);
    assert_eq!(plan_precompile(false), PrecompilePlan::Scan);
}

#[test]
fn split_roots_cuts_at_every_colon() {
    assert_eq!(ROOT_SEPARATOR, ':');
    assert_eq!(split_roots("./"), strings(&["./"]));
    assert_eq!(split_roots("a:b"), strings(&["a", "b"]));
    assert_eq!(split_roots("/x/y:/z:rel"), strings(&["/x/y", "/z", "rel"]));
    assert_eq!(split_roots(""), strings(&[""]));
    assert_eq!(split_roots(":"), strings(&["", ""]));
    assert_eq!(split_roots("a::b:"), strings(&["a", "", "b", ""]));
    assert_eq!(split_roots("é:→"), strings(&["é", "→"]));
}

#[test]
fn split_roots_agrees_with_std() {
    for list in ["", ":", "a", "a:b", ":a:", "a::b", "/long/path:/other/path:"] {
        let expected: Vec<String> = list.split(':').map(|s| s.to_string()).collect();
        assert_eq!(split_roots(list), expected);
    }
}

#[test]
fn join_roots_puts_a_colon_between_directories() {
    assert_eq!(join_roots(&strings(&[])), "");
    assert_eq!(join_roots(&strings(&["/a"])), "/a");
    assert_eq!(join_roots(&strings(&["/a", "/b", "c"])), "/a:/b:c");
    assert_eq!(join_roots(&strings(&["", ""])), ":");
}

#[test]
fn joining_the_parts_of_a_list_gives_the_list() {
    for list in ["", ":", "a", "a:b", ":a:", "a::b", "/long/path:/other/path:"] {
        assert_eq!(join_roots(&split_roots(list)), list);
    }
}

#[test]
fn elapsed_time_is_in_milliseconds_below_one_second() {
    assert_eq!(format_elapsed(0, 0), "0ms");
    assert_eq!(format_elapsed(42, 0), "42ms");
    assert_eq!(format_elapsed(999, 0), "999ms");
    assert_eq!(format_elapsed(1000, 1), "1s");
    assert_eq!(format_elapsed(1999, 1), "1s");
    assert_eq!(format_elapsed(61_500, 61), "61s");
    assert_eq!(format_elapsed(5000, 6), "6s");
}

#[test]
fn the_hint_is_left_out_of_dry_runs_and_script_output() {
    assert!(shows_hint(false, false));
    assert!(!shows_hint(true, false));
    assert!(!shows_hint(false, true));
    assert!(!shows_hint(true, true));
}

#[test]
fn a_fault_names_file_line_and_path() {
    let fault = Fault {
        kind: FaultKind::Missing,
        source_file: "/src/A.swift".to_string(),
        line_number: 12,
        path: "/src/gone.txt".to_string(),
    };
    assert_eq!(
        fault.script_line(),
        "/src/A.swift:12: error : precompiledIncludeStr call references non-existent file /src/gone.txt"
    );
    assert_eq!(
        fault.description(),
        "precompileIncludeStr call at line 12 in /src/A.swift references non-existent file /src/gone.txt"
    );
}
