use rp::cli::Cli;
use rp::commands::{
    cargo_new_args, clean_plan, editor_open_args, parse_selection, select_command, CleanOutcome,
    Command,
};
use rp::config::{get_next_index, get_playground_dir, get_project_type_dir, ProjectType};
use rp::errors::RpError;
use rp::registry::{collect_projects, filter, generate_project_name, list_category, FsEntry,
    ProjectInfo};

fn dir(name: &str) -> FsEntry {
    FsEntry { name: name.to_string(), is_dir: true }
}

fn file(name: &str) -> FsEntry {
    FsEntry { name: name.to_string(), is_dir: false }
}

fn names(v: &[&str]) -> Vec<String> {
    v.iter().map(|s| s.to_string()).collect()
}

#[test]
fn test_project_type_dir_name() {
    assert_eq!(ProjectType::Temp.dir_name(), "temp");
    assert_eq!(ProjectType::Keep.dir_name(), "keep");
}

#[test]
fn next_index_counts_past_a_full_run() {
    let v = names(&["p000_x", "p001_x", "p002_x", "notes.txt", "target"]);
    assert_eq!(get_next_index(&v), 3);
}

#[test]
fn next_index_ignores_order_and_malformed_names() {
    let v = names(&["junk", "p07_short", "p105_alpha", "q001_x", "p002_beta"]);
    assert_eq!(get_next_index(&v), 106);
}

#[test]
fn next_index_of_empty_listing_is_one() {
    let v: Vec<String> = Vec::new();
    assert_eq!(get_next_index(&v), 1);
}

#[test]
fn next_index_after_largest_prefix() {
    let v = names(&["p999_x"]);
    assert_eq!(get_next_index(&v), 1000);
}

#[test]
fn list_category_sorts_and_keeps_directories_only() {
    let entries = vec![dir("beta"), file("zzz.txt"), dir("alpha"), dir("gamma")];
    let listed = list_category(&entries);
    assert_eq!(listed, names(&["alpha", "beta", "gamma"]));
}

#[test]
fn list_category_keeps_duplicate_names() {
    let entries = vec![dir("same"), dir("other"), dir("same")];
    let listed = list_category(&entries);
    assert_eq!(listed, names(&["other", "same", "same"]));
}

#[test]
fn list_category_of_empty_listing_is_empty() {
    let entries: Vec<FsEntry> = Vec::new();
    assert_eq!(list_category(&entries).len(), 0);
}

fn project(name: &str, t: ProjectType) -> ProjectInfo {
    ProjectInfo { name: name.to_string(), project_type: t }
}

fn project_names(v: &Vec<ProjectInfo>) -> Vec<String> {
    v.iter().map(|p| p.name.clone()).collect()
}

#[test]
fn filter_with_empty_keyword_keeps_everything() {
    let entries = vec![
        project("p001_b", ProjectType::Temp),
        project("p002_a", ProjectType::Temp),
        project("web", ProjectType::Keep),
    ];
    let kept = filter(&entries, "");
    assert_eq!(project_names(&kept), names(&["p001_b", "p002_a", "web"]));
}

#[test]
fn filter_keeps_exactly_the_matching_subsequence() {
    let entries = vec![
        project("p001_web", ProjectType::Temp),
        project("p002_cli", ProjectType::Temp),
        project("webapp", ProjectType::Keep),
        project("tool", ProjectType::Keep),
    ];
    let kept = filter(&entries, "web");
    assert_eq!(project_names(&kept), names(&["p001_web", "webapp"]));
    assert_eq!(kept[0].project_type, ProjectType::Temp);
    assert_eq!(kept[1].project_type, ProjectType::Keep);
}

#[test]
fn filter_is_case_sensitive() {
    let entries = vec![project("Web", ProjectType::Temp), project("web", ProjectType::Temp)];
    let kept = filter(&entries, "web");
    assert_eq!(project_names(&kept), names(&["web"]));
}

#[test]
fn open_scenario_filters_across_both_categories() {
    let temp = vec![dir("p001_foobar"), dir("p002_baz")];
    let keep = vec![dir("keepfoo")];
    let all = collect_projects(&temp, &keep);
    let kept = filter(&all, "foo");
    assert_eq!(project_names(&kept), names(&["p001_foobar", "keepfoo"]));
    assert_eq!(kept[0].project_type, ProjectType::Temp);
    assert_eq!(kept[1].project_type, ProjectType::Keep);
}

#[test]
fn collect_projects_orders_temp_before_keep_each_sorted() {
    let temp = vec![dir("p002_b"), dir("p001_a"), file("junk")];
    let keep = vec![dir("zeta"), dir("alpha")];
    let all = collect_projects(&temp, &keep);
    assert_eq!(project_names(&all), names(&["p001_a", "p002_b", "alpha", "zeta"]));
    assert_eq!(all[0].project_type, ProjectType::Temp);
    assert_eq!(all[1].project_type, ProjectType::Temp);
    assert_eq!(all[2].project_type, ProjectType::Keep);
    assert_eq!(all[3].project_type, ProjectType::Keep);
}

#[test]
fn kept_project_uses_the_given_name_verbatim() {
    let existing = names(&["p001_x", "whatever"]);
    let n = generate_project_name(Some("my-project".to_string()), &existing, true);
    assert_eq!(n, "my-project");
}

#[test]
fn temporary_project_gets_numbered_prefix() {
    let existing = names(&["p004_older"]);
    let n = generate_project_name(Some("demo".to_string()), &existing, false);
    assert_eq!(n, "p005_demo");
}

#[test]
fn temporary_project_prefix_widens_past_three_digits() {
    let existing = names(&["p999_x"]);
    let n = generate_project_name(Some("y".to_string()), &existing, false);
    assert_eq!(n, "p1000_y");
}

#[test]
fn generated_names_number_strictly_increases() {
    let mut existing: Vec<String> = Vec::new();
    let first = generate_project_name(None, &existing, false);
    assert_eq!(&first[..5], "p001_");
    existing.push(first);
    let second = generate_project_name(None, &existing, false);
    assert_eq!(&second[..5], "p002_");
}

#[test]
fn clean_of_missing_directory_does_nothing() {
    assert_eq!(clean_plan(false, 0), CleanOutcome::MissingDir);
}

#[test]
fn clean_of_empty_directory_reports_already_empty() {
    assert_eq!(clean_plan(true, 0), CleanOutcome::AlreadyEmpty);
}

#[test]
fn clean_of_three_entries_removes_and_leaves_empty_listing() {
    assert_eq!(clean_plan(true, 3), CleanOutcome::Remove { count: 3 });
    let recreated: Vec<FsEntry> = Vec::new();
    assert_eq!(list_category(&recreated).len(), 0);
}

#[test]
fn selection_accepts_numbers_in_range() {
    assert_eq!(parse_selection("1", 3), Ok(0));
    assert_eq!(parse_selection("3", 3), Ok(2));
    assert_eq!(parse_selection("12", 20), Ok(11));
}

#[test]
fn selection_rejects_out_of_range_and_junk() {
    assert_eq!(parse_selection("0", 3), Err(RpError::Validation));
    assert_eq!(parse_selection("4", 3), Err(RpError::Validation));
    assert_eq!(parse_selection("two", 3), Err(RpError::Validation));
    assert_eq!(parse_selection("", 3), Err(RpError::Validation));
    assert_eq!(parse_selection("99999999999999999999", 3), Err(RpError::Validation));
}

#[test]
fn scaffold_arguments_suppress_version_control_by_default() {
    let args = cargo_new_args("/tmp/p/p001_demo", false);
    assert_eq!(args, names(&["new", "/tmp/p/p001_demo", "--vcs", "none"]));
    let with_git = cargo_new_args("/tmp/p/p001_demo", true);
    assert_eq!(with_git, names(&["new", "/tmp/p/p001_demo"]));
}

#[test]
fn editor_arguments_jump_to_the_entry_file() {
    let args = editor_open_args("/home/u/rust-playground/temp/p001_demo");
    assert_eq!(
        args,
        names(&[
            "/home/u/rust-playground/temp/p001_demo",
            "--goto",
            "/home/u/rust-playground/temp/p001_demo/src/main.rs:1",
        ])
    );
}

#[test]
fn command_priority_is_list_clean_open_create() {
    let cli = |list: bool, clean: bool, open: bool| Cli {
        name: None,
        keep: false,
        list,
        clean,
        git: false,
        open,
    };
    assert_eq!(select_command(&cli(true, true, true)), Command::List);
    assert_eq!(select_command(&cli(false, true, true)), Command::Clean);
    assert_eq!(select_command(&cli(false, false, true)), Command::Open);
    assert_eq!(select_command(&cli(false, false, false)), Command::Create);
}

#[test]
fn playground_paths_end_with_the_category_directory() {
    if let Ok(root) = get_playground_dir() {
        assert!(root.ends_with("/rust-playground"));
        let temp = get_project_type_dir(ProjectType::Temp).unwrap();
        assert_eq!(temp, format!("{}/temp", root));
        let keep = get_project_type_dir(ProjectType::Keep).unwrap();
        assert_eq!(keep, format!("{}/keep", root));
    }
}
