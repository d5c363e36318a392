use spawners::matcher::find_processes_by_name;
use spawners::matcher::pids_by_exe_name;
use spawners::matcher::MatchError;
use spawners::process::ProcessRecord;

fn rec(pid: u32, parent_pid: u32, name: &str) -> ProcessRecord {
    ProcessRecord { pid, parent_pid, executable_name: name.to_string() }
}

#[test]
fn matches_full_path_and_bare_name_case_insensitively() {
    let records = vec![rec(7, 1, "foo.exe")];
    let by_path = pids_by_exe_name(&records, "C:\\x\\Foo.EXE");
    assert_eq!(by_path, vec![7]);
    let by_name = pids_by_exe_name(&records, "foo");
    assert_eq!(by_name, vec![7]);
}

#[test]
fn matches_forward_slash_paths() {
    let records = vec![rec(7, 1, "foo.exe")];
    let pids = pids_by_exe_name(&records, "tools/builds/FOO.exe");
    assert_eq!(pids, vec![7]);
}

#[test]
fn uppercase_record_name_still_matches() {
    let records = vec![rec(11, 1, "FOO.EXE")];
    let pids = pids_by_exe_name(&records, "foo");
    assert_eq!(pids, vec![11]);
}

#[test]
fn empty_target_matches_nothing() {
    let records = vec![rec(1, 0, "foo.exe"), rec(2, 0, ""), rec(3, 0, ".exe")];
    let pids = pids_by_exe_name(&records, "");
    assert!(pids.is_empty());
    let all_separators = pids_by_exe_name(&records, "///");
    assert!(all_separators.is_empty());
}

#[test]
fn trailing_separators_are_ignored() {
    let records = vec![rec(7, 1, "dir.exe")];
    assert_eq!(pids_by_exe_name(&records, "C:\\dir\\"), vec![7]);
    assert_eq!(pids_by_exe_name(&records, "tools/dir///"), vec![7]);
}

#[test]
fn appends_exe_suffix_when_missing() {
    let records = vec![rec(4, 1, "notepad.exe"), rec(5, 1, "notepads")];
    let pids = pids_by_exe_name(&records, "notepad");
    assert!(pids.contains(&4));
    // the substring fallback also catches the longer name
    assert!(pids.contains(&5));
    assert_eq!(pids.len(), 2);
}

#[test]
fn substring_fallback_is_permissive() {
    let records = vec![rec(9, 1, "wrapapp.exe")];
    let pids = pids_by_exe_name(&records, "app");
    assert_eq!(pids, vec![9]);
}

#[test]
fn unrelated_names_do_not_match() {
    let records = vec![rec(9, 1, "bar.exe")];
    let pids = pids_by_exe_name(&records, "foo");
    assert!(pids.is_empty());
}

#[test]
fn duplicate_pids_are_collected_once() {
    let records = vec![rec(6, 1, "foo.exe"), rec(6, 1, "foo.exe"), rec(8, 1, "foo.exe")];
    let pids = pids_by_exe_name(&records, "foo");
    assert_eq!(pids, vec![6, 8]);
}

#[test]
fn find_processes_reports_no_match_as_error() {
    let records = vec![rec(1, 0, "foo.exe")];
    match find_processes_by_name(&records, "quux") {
        Err(MatchError::NoProcessesMatched) => {}
        Ok(_) => panic!("expected NoProcessesMatched"),
    }
    let found = find_processes_by_name(&records, "foo").expect("foo should match");
    assert_eq!(found, vec![1]);
}
