use spawners::process::ProcessRecord;
use spawners::windowing::find_window_by_process;
use spawners::windowing::hwnds_for_exe;
use spawners::windowing::hwnds_for_pids;
use spawners::windowing::is_top_level_main;
use spawners::windowing::DiscoveryError;
use spawners::windowing::WindowInfo;

fn win(handle: u64, owner_pid: u32, visible: bool, is_root: bool, tool_window: bool) -> WindowInfo {
    WindowInfo { handle, owner_pid, visible, is_root, tool_window }
}

fn main_win(handle: u64, owner_pid: u32) -> WindowInfo {
    win(handle, owner_pid, true, true, false)
}

#[test]
fn predicate_wants_visible_rooted_non_tool_windows() {
    assert!(is_top_level_main(&main_win(1, 10)));
    assert!(!is_top_level_main(&win(1, 10, false, true, false)));
    assert!(!is_top_level_main(&win(1, 10, true, false, false)));
    assert!(!is_top_level_main(&win(1, 10, true, true, true)));
}

#[test]
fn keeps_only_main_windows_of_target_processes() {
    let windows = vec![
        main_win(100, 10),
        win(101, 10, false, true, false), // invisible
        win(102, 10, true, true, true),   // tool window
        win(103, 10, true, false, false), // child window
        main_win(104, 20),                // other process
        main_win(105, 30),
    ];
    let handles = hwnds_for_pids(&windows, &vec![10, 30]);
    assert_eq!(handles, vec![100, 105]);
}

#[test]
fn empty_pid_set_keeps_nothing() {
    let windows = vec![main_win(100, 10), main_win(101, 20)];
    let handles = hwnds_for_pids(&windows, &Vec::new());
    assert!(handles.is_empty());
}

#[test]
fn preserves_enumeration_order() {
    let windows = vec![main_win(300, 1), main_win(100, 1), main_win(200, 1)];
    let handles = hwnds_for_pids(&windows, &vec![1]);
    assert_eq!(handles, vec![300, 100, 200]);
}

#[test]
fn resolves_windows_for_an_exe_name() {
    let records = vec![
        ProcessRecord { pid: 10, parent_pid: 1, executable_name: "Foo.EXE".to_string() },
        ProcessRecord { pid: 20, parent_pid: 1, executable_name: "bar.exe".to_string() },
    ];
    let windows = vec![main_win(100, 10), main_win(200, 20), win(150, 10, true, true, true)];
    let handles = hwnds_for_exe(&records, &windows, "foo");
    assert_eq!(handles, vec![100]);
    let none = hwnds_for_exe(&records, &windows, "");
    assert!(none.is_empty());
}

#[test]
fn discovery_takes_the_first_main_window_of_the_process() {
    let windows = vec![win(100, 10, false, false, true), main_win(200, 20), main_win(300, 10)];
    // the hidden tool window of the process does not count; its first main window does
    assert_eq!(find_window_by_process(&windows, 10, 1).unwrap(), 300);
    assert_eq!(find_window_by_process(&windows, 20, 1).unwrap(), 200);
}

#[test]
fn discovery_ignores_non_main_windows() {
    // a process owning only hidden or tool windows has no window yet
    let windows = vec![win(100, 10, false, false, true), win(101, 10, true, true, true)];
    match find_window_by_process(&windows, 10, 1) {
        Err(DiscoveryError::WindowNotFound) => {}
        other => panic!("expected WindowNotFound, got {:?}", other),
    }
}

#[test]
fn discovery_reports_a_process_without_windows() {
    let windows = vec![main_win(100, 10)];
    match find_window_by_process(&windows, 99, 1) {
        Err(DiscoveryError::WindowNotFound) => {}
        other => panic!("expected WindowNotFound, got {:?}", other),
    }
}

#[test]
fn discovery_refuses_the_current_process() {
    let windows = vec![main_win(100, 42)];
    match find_window_by_process(&windows, 42, 42) {
        Err(DiscoveryError::CurrentProcess) => {}
        other => panic!("expected CurrentProcess, got {:?}", other),
    }
}
