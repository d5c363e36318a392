use spawners::process::contains_pid;
use spawners::process::get_process_name_by_pid;
use spawners::process::widestr_to_string;
use spawners::process::LookupError;
use spawners::process::ProcessRecord;

fn rec(pid: u32, parent_pid: u32, name: &str) -> ProcessRecord {
    ProcessRecord { pid, parent_pid, executable_name: name.to_string() }
}

#[test]
fn widestr_stops_at_first_nul() {
    let buf: Vec<u16> = vec![b'A' as u16, b'b' as u16, 0, b'X' as u16, 0];
    assert_eq!(widestr_to_string(&buf), "Ab");
}

#[test]
fn widestr_without_nul_takes_whole_buffer() {
    let buf: Vec<u16> = vec![b'c' as u16, b'm' as u16, b'd' as u16];
    assert_eq!(widestr_to_string(&buf), "cmd");
}

#[test]
fn widestr_decodes_surrogate_pairs() {
    // one character encoded as two UTF-16 units
    let buf: Vec<u16> = vec![0xD83D, 0xDE00, 0];
    assert_eq!(widestr_to_string(&buf), "\u{1F600}");
}

#[test]
fn widestr_replaces_invalid_units() {
    // an unpaired surrogate decodes to the replacement character
    let buf: Vec<u16> = vec![0xD800, b'A' as u16];
    assert_eq!(widestr_to_string(&buf), "\u{FFFD}A");
}

#[test]
fn widestr_of_all_nul_is_empty() {
    let buf: Vec<u16> = vec![0, 0, 0];
    assert_eq!(widestr_to_string(&buf), "");
}

#[test]
fn name_lookup_finds_first_record() {
    let records = vec![rec(1, 0, "init.exe"), rec(2, 1, "foo.exe"), rec(2, 1, "shadow.exe")];
    assert_eq!(get_process_name_by_pid(&records, 2).unwrap(), "foo.exe");
}

#[test]
fn name_lookup_reports_missing_pid() {
    let records = vec![rec(1, 0, "init.exe")];
    match get_process_name_by_pid(&records, 99) {
        Err(LookupError::ProcessNotFound) => {}
        Ok(_) => panic!("expected ProcessNotFound"),
    }
}

#[test]
fn contains_pid_scans_the_list() {
    let pids = vec![3, 5, 8];
    assert!(contains_pid(&pids, 5));
    assert!(!contains_pid(&pids, 4));
    assert!(!contains_pid(&Vec::new(), 4));
}
