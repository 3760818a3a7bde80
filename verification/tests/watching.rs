use procpin::error::Error;
use procpin::watch::linux;
use procpin::watch::windows;

fn wide(text: &str, len: usize) -> Vec<u16> {
    let mut units: Vec<u16> = text.encode_utf16().collect();
    assert!(units.len() <= len);
    units.resize(len, 0);
    units
}

#[test]
fn process_id_reads_the_number_after_the_prefix() {
    assert_eq!(linux::process_id("/proc/1"), Some(1));
    assert_eq!(linux::process_id("/proc/4194304"), Some(4194304));
    assert_eq!(linux::process_id("/proc/2147483647"), Some(i32::MAX));
    assert_eq!(linux::process_id("/proc/0042"), Some(42));
    assert_eq!(linux::process_id("/proc/+42"), Some(42));
    assert_eq!(linux::process_id("/proc/-42"), Some(-42));
    assert_eq!(linux::process_id("/proc/-2147483648"), Some(i32::MIN));
    assert_eq!(linux::process_id("/proc//proc/9"), Some(9));
}

#[test]
fn process_id_passes_over_other_entries() {
    assert_eq!(linux::process_id("/proc/self"), None);
    assert_eq!(linux::process_id("/proc/cpuinfo"), None);
    assert_eq!(linux::process_id("/proc/"), None);
    assert_eq!(linux::process_id("/proc"), None);
    assert_eq!(linux::process_id("/proc/12/"), None);
    assert_eq!(linux::process_id("/proc/12/comm"), None);
    assert_eq!(linux::process_id("/proc/1 2"), None);
    assert_eq!(linux::process_id("proc/12"), None);
    assert_eq!(linux::process_id("12"), None);
    assert_eq!(linux::process_id("/proc/2147483648"), None);
    assert_eq!(linux::process_id("/proc/-2147483649"), None);
    assert_eq!(linux::process_id(""), None);
}

#[test]
fn observe_trims_the_name() {
    let process = linux::observe(812, "bash\n");
    assert_eq!(process.pid, 812);
    assert_eq!(process.name, "bash");
    assert_eq!(linux::observe(1, "  kworker/0:1 \r\n").name, "kworker/0:1");
    assert_eq!(linux::observe(1, "Web Content\n").name, "Web Content");
    assert_eq!(linux::observe(1, "\n").name, "");
    assert_eq!(linux::observe(1, "").name, "");
    assert_eq!(linux::observe(-3, "x").pid, -3);
    assert_eq!(linux::observe(1, "\u{2003}na\u{ef}ve\u{a0}").name, "na\u{ef}ve");
}

#[test]
fn the_scan_of_the_directory_goes_on_after_what_it_cannot_use() {
    assert!(matches!(linux::step(1000, linux::Event::EntryFailed), linux::Action::Skip));
    assert!(matches!(
        linux::step(1000, linux::Event::Entry("/proc/meminfo".to_string())),
        linux::Action::Skip
    ));
    assert!(matches!(
        linux::step(1000, linux::Event::Name { pid: 7, comm: None }),
        linux::Action::Skip
    ));
}

#[test]
fn the_scan_of_the_directory_reads_and_delivers_processes() {
    assert!(matches!(
        linux::step(1000, linux::Event::Entry("/proc/731".to_string())),
        linux::Action::ReadName(731)
    ));
    match linux::step(1000, linux::Event::Name { pid: 731, comm: Some("nginx\n".to_string()) }) {
        linux::Action::Deliver(process) => {
            assert_eq!(process.pid, 731);
            assert_eq!(process.name, "nginx");
        }
        _ => panic!("the process was not delivered"),
    }
}

#[test]
fn the_scan_of_the_directory_sleeps_at_its_end() {
    assert!(matches!(linux::step(1000, linux::Event::ListEnd), linux::Action::Sleep(1000)));
    assert!(matches!(linux::step(0, linux::Event::ListEnd), linux::Action::Sleep(0)));
    assert!(matches!(
        linux::step(u64::MAX, linux::Event::ListEnd),
        linux::Action::Sleep(u64::MAX)
    ));
}

#[test]
fn the_scan_of_the_directory_ends_when_it_cannot_list_or_deliver() {
    assert!(matches!(
        linux::step(1000, linux::Event::ListFailed),
        linux::Action::Abort(Error::Io)
    ));
    assert!(matches!(linux::step(1000, linux::Event::Unwatched), linux::Action::Stop));
}

#[test]
fn clean_name_takes_padding_and_extension_away() {
    assert_eq!(windows::clean_name("notepad.exe"), "notepad");
    assert_eq!(windows::clean_name("notepad.exe\0\0\0"), "notepad");
    assert_eq!(windows::clean_name("notepad\0"), "notepad");
    assert_eq!(windows::clean_name("setup.exe.exe"), "setup");
    assert_eq!(windows::clean_name("System"), "System");
    assert_eq!(windows::clean_name(".exe"), "");
    assert_eq!(windows::clean_name(""), "");
    assert_eq!(windows::clean_name("\0\0"), "");
    assert_eq!(windows::clean_name("caf\u{e9}.exe\0"), "caf\u{e9}");
}

#[test]
fn clean_name_keeps_what_only_looks_like_padding_or_extension() {
    assert_eq!(windows::clean_name("tool.EXE"), "tool.EXE");
    assert_eq!(windows::clean_name("tool.exe.bak"), "tool.exe.bak");
    assert_eq!(windows::clean_name("toolexe"), "toolexe");
    assert_eq!(windows::clean_name("exe"), "exe");
    assert_eq!(windows::clean_name("a\0b.exe"), "a\0b");
    assert_eq!(windows::clean_name("a.exe\0b"), "a.exe\0b");
    assert_eq!(windows::clean_name("a.exe\0.exe"), "a.exe\0");
    assert_eq!(windows::clean_name("a.com"), "a.com");
}

#[test]
fn observe_decodes_the_file_name() {
    let process = windows::observe(4312, &wide("chrome.exe", 260)).unwrap();
    assert_eq!(process.pid, 4312);
    assert_eq!(process.name, "chrome");
    let process = windows::observe(u32::MAX, &wide("\u{1f600}.exe", 16)).unwrap();
    assert_eq!(process.pid, u32::MAX);
    assert_eq!(process.name, "\u{1f600}");
    assert_eq!(windows::observe(0, &[]).unwrap().name, "");
    assert_eq!(windows::observe(4, &wide("System", 6)).unwrap().name, "System");
}

#[test]
fn observe_has_nothing_for_a_name_that_is_no_text() {
    assert!(windows::observe(1, &[0xD800]).is_none());
    assert!(windows::observe(1, &[0x61, 0xDC00, 0x62]).is_none());
    let mut units = wide("a.exe", 8);
    units[6] = 0xD83D;
    assert!(windows::observe(1, &units).is_none());
}

#[test]
fn the_scan_of_the_snapshot_delivers_processes() {
    let event = windows::Event::Entry { pid: 99, exe_file: wide("svchost.exe", 260) };
    match windows::step(500, event) {
        windows::Action::Deliver(process) => {
            assert_eq!(process.pid, 99);
            assert_eq!(process.name, "svchost");
        }
        _ => panic!("the process was not delivered"),
    }
}

#[test]
fn the_scan_of_the_snapshot_goes_on_after_a_name_that_is_no_text() {
    let event = windows::Event::Entry { pid: 99, exe_file: vec![0xDFFF, 0] };
    assert!(matches!(windows::step(500, event), windows::Action::Skip));
}

#[test]
fn the_scan_of_the_snapshot_sleeps_at_its_end() {
    assert!(matches!(windows::step(500, windows::Event::SnapshotEnd), windows::Action::Sleep(500)));
}

#[test]
fn the_scan_of_the_snapshot_ends_when_it_cannot_start_or_deliver() {
    assert!(matches!(
        windows::step(500, windows::Event::SnapshotFailed),
        windows::Action::Abort(Error::Io)
    ));
    assert!(matches!(windows::step(500, windows::Event::Unwatched), windows::Action::Stop));
}
