use umbra::models::RunningProcess;
use umbra::processes::{list_running_processes, order_processes, ProcessEntry, WindowEntry};

fn entry(pid: u32, name: &str, path: Option<&str>) -> ProcessEntry {
    ProcessEntry { pid, exe_name: name.into(), path: path.map(str::to_string) }
}

fn window(pid: u32, visible: bool, title: &str) -> WindowEntry {
    WindowEntry { pid, visible, title: title.into() }
}

fn snapshot() -> (Vec<ProcessEntry>, Vec<WindowEntry>) {
    (
        vec![
            entry(0, "System Idle Process", None),
            entry(4, "System", None),
            entry(120, "svchost.exe", Some("C:\\Windows\\System32\\svchost.exe")),
            entry(130, "SVCHOST.EXE", None),
            entry(300, " zeta.exe ", Some("C:\\zeta.exe")),
            entry(301, "Alpha.exe", Some("C:\\alpha.exe")),
            entry(302, "beta.exe", None),
            entry(303, "alpha.exe", Some("C:\\other\\alpha.exe")),
            entry(304, "   ", None),
            entry(305, "firefox.exe", Some("C:\\ff\\firefox.exe")),
        ],
        vec![
            window(305, false, "hidden"),
            window(305, true, "  Mozilla Firefox  "),
            window(305, true, "Second window"),
            window(302, true, "   "),
            window(0, true, "desktop"),
        ],
    )
}

#[test]
fn test_list_running_processes_returns_valid_processes() {
    let (entries, windows) = snapshot();
    let procs = list_running_processes(entries, &windows);
    assert!(!procs.is_empty(), "Processes list should not be empty on Windows");
    let mut has_window_title = false;
    let mut has_full_path = false;
    for p in &procs {
        assert!(p.pid > 0, "PID must be > 0: {:?}", p);
        assert!(!p.name.is_empty(), "Process name must not be empty: {:?}", p);
        assert!(!p.name.eq_ignore_ascii_case("svchost.exe"), "svchost.exe should be filtered out");
        if p.title.is_some() {
            has_window_title = true;
        }
        if p.path.is_some() {
            has_full_path = true;
        }
    }
    assert!(has_window_title);
    assert!(has_full_path, "At least one process should have a resolved path");
}

#[test]
fn processes_with_windows_come_first_then_by_name() {
    let (entries, windows) = snapshot();
    let procs = list_running_processes(entries, &windows);
    let names: Vec<&str> = procs.iter().map(|p| p.name.as_str()).collect();
    assert_eq!(names, ["firefox.exe", "Alpha.exe", "beta.exe", "zeta.exe"]);
    assert_eq!(procs[0].title.as_deref(), Some("Mozilla Firefox"));
    assert_eq!(procs[1].pid, 301, "the first of two same-named processes is kept");
    assert_eq!(procs[3].path.as_deref(), Some("C:\\zeta.exe"));
}

#[test]
fn ordering_is_stable_for_equal_keys() {
    let p = |pid: u32, name: &str, title: Option<&str>| RunningProcess {
        pid,
        name: name.into(),
        title: title.map(str::to_string),
        path: None,
    };
    let out = order_processes(vec![
        p(1, "b", None),
        p(2, "A", None),
        p(3, "a", None),
        p(4, "c", Some("win")),
        p(5, "É", None),
    ]);
    let pids: Vec<u32> = out.iter().map(|x| x.pid).collect();
    assert_eq!(pids, [4, 2, 3, 1, 5]);
}

#[test]
fn nothing_to_list_without_a_snapshot() {
    assert!(list_running_processes(Vec::new(), &Vec::new()).is_empty());
}
