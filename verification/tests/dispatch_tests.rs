use dk::dispatch::{dispatch, im_dispatch, last_nonzero, ots_dispatch, sys_dispatch, vol_dispatch,
    ImCommand, OtsCommand, SysCommand, TopCommand, VolCommand};

fn strings(v: &[&str]) -> Vec<String> {
    v.iter().map(|s| s.to_string()).collect()
}

#[test]
fn test_dispatch_no_arguments_prints_usage() {
    assert!(matches!(dispatch(&strings(&[])), TopCommand::Usage));
}

#[test]
fn test_dispatch_shell() {
    match dispatch(&strings(&["shell", "c1"])) {
        TopCommand::Shell(t) => assert_eq!(t.as_str(), "c1"),
        _ => panic!("expected a shell command"),
    }
    assert!(matches!(dispatch(&strings(&["shell"])), TopCommand::ShellArgError));
    assert!(matches!(dispatch(&strings(&["shell", "a", "b"])), TopCommand::ShellArgError));
}

#[test]
fn test_dispatch_ps() {
    assert!(matches!(dispatch(&strings(&["ps"])), TopCommand::Ps));
    assert!(matches!(dispatch(&strings(&["ps", "x"])), TopCommand::PsArgError));
}

#[test]
fn test_dispatch_rm() {
    match dispatch(&strings(&["rm", "1", "abc"])) {
        TopCommand::Rm(v) => assert_eq!(v, strings(&["1", "abc"])),
        _ => panic!("expected a removal"),
    }
    assert!(matches!(dispatch(&strings(&["rm"])), TopCommand::RmArgError));
}

#[test]
fn test_dispatch_compound_and_unknown() {
    match dispatch(&strings(&["sys", "prune"])) {
        TopCommand::Sys(v) => assert_eq!(v, strings(&["prune"])),
        _ => panic!("expected a system command"),
    }
    match dispatch(&strings(&["bogus"])) {
        TopCommand::Unknown(t) => assert_eq!(t.as_str(), "bogus"),
        _ => panic!("expected an unknown command"),
    }
}

#[test]
fn test_sys_dispatch() {
    assert!(matches!(sys_dispatch(&strings(&[])), SysCommand::Show));
    assert!(matches!(sys_dispatch(&strings(&["show"])), SysCommand::Show));
    assert!(matches!(sys_dispatch(&strings(&["prune"])), SysCommand::Prune));
    assert!(matches!(sys_dispatch(&strings(&["size"])), SysCommand::Size));
    assert!(matches!(sys_dispatch(&strings(&["weird"])), SysCommand::Unknown(_)));
}

#[test]
fn test_vol_dispatch() {
    assert!(matches!(vol_dispatch(&strings(&[])), VolCommand::Show));
    assert!(matches!(vol_dispatch(&strings(&["rm"])), VolCommand::RmArgError));
    match vol_dispatch(&strings(&["rm", "v1", "2"])) {
        VolCommand::Rm(v) => assert_eq!(v, strings(&["v1", "2"])),
        _ => panic!("expected a volume removal"),
    }
    assert!(matches!(vol_dispatch(&strings(&["weird"])), VolCommand::Unknown(_)));
}

#[test]
fn test_im_dispatch() {
    assert!(matches!(im_dispatch(&strings(&[])), ImCommand::Show));
    assert!(matches!(im_dispatch(&strings(&["rm"])), ImCommand::RmArgError));
    match im_dispatch(&strings(&["save", "a"])) {
        ImCommand::Save(v) => assert_eq!(v, strings(&["a"])),
        _ => panic!("expected a save"),
    }
    assert!(matches!(im_dispatch(&strings(&["load"])), ImCommand::LoadArgError));
    assert!(matches!(im_dispatch(&strings(&["scan"])), ImCommand::ScanArgError));
    match im_dispatch(&strings(&["scan", "x", "y"])) {
        ImCommand::Scan(v) => assert_eq!(v, strings(&["x", "y"])),
        _ => panic!("expected a scan"),
    }
    assert!(matches!(im_dispatch(&strings(&["weird"])), ImCommand::Unknown(_)));
}

#[test]
fn test_ots_dispatch() {
    assert!(matches!(ots_dispatch(&strings(&[])), OtsCommand::Usage));
    assert!(matches!(ots_dispatch(&strings(&["up"])), OtsCommand::UpArgError));
    match ots_dispatch(&strings(&["up", "kroki"])) {
        OtsCommand::Up(v) => assert_eq!(v, strings(&["kroki"])),
        _ => panic!("expected an up"),
    }
    match ots_dispatch(&strings(&["down", "a", "b"])) {
        OtsCommand::Down(v) => assert_eq!(v, strings(&["a", "b"])),
        _ => panic!("expected a down"),
    }
    assert!(matches!(ots_dispatch(&strings(&["weird"])), OtsCommand::Unknown(_)));
}

#[test]
fn test_last_nonzero() {
    assert_eq!(last_nonzero(&vec![]), 0);
    assert_eq!(last_nonzero(&vec![0, 0]), 0);
    assert_eq!(last_nonzero(&vec![1, 0, 2, 0]), 2);
    assert_eq!(last_nonzero(&vec![0, 5]), 5);
}
