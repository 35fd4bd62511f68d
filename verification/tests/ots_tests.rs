use dk::config::{default_catalog, DkConfig, Ots};
use dk::ots_helper::{down_actions, up_actions, OtsAction};

fn strings(v: &[&str]) -> Vec<String> {
    v.iter().map(|s| s.to_string()).collect()
}

fn ots(name: &str, port: u32, command_line: &str) -> Ots {
    Ots { name: name.to_string(), port, command_line: command_line.to_string() }
}

#[test]
fn test_up_unknown_service_reports_not_found_and_runs_nothing() {
    let cfg = default_catalog();
    let plan = up_actions(&cfg, &strings(&["unknownsvc"]));
    assert_eq!(plan.len(), 1);
    match &plan[0] {
        OtsAction::NotFound(n) => assert_eq!(n.as_str(), "unknownsvc"),
        OtsAction::Run(_) => panic!("an unknown service must not start anything"),
    }
}

#[test]
fn test_up_known_service_splits_its_command_line() {
    let cfg = DkConfig { ots: vec![ots("svc", 1, "docker run -d  img:1")] };
    let plan = up_actions(&cfg, &strings(&["svc"]));
    assert_eq!(plan.len(), 1);
    match &plan[0] {
        OtsAction::Run(cmd) => assert_eq!(cmd, &strings(&["docker", "run", "-d", "img:1"])),
        OtsAction::NotFound(_) => panic!("the service is in the catalog"),
    }
}

#[test]
fn test_up_batch_continues_past_missing_names() {
    let cfg = DkConfig { ots: vec![ots("a", 1, "run a"), ots("b", 2, "run b")] };
    let plan = up_actions(&cfg, &strings(&["a", "missing", "b"]));
    assert_eq!(plan.len(), 3);
    assert!(matches!(&plan[0], OtsAction::Run(_)));
    assert!(matches!(&plan[1], OtsAction::NotFound(_)));
    assert!(matches!(&plan[2], OtsAction::Run(_)));
}

#[test]
fn test_down_uses_prefixed_container_name() {
    let cfg = default_catalog();
    let plan = down_actions(&cfg, &strings(&["kroki"]));
    assert_eq!(plan.len(), 1);
    match &plan[0] {
        OtsAction::Run(cmd) => assert_eq!(cmd, &strings(&["docker", "rm", "-f", "ots_kroki"])),
        OtsAction::NotFound(_) => panic!("kroki is in the default catalog"),
    }
}

#[test]
fn test_down_unknown_service_reports_not_found() {
    let cfg = default_catalog();
    let plan = down_actions(&cfg, &strings(&["nope"]));
    assert_eq!(plan.len(), 1);
    assert!(matches!(&plan[0], OtsAction::NotFound(_)));
}

#[test]
fn test_up_rabbitmq_command_line_tokenises_across_lines() {
    let cfg = default_catalog();
    let plan = up_actions(&cfg, &strings(&["rabbitmq"]));
    assert_eq!(plan.len(), 1);
    match &plan[0] {
        OtsAction::Run(cmd) => {
            assert_eq!(cmd[0].as_str(), "docker");
            assert_eq!(cmd[cmd.len() - 1].as_str(), "rabbitmq:4.1.0-management");
            assert!(cmd.iter().any(|t| t.as_str() == "--restart"));
        },
        OtsAction::NotFound(_) => panic!("rabbitmq is in the default catalog"),
    }
}
