use dk::container_helper;
use dk::dispatch::last_nonzero;
use dk::listing::parse_listing;
use dk::resolve::resolve;

fn strings(v: &[&str]) -> Vec<String> {
    v.iter().map(|s| s.to_string()).collect()
}

#[test]
fn test_resolve_keeps_length_and_order() {
    let ids = strings(&["one", "two", "three"]);
    let filters = strings(&["2", "zzz", "0", "3", "-1", "x"]);
    let out = resolve(&filters, &ids);
    assert_eq!(out.len(), filters.len());
    assert_eq!(out, strings(&["two", "zzz", "0", "three", "-1", "x"]));
}

#[test]
fn test_resolve_empty_listing_passes_everything_through() {
    let ids: Vec<String> = Vec::new();
    let filters = strings(&["1", "abc"]);
    let out = resolve(&filters, &ids);
    assert_eq!(out, filters);
}

#[test]
fn test_remove_rank_two_issues_one_call() {
    let output = "alpha|id1|img1|Up\nbeta|id2|img2|Up\ngamma|id3|img3|Exited\n";
    let rows = parse_listing(output, 4);
    assert_eq!(rows.len(), 3);
    let resolved = container_helper::translate_to_id(&strings(&["2"]), &rows);
    assert_eq!(resolved, strings(&["beta"]));
    let cmds = container_helper::removal_commands(&resolved);
    assert_eq!(cmds.len(), 1);
    assert_eq!(cmds[0], strings(&["docker", "rm", "-f", "beta"]));
}

#[test]
fn test_remove_out_of_range_rank_is_literal() {
    let output = "alpha|id1|img1|Up\nbeta|id2|img2|Up\ngamma|id3|img3|Exited\n";
    let rows = parse_listing(output, 4);
    assert_eq!(rows.len(), 3);
    let resolved = container_helper::translate_to_id(&strings(&["99"]), &rows);
    assert_eq!(resolved, strings(&["99"]));
    let cmds = container_helper::removal_commands(&resolved);
    assert_eq!(cmds.len(), 1);
    assert_eq!(cmds[0], strings(&["docker", "rm", "-f", "99"]));
    // the engine reports such a removal as failed; the batch code is the error
    let codes = vec![1];
    assert_ne!(last_nonzero(&codes), 0);
}

#[test]
fn test_resolve_accepts_plus_rank() {
    let ids = strings(&["one", "two"]);
    assert_eq!(resolve(&strings(&["+2"]), &ids), strings(&["two"]));
}

#[test]
fn test_shell_command_shape() {
    let cmd = container_helper::shell_command("box1");
    assert_eq!(cmd, strings(&["docker", "exec", "-it", "box1", "/bin/bash"]));
}
