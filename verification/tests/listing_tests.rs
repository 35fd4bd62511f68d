use dk::image_helper;
use dk::image_helper::PullStep;
use dk::listing::{column_of, parse_listing, parse_volume_listing};
use dk::text::{contains_str, join_spaces, lines_of, replace_char, split_str, tokens_of};
use dk::volume_helper;

fn strings(v: &[&str]) -> Vec<String> {
    v.iter().map(|s| s.to_string()).collect()
}

#[test]
fn test_parse_listing_numbers_rows() {
    let output = "a|b|c|d\ne|f|g|h\n";
    let rows = parse_listing(output, 4);
    assert_eq!(rows.len(), 2);
    assert_eq!(rows[0], strings(&["1", "a", "b", "c", "d"]));
    assert_eq!(rows[1], strings(&["2", "e", "f", "g", "h"]));
}

#[test]
fn test_parse_listing_skips_short_lines() {
    let output = "a|b|c|d\nshort|line\n\nx|y|z|w|extra\n";
    let rows = parse_listing(output, 4);
    assert_eq!(rows.len(), 2);
    assert_eq!(rows[0], strings(&["1", "a", "b", "c", "d"]));
    // a line with more separators keeps only the expected fields
    assert_eq!(rows[1], strings(&["2", "x", "y", "z", "w"]));
}

#[test]
fn test_parse_listing_empty_output() {
    let rows = parse_listing("", 4);
    assert_eq!(rows.len(), 0);
}

#[test]
fn test_parse_listing_handles_crlf() {
    let rows = parse_listing("a|b|c|d\r\n", 4);
    assert_eq!(rows.len(), 1);
    assert_eq!(rows[0], strings(&["1", "a", "b", "c", "d"]));
}

#[test]
fn test_parse_volume_listing_keeps_whole_lines() {
    let rows = parse_volume_listing("vol1\nodd|name\n");
    assert_eq!(rows.len(), 2);
    assert_eq!(rows[0], strings(&["1", "vol1"]));
    assert_eq!(rows[1], strings(&["2", "odd|name"]));
}

#[test]
fn test_volume_rank_resolves_to_name() {
    let rows = parse_volume_listing("vol1\nvol2\n");
    let out = volume_helper::translate_to_id(&strings(&["2", "other"]), &rows);
    assert_eq!(out, strings(&["vol2", "other"]));
    let cmds = volume_helper::removal_commands(&out);
    assert_eq!(cmds[0], strings(&["docker", "volume", "rm", "vol2"]));
}

#[test]
fn test_image_rank_resolves_to_repository_tag() {
    let output = "id1|repo1|tag1|10MB|today\nid2|repo2|tag2|20MB|today\n";
    let rows = parse_listing(output, 5);
    let out = image_helper::translate_to_id(&strings(&["1", "plain"]), &rows);
    assert_eq!(out, strings(&["repo1:tag1", "plain"]));
    let cmds = image_helper::removal_commands(&out);
    assert_eq!(cmds[0], strings(&["docker", "rmi", "repo1:tag1"]));
}

#[test]
fn test_column_of_picks_a_column() {
    let rows = parse_listing("a|b|c|d\ne|f|g|h\n", 4);
    let names = column_of(&rows, 1);
    assert_eq!(names, strings(&["a", "e"]));
}

#[test]
fn test_save_file_name_transforms() {
    assert_eq!(image_helper::save_file_name("repo/app:1.2").as_str(), "repo_app..1.2.tar");
    assert_eq!(image_helper::save_file_name("plain").as_str(), "plain.tar");
}

#[test]
fn test_save_commands_shape() {
    let cmds = image_helper::save_commands(&strings(&["repo/app:1.2"]));
    assert_eq!(cmds.len(), 1);
    assert_eq!(
        cmds[0],
        strings(&["docker", "save", "repo/app:1.2", "-o", "repo_app..1.2.tar"])
    );
}

#[test]
fn test_load_commands_shape() {
    let cmds = image_helper::load_commands(&strings(&["f.tar"]));
    assert_eq!(cmds[0], strings(&["docker", "load", "-i", "f.tar"]));
}

#[test]
fn test_scan_commands_shape() {
    let cmds = image_helper::scan_commands(&strings(&["img:1"]));
    assert_eq!(cmds.len(), 1);
    assert_eq!(cmds[0].len(), 13);
    assert_eq!(cmds[0][0].as_str(), "docker");
    assert_eq!(cmds[0][6].as_str(), "ghcr.io/aquasecurity/trivy:latest");
    assert_eq!(cmds[0][12].as_str(), "img:1");
}

#[test]
fn test_image_name_tag_defaults_to_latest() {
    let (n, t) = image_helper::image_name_tag("redis");
    assert_eq!((n.as_str(), t.as_str()), ("redis", "latest"));
    let (n, t) = image_helper::image_name_tag("redis:7");
    assert_eq!((n.as_str(), t.as_str()), ("redis", "7"));
}

#[test]
fn test_archive_file_name_transforms() {
    assert_eq!(
        image_helper::archive_file_name("repo/app", "1.2").as_str(),
        "repo_app.1.2.tar.gz"
    );
}

#[test]
fn test_save_one_command_with_path() {
    let cmd = image_helper::save_one_command("repo/app", "1.2", Some("/tmp"));
    assert_eq!(
        cmd,
        strings(&["docker", "save", "repo/app:1.2", "-o", "/tmp/repo_app.1.2.tar.gz"])
    );
}

#[test]
fn test_pull_command_and_decision() {
    assert_eq!(image_helper::pull_command("img:1"), strings(&["docker", "pull", "img:1"]));
    assert_eq!(image_helper::pull_decision(true, true), PullStep::AlreadyPresent);
    assert_eq!(image_helper::pull_decision(false, true), PullStep::LoadArchive);
    assert_eq!(image_helper::pull_decision(false, false), PullStep::Pull);
}

#[test]
fn test_image_listed_checks_name_and_tag() {
    let output = "redis     7      abc   10MB\nnginx     latest def   20MB\n";
    assert!(!image_helper::image_listed(output, "redis", "7"));
    assert!(image_helper::image_listed("redis:7 abc", "redis", "7"));
}

#[test]
fn test_split_and_lines_and_tokens() {
    let parts = split_str("a|b||c", '|');
    assert_eq!(parts, strings(&["a", "b", "", "c"]));
    let ls = lines_of("one\r\ntwo\n\nthree");
    assert_eq!(ls, strings(&["one", "two", "", "three"]));
    let toks = tokens_of("  docker  run\n-d \t x ");
    assert_eq!(toks, strings(&["docker", "run", "-d", "x"]));
}

#[test]
fn test_contains_and_join_and_replace() {
    assert!(contains_str("hello world", "lo wo"));
    assert!(!contains_str("hello", "world"));
    assert!(contains_str("abc", ""));
    assert_eq!(join_spaces(&strings(&["docker", "ps", "-a"])).as_str(), "docker ps -a");
    assert_eq!(join_spaces(&strings(&[])).as_str(), "");
    assert_eq!(replace_char("a:b:c", ':', "..").as_str(), "a..b..c");
}
