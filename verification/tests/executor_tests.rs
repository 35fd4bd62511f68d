use dk::command_executor::ScriptedExecutor;
use dk::container_helper::get_containers_with_executor;
use dk::decimal::u64_to_dec;
use dk::image_helper::get_images_with_executor;
use dk::volume_helper::get_volumes_with_executor;

fn strings(v: &[&str]) -> Vec<String> {
    v.iter().map(|s| s.to_string()).collect()
}

#[test]
fn test_containers_through_scripted_executor() {
    let ex = ScriptedExecutor::from_stdout("alpha|id1|img1|Up\nbeta|id2|img2|Exited\n".to_string());
    let rows = get_containers_with_executor(&ex);
    assert_eq!(rows.len(), 2);
    assert_eq!(rows[0], strings(&["1", "alpha", "id1", "img1", "Up"]));
    assert_eq!(rows[1], strings(&["2", "beta", "id2", "img2", "Exited"]));
}

#[test]
fn test_failed_listing_yields_no_rows() {
    let ex = ScriptedExecutor::from_stderr("engine not running".to_string());
    assert_eq!(get_containers_with_executor(&ex).len(), 0);
    assert_eq!(get_images_with_executor(&ex).len(), 0);
    assert_eq!(get_volumes_with_executor(&ex).len(), 0);
}

#[test]
fn test_images_through_scripted_executor() {
    let ex = ScriptedExecutor::from_stdout("id1|repo|tag|10MB|today\n".to_string());
    let rows = get_images_with_executor(&ex);
    assert_eq!(rows.len(), 1);
    assert_eq!(rows[0], strings(&["1", "id1", "repo", "tag", "10MB", "today"]));
}

#[test]
fn test_volumes_through_scripted_executor() {
    let ex = ScriptedExecutor::from_stdout("vol1\nvol2\n".to_string());
    let rows = get_volumes_with_executor(&ex);
    assert_eq!(rows.len(), 2);
    assert_eq!(rows[1], strings(&["2", "vol2"]));
}

#[test]
fn test_listing_commands() {
    assert_eq!(
        dk::container_helper::containers_command(),
        strings(&["docker", "ps", "-a", "--format", "{{.Names}}|{{.ID}}|{{.Image}}|{{.Status}}"])
    );
    assert_eq!(
        dk::image_helper::images_command(),
        strings(
            &["docker", "images", "--format", "{{.ID}}|{{.Repository}}|{{.Tag}}|{{.Size}}|{{.CreatedAt}}"]
        )
    );
    assert_eq!(
        dk::volume_helper::volumes_command(),
        strings(&["docker", "volume", "ls", "--format", "{{.Name}}"])
    );
}

#[test]
fn test_system_commands() {
    let prune = dk::system_helper::prune_commands();
    assert_eq!(prune.len(), 3);
    assert_eq!(prune[0], strings(&["docker", "network", "prune", "-f"]));
    assert_eq!(prune[1], strings(&["docker", "volume", "prune", "-f"]));
    assert_eq!(prune[2], strings(&["docker", "buildx", "prune", "-f"]));
    assert_eq!(dk::system_helper::size_command(), strings(&["docker", "system", "df"]));
}

#[test]
fn test_decimal_rendering() {
    assert_eq!(u64_to_dec(0).as_str(), "0");
    assert_eq!(u64_to_dec(7).as_str(), "7");
    assert_eq!(u64_to_dec(12345).as_str(), "12345");
    assert_eq!(u64_to_dec(18446744073709551615).as_str(), "18446744073709551615");
}
