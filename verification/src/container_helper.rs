//! Containers: listing, rank resolution and removal plans.
//!
//! The engine lists containers as `name|id|image|status` lines. The listing
//! keeps those four fields per row behind the display rank; rank filters
//! resolve to the name column, which the engine accepts wherever an
//! identifier is expected.

use vstd::prelude::*;

use crate::command_executor::{ok_or_empty, result_view, CommandExecutor};
use crate::listing::{column_views, column_of, parse_listing, spec_listing, table_views};
use crate::resolve::{resolve, resolve_one};
use crate::text::str_views;

verus! {

/// The engine invocation that lists all containers in the tool's format.
pub open spec fn containers_command_spec() -> Seq<Seq<char>> {
    seq!["docker"@, "ps"@, "-a"@, "--format"@, "{{.Names}}|{{.ID}}|{{.Image}}|{{.Status}}"@]
}

/// Build the container-listing command line.
pub fn containers_command() -> (r: Vec<String>)
    ensures
        str_views(r@) == containers_command_spec(),
{
    let mut r: Vec<String> = Vec::new();
    r.push(String::from_str("docker"));
    r.push(String::from_str("ps"));
    r.push(String::from_str("-a"));
    r.push(String::from_str("--format"));
    r.push(String::from_str("{{.Names}}|{{.ID}}|{{.Image}}|{{.Status}}"));
    proof {
        assert(str_views(r@) =~= containers_command_spec());
    }
    r
}

/// Run the container listing through `executor` and parse what it printed:
/// rows of rank, name, id, image and status. A failed command contributes
/// no rows.
pub fn get_containers_with_executor<T: CommandExecutor>(executor: &T) -> (r: Vec<Vec<String>>)
    ensures
        exists|o: Result<Seq<char>, Seq<char>>|
            #[trigger] executor.execute_ens(containers_command_spec(), o) && table_views(r@)
                == spec_listing(ok_or_empty(o), 4),
        forall|i: int| 0 <= i < r@.len() ==> #[trigger] r@[i]@.len() == 5,
{
    let cmd = containers_command();
    let out = executor.execute(&cmd);
    let ghost o = result_view(out);
    let text = match out {
        Ok(s) => s,
        Err(_) => String::new(),
    };
    let r = parse_listing(text.as_str(), 4);
    proof {
        assert(text@ == ok_or_empty(o));
        assert(executor.execute_ens(containers_command_spec(), o) && table_views(r@)
            == spec_listing(ok_or_empty(o), 4));
    }
    r
}

/// Resolve filter tokens against a container listing: a valid rank becomes
/// the name of the row it points at, anything else passes through.
pub fn translate_to_id(filters: &Vec<String>, containers: &Vec<Vec<String>>) -> (r: Vec<String>)
    requires
        forall|i: int| 0 <= i < containers@.len() ==> #[trigger] containers@[i]@.len() == 5,
    ensures
        r@.len() == filters@.len(),
        forall|i: int|
            0 <= i < r@.len() ==> #[trigger] r@[i]@ == resolve_one(
                filters@[i]@,
                column_views(table_views(containers@), 1),
            ),
{
    let ids = column_of(containers, 1);
    resolve(filters, &ids)
}

/// The engine invocation that force-removes one container.
pub open spec fn rm_command_spec(id: Seq<char>) -> Seq<Seq<char>> {
    seq!["docker"@, "rm"@, "-f"@, id]
}

/// One force-removal command per resolved identifier, in order.
pub fn removal_commands(ids: &Vec<String>) -> (r: Vec<Vec<String>>)
    ensures
        r@.len() == ids@.len(),
        forall|i: int|
            0 <= i < r@.len() ==> #[trigger] table_views(r@)[i] == rm_command_spec(ids@[i]@),
{
    let mut r: Vec<Vec<String>> = Vec::new();
    let mut i: usize = 0;
    while i < ids.len()
        invariant
            0 <= i <= ids@.len(),
            r@.len() == i,
            forall|j: int|
                0 <= j < i ==> #[trigger] table_views(r@)[j] == rm_command_spec(ids@[j]@),
        decreases ids@.len() - i,
    {
        let mut cmd: Vec<String> = Vec::new();
        cmd.push(String::from_str("docker"));
        cmd.push(String::from_str("rm"));
        cmd.push(String::from_str("-f"));
        cmd.push(ids[i].clone());
        proof {
            assert(str_views(cmd@) =~= rm_command_spec(ids@[i as int]@));
        }
        let ghost prev = r@;
        r.push(cmd);
        proof {
            assert forall|j: int| 0 <= j <= i implies #[trigger] table_views(r@)[j]
                == rm_command_spec(ids@[j]@) by {
                if j < i {
                    assert(r@[j] == prev[j]);
                    assert(table_views(prev)[j] == rm_command_spec(ids@[j]@));
                    assert(table_views(prev)[j] == str_views(prev[j]@));
                    assert(table_views(r@)[j] == str_views(r@[j]@));
                } else {
                    assert(r@[j] == cmd);
                    assert(table_views(r@)[j] == str_views(cmd@));
                }
            };
        }
        i += 1;
    }
    r
}

/// The engine invocation that opens an interactive shell in a container.
pub open spec fn shell_command_spec(container: Seq<char>) -> Seq<Seq<char>> {
    seq!["docker"@, "exec"@, "-it"@, container, "/bin/bash"@]
}

/// Build the command line that opens a shell in `container`.
pub fn shell_command(container: &str) -> (r: Vec<String>)
    ensures
        str_views(r@) == shell_command_spec(container@),
{
    let mut r: Vec<String> = Vec::new();
    r.push(String::from_str("docker"));
    r.push(String::from_str("exec"));
    r.push(String::from_str("-it"));
    r.push(String::from_str(container));
    r.push(String::from_str("/bin/bash"));
    proof {
        assert(str_views(r@) =~= shell_command_spec(container@));
    }
    r
}

} // verus!
