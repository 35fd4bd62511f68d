//! Volumes: listing, rank resolution and removal plans.
//!
//! The engine lists volume names one per line; every line is kept as a row.
//! Rank filters resolve to the volume name.

use vstd::prelude::*;

use crate::command_executor::{ok_or_empty, result_view, CommandExecutor};
use crate::listing::{column_views, column_of, parse_volume_listing, spec_volume_listing,
    table_views};
use crate::resolve::{resolve, resolve_one};
use crate::text::str_views;

verus! {

/// The engine invocation that lists volume names.
pub open spec fn volumes_command_spec() -> Seq<Seq<char>> {
    seq!["docker"@, "volume"@, "ls"@, "--format"@, "{{.Name}}"@]
}

/// Build the volume-listing command line.
pub fn volumes_command() -> (r: Vec<String>)
    ensures
        str_views(r@) == volumes_command_spec(),
{
    let mut r: Vec<String> = Vec::new();
    r.push(String::from_str("docker"));
    r.push(String::from_str("volume"));
    r.push(String::from_str("ls"));
    r.push(String::from_str("--format"));
    r.push(String::from_str("{{.Name}}"));
    proof {
        assert(str_views(r@) =~= volumes_command_spec());
    }
    r
}

/// Run the volume listing through `executor` and parse what it printed:
/// rows of rank and name. A failed command contributes no rows.
pub fn get_volumes_with_executor<T: CommandExecutor>(executor: &T) -> (r: Vec<Vec<String>>)
    ensures
        exists|o: Result<Seq<char>, Seq<char>>|
            #[trigger] executor.execute_ens(volumes_command_spec(), o) && table_views(r@)
                == spec_volume_listing(ok_or_empty(o)),
        forall|i: int| 0 <= i < r@.len() ==> #[trigger] r@[i]@.len() == 2,
{
    let cmd = volumes_command();
    let out = executor.execute(&cmd);
    let ghost o = result_view(out);
    let text = match out {
        Ok(s) => s,
        Err(_) => String::new(),
    };
    let r = parse_volume_listing(text.as_str());
    proof {
        assert(text@ == ok_or_empty(o));
        assert(executor.execute_ens(volumes_command_spec(), o) && table_views(r@)
            == spec_volume_listing(ok_or_empty(o)));
    }
    r
}

/// Resolve filter tokens against a volume listing: a valid rank becomes the
/// name of the row it points at, anything else passes through.
pub fn translate_to_id(filters: &Vec<String>, volumes: &Vec<Vec<String>>) -> (r: Vec<String>)
    requires
        forall|i: int| 0 <= i < volumes@.len() ==> #[trigger] volumes@[i]@.len() == 2,
    ensures
        r@.len() == filters@.len(),
        forall|i: int|
            0 <= i < r@.len() ==> #[trigger] r@[i]@ == resolve_one(
                filters@[i]@,
                column_views(table_views(volumes@), 1),
            ),
{
    let ids = column_of(volumes, 1);
    resolve(filters, &ids)
}

/// The engine invocation that removes one volume.
pub open spec fn volume_rm_command_spec(id: Seq<char>) -> Seq<Seq<char>> {
    seq!["docker"@, "volume"@, "rm"@, id]
}

/// One volume-removal command per resolved identifier, in order.
pub fn removal_commands(ids: &Vec<String>) -> (r: Vec<Vec<String>>)
    ensures
        r@.len() == ids@.len(),
        forall|i: int|
            0 <= i < r@.len() ==> #[trigger] table_views(r@)[i] == volume_rm_command_spec(
                ids@[i]@,
            ),
{
    let mut r: Vec<Vec<String>> = Vec::new();
    let mut i: usize = 0;
    while i < ids.len()
        invariant
            0 <= i <= ids@.len(),
            r@.len() == i,
            forall|j: int|
                0 <= j < i ==> #[trigger] table_views(r@)[j] == volume_rm_command_spec(ids@[j]@),
        decreases ids@.len() - i,
    {
        let mut cmd: Vec<String> = Vec::new();
        cmd.push(String::from_str("docker"));
        cmd.push(String::from_str("volume"));
        cmd.push(String::from_str("rm"));
        cmd.push(ids[i].clone());
        proof {
            assert(str_views(cmd@) =~= volume_rm_command_spec(ids@[i as int]@));
        }
        let ghost prev = r@;
        r.push(cmd);
        proof {
            assert forall|j: int| 0 <= j <= i implies #[trigger] table_views(r@)[j]
                == volume_rm_command_spec(ids@[j]@) by {
                if j < i {
                    assert(r@[j] == prev[j]);
                    assert(table_views(prev)[j] == volume_rm_command_spec(ids@[j]@));
                    assert(table_views(prev)[j] == str_views(prev[j]@));
                    assert(table_views(r@)[j] == str_views(r@[j]@));
                } else {
                    assert(r@[j] == cmd);
                    assert(table_views(r@)[j] == str_views(cmd@));
                }
            };
        }
        i += 1;
    }
    r
}

} // verus!
