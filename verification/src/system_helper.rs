//! System-wide maintenance: the prune batch and the disk-usage report.

use vstd::prelude::*;

use crate::listing::table_views;
use crate::text::str_views;

verus! {

/// The three engine invocations the prune action runs, in order: networks,
/// volumes, then the build cache.
pub open spec fn prune_commands_spec() -> Seq<Seq<Seq<char>>> {
    seq![
        seq!["docker"@, "network"@, "prune"@, "-f"@],
        seq!["docker"@, "volume"@, "prune"@, "-f"@],
        seq!["docker"@, "buildx"@, "prune"@, "-f"@],
    ]
}

/// Build the prune batch.
pub fn prune_commands() -> (r: Vec<Vec<String>>)
    ensures
        table_views(r@) == prune_commands_spec(),
{
    let mut a: Vec<String> = Vec::new();
    a.push(String::from_str("docker"));
    a.push(String::from_str("network"));
    a.push(String::from_str("prune"));
    a.push(String::from_str("-f"));
    let mut b: Vec<String> = Vec::new();
    b.push(String::from_str("docker"));
    b.push(String::from_str("volume"));
    b.push(String::from_str("prune"));
    b.push(String::from_str("-f"));
    let mut c: Vec<String> = Vec::new();
    c.push(String::from_str("docker"));
    c.push(String::from_str("buildx"));
    c.push(String::from_str("prune"));
    c.push(String::from_str("-f"));
    proof {
        assert(str_views(a@) =~= prune_commands_spec()[0]);
        assert(str_views(b@) =~= prune_commands_spec()[1]);
        assert(str_views(c@) =~= prune_commands_spec()[2]);
    }
    let mut r: Vec<Vec<String>> = Vec::new();
    r.push(a);
    r.push(b);
    r.push(c);
    proof {
        assert(table_views(r@) =~= prune_commands_spec());
    }
    r
}

/// The engine invocation that reports data sizes.
pub open spec fn size_command_spec() -> Seq<Seq<char>> {
    seq!["docker"@, "system"@, "df"@]
}

/// Build the disk-usage command line.
pub fn size_command() -> (r: Vec<String>)
    ensures
        str_views(r@) == size_command_spec(),
{
    let mut r: Vec<String> = Vec::new();
    r.push(String::from_str("docker"));
    r.push(String::from_str("system"));
    r.push(String::from_str("df"));
    proof {
        assert(str_views(r@) =~= size_command_spec());
    }
    r
}

} // verus!
