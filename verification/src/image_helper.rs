//! Images: listing, rank resolution, removal, save/load and scan plans.
//!
//! The engine lists images as `id|repository|tag|size|created` lines. Rank
//! filters resolve to the synthesised `repository:tag` form, which the
//! engine accepts wherever an image reference is expected. Saving an image
//! derives an archive file name from the reference by making it filesystem
//! friendly.

use vstd::prelude::*;

use crate::command_executor::{ok_or_empty, result_view, CommandExecutor};
use crate::listing::{parse_listing, spec_listing, table_views};
use crate::resolve::resolve_one;
use crate::rank::{is_valid_rank, parse_index};
use crate::text::{contains_str, replace_char, spec_contains, spec_replace, spec_split, split_str,
    str_views};

verus! {

/// The engine invocation that lists images in the tool's format.
pub open spec fn images_command_spec() -> Seq<Seq<char>> {
    seq![
        "docker"@,
        "images"@,
        "--format"@,
        "{{.ID}}|{{.Repository}}|{{.Tag}}|{{.Size}}|{{.CreatedAt}}"@,
    ]
}

/// Build the image-listing command line.
pub fn images_command() -> (r: Vec<String>)
    ensures
        str_views(r@) == images_command_spec(),
{
    let mut r: Vec<String> = Vec::new();
    r.push(String::from_str("docker"));
    r.push(String::from_str("images"));
    r.push(String::from_str("--format"));
    r.push(String::from_str("{{.ID}}|{{.Repository}}|{{.Tag}}|{{.Size}}|{{.CreatedAt}}"));
    proof {
        assert(str_views(r@) =~= images_command_spec());
    }
    r
}

/// Run the image listing through `executor` and parse what it printed:
/// rows of rank, id, repository, tag, size and creation time. A failed
/// command contributes no rows.
pub fn get_images_with_executor<T: CommandExecutor>(executor: &T) -> (r: Vec<Vec<String>>)
    ensures
        exists|o: Result<Seq<char>, Seq<char>>|
            #[trigger] executor.execute_ens(images_command_spec(), o) && table_views(r@)
                == spec_listing(ok_or_empty(o), 5),
        forall|i: int| 0 <= i < r@.len() ==> #[trigger] r@[i]@.len() == 6,
{
    let cmd = images_command();
    let out = executor.execute(&cmd);
    let ghost o = result_view(out);
    let text = match out {
        Ok(s) => s,
        Err(_) => String::new(),
    };
    let r = parse_listing(text.as_str(), 5);
    proof {
        assert(text@ == ok_or_empty(o));
        assert(executor.execute_ens(images_command_spec(), o) && table_views(r@) == spec_listing(
            ok_or_empty(o),
            5,
        ));
    }
    r
}

/// The reference a listing row names: its repository and tag joined by a
/// colon.
pub open spec fn image_reference_spec(row: Seq<Seq<char>>) -> Seq<char> {
    row[2] + ":"@ + row[3]
}

/// The `repository:tag` reference of every row, in order.
pub fn image_references(images: &Vec<Vec<String>>) -> (r: Vec<String>)
    requires
        forall|i: int| 0 <= i < images@.len() ==> #[trigger] images@[i]@.len() == 6,
    ensures
        r@.len() == images@.len(),
        forall|i: int|
            0 <= i < r@.len() ==> #[trigger] r@[i]@ == image_reference_spec(
                table_views(images@)[i],
            ),
{
    let mut r: Vec<String> = Vec::new();
    let mut i: usize = 0;
    while i < images.len()
        invariant
            0 <= i <= images@.len(),
            r@.len() == i,
            forall|k: int| 0 <= k < images@.len() ==> #[trigger] images@[k]@.len() == 6,
            forall|j: int|
                0 <= j < i ==> #[trigger] r@[j]@ == image_reference_spec(table_views(images@)[j]),
        decreases images@.len() - i,
    {
        let joined = images[i][2].clone().concat(":").concat(images[i][3].as_str());
        proof {
            assert(table_views(images@)[i as int] == str_views(images@[i as int]@));
            assert(joined@ == image_reference_spec(table_views(images@)[i as int]));
        }
        r.push(joined);
        i += 1;
    }
    r
}

/// Resolve filter tokens against an image listing: a valid rank becomes the
/// `repository:tag` reference of the row it points at, anything else passes
/// through.
pub fn translate_to_id(filters: &Vec<String>, images: &Vec<Vec<String>>) -> (r: Vec<String>)
    requires
        forall|i: int| 0 <= i < images@.len() ==> #[trigger] images@[i]@.len() == 6,
    ensures
        r@.len() == filters@.len(),
        forall|i: int|
            0 <= i < r@.len() ==> #[trigger] r@[i]@ == resolve_one(
                filters@[i]@,
                table_views(images@).map_values(|row: Seq<Seq<char>>| image_reference_spec(row)),
            ),
{
    let refs = image_references(images);
    proof {
        assert(str_views(refs@) =~= table_views(images@).map_values(
            |row: Seq<Seq<char>>| image_reference_spec(row),
        ));
    }
    crate::resolve::resolve(filters, &refs)
}

/// The engine invocation that removes one image.
pub open spec fn rmi_command_spec(id: Seq<char>) -> Seq<Seq<char>> {
    seq!["docker"@, "rmi"@, id]
}

/// One image-removal command per resolved reference, in order.
pub fn removal_commands(ids: &Vec<String>) -> (r: Vec<Vec<String>>)
    ensures
        r@.len() == ids@.len(),
        forall|i: int|
            0 <= i < r@.len() ==> #[trigger] table_views(r@)[i] == rmi_command_spec(ids@[i]@),
{
    let mut r: Vec<Vec<String>> = Vec::new();
    let mut i: usize = 0;
    while i < ids.len()
        invariant
            0 <= i <= ids@.len(),
            r@.len() == i,
            forall|j: int|
                0 <= j < i ==> #[trigger] table_views(r@)[j] == rmi_command_spec(ids@[j]@),
        decreases ids@.len() - i,
    {
        let mut cmd: Vec<String> = Vec::new();
        cmd.push(String::from_str("docker"));
        cmd.push(String::from_str("rmi"));
        cmd.push(ids[i].clone());
        proof {
            assert(str_views(cmd@) =~= rmi_command_spec(ids@[i as int]@));
        }
        let ghost prev = r@;
        r.push(cmd);
        proof {
            assert forall|j: int| 0 <= j <= i implies #[trigger] table_views(r@)[j]
                == rmi_command_spec(ids@[j]@) by {
                if j < i {
                    assert(r@[j] == prev[j]);
                    assert(table_views(prev)[j] == rmi_command_spec(ids@[j]@));
                    assert(table_views(prev)[j] == str_views(prev[j]@));
                    assert(table_views(r@)[j] == str_views(r@[j]@));
                } else {
                    assert(r@[j] == cmd);
                    assert(table_views(r@)[j] == str_views(cmd@));
                }
            };
        }
        i += 1;
    }
    r
}

/// The archive file name saving derives from an image reference: the colon
/// becomes a double dot, slashes become underscores, `.tar` is appended.
pub open spec fn save_file_spec(image: Seq<char>) -> Seq<char> {
    spec_replace(spec_replace(image, ':', ".."@), '/', "_"@) + ".tar"@
}

/// The archive file name for saving `image`.
pub fn save_file_name(image: &str) -> (r: String)
    ensures
        r@ == save_file_spec(image@),
{
    let once = replace_char(image, ':', "..");
    let twice = replace_char(once.as_str(), '/', "_");
    twice.concat(".tar")
}

/// The engine invocation that saves one image into its archive file.
pub open spec fn save_command_spec(image: Seq<char>) -> Seq<Seq<char>> {
    seq!["docker"@, "save"@, image, "-o"@, save_file_spec(image)]
}

/// One save command per resolved reference, in order.
pub fn save_commands(ids: &Vec<String>) -> (r: Vec<Vec<String>>)
    ensures
        r@.len() == ids@.len(),
        forall|i: int|
            0 <= i < r@.len() ==> #[trigger] table_views(r@)[i] == save_command_spec(ids@[i]@),
{
    let mut r: Vec<Vec<String>> = Vec::new();
    let mut i: usize = 0;
    while i < ids.len()
        invariant
            0 <= i <= ids@.len(),
            r@.len() == i,
            forall|j: int|
                0 <= j < i ==> #[trigger] table_views(r@)[j] == save_command_spec(ids@[j]@),
        decreases ids@.len() - i,
    {
        let mut cmd: Vec<String> = Vec::new();
        cmd.push(String::from_str("docker"));
        cmd.push(String::from_str("save"));
        cmd.push(ids[i].clone());
        cmd.push(String::from_str("-o"));
        cmd.push(save_file_name(ids[i].as_str()));
        proof {
            assert(str_views(cmd@) =~= save_command_spec(ids@[i as int]@));
        }
        let ghost prev = r@;
        r.push(cmd);
        proof {
            assert forall|j: int| 0 <= j <= i implies #[trigger] table_views(r@)[j]
                == save_command_spec(ids@[j]@) by {
                if j < i {
                    assert(r@[j] == prev[j]);
                    assert(table_views(prev)[j] == save_command_spec(ids@[j]@));
                    assert(table_views(prev)[j] == str_views(prev[j]@));
                    assert(table_views(r@)[j] == str_views(r@[j]@));
                } else {
                    assert(r@[j] == cmd);
                    assert(table_views(r@)[j] == str_views(cmd@));
                }
            };
        }
        i += 1;
    }
    r
}

/// The engine invocation that loads one archive file.
pub open spec fn load_command_spec(file: Seq<char>) -> Seq<Seq<char>> {
    seq!["docker"@, "load"@, "-i"@, file]
}

/// One load command per archive file, in order.
pub fn load_commands(files: &Vec<String>) -> (r: Vec<Vec<String>>)
    ensures
        r@.len() == files@.len(),
        forall|i: int|
            0 <= i < r@.len() ==> #[trigger] table_views(r@)[i] == load_command_spec(files@[i]@),
{
    let mut r: Vec<Vec<String>> = Vec::new();
    let mut i: usize = 0;
    while i < files.len()
        invariant
            0 <= i <= files@.len(),
            r@.len() == i,
            forall|j: int|
                0 <= j < i ==> #[trigger] table_views(r@)[j] == load_command_spec(files@[j]@),
        decreases files@.len() - i,
    {
        let mut cmd: Vec<String> = Vec::new();
        cmd.push(String::from_str("docker"));
        cmd.push(String::from_str("load"));
        cmd.push(String::from_str("-i"));
        cmd.push(files[i].clone());
        proof {
            assert(str_views(cmd@) =~= load_command_spec(files@[i as int]@));
        }
        let ghost prev = r@;
        r.push(cmd);
        proof {
            assert forall|j: int| 0 <= j <= i implies #[trigger] table_views(r@)[j]
                == load_command_spec(files@[j]@) by {
                if j < i {
                    assert(r@[j] == prev[j]);
                    assert(table_views(prev)[j] == load_command_spec(files@[j]@));
                    assert(table_views(prev)[j] == str_views(prev[j]@));
                    assert(table_views(r@)[j] == str_views(r@[j]@));
                } else {
                    assert(r@[j] == cmd);
                    assert(table_views(r@)[j] == str_views(cmd@));
                }
            };
        }
        i += 1;
    }
    r
}

/// The engine invocation that scans one image for vulnerabilities through
/// the scanner container.
pub open spec fn scan_command_spec(image: Seq<char>) -> Seq<Seq<char>> {
    seq![
        "docker"@,
        "run"@,
        "--tty"@,
        "--rm"@,
        "-v"@,
        "trivy:/cachedata"@,
        "ghcr.io/aquasecurity/trivy:latest"@,
        "image"@,
        "--scanners"@,
        "vuln"@,
        "--cache-dir"@,
        "/cachedata"@,
        image,
    ]
}

/// One scan command per image, in order.
pub fn scan_commands(images: &Vec<String>) -> (r: Vec<Vec<String>>)
    ensures
        r@.len() == images@.len(),
        forall|i: int|
            0 <= i < r@.len() ==> #[trigger] table_views(r@)[i] == scan_command_spec(images@[i]@),
{
    let mut r: Vec<Vec<String>> = Vec::new();
    let mut i: usize = 0;
    while i < images.len()
        invariant
            0 <= i <= images@.len(),
            r@.len() == i,
            forall|j: int|
                0 <= j < i ==> #[trigger] table_views(r@)[j] == scan_command_spec(images@[j]@),
        decreases images@.len() - i,
    {
        let mut cmd: Vec<String> = Vec::new();
        cmd.push(String::from_str("docker"));
        cmd.push(String::from_str("run"));
        cmd.push(String::from_str("--tty"));
        cmd.push(String::from_str("--rm"));
        cmd.push(String::from_str("-v"));
        cmd.push(String::from_str("trivy:/cachedata"));
        cmd.push(String::from_str("ghcr.io/aquasecurity/trivy:latest"));
        cmd.push(String::from_str("image"));
        cmd.push(String::from_str("--scanners"));
        cmd.push(String::from_str("vuln"));
        cmd.push(String::from_str("--cache-dir"));
        cmd.push(String::from_str("/cachedata"));
        cmd.push(images[i].clone());
        proof {
            assert(str_views(cmd@) =~= scan_command_spec(images@[i as int]@));
        }
        let ghost prev = r@;
        r.push(cmd);
        proof {
            assert forall|j: int| 0 <= j <= i implies #[trigger] table_views(r@)[j]
                == scan_command_spec(images@[j]@) by {
                if j < i {
                    assert(r@[j] == prev[j]);
                    assert(table_views(prev)[j] == scan_command_spec(images@[j]@));
                    assert(table_views(prev)[j] == str_views(prev[j]@));
                    assert(table_views(r@)[j] == str_views(r@[j]@));
                } else {
                    assert(r@[j] == cmd);
                    assert(table_views(r@)[j] == str_views(cmd@));
                }
            };
        }
        i += 1;
    }
    r
}

/// The engine invocation that pulls one image from its registry.
pub open spec fn pull_command_spec(image: Seq<char>) -> Seq<Seq<char>> {
    seq!["docker"@, "pull"@, image]
}

/// Build the command line that pulls `image`.
pub fn pull_command(image: &str) -> (r: Vec<String>)
    ensures
        str_views(r@) == pull_command_spec(image@),
{
    let mut r: Vec<String> = Vec::new();
    r.push(String::from_str("docker"));
    r.push(String::from_str("pull"));
    r.push(String::from_str(image));
    proof {
        assert(str_views(r@) =~= pull_command_spec(image@));
    }
    r
}

/// What fetching an image does next.
#[derive(PartialEq, Eq, Structural, Debug)]
pub enum PullStep {
    AlreadyPresent,
    LoadArchive,
    Pull,
}

/// The step fetching takes: nothing when the image is already present, a
/// load when a cached archive exists, a pull otherwise.
pub fn pull_decision(already_pulled: bool, archive_present: bool) -> (r: PullStep)
    ensures
        r == (if already_pulled {
            PullStep::AlreadyPresent
        } else if archive_present {
            PullStep::LoadArchive
        } else {
            PullStep::Pull
        }),
{
    if already_pulled {
        PullStep::AlreadyPresent
    } else if archive_present {
        PullStep::LoadArchive
    } else {
        PullStep::Pull
    }
}

/// The repository and tag an image argument names: the part before the
/// first colon, and what follows it, or `latest` when no tag is given.
pub fn image_name_tag(image: &str) -> (r: (String, String))
    ensures
        r.0@ == spec_split(image@, ':')[0],
        r.1@ == (if spec_split(image@, ':').len() == 1 {
            "latest"@
        } else {
            spec_split(image@, ':')[1]
        }),
{
    let parts = split_str(image, ':');
    proof {
        crate::text::lemma_split_len(image@, ':');
    }
    let name = parts[0].clone();
    let tag = if parts.len() == 1 {
        String::from_str("latest")
    } else {
        parts[1].clone()
    };
    (name, tag)
}

/// The archive file name a pulled image is cached under: name, tag and the
/// `.tar.gz` suffix joined by dots, slashes made underscores.
pub open spec fn archive_file_spec(name: Seq<char>, tag: Seq<char>) -> Seq<char> {
    spec_replace(name + "."@ + tag + ".tar.gz"@, '/', "_"@)
}

/// The archive file name for caching `name:tag`.
pub fn archive_file_name(name: &str, tag: &str) -> (r: String)
    ensures
        r@ == archive_file_spec(name@, tag@),
{
    let joined = String::from_str(name).concat(".").concat(tag).concat(".tar.gz");
    replace_char(joined.as_str(), '/', "_")
}

/// The engine invocation that saves one image under its cached archive
/// name, optionally inside a directory.
pub open spec fn save_one_command_spec(
    name: Seq<char>,
    tag: Seq<char>,
    path: Option<Seq<char>>,
) -> Seq<Seq<char>> {
    let located = match path {
        Some(p) => p + "/"@ + archive_file_spec(name, tag),
        None => archive_file_spec(name, tag),
    };
    seq!["docker"@, "save"@, name + ":"@ + tag, "-o"@, located]
}

/// Build the command line that caches `name:tag` as an archive, inside
/// `path` when one is given.
pub fn save_one_command(name: &str, tag: &str, path: Option<&str>) -> (r: Vec<String>)
    ensures
        str_views(r@) == save_one_command_spec(
            name@,
            tag@,
            match path {
                Some(p) => Some(p@),
                None => None,
            },
        ),
{
    let file = archive_file_name(name, tag);
    let located = match path {
        Some(p) => String::from_str(p).concat("/").concat(file.as_str()),
        None => file,
    };
    let mut r: Vec<String> = Vec::new();
    r.push(String::from_str("docker"));
    r.push(String::from_str("save"));
    r.push(String::from_str(name).concat(":").concat(tag));
    r.push(String::from_str("-o"));
    r.push(located);
    proof {
        assert(str_views(r@) =~= save_one_command_spec(
            name@,
            tag@,
            match path {
                Some(p) => Some(p@),
                None => None,
            },
        ));
    }
    r
}

/// True when a raw `docker images` output mentions `name:tag`, the check
/// deciding whether a pull is needed.
pub fn image_listed(output: &str, name: &str, tag: &str) -> (r: bool)
    ensures
        r == spec_contains(output@, name@ + ":"@ + tag@),
{
    let needle = String::from_str(name).concat(":").concat(tag);
    contains_str(output, needle.as_str())
}

} // verus!
