//! Lookups over the workspace metadata that `cargo metadata` reports.
//!
//! The caller runs the `cargo metadata` command, parses its JSON output and
//! hands the fields these lookups read over as a plain [`CargoMetadata`]
//! value: the target directory, the workspace root, and each package's
//! name together with its version as the JSON text renders it (a quoted
//! string).  Whether a directory exists on disk is likewise the caller's
//! to find out and pass in.

use vstd::prelude::*;
use vstd::string::StrSliceExecFns;
use vstd::string::StringExecFns;

verus! {

/// One package of the workspace: its name and its version as the metadata
/// JSON renders it, quotation marks included.
#[derive(Debug, Clone)]
pub struct CargoPackage {
    pub name: String,
    pub version: String,
}

/// The fields of a `cargo metadata` report that the lookups read.
#[derive(Debug, Clone)]
pub struct CargoMetadata {
    pub target_directory: String,
    pub workspace_root: String,
    pub packages: Vec<CargoPackage>,
}

/// The build-profile directory name.
pub open spec fn profile_name(debug_build: bool) -> Seq<char> {
    if debug_build {
        "debug"@
    } else {
        "release"@
    }
}

/// The metadata names a package called `name`.
pub open spec fn has_package(metadata: CargoMetadata, name: Seq<char>) -> bool {
    exists|i: int| 0 <= i < metadata.packages@.len() && (#[trigger] metadata.packages@[i]).name@
        == name
}

/// `version` is the version of the first package called `name`.
pub open spec fn is_first_package_version(
    metadata: CargoMetadata,
    name: Seq<char>,
    version: Seq<char>,
) -> bool {
    exists|i: int|
        {
            &&& 0 <= i < metadata.packages@.len()
            &&& (#[trigger] metadata.packages@[i]).name@ == name
            &&& metadata.packages@[i].version@ == version
            &&& forall|j: int| 0 <= j < i ==> (#[trigger] metadata.packages@[j]).name@ != name
        }
}

/// The workspace's target directory.
pub fn get_target_directory(metadata: &CargoMetadata) -> (directory: String)
    ensures
        directory@ == metadata.target_directory@,
{
    metadata.target_directory.clone()
}

/// The directory name of the build profile; the caller says whether this
/// is a debug build.
pub fn get_profile(debug_build: bool) -> (profile: &'static str)
    ensures
        profile@ == profile_name(debug_build),
{
    if debug_build {
        "debug"
    } else {
        "release"
    }
}

/// The reverse-domain identifier of a crate.
pub fn get_project_identifier(crate_name: &str) -> (identifier: String)
    ensures
        identifier@ == "com.nomos."@ + crate_name@,
{
    String::from_str("com.nomos.").concat(crate_name)
}

/// The workspace's root directory.
pub fn get_workspace_root(metadata: &CargoMetadata) -> (root: String)
    ensures
        root@ == metadata.workspace_root@,
{
    metadata.workspace_root.clone()
}

/// The target directory of the current profile.  Builds made for an
/// explicit target triple keep their profile directories under a directory
/// named after the triple; local builds keep them directly under the
/// target directory.  The caller reports which of the two joined
/// directories exists; when neither does, the lookup fails.
///
/// * `target_triple` - The target triple of the current build. Needs to
///   follow the standard format. E.g.: x86_64-unknown-linux-gnu,
///   aarch64-apple-darwin, etc.
pub fn get_target_directory_for_current_profile(
    metadata: &CargoMetadata,
    target_triple: &str,
    debug_build: bool,
    target_triple_directory_exists: bool,
    profile_directory_exists: bool,
) -> (directory: Result<String, String>)
    ensures
        target_triple_directory_exists
            ==> (directory matches Ok(path) && path@ == metadata.target_directory@ + seq!['/']
                + target_triple@ + seq!['/'] + profile_name(debug_build)),
        !target_triple_directory_exists && profile_directory_exists
            ==> (directory matches Ok(path) && path@ == metadata.target_directory@ + seq!['/']
                + profile_name(debug_build)),
        !target_triple_directory_exists && !profile_directory_exists
            ==> (directory matches Err(message) && message@
                == "Could not find target directory for profile."@),
{
    let target_directory = get_target_directory(metadata);
    let profile = get_profile(debug_build);

    if target_triple_directory_exists {
        let path = target_directory.concat("/").concat(target_triple).concat("/").concat(profile);
        proof {
            reveal_strlit("/");
            assert(path@ =~= metadata.target_directory@ + seq!['/'] + target_triple@ + seq!['/']
                + profile_name(debug_build));
        }
        return Ok(path);
    }

    if profile_directory_exists {
        let path = target_directory.concat("/").concat(profile);
        proof {
            reveal_strlit("/");
            assert(path@ =~= metadata.target_directory@ + seq!['/'] + profile_name(debug_build));
        }
        return Ok(path);
    }

    Err(String::from_str("Could not find target directory for profile."))
}

/// The version of the named package, exactly as the metadata JSON renders
/// it (a quoted string).  The first package of that name answers; the
/// metadata is expected to name the package.
pub fn get_cargo_package_version(metadata: &CargoMetadata, package_name: &str) -> (version: String)
    requires
        has_package(*metadata, package_name@),
    ensures
        is_first_package_version(*metadata, package_name@, version@),
{
    let wanted = String::from_str(package_name);
    let mut i: usize = 0;
    while i < metadata.packages.len()
        invariant
            i <= metadata.packages@.len(),
            wanted@ == package_name@,
            has_package(*metadata, package_name@),
            forall|j: int| 0 <= j < i as int
                ==> (#[trigger] metadata.packages@[j]).name@ != package_name@,
        decreases metadata.packages@.len() - i,
    {
        if metadata.packages[i].name == wanted {
            return metadata.packages[i].version.clone();
        }
        i = i + 1;
    }
    // Never reached: the metadata names the package.
    proof {
        assert(false);
    }
    String::new()
}

/// Whether every leading and trailing quotation mark has been stripped
/// from `text`, working inward from both ends.
pub open spec fn trim_quotes_spec(text: Seq<char>) -> Seq<char>
    decreases text.len(),
{
    if text.len() == 0 {
        text
    } else if text[0] == '"' {
        trim_quotes_spec(text.subrange(1, text.len() as int))
    } else if text[text.len() - 1] == '"' {
        trim_quotes_spec(text.subrange(0, text.len() - 1))
    } else {
        text
    }
}

/// Strips the quotation marks around a JSON-rendered string.
fn trim_quote_marks(text: &str) -> (trimmed: String)
    ensures
        trimmed@ == trim_quotes_spec(text@),
{
    let mut start: usize = 0;
    let mut end: usize = text.unicode_len();
    proof {
        assert(text@ =~= text@.subrange(0, text@.len() as int));
    }
    while start < end && text.get_char(start) == '"'
        invariant
            0 <= start <= end <= text@.len(),
            trim_quotes_spec(text@) == trim_quotes_spec(text@.subrange(start as int, end as int)),
        decreases end - start,
    {
        proof {
            let part = text@.subrange(start as int, end as int);
            assert(part.subrange(1, part.len() as int)
                =~= text@.subrange(start as int + 1, end as int));
        }
        start = start + 1;
    }
    while end > start && text.get_char(end - 1) == '"'
        invariant
            0 <= start <= end <= text@.len(),
            start < end ==> text@[start as int] != '"',
            trim_quotes_spec(text@) == trim_quotes_spec(text@.subrange(start as int, end as int)),
        decreases end - start,
    {
        proof {
            let part = text@.subrange(start as int, end as int);
            assert(part.subrange(0, part.len() - 1)
                =~= text@.subrange(start as int, end as int - 1));
        }
        end = end - 1;
    }
    let kept = text.substring_char(start, end);
    proof {
        let part = text@.subrange(start as int, end as int);
        assert(trim_quotes_spec(part) == part);
    }
    kept.to_owned()
}

/// The version of the named package in display form: quotation marks
/// stripped, a `v` in front.
pub fn get_formatted_cargo_package_version(metadata: &CargoMetadata, package_name: &str) -> (
    formatted: String)
    requires
        has_package(*metadata, package_name@),
    ensures
        exists|version: Seq<char>|
            is_first_package_version(*metadata, package_name@, version) && formatted@ == seq!['v']
                + trim_quotes_spec(version),
{
    let version = get_cargo_package_version(metadata, package_name);
    let trimmed = trim_quote_marks(version.as_str());
    let formatted = String::from_str("v").concat(trimmed.as_str());
    proof {
        reveal_strlit("v");
        assert(formatted@ =~= seq!['v'] + trim_quotes_spec(version@));
    }
    formatted
}

} // verus!
