pub mod anime;
pub mod autocomplete;
pub mod cache;
pub mod character;
pub mod choices;
pub mod events;
pub mod format;
pub mod health;
pub mod navigation;
pub mod paginate;
pub mod router;
pub mod service;
pub mod shards;
pub mod staff;
pub mod studio;
pub mod text;
pub mod trie;
pub mod urls;

use vstd::prelude::*;
use vstd::string::StringExecFns;

verus! {

pub const BOT_INVITE: &'static str =
    "https://discord.com/api/oauth2/authorize?client_id=737236600878137363&permissions=18432&scope=bot%20applications.commands";

pub const SERVER_INVITE: &'static str = "https://discord.gg/Bv94yQYZM8";

pub const WEBSITE_URL: &'static str = "https://anisearch.ichbinleoon.dev/";

/// The version as it is shown: the package version alone where the build
/// knows no commit, else followed by the commit and the build date in
/// brackets.
pub open spec fn version_text(package: Seq<char>, commit: Seq<char>, date: Seq<char>) -> Seq<
    char,
> {
    if commit.len() == 0 {
        package
    } else {
        package + " ("@ + commit + " "@ + date + ")"@
    }
}

/// The version of a build, from the package version, the hash of the commit
/// and the date of the build.
pub fn version(cargo_pkg_version: &str, git_commit_hash: &str, build_date: &str) -> (r: String)
    ensures
        r@ == version_text(cargo_pkg_version@, git_commit_hash@, build_date@),
{
    let mut text = String::from_str(cargo_pkg_version);
    if git_commit_hash.is_empty() {
        text
    } else {
        text.append(" (");
        text.append(git_commit_hash);
        text.append(" ");
        text.append(build_date);
        text.append(")");
        text
    }
}

} // verus!
