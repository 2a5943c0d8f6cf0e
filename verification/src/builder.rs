//! Building the packages of a workspace: which are built, and how what is
//! built is named.

use vstd::prelude::*;
use vstd::string::*;
use crate::context::Context;
use crate::manifest::WasmTargetPlatform;
use crate::text::texts;
use crate::version::{version_text, Version};

verus! {

/// The name `name` in snake case, as `convert_case` writes it.
pub uninterp spec fn snake_case(name: Seq<char>) -> Seq<char>;

/// Calls `convert_case::Casing::to_case` with `Case::Snake`. Nothing is
/// proved of the text that comes back: the contract gives it a name.
#[verifier::external_body]
fn to_snake(name: &str) -> (r: String)
    ensures
        r@ == snake_case(name@),
{
    convert_case::Casing::to_case(&name, convert_case::Case::Snake)
}

/// Builds the packages of a workspace.
pub struct Builder {
    pub ctx: Context,
}

/// Whether the package `name` is built, where `packages` are asked for: it
/// is where none are named, or it is one of them.
pub open spec fn selects_spec(packages: Option<Vec<String>>, name: Seq<char>) -> bool {
    match packages {
        Some(list) => texts(list@).contains(name),
        None => true,
    }
}

/// The name of what is built of the package `name` at `version` for
/// `flavour`: the three with hyphens between them.
pub open spec fn build_name(name: Seq<char>, version: Seq<char>, flavour: Seq<char>) -> Seq<char> {
    name + "-"@ + version + "-"@ + flavour
}

impl Builder {
    pub fn new(ctx: Context) -> (r: Builder)
        ensures
            r.ctx == ctx,
    {
        Builder { ctx }
    }

    /// Whether the package `name` is built.
    pub fn selects(packages: &Option<Vec<String>>, name: &String) -> (r: bool)
        ensures
            r == selects_spec(*packages, name@),
    {
        match packages {
            Some(list) => crate::context::contains_name(list, name),
            None => true,
        }
    }

    /// The name of the folder with the binary of a package, which is also
    /// the name of its archive without `.zip`.
    pub fn release_name(name: &str, version: &Version, platform: &str, arch: &str) -> (r: String)
        ensures
            r@ == build_name(name@, version_text(version@), platform@ + "-"@ + arch@),
    {
        let mut r = String::from_str(name);
        r.append("-");
        r.append(version.to_string().as_str());
        r.append("-");
        r.append(platform);
        r.append("-");
        r.append(arch);
        assert(r@ =~= build_name(name@, version_text(version@), platform@ + "-"@ + arch@));
        r
    }

    /// The name of the folder with the web package of a package, which is
    /// also the name of its archive without `.zip` and of its documentation.
    pub fn wasm_name(name: &str, version: &Version, target: WasmTargetPlatform) -> (r: String)
        ensures
            r@ == build_name(name@, version_text(version@), target.name()),
    {
        let mut r = String::from_str(name);
        r.append("-");
        r.append(version.to_string().as_str());
        r.append("-");
        r.append(target.to_string().as_str());
        r
    }

    /// The name of the script that `wasm-pack` writes for a package: its
    /// name in snake case, with `.js`.
    pub fn main_file(name: &str) -> (r: String)
        ensures
            r@ == snake_case(name@) + ".js"@,
    {
        let mut r = to_snake(name);
        r.append(".js");
        r
    }
}

} // verus!
