//! Changing the version of a workspace: the new version is computed and
//! written into the manifest document wherever the workspace states it.

use vstd::prelude::*;
use vstd::string::*;
use crate::context::Context;
use crate::error::Error;
use crate::manifest::{Dependency, Entry};
use crate::text::texts;
use crate::version::{
    can_change_spec, changed, parse_spec, reports, version_text, Change, ChangeView, Version,
    VersionView,
};

verus! {

/// The text that `toml_edit` prints for the document `text` after the string
/// `value` was assigned to the item at `path`. `None` where `text` is no
/// TOML document, or where an item on the way to `path` is neither a table
/// nor missing. That the crate keeps what it does not change as the parser
/// found it is its promise, and is not stated here.
pub uninterp spec fn toml_with_string(
    text: Seq<char>,
    path: Seq<Seq<char>>,
    value: Seq<char>,
) -> Option<Seq<char>>;

/// Calls `toml_edit`: parses `text` as a `Document` (`FromStr::from_str`),
/// walks from its root (`Document::as_item_mut`) along `path` with
/// `Item::get_mut`, which hands out the entry of a table, makes the entry
/// where the table lacks it, and returns `None` at an item that is no
/// table; assigns `toml_edit::value(value)` to the item reached; and prints
/// the document (`to_string`).
///
/// Nothing is proved of the text that comes back: the contract gives it a
/// name. The path is not empty, so that the root stays a table, which
/// printing relies on.
#[verifier::external_body]
fn write_string(text: &str, path: &Vec<String>, value: &str) -> (r: Option<String>)
    requires
        path.len() > 0,
    ensures
        match r {
            Some(s) => toml_with_string(text@, texts(path@), value@) == Some(s@),
            None => toml_with_string(text@, texts(path@), value@) is None,
        },
{
    let mut doc = text.parse::<toml_edit::Document>().ok()?;
    let mut item = doc.as_item_mut();
    for key in path.iter() {
        item = item.get_mut(key.as_str())?;
    }
    *item = toml_edit::value(value);
    Some(doc.to_string())
}

/// A workspace manifest with a new version.
#[derive(Debug)]
pub struct Rewrite {
    /// The new canonical version.
    pub version: Version,
    /// The text of the manifest with that version.
    pub toml: String,
}

/// How a rewrite ends.
pub enum Outcome {
    /// The new text.
    Written(Seq<char>),
    /// The dependency of this name is neither a string nor a table.
    Unpinned(Seq<char>),
    /// The document did not take the version of this entry.
    Refused(Seq<char>),
}

/// Where the manifest states the canonical version of the workspace.
pub open spec fn package_path() -> Seq<Seq<char>> {
    seq!["workspace"@, "package"@, "version"@]
}

/// Where the manifest pins the version of the dependency `e`: the entry
/// itself where it is a string, its `version` where it is a table.
pub open spec fn pin_path(e: Entry) -> Option<Seq<Seq<char>>> {
    match e.dependency {
        Dependency::Pinned(_) => Some(seq!["workspace"@, "dependencies"@, e.name@]),
        Dependency::Table(_) => Some(seq!["workspace"@, "dependencies"@, e.name@, "version"@]),
        Dependency::Other => None,
    }
}

/// `text` after the version `v` was written for each of `deps`, in order.
pub open spec fn with_pins(text: Seq<char>, deps: Seq<Entry>, v: Seq<char>) -> Outcome
    decreases deps.len(),
{
    if deps.len() == 0 {
        Outcome::Written(text)
    } else {
        match pin_path(deps[0]) {
            None => Outcome::Unpinned(deps[0].name@),
            Some(path) => match toml_with_string(text, path, v) {
                None => Outcome::Refused(deps[0].name@),
                Some(next) => with_pins(next, deps.drop_first(), v),
            },
        }
    }
}

/// `text` after the version `v` was written as the version of the workspace
/// and for each of `deps`.
pub open spec fn rewritten(text: Seq<char>, deps: Seq<Entry>, v: Seq<char>) -> Outcome {
    match toml_with_string(text, package_path(), v) {
        None => Outcome::Refused("package"@),
        Some(next) => with_pins(next, deps, v),
    }
}

/// Whether the error `e` reports the outcome `o`, which is no text.
pub open spec fn reports_outcome(e: Error, o: Outcome) -> bool {
    match o {
        Outcome::Written(_) => false,
        Outcome::Unpinned(name) => e matches Error::MissingVersion(n) && n@ == name,
        Outcome::Refused(name) => e matches Error::Toml(m) && m@
            == "unable to write the version of `"@ + name + "`"@,
    }
}

fn refused(name: &str) -> (e: Error)
    ensures
        reports_outcome(e, Outcome::Refused(name@)),
{
    let mut m = String::from_str("unable to write the version of `");
    m.append(name);
    m.append("`");
    Error::Toml(m)
}

fn path_of(e: &Entry) -> (r: Option<Vec<String>>)
    ensures
        match r {
            Some(p) => pin_path(*e) == Some(texts(p@)) && p.len() > 0,
            None => pin_path(*e) is None,
        },
{
    let mut p: Vec<String> = Vec::new();
    match &e.dependency {
        Dependency::Other => None,
        Dependency::Pinned(_) => {
            p.push(String::from_str("workspace"));
            p.push(String::from_str("dependencies"));
            p.push(e.name.clone());
            assert(texts(p@) =~= seq!["workspace"@, "dependencies"@, e.name@]);
            Some(p)
        },
        Dependency::Table(_) => {
            p.push(String::from_str("workspace"));
            p.push(String::from_str("dependencies"));
            p.push(e.name.clone());
            p.push(String::from_str("version"));
            assert(texts(p@) =~= seq!["workspace"@, "dependencies"@, e.name@, "version"@]);
            Some(p)
        },
    }
}

/// Writes the version `v` into the manifest `text`: as the version of the
/// workspace and as the version of each of `deps`. Either all of it is
/// written or nothing is returned but the error.
pub fn rewrite(text: &str, deps: &Vec<Entry>, v: &str) -> (r: Result<String, Error>)
    ensures
        match r {
            Ok(s) => rewritten(text@, deps@, v@) == Outcome::Written(s@),
            Err(e) => reports_outcome(e, rewritten(text@, deps@, v@)),
        },
{
    let mut path: Vec<String> = Vec::new();
    path.push(String::from_str("workspace"));
    path.push(String::from_str("package"));
    path.push(String::from_str("version"));
    assert(texts(path@) =~= package_path());
    let mut current = match write_string(text, &path, v) {
        Some(s) => s,
        None => {
            return Err(refused("package"));
        },
    };
    let mut i: usize = 0;
    proof {
        assert(deps@.skip(0) =~= deps@);
    }
    while i < deps.len()
        invariant
            i <= deps.len(),
            rewritten(text@, deps@, v@) == with_pins(current@, deps@.skip(i as int), v@),
        decreases deps.len() - i,
    {
        proof {
            assert(deps@.skip(i as int).drop_first() =~= deps@.skip(i + 1));
            assert(deps@.skip(i as int)[0] == deps@[i as int]);
        }
        let p = match path_of(&deps[i]) {
            Some(p) => p,
            None => {
                return Err(Error::MissingVersion(deps[i].name.clone()));
            },
        };
        current = match write_string(current.as_str(), &p, v) {
            Some(s) => s,
            None => {
                return Err(refused(deps[i].name.as_str()));
            },
        };
        i = i + 1;
    }
    Ok(current)
}

/// Applies version changes to the workspace of a context.
pub struct Versioner {
    pub ctx: Context,
}

/// What [`Versioner::change`] returns for the workspace manifest `toml`
/// whose version is the text `current` and whose internal dependencies are
/// `deps`.
pub open spec fn change_outcome(
    toml: Seq<char>,
    current: Seq<char>,
    deps: Seq<Entry>,
    change: ChangeView,
    r: Result<Rewrite, Error>,
) -> bool {
    match parse_spec(current) {
        Err(f) => r matches Err(e) && reports(e, f, current),
        Ok(v) => if !can_change_spec(v, change) {
            r matches Err(Error::InvalidVersion(t)) && t@ == current
        } else {
            let target = changed(v, change);
            match r {
                Ok(w) => w.version@ == target && rewritten(toml, deps, version_text(target))
                    == Outcome::Written(w.toml@),
                Err(e) => reports_outcome(e, rewritten(toml, deps, version_text(target))),
            }
        },
    }
}

impl Versioner {
    pub fn new(ctx: Context) -> (r: Versioner)
        ensures
            r.ctx == ctx,
    {
        Versioner { ctx }
    }

    /// Computes the new version of the workspace and the text of its
    /// manifest with that version: as the version of the workspace, and as
    /// the version of every dependency of the workspace on one of its
    /// members. The manifest on disk is not touched.
    ///
    /// A version that the change would take out of 32 bits is reported as
    /// `InvalidVersion`; a context that is no workspace, in words.
    pub fn change(&self, change: Change) -> (r: Result<Rewrite, Error>)
        ensures
            match self.ctx {
                Context::Workspace(ctx) => change_outcome(
                    ctx.manifest.toml@,
                    ctx.manifest.workspace.package.version@,
                    ctx.manifest.workspace.dependencies@,
                    change@,
                    r,
                ),
                Context::Crate(_) => r matches Err(Error::String(m)) && m@
                    == "not currently supported in a single crate context"@,
            },
    {
        match &self.ctx {
            Context::Workspace(ctx) => {
                let mut version = match ctx.manifest.version() {
                    Ok(v) => v,
                    Err(e) => {
                        return Err(e);
                    },
                };
                if !version.can_change(&change) {
                    return Err(Error::InvalidVersion(ctx.manifest.workspace.package.version.clone()));
                }
                version.change(&change);
                let v = version.to_string();
                match rewrite(
                    ctx.manifest.toml.as_str(),
                    &ctx.manifest.workspace.dependencies,
                    v.as_str(),
                ) {
                    Ok(toml) => Ok(Rewrite { version, toml }),
                    Err(e) => Err(e),
                }
            },
            Context::Crate(_) => Err(
                Error::String(String::from_str("not currently supported in a single crate context")),
            ),
        }
    }
}

/// An explicit version can always be set, and the version that results is
/// the one given, whatever the version was before: setting it a second time
/// changes nothing.
pub proof fn lemma_custom_change_idempotent(v: VersionView, w: VersionView)
    ensures
        can_change_spec(v, ChangeView::Custom(w)),
        can_change_spec(changed(v, ChangeView::Custom(w)), ChangeView::Custom(w)),
        changed(changed(v, ChangeView::Custom(w)), ChangeView::Custom(w)) == changed(
            v,
            ChangeView::Custom(w),
        ),
        changed(v, ChangeView::Custom(w)) == w,
{
}

} // verus!
