//! A repository of a project: where it comes from, where it lies, and how
//! it is brought up to date.

use vstd::prelude::*;
use vstd::string::*;
use crate::config::RepositoryConfig;
use crate::text::{same_text, split, split_spec, texts};

verus! {

/// A repository of a project.
#[derive(Debug)]
pub struct Repository {
    pub url: String,
    pub branch: Option<String>,
    pub name: String,
    pub folder: String,
    pub external: bool,
    pub publish: bool,
    pub config: RepositoryConfig,
}

/// Whether a piece of a path names nothing: it is empty or a single dot.
pub open spec fn is_blank(piece: Seq<char>) -> bool {
    piece.len() == 0 || piece == seq!['.']
}

/// Position of the last of the first `upto` pieces that names something,
/// or -1.
pub open spec fn last_named(pieces: Seq<Seq<char>>, upto: int) -> int
    decreases upto,
{
    if upto <= 0 {
        -1
    } else if !is_blank(pieces[upto - 1]) {
        upto - 1
    } else {
        last_named(pieces, upto - 1)
    }
}

/// The name of the repository at `url`: the last piece of the path that
/// names something, unless that is `..`.
pub open spec fn name_of(url: Seq<char>) -> Option<Seq<char>> {
    let pieces = split_spec(url, '/');
    let i = last_named(pieces, pieces.len() as int);
    if i < 0 || pieces[i] == seq!['.', '.'] {
        None
    } else {
        Some(pieces[i])
    }
}

/// The name of the repository at `url`.
pub fn repository_name(url: &str) -> (r: Option<String>)
    ensures
        match r {
            Some(s) => name_of(url@) == Some(s@),
            None => name_of(url@) is None,
        },
{
    let pieces = split(url, '/');
    proof {
        reveal_strlit(".");
        reveal_strlit("..");
        reveal_strlit("");
        assert("."@ =~= seq!['.']);
        assert(".."@ =~= seq!['.', '.']);
        assert(""@ =~= Seq::<char>::empty());
        assert(texts(pieces@).len() == pieces@.len());
    }
    let mut k: usize = pieces.len();
    while k > 0
        invariant
            k <= pieces.len(),
            "."@ == seq!['.'],
            ".."@ == seq!['.', '.'],
            ""@ == Seq::<char>::empty(),
            texts(pieces@) == split_spec(url@, '/'),
            texts(pieces@).len() == pieces@.len(),
            last_named(texts(pieces@), pieces@.len() as int) == last_named(
                texts(pieces@),
                k as int,
            ),
        decreases k,
    {
        let piece = pieces[k - 1].as_str();
        assert(texts(pieces@)[k - 1] == piece@);
        if !(same_text(piece, "") || same_text(piece, ".")) {
            assert(piece@.len() == 0 ==> piece@ =~= Seq::<char>::empty());
            if same_text(piece, "..") {
                return None;
            }
            return Some(pieces[k - 1].clone());
        }
        assert(is_blank(piece@)) by {
            if piece@ == Seq::<char>::empty() {
                assert(piece@.len() == 0);
            }
        }
        k = k - 1;
    }
    None
}

impl Repository {
    /// The repository that `config` describes, under the name `name` in the
    /// folder `folder`. It is external only where the configuration says
    /// so, and is published unless it is external or the configuration says
    /// otherwise.
    pub fn new(name: String, folder: String, config: RepositoryConfig) -> (r: Repository)
        ensures
            r.name == name,
            r.folder == folder,
            r.config == config,
            r.url == config.url,
            r.branch == config.branch,
            r.external == (config.external == Some(true)),
            r.publish == (match config.publish {
                Some(b) => b,
                None => config.external != Some(true),
            }),
    {
        let external = match config.external {
            Some(b) => b,
            None => false,
        };
        let publish = match config.publish {
            Some(b) => b,
            None => !external,
        };
        let url = config.url.clone();
        let branch = match &config.branch {
            Some(b) => Some(b.clone()),
            None => None,
        };
        Repository { url, branch, name, folder, external, publish, config }
    }

    pub fn is_external(&self) -> (r: bool)
        ensures
            r == self.external,
    {
        self.external
    }

    pub fn is_published(&self) -> (r: bool)
        ensures
            r == self.publish,
    {
        self.publish
    }

    /// The arguments for `git` that bring the repository up to date: a
    /// clone, of the branch where one is set, where the folder does not
    /// exist yet, and else a pull.
    pub open spec fn sync_spec(self, exists: bool) -> Seq<Seq<char>> {
        if exists {
            seq!["pull"@]
        } else {
            match self.branch {
                Some(b) => seq!["clone"@, "-b"@, b@, self.url@],
                None => seq!["clone"@, self.url@],
            }
        }
    }

    /// The arguments for `git` that bring the repository up to date.
    pub fn sync(&self, exists: bool) -> (r: Vec<String>)
        ensures
            texts(r@) == self.sync_spec(exists),
    {
        let mut r: Vec<String> = Vec::new();
        if exists {
            r.push(String::from_str("pull"));
        } else {
            r.push(String::from_str("clone"));
            match &self.branch {
                Some(b) => {
                    r.push(String::from_str("-b"));
                    r.push(b.clone());
                },
                None => {},
            }
            r.push(self.url.clone());
        }
        assert(texts(r@) =~= self.sync_spec(exists));
        r
    }
}

} // verus!
