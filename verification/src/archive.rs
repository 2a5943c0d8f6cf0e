//! How an archive is to be made, and how one is recognised by its name.

use vstd::prelude::*;
use vstd::string::*;
use crate::error::Error;
use crate::text::{ends_with, ends_with_spec};

verus! {

/// A compression method.
#[derive(Debug, Clone, Copy, PartialEq, Eq, Structural)]
pub enum Algorithm {
    Store,
    BZip2,
    Deflate,
    ZStd,
}

/// Zip archive compression modes.
#[derive(Debug, Clone, Copy)]
pub struct Archive {
    pub algorithm: Option<Algorithm>,
    pub subfolder: Option<bool>,
}

/// The kind of an archive file.
#[derive(Debug, Clone, Copy, PartialEq, Eq, Structural)]
pub enum ArchiveKind {
    TarGz,
    Zip,
}

impl Default for Algorithm {
    fn default() -> (r: Algorithm)
        ensures
            r == Algorithm::Deflate,
    {
        Algorithm::Deflate
    }
}

impl Default for Archive {
    fn default() -> (r: Archive)
        ensures
            r.algorithm is None,
            r.subfolder is None,
    {
        Archive { algorithm: None, subfolder: None }
    }
}

impl Algorithm {
    pub open spec fn name(self) -> Seq<char> {
        match self {
            Algorithm::Store => "STORE"@,
            Algorithm::BZip2 => "BZIP2"@,
            Algorithm::Deflate => "DEFLATE"@,
            Algorithm::ZStd => "ZSTD"@,
        }
    }

    /// The name of the method in capitals.
    pub fn to_string(&self) -> (r: String)
        ensures
            r@ == self.name(),
    {
        match self {
            Algorithm::Store => String::from_str("STORE"),
            Algorithm::BZip2 => String::from_str("BZIP2"),
            Algorithm::Deflate => String::from_str("DEFLATE"),
            Algorithm::ZStd => String::from_str("ZSTD"),
        }
    }
}

impl Archive {
    /// The method to compress with: the one chosen, or else `Deflate`.
    pub fn method(&self) -> (r: Algorithm)
        ensures
            r == (match self.algorithm {
                Some(a) => a,
                None => Algorithm::Deflate,
            }),
    {
        match self.algorithm {
            Some(a) => a,
            None => Algorithm::Deflate,
        }
    }

    /// Whether the folder itself is part of the names in the archive: it is
    /// unless this says `false`.
    pub fn keeps_folder(&self) -> (r: bool)
        ensures
            r == (self.subfolder != Some(false)),
    {
        match self.subfolder {
            Some(b) => b,
            None => true,
        }
    }
}

/// The kind that the name `file` stands for.
pub open spec fn kind_of(file: Seq<char>) -> Option<ArchiveKind> {
    if ends_with_spec(file, ".tar.gz"@) || ends_with_spec(file, ".tgz"@) {
        Some(ArchiveKind::TarGz)
    } else if ends_with_spec(file, ".zip"@) {
        Some(ArchiveKind::Zip)
    } else {
        None
    }
}

/// Tells by its name how the archive `file` is to be extracted.
pub fn archive_kind(file: &str) -> (r: Result<ArchiveKind, Error>)
    ensures
        match r {
            Ok(k) => kind_of(file@) == Some(k),
            Err(e) => {
                &&& kind_of(file@) is None
                &&& e matches Error::String(m)
                &&& m@ == "extract(): unsupported file type: "@ + file@
            },
        },
{
    if ends_with(file, ".tar.gz") || ends_with(file, ".tgz") {
        Ok(ArchiveKind::TarGz)
    } else if ends_with(file, ".zip") {
        Ok(ArchiveKind::Zip)
    } else {
        let mut m = String::from_str("extract(): unsupported file type: ");
        m.append(file);
        Err(Error::String(m))
    }
}

} // verus!
