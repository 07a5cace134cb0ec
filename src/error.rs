use vstd::prelude::*;
use vstd::string::*;

use crate::ident::{AnyIdent, VersionIdent};

verus! {

/// The errors surfaced by this library.
#[derive(Debug)]
pub enum Error {
    /// A name does not obey the package-name syntax.
    InvalidName(String),
    /// A text is not a valid version.
    InvalidVersion(String),
    /// A text is not a valid build.
    InvalidBuild(String),
    /// No matching tag anywhere.
    PackageNotFound(AnyIdent),
    /// A recipe was published without overwrite onto an occupied tag.
    VersionExists(VersionIdent),
    /// A stored payload could not be read as a spec.
    InvalidPackageSpec(AnyIdent, String),
    /// The repository metadata blob could not be read.
    InvalidRepositoryMetadata(String),
    /// A payload could not be read from the store.
    FileReadError(String),
    /// Any other failure, described in words.
    String(String),
}

/// The view of an identifier: name, version if any, build text if any.
pub type AnyView = (Seq<char>, Option<Seq<u32>>, Option<Seq<char>>);

pub open spec fn any_view(a: AnyIdent) -> AnyView {
    (
        a.name@,
        match a.version {
            Some(v) => Some(v@),
            None => None,
        },
        match a.build {
            Some(b) => Some(crate::ident::build_text(b)),
            None => None,
        },
    )
}

/// The word naming each kind of error.
pub open spec fn error_kind(e: Error) -> Seq<char> {
    match e {
        Error::InvalidName(_) => "invalid name"@,
        Error::InvalidVersion(_) => "invalid version"@,
        Error::InvalidBuild(_) => "invalid build"@,
        Error::PackageNotFound(_) => "package not found"@,
        Error::VersionExists(_) => "version exists"@,
        Error::InvalidPackageSpec(_, _) => "invalid package spec"@,
        Error::InvalidRepositoryMetadata(_) => "invalid repository metadata"@,
        Error::FileReadError(_) => "file read error"@,
        Error::String(_) => "error"@,
    }
}

/// The text of an error: its kind, then what it is about.
pub open spec fn error_message(e: Error) -> Seq<char> {
    match e {
        Error::InvalidName(s) => error_kind(e) + ": "@ + s@,
        Error::InvalidVersion(s) => error_kind(e) + ": "@ + s@,
        Error::InvalidBuild(s) => error_kind(e) + ": "@ + s@,
        Error::InvalidRepositoryMetadata(s) => error_kind(e) + ": "@ + s@,
        Error::FileReadError(s) => error_kind(e) + ": "@ + s@,
        Error::String(s) => s@,
        Error::VersionExists(i) => error_kind(e) + ": "@ + i.name@ + "/"@ + crate::version::parts_text(
            i.version@,
        ),
        Error::PackageNotFound(i) => error_kind(e) + ": "@ + i.name@,
        Error::InvalidPackageSpec(i, m) => error_kind(e) + ": "@ + i.name@ + ": "@ + m@,
    }
}

impl Error {
    /// The text of this error.
    pub fn message(&self) -> (r: String)
        ensures
            r@ == error_message(*self),
    {
        proof {
            reveal_strlit(": ");
            reveal_strlit("/");
        }
        let mut s = String::new();
        match self {
            Error::String(t) => {
                s.append(t.as_str());
                return s;
            },
            _ => {},
        }
        s.append(self.kind());
        s.append(": ");
        match self {
            Error::InvalidName(t) => s.append(t.as_str()),
            Error::InvalidVersion(t) => s.append(t.as_str()),
            Error::InvalidBuild(t) => s.append(t.as_str()),
            Error::InvalidRepositoryMetadata(t) => s.append(t.as_str()),
            Error::FileReadError(t) => s.append(t.as_str()),
            Error::String(t) => s.append(t.as_str()),
            Error::VersionExists(i) => {
                s.append(i.name.as_str());
                s.append("/");
                crate::version::push_parts_text(&mut s, &i.version.parts);
            },
            Error::PackageNotFound(i) => s.append(i.name.as_str()),
            Error::InvalidPackageSpec(i, m) => {
                s.append(i.name.as_str());
                s.append(": ");
                s.append(m.as_str());
            },
        }
        s
    }

    pub fn is_package_not_found(&self) -> (r: bool)
        ensures
            r == (*self is PackageNotFound),
    {
        matches!(self, Error::PackageNotFound(_))
    }

    /// A short description of the kind of this error.
    pub fn kind(&self) -> (r: &'static str)
        ensures
            r@ == error_kind(*self),
    {
        proof {
            reveal_strlit("invalid name");
            reveal_strlit("invalid version");
            reveal_strlit("invalid build");
            reveal_strlit("package not found");
            reveal_strlit("version exists");
            reveal_strlit("invalid package spec");
            reveal_strlit("invalid repository metadata");
            reveal_strlit("file read error");
            reveal_strlit("error");
        }
        match self {
            Error::InvalidName(_) => "invalid name",
            Error::InvalidVersion(_) => "invalid version",
            Error::InvalidBuild(_) => "invalid build",
            Error::PackageNotFound(_) => "package not found",
            Error::VersionExists(_) => "version exists",
            Error::InvalidPackageSpec(_, _) => "invalid package spec",
            Error::InvalidRepositoryMetadata(_) => "invalid repository metadata",
            Error::FileReadError(_) => "file read error",
            Error::String(_) => "error",
        }
    }
}

} // verus!
