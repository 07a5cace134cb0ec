use vstd::prelude::*;
use vstd::string::*;

use crate::cache::{value_of_result, CachedView, ValueView};
use crate::encoding::yaml_error_of;
use crate::error::{AnyView, Error};
use crate::ident::{build_path, build_tag, spec_root, version_path, version_tag, BuildIdent, VersionIdent};
use crate::publish::{Package, Recipe};
use crate::repository::SpfsRepository;
use crate::store::Tag;

verus! {

/// The view of the result of a payload read, as a cache keeps it.
pub open spec fn payload_result_view(r: Result<String, Error>) -> Result<CachedView, Error> {
    match r {
        Ok(s) => Ok(CachedView::Payload(s@)),
        Err(e) => Err(e),
    }
}

/// What a payload read gives when the store is read: the payload that the tag
/// at `p` points at; `PackageNotFound` without a tag; a read error when the
/// blob is missing; `InvalidPackageSpec` with the parser's message when the
/// payload is not YAML.
pub open spec fn payload_read_ok(
    m: Map<Seq<Seq<char>>, Seq<Tag>>,
    blobs: Seq<Seq<char>>,
    p: Seq<Seq<char>>,
    id: AnyView,
    r: Result<String, Error>,
) -> bool {
    &&& (r is Ok <==> (m.contains_key(p) && m[p].last().target.value < blobs.len()
        && yaml_error_of(blobs[m[p].last().target.value as int]) is None))
    &&& (r matches Ok(s) ==> s@ == blobs[m[p].last().target.value as int])
    &&& (m.contains_key(p) && m[p].last().target.value < blobs.len() ==> (yaml_error_of(
        blobs[m[p].last().target.value as int],
    ) matches Some(msg) ==> (r matches Err(Error::InvalidPackageSpec(i, e)) && crate::error::any_view(i)
        == id && e@ == msg)))
    &&& (!m.contains_key(p) ==> crate::ident::not_found_for(r->Err_0, id))
    &&& (m.contains_key(p) && m[p].last().target.value >= blobs.len() ==> r matches Err(
        Error::FileReadError(_),
    ))
}

/// What a payload read gives from a cache entry.
pub open spec fn payload_from_cache(r: Result<String, Error>, v: ValueView) -> bool {
    match v {
        ValueView::Success(CachedView::Payload(s)) => r matches Ok(x) && x@ == s,
        ValueView::PackageNotFound(i) => r matches Err(Error::PackageNotFound(j)) && crate::error::any_view(j) == i,
        ValueView::InvalidPackageSpec(i, m) => r matches Err(Error::InvalidPackageSpec(j, n))
            && crate::error::any_view(j) == i && n@ == m,
        ValueView::StringError(s) => r matches Err(Error::String(t)) && t@ == s,
        ValueView::StringifiedError(s) => r matches Err(Error::String(t)) && t@ == s,
        _ => r is Err,
    }
}

/// The state after a payload read: only the read's own cache and the two
/// caches that reads go through changed.
pub open spec fn after_payload_read(
    old: &SpfsRepository,
    new: &SpfsRepository,
    recipe: bool,
    p: Seq<Seq<char>>,
    id: AnyView,
    r: Result<String, Error>,
) -> bool {
    &&& new.wf()
    &&& new.tags() == old.tags()
    &&& new.blobs() == old.blobs()
    &&& new.policy() == old.policy()
    &&& new.repo_name() == old.repo_name()
    &&& new.repo_address() == old.repo_address()
    &&& new.versions_cache() == old.versions_cache()
    &&& new.components_cache() == old.components_cache()
    &&& new.payload_cache(!recipe) == old.payload_cache(!recipe)
    &&& (old.coherent() ==> new.coherent())
    &&& if old.policy() is CacheOk && old.payload_cache(recipe).contains_key(p) {
        &&& payload_from_cache(r, old.payload_cache(recipe)[p])
        &&& new.payload_cache(recipe) == old.payload_cache(recipe)
    } else {
        &&& new.payload_cache(recipe) == old.payload_cache(recipe).insert(
            p,
            value_of_result(payload_result_view(r)),
        )
        &&& (old.fresh() ==> payload_read_ok(old.tags(), old.blobs(), p, id, r))
    }
}

impl SpfsRepository {
    /// Reads a recipe from `spk/spec/<name>/<version>`.
    pub fn read_recipe(&mut self, pkg: &VersionIdent) -> (r: Result<Recipe, Error>)
        requires
            old(self).wf(),
        ensures
            r matches Ok(rec) ==> rec.ident@ == pkg@,
            exists|y: Result<String, Error>|
                after_payload_read(
                    &*old(self),
                    &*final(self),
                    true,
                    version_path(spec_root(), pkg@.0, pkg@.1),
                    crate::ident::version_any(pkg@),
                    y,
                ) && #[trigger] same_payload(r, y),
    {
        proof {
            reveal_strlit("spec");
        }
        let path = version_tag("spec", &pkg.name, &pkg.version);
        let y = self.read_payload(true, &pkg.to_any(), &path);
        let r = match &y {
            Ok(s) => Ok(Recipe { ident: pkg.duplicate(), yaml: s.clone() }),
            Err(e) => Err(copy_error(e)),
        };
        proof {
            assert(same_payload(r, y));
        }
        r
    }

    /// Reads a built package from `spk/spec/<name>/<version>/<build>`.
    pub fn read_package(&mut self, pkg: &BuildIdent) -> (r: Result<Package, Error>)
        requires
            old(self).wf(),
        ensures
            r matches Ok(p) ==> p.ident@ == pkg@,
            exists|y: Result<String, Error>|
                after_payload_read(
                    &*old(self),
                    &*final(self),
                    false,
                    build_path(spec_root(), pkg@),
                    crate::ident::build_any(pkg@),
                    y,
                ) && #[trigger] same_package_payload(r, y),
    {
        proof {
            reveal_strlit("spec");
        }
        let path = build_tag("spec", pkg);
        let y = self.read_payload(false, &pkg.to_any(), &path);
        let r = match &y {
            Ok(s) => Ok(Package { ident: pkg.duplicate(), yaml: s.clone() }),
            Err(e) => Err(copy_error(e)),
        };
        proof {
            assert(same_package_payload(r, y));
        }
        r
    }

    /// Reads an embed stub; only an embedded build can be read this way.
    pub fn read_embed_stub(&mut self, pkg: &BuildIdent) -> (r: Result<Package, Error>)
        requires
            old(self).wf(),
        ensures
            !(pkg.build is Embedded) ==> (r matches Err(Error::String(s)) && s@
                == "Cannot read this ident as an embed stub: "@ + crate::ident::build_ident_text(pkg@))
                && *final(self) == *old(self),
            r matches Ok(p) ==> p.ident@ == pkg@,
            pkg.build is Embedded ==> exists|y: Result<String, Error>|
                after_payload_read(
                    &*old(self),
                    &*final(self),
                    false,
                    build_path(spec_root(), pkg@),
                    crate::ident::build_any(pkg@),
                    y,
                ) && #[trigger] same_package_payload(r, y),
    {
        if !pkg.build.is_embedded() {
            proof {
                reveal_strlit("Cannot read this ident as an embed stub: ");
            }
            let mut msg = String::from_str("Cannot read this ident as an embed stub: ");
            let id = pkg.to_text();
            msg.append(id.as_str());
            return Err(Error::String(msg));
        }
        self.read_package(pkg)
    }
}

/// `r` carries the payload or the error of `y`.
pub open spec fn same_payload(r: Result<Recipe, Error>, y: Result<String, Error>) -> bool {
    match (r, y) {
        (Ok(rec), Ok(s)) => rec.yaml@ == s@,
        (Err(e), Err(f)) => same_error(e, f),
        _ => false,
    }
}

/// `r` carries the payload or the error of `y`.
pub open spec fn same_package_payload(r: Result<Package, Error>, y: Result<String, Error>) -> bool {
    match (r, y) {
        (Ok(p), Ok(s)) => p.yaml@ == s@,
        (Err(e), Err(f)) => same_error(e, f),
        _ => false,
    }
}

/// Two errors of the same kind with the same identifier, where they carry one.
pub open spec fn same_error(e: Error, f: Error) -> bool {
    match (e, f) {
        (Error::PackageNotFound(a), Error::PackageNotFound(b)) => crate::error::any_view(a)
            == crate::error::any_view(b),
        (Error::InvalidPackageSpec(a, m), Error::InvalidPackageSpec(b, n)) => crate::error::any_view(a)
            == crate::error::any_view(b) && m@ == n@,
        (Error::String(a), Error::String(b)) => a@ == b@,
        (Error::FileReadError(a), Error::FileReadError(b)) => a@ == b@,
        (Error::VersionExists(a), Error::VersionExists(b)) => a@ == b@,
        (Error::InvalidName(a), Error::InvalidName(b)) => a@ == b@,
        (Error::InvalidVersion(a), Error::InvalidVersion(b)) => a@ == b@,
        (Error::InvalidBuild(a), Error::InvalidBuild(b)) => a@ == b@,
        (Error::InvalidRepositoryMetadata(a), Error::InvalidRepositoryMetadata(b)) => a@ == b@,
        _ => false,
    }
}

pub fn copy_error(e: &Error) -> (r: Error)
    ensures
        same_error(r, *e),
{
    match e {
        Error::InvalidName(s) => Error::InvalidName(s.clone()),
        Error::InvalidVersion(s) => Error::InvalidVersion(s.clone()),
        Error::InvalidBuild(s) => Error::InvalidBuild(s.clone()),
        Error::PackageNotFound(i) => Error::PackageNotFound(i.duplicate()),
        Error::VersionExists(i) => Error::VersionExists(i.duplicate()),
        Error::InvalidPackageSpec(i, m) => Error::InvalidPackageSpec(i.duplicate(), m.clone()),
        Error::InvalidRepositoryMetadata(s) => Error::InvalidRepositoryMetadata(s.clone()),
        Error::FileReadError(s) => Error::FileReadError(s.clone()),
        Error::String(s) => Error::String(s.clone()),
    }
}

} // verus!
