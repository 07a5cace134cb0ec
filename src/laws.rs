use vstd::prelude::*;

use crate::builds::{concrete_build_at, concrete_complete, has_build_at, is_probe};
use crate::component::{parsed_as, Component};
use crate::components::components_read_ok;
use crate::error::Error;
use crate::ident::{build_path, parse_build_spec, pkg_root, spec_root, version_path, Build};
use crate::publish::{points_at_payload, settled, Package, Recipe};
use crate::reads::{after_payload_read, same_package_payload, same_payload};
use crate::remove::doomed;
use crate::repository::SpfsRepository;
use crate::store::{below, has_entry, Digest, Tag};
use crate::stored::{is_component_at, is_source_path};
use crate::upgrade::upgraded_tags;
use crate::version::{lemma_normalized_prefix, lemma_padded_same, normalized, padded, same_version};

verus! {

/// A recipe reads back as it was published: right after `publish_recipe_to_storage`
/// succeeds with YAML text, `read_recipe` of its identifier gives that identifier and its YAML text.
pub proof fn law_recipe_round_trip(
    before: SpfsRepository,
    published: SpfsRepository,
    read: SpfsRepository,
    ident: (Seq<char>, Seq<u32>),
    yaml: Seq<char>,
    r: Result<Recipe, Error>,
)
    requires
        settled(&before, &published),
        crate::encoding::yaml_error_of(yaml) is None,
        points_at_payload(
            published.tags(),
            published.blobs(),
            version_path(spec_root(), ident.0, ident.1),
            yaml,
        ),
        exists|y: Result<String, Error>|
            after_payload_read(&published, &read, true, version_path(spec_root(), ident.0, ident.1), crate::ident::version_any(ident), y)
                && #[trigger] same_payload(r, y),
        r matches Ok(rec) ==> rec.ident@ == ident,
    ensures
        r matches Ok(rec) && rec.yaml@ == yaml && rec.ident@ == ident,
{
    let y = choose|y: Result<String, Error>|
        after_payload_read(&published, &read, true, version_path(spec_root(), ident.0, ident.1), crate::ident::version_any(ident), y)
            && #[trigger] same_payload(r, y);
    assert(published.recipe_cache().dom().is_empty());
}

/// A package reads back as it was published, and so do its components: right
/// after `publish_package_to_storage` succeeds for a build that had no tags
/// before, `read_package` gives its YAML text and `read_components_from_storage`
/// gives exactly the published components, each with its digest.
pub proof fn law_package_round_trip(
    before: SpfsRepository,
    published: SpfsRepository,
    id: (Seq<char>, Seq<u32>, Seq<char>),
    yaml: Seq<char>,
    components: Seq<(Component, Digest)>,
    v: Seq<(Component, Digest)>,
)
    requires
        forall|i: int| 0 <= i < components.len() ==> is_valid_component(#[trigger] components[i].0),
        forall|i: int, j: int|
            0 <= i < j < components.len() ==> (#[trigger] components[i]).0.text() != (
            #[trigger] components[j]).0.text(),
        components.len() > 0,
        forall|n: Seq<char>| !#[trigger] before.tags().contains_key(build_path(pkg_root(), id).push(n)),
        settled(&before, &published),
        published.tags().contains_key(build_path(pkg_root(), id)),
        forall|i: int|
            0 <= i < components.len() ==> published.tags().contains_key(
                build_path(pkg_root(), id).push((#[trigger] components[i]).0.text()),
            ) && published.tags()[build_path(pkg_root(), id).push(components[i].0.text())].last().target
                == components[i].1,
        forall|q: Seq<Seq<char>>|
            #[trigger] crate::publish::untouched(q, id, components) ==> published.tags().contains_key(q)
                == before.tags().contains_key(q) && published.tags()[q] == before.tags()[q],
        components_read_ok(published.tags(), build_path(pkg_root(), id), v),
    ensures
        forall|i: int| 0 <= i < components.len() ==> has_component(v, #[trigger] components[i]),
        forall|j: int| 0 <= j < v.len() ==> has_component(components, #[trigger] v[j]),
{
    let l = build_path(pkg_root(), id);
    let m = published.tags();
    assert(is_component_at(m, l, components[0].0.text())) by {
        assert(is_valid_component(components[0].0));
    }
    assert forall|n: Seq<char>| #[trigger] is_component_at(m, l, n) implies exists|i: int|
        0 <= i < components.len() && components[i].0.text() == n by {
        if !exists|i: int| 0 <= i < components.len() && components[i].0.text() == n {
            assert(crate::publish::untouched(l.push(n), id, components)) by {
                assert(l.push(n) != l) by {
                    assert(l.push(n).len() != l.len());
                }
                assert(l.push(n) != build_path(spec_root(), id)) by {
                    reveal_strlit("spec");
                    reveal_strlit("pkg");
                    assert(l.push(n)[1] != build_path(spec_root(), id)[1]) by {
                        assert(l.push(n)[1].len() != build_path(spec_root(), id)[1].len());
                    }
                }
                if crate::publish::hits(l.push(n), l, components, components.len() as int) {
                    let k = choose|k: int|
                        0 <= k < components.len() && l.push(n) == l.push((#[trigger] components[k]).0.text());
                    assert(l.push(n)[l.len() as int] == n);
                }
            }
        }
    }
    assert forall|i: int| 0 <= i < components.len() implies has_component(v, #[trigger] components[i]) by {
        let n = components[i].0.text();
        assert(is_valid_component(components[i].0));
        assert(is_component_at(m, l, n));
        let j = choose|j: int| 0 <= j < v.len() && (#[trigger] v[j]).0.text() == n;
    }
    assert forall|j: int| 0 <= j < v.len() implies has_component(components, #[trigger] v[j]) by {
        let n = v[j].0.text();
        assert(is_component_at(m, l, n));
        let i = choose|i: int| 0 <= i < components.len() && components[i].0.text() == n;
        assert(components[i].0.text() == n);
    }
}

/// A removed package is gone: right after `remove_package_from_storage`,
/// `read_package` of it fails with `PackageNotFound` for its identifier.
pub proof fn law_removed_package_not_found(
    before: SpfsRepository,
    removed: SpfsRepository,
    read: SpfsRepository,
    id: (Seq<char>, Seq<u32>, Seq<char>),
    r: Result<Package, Error>,
)
    requires
        removed.caches_empty(),
        removed.coherent(),
        forall|q: Seq<Seq<char>>|
            #[trigger] removed.tags().contains_key(q) <==> before.tags().contains_key(q) && !doomed(
                q,
                build_path(pkg_root(), id),
                build_path(spec_root(), id),
            ),
        exists|y: Result<String, Error>|
            after_payload_read(&removed, &read, false, build_path(spec_root(), id), crate::ident::build_any(id), y)
                && #[trigger] same_package_payload(r, y),
    ensures
        r is Err && crate::ident::not_found_for(r->Err_0, crate::ident::build_any(id)),
{
    let s = build_path(spec_root(), id);
    assert(!removed.tags().contains_key(s));
    let y = choose|y: Result<String, Error>|
        after_payload_read(&removed, &read, false, s, crate::ident::build_any(id), y) && #[trigger] same_package_payload(r, y);
}

/// A published package reads back: right after `publish_package_to_storage`
/// (or `publish_embed_stub_to_storage`) succeeds, `read_package` gives its YAML
/// text, whatever was stored there before.
pub proof fn law_package_read_after_publish(
    before: SpfsRepository,
    published: SpfsRepository,
    read: SpfsRepository,
    id: (Seq<char>, Seq<u32>, Seq<char>),
    yaml: Seq<char>,
    r: Result<Package, Error>,
)
    requires
        settled(&before, &published),
        crate::encoding::yaml_error_of(yaml) is None,
        points_at_payload(published.tags(), published.blobs(), build_path(spec_root(), id), yaml),
        exists|y: Result<String, Error>|
            after_payload_read(&published, &read, false, build_path(spec_root(), id), crate::ident::build_any(id), y)
                && #[trigger] same_package_payload(r, y),
    ensures
        r matches Ok(p) && p.yaml@ == yaml,
{
    let y = choose|y: Result<String, Error>|
        after_payload_read(&published, &read, false, build_path(spec_root(), id), crate::ident::build_any(id), y)
            && #[trigger] same_package_payload(r, y);
}

/// Publishing a recipe onto an occupied version without overwrite fails with
/// `VersionExists`; with overwrite it succeeds.
pub proof fn law_publish_twice(
    first: SpfsRepository,
    ident: (Seq<char>, Seq<u32>),
    policy: crate::publish::PublishPolicy,
    r: Result<(), Error>,
)
    requires
        first.tags().contains_key(version_path(spec_root(), ident.0, ident.1)),
        r is Err <==> (policy is DoNotOverwriteVersion && first.tags().contains_key(
            version_path(spec_root(), ident.0, ident.1),
        )),
        r matches Err(e) ==> (e matches Error::VersionExists(i) && i@ == ident),
    ensures
        policy is DoNotOverwriteVersion ==> (r matches Err(Error::VersionExists(i)) && i@ == ident),
        policy is OverwriteVersion ==> r is Ok,
{
}

/// With the cache bypassed, a read gives what the store holds now, even after
/// the store was changed behind the caches' back.
pub proof fn law_bypass_reads_store(
    s: SpfsRepository,
    read: SpfsRepository,
    p: Seq<Seq<char>>,
    id: crate::error::AnyView,
    payload: Seq<char>,
    y: Result<String, Error>,
)
    requires
        s.policy() is BypassCache,
        crate::encoding::yaml_error_of(payload) is None,
        points_at_payload(s.tags(), s.blobs(), p, payload),
        after_payload_read(&s, &read, true, p, id, y),
    ensures
        y matches Ok(x) && x@ == payload,
{
}

/// With the cache allowed, a second read of the same recipe gives what the
/// first one gave, whatever happened to the store in between, as long as the
/// recipe cache was left alone.
pub proof fn law_cached_read_repeats(
    s0: SpfsRepository,
    s1: SpfsRepository,
    s2: SpfsRepository,
    s3: SpfsRepository,
    p: Seq<Seq<char>>,
    id: crate::error::AnyView,
    y1: Result<String, Error>,
    y2: Result<String, Error>,
)
    requires
        s0.policy() is CacheOk,
        after_payload_read(&s0, &s1, true, p, id, y1),
        s2.recipe_cache() == s1.recipe_cache(),
        s2.policy() is CacheOk,
        after_payload_read(&s2, &s3, true, p, id, y2),
        y1 is Ok,
    ensures
        y2 matches Ok(x2) && y1 matches Ok(x1) && x2@ == x1@,
{
}

/// Upgrading a build that has only a legacy tag gives it component tags that
/// read back as `{build: d, run: d}`, or `{src: d}` for a source package, where
/// `d` is the digest of the legacy tag.
pub proof fn law_upgrade_components(
    m: Map<Seq<Seq<char>>, Seq<Tag>>,
    l: Seq<Seq<char>>,
    v: Seq<(Component, Digest)>,
)
    requires
        m.contains_key(l),
        forall|n: Seq<char>| !#[trigger] is_component_at(m, l, n),
        components_read_ok(upgraded_tags(m, l), l, v),
    ensures
        forall|j: int| 0 <= j < v.len() ==> (#[trigger] v[j]).1 == m[l].last().target,
        is_source_path(l) ==> v.len() == 1 && v[0].0 == Component::Source,
        !is_source_path(l) ==> v.len() == 2 && has_component(v, (Component::Build, m[l].last().target))
            && has_component(v, (Component::Run, m[l].last().target)),
{
    reveal_strlit("src");
    reveal_strlit("build");
    reveal_strlit("run");
    reveal_strlit("all");
    let t = m[l].last();
    let u = upgraded_tags(m, l);
    assert(l.push("src"@) != l && l.push("build"@) != l && l.push("run"@) != l) by {
        assert(l.push("src"@).len() != l.len());
    }
    assert(crate::name::is_valid_name("src"@));
    assert(crate::name::is_valid_name("build"@));
    assert(crate::name::is_valid_name("run"@));
    assert("build"@ != "run"@) by {
        assert("build"@.len() != "run"@.len());
    }
    assert forall|n: Seq<char>| #[trigger] is_component_at(u, l, n) implies (if is_source_path(l) {
        n == "src"@
    } else {
        n == "build"@ || n == "run"@
    }) by {
        if !(is_source_path(l) && n == "src"@) && !(!is_source_path(l) && (n == "build"@ || n == "run"@)) {
            assert(l.push(n)[l.len() as int] == n);
            assert(m.contains_key(l.push(n)));
            assert(is_component_at(m, l, n));
        }
    }
    assert("src"@ != "all"@ && "src"@ != "run"@ && "src"@ != "build"@) by {
        assert("src"@[0] != "all"@[0]);
        assert("src"@[0] != "run"@[0]);
        assert("src"@.len() != "build"@.len());
    }
    assert("build"@ != "all"@ && "build"@ != "run"@) by {
        assert("build"@.len() != "all"@.len());
        assert("build"@.len() != "run"@.len());
    }
    assert("run"@ != "all"@) by {
        assert("run"@[0] != "all"@[0]);
    }
    if is_source_path(l) {
        assert(is_component_at(u, l, "src"@));
        let j = choose|j: int| 0 <= j < v.len() && (#[trigger] v[j]).0.text() == "src"@;
        if v.len() > 1 {
            let other = if j == 0 { 1int } else { 0int };
            assert(is_component_at(u, l, v[other].0.text()));
            assert(v[other].0.text() == "src"@);
        }
    } else {
        assert(is_component_at(u, l, "build"@));
        assert(is_component_at(u, l, "run"@));
        let a = choose|j: int| 0 <= j < v.len() && (#[trigger] v[j]).0.text() == "build"@;
        let b = choose|j: int| 0 <= j < v.len() && (#[trigger] v[j]).0.text() == "run"@;
        if v.len() > 2 {
            let c = if a != 0 && b != 0 { 0int } else if a != 1 && b != 1 { 1int } else { 2int };
            assert(is_component_at(u, l, v[c].0.text()));
        }
        assert(v[a].0.text() == "build"@ && v[b].0.text() == "run"@);
    }
}

/// A published build is listed by `list_package_builds` under any version that
/// equals its own up to trailing zeros, provided its own version has at most
/// five parts or no trailing zeros (the lengths that are probed).
pub proof fn law_published_build_listed(
    m: Map<Seq<Seq<char>>, Seq<Tag>>,
    name: Seq<char>,
    version: Seq<u32>,
    build: Seq<char>,
    query: Seq<u32>,
    r: Seq<crate::ident::BuildIdent>,
)
    requires
        m.contains_key(build_path(pkg_root(), (name, version, build))),
        parse_build_spec(build) is Some,
        same_version(query, version),
        version.len() <= 5 || normalized(version) == version,
        version.len() > 0,
        concrete_complete(m, (name, query), r),
    ensures
        has_build_at(r, r.len() as int, version, build),
{
    reveal_strlit("src");
    let k = version.len();
    lemma_normalized_prefix(version);
    lemma_normalized_prefix(query);
    lemma_padded_same(query, k);
    lemma_padded_same(version, k);
    assert(padded(version, k) =~= version);
    assert(padded(query, k) == version);
    assert(is_probe(k, normalized(query).len())) by {
        if normalized(version) == version {
        } else {
            assert(normalized(version).len() < k);
        }
    }
    assert(!crate::ident::has_embedded_prefix(build));
    assert(version_path(pkg_root(), name, version).push(build) == build_path(pkg_root(), (name, version, build)));
    assert(has_entry(m, version_path(pkg_root(), name, version), build, true));
    assert(concrete_build_at(m, name, padded(query, k), build));
    assert(concrete_build_at(m, (name, query).0, padded((name, query).1, k), build));
    assert(has_build_at(r, r.len() as int, padded((name, query).1, k), build));
}

/// A folder below which the store holds no tag lists as empty: in particular
/// every folder of an empty repository, such as `spk/spec` for `list_packages`.
pub proof fn law_empty_folder_lists_nothing(
    m: Map<Seq<Seq<char>>, Seq<Tag>>,
    f: Seq<Seq<char>>,
    es: Seq<(Seq<char>, bool)>,
)
    requires
        crate::repository::listing_ok(m, f, es),
        forall|q: Seq<Seq<char>>| #[trigger] m.contains_key(q) ==> !below(q, f),
    ensures
        es.len() == 0,
{
    if es.len() > 0 {
        assert(es.contains(es[0]));
        crate::store::lemma_entry_of(m, f, es[0].0, es[0].1);
    }
}

/// Whether `cs` holds the component named as in `c`, with the digest of `c`.
pub open spec fn has_component(cs: Seq<(Component, Digest)>, c: (Component, Digest)) -> bool {
    exists|j: int| 0 <= j < cs.len() && (#[trigger] cs[j]).0.text() == c.0.text() && cs[j].1 == c.1
}

/// A component that `Component::parse` would give for its own name.
pub open spec fn is_valid_component(c: Component) -> bool {
    crate::name::is_valid_name(c.text()) && parsed_as(c, c.text())
}

} // verus!
