use spk_storage::cache::CachePolicy;
use spk_storage::component::Component;
use spk_storage::error::Error;
use spk_storage::ident::{build_tag, embedded_key, version_tag, Build, BuildIdent, VersionIdent};
use spk_storage::publish::{Package, PublishPolicy, Recipe};
use spk_storage::repository::SpfsRepository;
use spk_storage::store::Digest;
use spk_storage::version::{parse_version, Version};

fn repo() -> SpfsRepository {
    SpfsRepository::new("local", "mem:///test").unwrap()
}

fn version(s: &str) -> Version {
    parse_version(s).unwrap()
}

fn recipe(name: &str, v: &str, yaml: &str) -> Recipe {
    Recipe {
        ident: VersionIdent::new(name.to_string(), version(v)),
        yaml: yaml.to_string(),
    }
}

fn build(name: &str, v: &str, b: Build) -> BuildIdent {
    BuildIdent::new(name.to_string(), version(v), b)
}

fn package(name: &str, v: &str, b: Build, yaml: &str) -> Package {
    Package {
        ident: build(name, v, b),
        yaml: yaml.to_string(),
    }
}

fn digest(n: u64) -> Digest {
    Digest { value: n }
}

fn component_map(v: &[(Component, Digest)]) -> Vec<(String, u64)> {
    let mut r: Vec<(String, u64)> = v.iter().map(|(c, d)| (c.as_str().to_string(), d.value)).collect();
    r.sort();
    r
}

/// Pushes only a legacy tag and a spec tag for a build, as an older client would.
fn publish_legacy(repo: &mut SpfsRepository, id: &BuildIdent, d: Digest) {
    let legacy = build_tag("pkg", id);
    repo.push_tag_uncached(&legacy, d);
    let spec = build_tag("spec", id);
    let blob = repo.commit_blob("pkg: legacy".to_string());
    repo.push_tag_uncached(&spec, blob);
    repo.invalidate_caches();
}

#[test]
fn empty_repository_lists_nothing() {
    let mut r = repo();
    assert!(r.list_packages().is_empty());
    let missing = version_tag("spec", &"nothing".to_string(), &version("1.0"));
    assert!(r.ls_tags(&missing).is_empty());
    assert!(r.list_package_versions("nothing").unwrap().is_empty());
}

#[test]
fn new_rejects_invalid_repository_name() {
    assert!(matches!(SpfsRepository::new("Local Repo", "mem:///x"), Err(Error::InvalidName(_))));
    let r = repo();
    assert_eq!(r.name(), "local");
    assert_eq!(r.address(), "mem:///test");
}

#[test]
fn publish_recipe_lists_package_and_version() {
    let mut r = repo();
    r.publish_recipe_to_storage(&recipe("pkg-a", "1.2", "pkg: pkg-a/1.2"), PublishPolicy::OverwriteVersion)
        .unwrap();
    assert_eq!(r.list_packages(), vec!["pkg-a".to_string()]);
    let versions = r.list_package_versions("pkg-a").unwrap();
    assert_eq!(versions.len(), 1);
    assert_eq!(versions[0].parts, vec![1, 2]);
}

#[test]
fn recipe_round_trip() {
    let mut r = repo();
    let rec = recipe("pkg-a", "1.2", "pkg: pkg-a/1.2\nbuild: {}\n");
    r.publish_recipe_to_storage(&rec, PublishPolicy::OverwriteVersion).unwrap();
    let back = r.read_recipe(&rec.ident).unwrap();
    assert_eq!(back.yaml, rec.yaml);
    assert_eq!(back.ident.name, "pkg-a");
    assert_eq!(back.ident.version.parts, vec![1, 2]);
}

#[test]
fn read_missing_recipe_is_not_found() {
    let mut r = repo();
    let id = VersionIdent::new("pkg-a".to_string(), version("1.0"));
    assert!(matches!(r.read_recipe(&id), Err(Error::PackageNotFound(_))));
}

#[test]
fn publish_recipe_twice_without_overwrite_fails() {
    let mut r = repo();
    r.publish_recipe_to_storage(&recipe("pkg-a", "1.2", "first"), PublishPolicy::OverwriteVersion)
        .unwrap();
    let second = r.publish_recipe_to_storage(
        &recipe("pkg-a", "1.2", "second"),
        PublishPolicy::DoNotOverwriteVersion,
    );
    assert!(matches!(second, Err(Error::VersionExists(_))));
    let id = VersionIdent::new("pkg-a".to_string(), version("1.2"));
    assert_eq!(r.read_recipe(&id).unwrap().yaml, "first");
}

#[test]
fn publish_recipe_twice_with_overwrite_reads_latest() {
    let mut r = repo();
    r.publish_recipe_to_storage(&recipe("pkg-a", "1.2", "first"), PublishPolicy::OverwriteVersion)
        .unwrap();
    r.publish_recipe_to_storage(&recipe("pkg-a", "1.2", "second"), PublishPolicy::OverwriteVersion)
        .unwrap();
    let id = VersionIdent::new("pkg-a".to_string(), version("1.2"));
    assert_eq!(r.read_recipe(&id).unwrap().yaml, "second");
}

#[test]
fn publish_build_with_components() {
    let mut r = repo();
    let p = package("pkg-a", "1.2", Build::BuildId("ABCDEFGH".to_string()), "pkg: pkg-a/1.2/ABCDEFGH");
    let comps = vec![(Component::Run, digest(11)), (Component::Build, digest(22))];
    r.publish_package_to_storage(&p, &comps).unwrap();
    let read = r.read_components_from_storage(&p.ident).unwrap();
    assert_eq!(
        component_map(&read),
        vec![("build".to_string(), 22), ("run".to_string(), 11)]
    );
    let legacy = build_tag("pkg", &p.ident);
    assert_eq!(r.resolve_tag_uncached(&legacy).unwrap().target.value, 11);
    assert_eq!(r.read_package(&p.ident).unwrap().yaml, "pkg: pkg-a/1.2/ABCDEFGH");
}

#[test]
fn publish_source_build() {
    let mut r = repo();
    let p = package("pkg-a", "1.2", Build::Source, "pkg: pkg-a/1.2/src");
    r.publish_package_to_storage(&p, &vec![(Component::Source, digest(33))]).unwrap();
    let legacy = build_tag("pkg", &p.ident);
    assert_eq!(r.resolve_tag_uncached(&legacy).unwrap().target.value, 33);
    let mut src = legacy.clone();
    src.push("src".to_string());
    assert_eq!(r.resolve_tag_uncached(&src).unwrap().target.value, 33);
    let read = r.read_components_from_storage(&p.ident).unwrap();
    assert_eq!(component_map(&read), vec![("src".to_string(), 33)]);
}

#[test]
fn publish_build_without_run_component_fails() {
    let mut r = repo();
    let p = package("pkg-a", "1.2", Build::BuildId("ABCDEFGH".to_string()), "x");
    let res = r.publish_package_to_storage(&p, &vec![(Component::Build, digest(1))]);
    assert!(matches!(res, Err(Error::String(_))));
    assert!(r.list_packages().is_empty());
}

#[test]
fn remove_then_read_is_not_found_and_republish_reads_new() {
    let mut r = repo();
    let p = package("pkg-a", "1.2", Build::BuildId("ABCDEFGH".to_string()), "old");
    r.publish_package_to_storage(&p, &vec![(Component::Run, digest(1))]).unwrap();
    r.remove_package_from_storage(&p.ident).unwrap();
    assert!(matches!(r.read_package(&p.ident), Err(Error::PackageNotFound(_))));
    assert!(matches!(
        r.read_components_from_storage(&p.ident),
        Err(Error::PackageNotFound(_))
    ));
    let renewed = package("pkg-a", "1.2", Build::BuildId("ABCDEFGH".to_string()), "new");
    r.publish_package_to_storage(&renewed, &vec![(Component::Run, digest(2))]).unwrap();
    assert_eq!(r.read_package(&renewed.ident).unwrap().yaml, "new");
}

#[test]
fn remove_legacy_only_build() {
    let mut r = repo();
    let id = build("pkg-a", "1.2", Build::BuildId("ABCDEFGH".to_string()));
    publish_legacy(&mut r, &id, digest(5));
    r.remove_package_from_storage(&id).unwrap();
    assert!(matches!(r.read_package(&id), Err(Error::PackageNotFound(_))));
    let legacy = build_tag("pkg", &id);
    assert!(r.resolve_tag_uncached(&legacy).is_err());
}

#[test]
fn remove_missing_build_is_not_found() {
    let mut r = repo();
    let id = build("pkg-a", "1.2", Build::BuildId("ABCDEFGH".to_string()));
    assert!(matches!(r.remove_package_from_storage(&id), Err(Error::PackageNotFound(_))));
}

#[test]
fn remove_recipe_and_embed_stub() {
    let mut r = repo();
    let rec = recipe("pkg-a", "1.2", "r");
    r.publish_recipe_to_storage(&rec, PublishPolicy::OverwriteVersion).unwrap();
    r.remove_recipe(&rec.ident).unwrap();
    assert!(matches!(r.remove_recipe(&rec.ident), Err(Error::PackageNotFound(_))));
    let stub = package("pkg-b", "1.0", Build::Embedded("pkg-a/1.2/src".to_string()), "stub");
    r.publish_embed_stub_to_storage(&stub).unwrap();
    assert_eq!(r.read_embed_stub(&stub.ident).unwrap().yaml, "stub");
    r.remove_embed_stub_from_storage(&stub.ident).unwrap();
    assert!(matches!(
        r.remove_embed_stub_from_storage(&stub.ident),
        Err(Error::PackageNotFound(_))
    ));
}

#[test]
fn read_embed_stub_rejects_other_builds() {
    let mut r = repo();
    let id = build("pkg-a", "1.2", Build::Source);
    assert!(matches!(r.read_embed_stub(&id), Err(Error::String(_))));
}

#[test]
fn version_normalization_finds_build() {
    let mut r = repo();
    let p = package("pkg-a", "1.0", Build::BuildId("ABCDEFGH".to_string()), "p");
    r.publish_package_to_storage(&p, &vec![(Component::Run, digest(1))]).unwrap();
    let query = VersionIdent::new("pkg-a".to_string(), version("1.0.0.0"));
    let builds = r.list_package_builds(&query);
    assert_eq!(builds.len(), 1);
    assert_eq!(builds[0].version.parts, vec![1, 0]);
    assert!(matches!(&builds[0].build, Build::BuildId(b) if b == "ABCDEFGH"));
}

#[test]
fn version_listing_deduplicates_and_sorts() {
    let mut r = repo();
    for v in ["2.0", "1.0", "1.0.0", "1.10", "1.2"] {
        r.publish_recipe_to_storage(&recipe("pkg-a", v, v), PublishPolicy::OverwriteVersion)
            .unwrap();
    }
    let versions = r.list_package_versions("pkg-a").unwrap();
    let parts: Vec<Vec<u32>> = versions.iter().map(|v| v.parts.clone()).collect();
    assert_eq!(parts.len(), 4);
    assert_eq!(parts[1], vec![1, 2]);
    assert_eq!(parts[2], vec![1, 10]);
    assert_eq!(parts[3], vec![2, 0]);
    assert!(parts[0] == vec![1, 0] || parts[0] == vec![1, 0, 0]);
}

#[test]
fn six_part_versions_found_with_normalized_query() {
    let mut r = repo();
    let p = package("pkg-a", "1.2.3.4.5.6", Build::BuildId("ABCDEFGH".to_string()), "p");
    r.publish_package_to_storage(&p, &vec![(Component::Run, digest(1))]).unwrap();
    let query = VersionIdent::new("pkg-a".to_string(), version("1.2.3.4.5.6"));
    assert_eq!(r.list_package_builds(&query).len(), 1);
    let padded = VersionIdent::new("pkg-a".to_string(), version("1.2.3.4.5.6.0"));
    assert_eq!(r.list_package_builds(&padded).len(), 1);
}

#[test]
fn embedded_builds_are_listed() {
    let mut r = repo();
    let stub = package("pkg-b", "1.0", Build::Embedded("pkg-a/1.2/src".to_string()), "stub");
    r.publish_embed_stub_to_storage(&stub).unwrap();
    let query = VersionIdent::new("pkg-b".to_string(), version("1.0"));
    let embedded = r.get_embedded_package_builds(&query);
    assert_eq!(embedded.len(), 1);
    assert!(matches!(&embedded[0].build, Build::Embedded(t) if t == "pkg-a/1.2/src"));
    assert!(r.get_concrete_package_builds(&query).is_empty());
    assert_eq!(r.list_package_builds(&query).len(), 1);
    assert!(r.read_components_from_storage(&embedded[0]).unwrap().is_empty());
}

#[test]
fn embedded_key_is_base32() {
    assert_eq!(embedded_key("pkg-a/1.2/src"), "embedded[OBVWOLLBF4YS4MRPONZGG]");
}

#[test]
fn bypass_cache_sees_out_of_band_change() {
    let mut r = repo();
    let rec = recipe("pkg-a", "1.2", "first");
    r.publish_recipe_to_storage(&rec, PublishPolicy::OverwriteVersion).unwrap();
    assert_eq!(r.read_recipe(&rec.ident).unwrap().yaml, "first");
    let path = version_tag("spec", &"pkg-a".to_string(), &version("1.2"));
    let blob = r.commit_blob("second".to_string());
    r.push_tag_uncached(&path, blob);
    assert_eq!(r.read_recipe(&rec.ident).unwrap().yaml, "first");
    let orig = r.set_cache_policy(CachePolicy::BypassCache);
    assert_eq!(orig, CachePolicy::CacheOk);
    assert_eq!(r.read_recipe(&rec.ident).unwrap().yaml, "second");
}

#[test]
fn list_build_components_of_legacy_and_missing() {
    let mut r = repo();
    let id = build("pkg-a", "1.2", Build::BuildId("ABCDEFGH".to_string()));
    publish_legacy(&mut r, &id, digest(5));
    let mut names: Vec<String> =
        r.list_build_components(&id).unwrap().iter().map(|c| c.as_str().to_string()).collect();
    names.sort();
    assert_eq!(names, vec!["build".to_string(), "run".to_string()]);
    let missing = build("pkg-z", "1.0", Build::Source);
    assert!(r.list_build_components(&missing).unwrap().is_empty());
}

#[test]
fn upgrade_legacy_repository() {
    let mut r = repo();
    r.publish_recipe_to_storage(&recipe("pkg-a", "1.2", "r"), PublishPolicy::OverwriteVersion)
        .unwrap();
    let id = build("pkg-a", "1.2", Build::BuildId("ABCDEFGH".to_string()));
    publish_legacy(&mut r, &id, digest(7));
    assert_eq!(r.read_metadata().unwrap().version.parts, vec![0, 0, 0]);
    assert_eq!(r.upgrade().unwrap(), "Repo up to date");
    assert_eq!(r.read_metadata().unwrap().version.parts, vec![1, 0, 0]);
    let mut run = build_tag("pkg", &id);
    run.push("run".to_string());
    assert_eq!(r.resolve_tag_uncached(&run).unwrap().target.value, 7);
    let read = r.read_components_from_storage(&id).unwrap();
    assert_eq!(
        component_map(&read),
        vec![("build".to_string(), 7), ("run".to_string(), 7)]
    );
    assert_eq!(r.upgrade().unwrap(), "Nothing to do.");
}

#[test]
fn upgrade_copies_legacy_source_tag() {
    let mut r = repo();
    let id = build("pkg-a", "1.2", Build::Source);
    publish_legacy(&mut r, &id, digest(9));
    let legacy = build_tag("pkg", &id);
    let before = r.resolve_tag_uncached(&legacy).unwrap();
    r.upgrade_build(&id).unwrap();
    let mut src = legacy.clone();
    src.push("src".to_string());
    let copied = r.resolve_tag_uncached(&src).unwrap();
    assert_eq!(copied, before);
    let read = r.read_components_from_storage(&id).unwrap();
    assert_eq!(component_map(&read), vec![("src".to_string(), 9)]);
}

#[test]
fn pinned_repository_sees_the_past() {
    let mut r = repo();
    let rec = recipe("pkg-a", "1.2", "first");
    r.publish_recipe_to_storage(&rec, PublishPolicy::OverwriteVersion).unwrap();
    r.publish_recipe_to_storage(&recipe("pkg-a", "1.2", "second"), PublishPolicy::OverwriteVersion)
        .unwrap();
    r.publish_recipe_to_storage(&recipe("pkg-b", "1.0", "later"), PublishPolicy::OverwriteVersion)
        .unwrap();
    assert_eq!(r.read_recipe(&rec.ident).unwrap().yaml, "second");
    r.pin_at_time(0);
    assert_eq!(r.address(), "mem:///test?when=0");
    assert_eq!(r.read_recipe(&rec.ident).unwrap().yaml, "first");
    assert_eq!(r.list_packages(), vec!["pkg-a".to_string()]);
}

#[test]
fn error_texts_name_the_problem() {
    let mut r = repo();
    let p = package("pkg-a", "1.2", Build::Source, "x");
    match r.publish_package_to_storage(&p, &vec![(Component::Run, digest(1))]) {
        Err(Error::String(s)) => assert_eq!(s, "Package must have a source component to be published"),
        other => panic!("unexpected {:?}", other),
    }
    let id = build("pkg-a", "1.2", Build::BuildId("ABCDEFGH".to_string()));
    match r.read_embed_stub(&id) {
        Err(Error::String(s)) => assert_eq!(s, "Cannot read this ident as an embed stub: pkg-a/1.2/ABCDEFGH"),
        other => panic!("unexpected {:?}", other),
    }
    match r.read_package(&id) {
        Err(Error::PackageNotFound(i)) => {
            assert_eq!(i.name, "pkg-a");
            assert!(matches!(i.build, Some(Build::BuildId(ref b)) if b == "ABCDEFGH"));
        }
        other => panic!("unexpected {:?}", other),
    }
}

#[test]
fn embed_stub_with_unparseable_embedder_is_skipped() {
    let mut r = repo();
    let bad = package("pkg-b", "1.0", Build::Embedded("not an ident".to_string()), "stub");
    r.publish_embed_stub_to_storage(&bad).unwrap();
    let query = VersionIdent::new("pkg-b".to_string(), version("1.0"));
    assert!(r.get_embedded_package_builds(&query).is_empty());
}

#[test]
fn upgrade_stops_on_listed_build_that_is_not_stored() {
    let mut r = repo();
    let p = package("pkg-a", "1.2", Build::BuildId("ABCDEFGH".to_string()), "spec only");
    r.publish_embed_stub_to_storage(&p).unwrap();
    assert!(matches!(r.upgrade(), Err(Error::PackageNotFound(_))));
}

#[test]
fn unparseable_payload_is_invalid_package_spec() {
    let mut r = repo();
    let rec = recipe("pkg-a", "1.2", "pkg: [unclosed");
    r.publish_recipe_to_storage(&rec, PublishPolicy::OverwriteVersion).unwrap();
    match r.read_recipe(&rec.ident) {
        Err(Error::InvalidPackageSpec(i, msg)) => {
            assert_eq!(i.name, "pkg-a");
            assert!(!msg.is_empty());
        }
        other => panic!("unexpected {:?}", other),
    }
    // The error is cached and comes back as the same variant.
    assert!(matches!(r.read_recipe(&rec.ident), Err(Error::InvalidPackageSpec(_, _))));
}
