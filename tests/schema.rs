use spk_storage::cache::{CacheValue, Cached};
use spk_storage::component::{Component, Components};
use spk_storage::error::Error;
use spk_storage::ident::{parse_build, parse_embedded_key, embedded_key, AnyIdent, Build};
use spk_storage::name::validate_name;
use spk_storage::remove::combine_results;
use spk_storage::test_spec::{TestSpec, TestStage};
use spk_storage::upgrade::RepositoryMetadata;
use spk_storage::version::{decode_tag_segment, encode_tag_segment, parse_version, Version};

#[test]
fn component_parse_reserved_and_named() {
    assert!(Component::parse("all").unwrap().is_all());
    assert!(Component::parse("run").unwrap().is_run());
    assert!(Component::parse("build").unwrap().is_build());
    assert!(Component::parse("src").unwrap().is_source());
    let named = Component::parse("docs").unwrap();
    assert!(named.is_named());
    assert_eq!(named.as_str(), "docs");
    assert_eq!(Component::Source.as_str(), "src");
}

#[test]
fn component_parse_rejects_invalid_names() {
    assert!(matches!(Component::parse("Docs"), Err(Error::InvalidName(_))));
    assert!(matches!(Component::parse("a"), Err(Error::InvalidName(_))));
    assert!(matches!(Component::parse("has space"), Err(Error::InvalidName(_))));
    assert!(!validate_name(&"x".repeat(65)));
    assert!(validate_name(&"x".repeat(64)));
}

#[test]
fn component_defaults() {
    assert!(Component::default_for_build().is_build());
    assert!(Component::default_for_run().is_run());
}

#[test]
fn component_set_formatting() {
    let empty: Vec<Component> = vec![];
    assert_eq!(empty.fmt_component_set(), "");
    assert_eq!(vec![Component::Run].fmt_component_set(), ":run");
    assert_eq!(
        vec![Component::Build, Component::Run, Component::Named("docs".to_string())].fmt_component_set(),
        ":{build,run,docs}"
    );
}

#[test]
fn version_parse_and_text() {
    let v = parse_version("1.20.003").unwrap();
    assert_eq!(v.parts, vec![1, 20, 3]);
    assert_eq!(v.to_text(), "1.20.3");
    assert!(parse_version("").is_err());
    assert!(parse_version("1..2").is_err());
    assert!(parse_version("1.2.").is_err());
    assert!(parse_version("1.a").is_err());
    assert!(parse_version("4294967296").is_err());
    assert_eq!(parse_version("4294967295").unwrap().parts, vec![4294967295]);
}

#[test]
fn version_trailing_zeros() {
    let a = parse_version("1.0").unwrap();
    let b = parse_version("1.0.0.0").unwrap();
    assert!(a.same_as(&b));
    assert_eq!(b.normalized_len(), 1);
    assert_eq!(a.with_len(3).parts, vec![1, 0, 0]);
    assert!(!a.less_than(&b));
    assert!(parse_version("1.2").unwrap().less_than(&parse_version("1.10").unwrap()));
    assert!(parse_version("1").unwrap().less_than(&parse_version("1.0.1").unwrap()));
    assert!(!Version::new(vec![2]).less_than(&Version::new(vec![1, 9])));
}

#[test]
fn tag_segment_encoding_round_trip() {
    assert_eq!(encode_tag_segment("1.0+r.1"), "1.0..r.1");
    assert_eq!(decode_tag_segment("1.0..r.1"), "1.0+r.1");
    assert_eq!(decode_tag_segment(&encode_tag_segment("2.3+post.4+x")), "2.3+post.4+x");
    assert_eq!(encode_tag_segment("1.2.3"), "1.2.3");
}

#[test]
fn build_parsing() {
    assert!(matches!(parse_build("src"), Ok(Build::Source)));
    assert!(matches!(parse_build("ABCDEFGH"), Ok(Build::BuildId(_))));
    assert!(matches!(parse_build("ABCDEFG1"), Err(Error::InvalidBuild(_))));
    assert!(matches!(parse_build("abcdefgh"), Err(Error::InvalidBuild(_))));
    assert_eq!(Build::BuildId("ABCDEFGH".to_string()).to_text(), "ABCDEFGH");
}

#[test]
fn embedded_key_round_trip() {
    let key = embedded_key("pkg-a/1.2/src");
    assert_ne!(key, "embedded[pkg-a/1.2/src]");
    assert_eq!(parse_embedded_key(&key), Some("pkg-a/1.2/src".to_string()));
    assert_eq!(parse_embedded_key("embedded[not base32!]"), None);
    assert_eq!(parse_embedded_key("ABCDEFGH"), None);
}

#[test]
fn cache_value_keeps_principal_errors() {
    let ident = AnyIdent { name: "pkg-a".to_string(), version: None, build: None };
    let v = CacheValue::from_result(&Err(Error::PackageNotFound(ident)));
    assert!(matches!(v.into_result(), Err(Error::PackageNotFound(i)) if i.name == "pkg-a"));
    let v = CacheValue::from_result(&Err(Error::String("boom".to_string())));
    assert!(matches!(v.into_result(), Err(Error::String(s)) if s == "boom"));
    let v = CacheValue::from_result(&Err(Error::InvalidVersion("x".to_string())));
    assert!(matches!(v.into_result(), Err(Error::String(s)) if s == "Cached error: invalid version: x"));
    let v = CacheValue::from_result(&Ok(Cached::Payload("yaml".to_string())));
    assert!(matches!(v.into_result(), Ok(Cached::Payload(s)) if s == "yaml"));
}

#[test]
fn removal_results_combine() {
    let nf = || Error::PackageNotFound(AnyIdent { name: "p".to_string(), version: None, build: None });
    assert!(matches!(combine_results(Ok(true), Err(nf())), Ok(true)));
    assert!(matches!(combine_results(Err(nf()), Ok(true)), Ok(true)));
    assert!(matches!(combine_results(Ok(false), Err(nf())), Err(Error::PackageNotFound(_))));
    assert!(matches!(combine_results(Ok(false), Ok(false)), Ok(false)));
    assert!(matches!(
        combine_results(Ok(true), Err(Error::String("io".to_string()))),
        Err(Error::String(_))
    ));
    assert!(matches!(
        combine_results(Err(Error::String("io".to_string())), Ok(true)),
        Err(Error::String(_))
    ));
}

#[test]
fn test_spec_script_and_requirements() {
    let t = TestSpec {
        stage: TestStage::Build,
        script: vec!["echo one".to_string(), "echo two".to_string()],
        selectors: vec![],
        requirements: vec!["python/3".to_string()],
    };
    assert_eq!(t.script(), "echo one\necho two");
    assert_eq!(t.additional_requirements(), vec!["python/3".to_string()]);
}

#[test]
fn metadata_text_round_trip() {
    let m = RepositoryMetadata { version: Version::new(vec![1, 0, 0]) };
    assert_eq!(m.to_text(), "version: 1.0.0\n");
    assert_eq!(RepositoryMetadata::from_text("version: 1.0.0\n").unwrap().version.parts, vec![1, 0, 0]);
    assert!(matches!(
        RepositoryMetadata::from_text("versions: 1"),
        Err(Error::InvalidRepositoryMetadata(_))
    ));
    assert_eq!(RepositoryMetadata::default().version.parts, vec![0, 0, 0]);
}

#[test]
fn component_set_is_ordered_and_unique() {
    let set = vec![
        Component::Named("docs".to_string()),
        Component::Run,
        Component::Build,
        Component::Run,
        Component::Named("api".to_string()),
    ];
    assert_eq!(set.fmt_component_set(), ":{build,run,api,docs}");
    assert_eq!(vec![Component::Run, Component::Run].fmt_component_set(), ":run");
}

#[test]
fn metadata_reads_yaml_variants() {
    for text in ["version: '1.0.0'\n", "version:   \"1.0.0\"", "version: 1.0.0  \n\n", "version:1.0.0"] {
        assert_eq!(RepositoryMetadata::from_text(text).unwrap().version.parts, vec![1, 0, 0]);
    }
    assert!(RepositoryMetadata::from_text("version: '1.0.0\"").is_err());
}

#[test]
fn error_messages_carry_details() {
    assert_eq!(Error::InvalidVersion("x".to_string()).message(), "invalid version: x");
    assert_eq!(Error::String("plain".to_string()).message(), "plain");
}

#[test]
fn embedder_text_must_name_a_build() {
    assert!(spk_storage::ident::check_embedder("pkg-a/1.2/src"));
    assert!(spk_storage::ident::check_embedder("pkg-a/1.2.3/ABCDEFGH"));
    assert!(!spk_storage::ident::check_embedder("pkg-a/1.2"));
    assert!(!spk_storage::ident::check_embedder("Pkg/1.2/src"));
    assert!(!spk_storage::ident::check_embedder("pkg-a/x/src"));
    assert!(!spk_storage::ident::check_embedder("pkg-a/1.2/src/extra"));
}
