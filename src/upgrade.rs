use vstd::prelude::*;
use vstd::string::*;

use crate::cache::CachePolicy;
use crate::component::{str_eq, Component};
use crate::error::Error;
use crate::ident::{build_path, component_tag, parse_build_spec, pkg_root, spec_root, spk_root, BuildIdent, VersionIdent};
use crate::builds::{concrete_build_at, is_probe};
use crate::listing::store_names_version;
use crate::name::is_valid_name;
use crate::store::has_entry;
use crate::version::{normalized, padded};
use crate::publish::pushed;
use crate::repository::SpfsRepository;
use crate::store::{path_view, Tag, TagPathBuf};
use crate::stored::{component_tags, is_component_at, is_source_path, is_stored, stored_ok, StoredPackage};
use crate::version::{parse_parts, parts_text, parse_version, Version};

verus! {

/// The repository layout version that this library writes.
pub open spec fn repo_version() -> Seq<u32> {
    seq![1u32, 0u32, 0u32]
}

/// The first position at or after `from` that is not blank.
fn skip_blanks(s: &str, from: usize) -> (i: usize)
    requires
        from <= s@.len(),
    ensures
        from <= i <= s@.len(),
        trim_start(s@.skip(from as int)) == s@.skip(i as int),
{
    let n = s.unicode_len();
    let mut i = from;
    while i < n && is_blank_char(s.get_char(i))
        invariant
            from <= i <= n,
            n == s@.len(),
            trim_start(s@.skip(from as int)) == trim_start(s@.skip(i as int)),
        decreases n - i,
    {
        proof {
            assert(s@.skip(i as int).drop_first() =~= s@.skip(i as int + 1));
            assert(s@.skip(i as int)[0] == s@[i as int]);
        }
        i = i + 1;
    }
    proof {
        if i < n {
            assert(s@.skip(i as int)[0] == s@[i as int]);
        }
    }
    i
}

/// The end of `s@[from..to]` once its trailing blanks are dropped.
fn drop_blanks(s: &str, from: usize, to: usize) -> (j: usize)
    requires
        from <= to <= s@.len(),
    ensures
        from <= j <= to,
        trim_end(s@.subrange(from as int, to as int)) == s@.subrange(from as int, j as int),
{
    let mut j = to;
    while j > from && is_blank_char(s.get_char(j - 1))
        invariant
            from <= j <= to,
            to <= s@.len(),
            trim_end(s@.subrange(from as int, to as int)) == trim_end(s@.subrange(from as int, j as int)),
        decreases j,
    {
        proof {
            assert(s@.subrange(from as int, j as int).drop_last() =~= s@.subrange(from as int, j - 1));
            assert(s@.subrange(from as int, j as int).last() == s@[j - 1]);
        }
        j = j - 1;
    }
    proof {
        if j > from {
            assert(s@.subrange(from as int, j as int).last() == s@[j - 1]);
        }
    }
    j
}

fn is_blank_char(c: char) -> (r: bool)
    ensures
        r == is_blank(c),
{
    c == ' ' || c == '\t' || c == '\n' || c == '\r'
}

/// The metadata of a repository: the version of its tag layout.
#[derive(Debug)]
pub struct RepositoryMetadata {
    pub version: Version,
}

/// The text of the metadata blob: `version: <version>` and a newline.
pub open spec fn metadata_text(v: Seq<u32>) -> Seq<char> {
    "version: "@ + parts_text(v) + "\n"@
}

/// A blank character of YAML text.
pub open spec fn is_blank(c: char) -> bool {
    c == ' ' || c == '\t' || c == '\n' || c == '\r'
}

/// `s` without its leading blanks.
pub open spec fn trim_start(s: Seq<char>) -> Seq<char>
    decreases s.len(),
{
    if s.len() > 0 && is_blank(s[0]) {
        trim_start(s.drop_first())
    } else {
        s
    }
}

/// `s` without its trailing blanks.
pub open spec fn trim_end(s: Seq<char>) -> Seq<char>
    decreases s.len(),
{
    if s.len() > 0 && is_blank(s.last()) {
        trim_end(s.drop_last())
    } else {
        s
    }
}

/// `s` without one pair of matching single or double quotes around it.
pub open spec fn unquote(s: Seq<char>) -> Seq<char> {
    if s.len() >= 2 && (s[0] == '"' || s[0] == '\'') && s.last() == s[0] {
        s.subrange(1, s.len() - 1)
    } else {
        s
    }
}

/// The version that a metadata blob states: the YAML mapping `version: <v>`,
/// the version plain or quoted, with blanks around it.
pub open spec fn parse_metadata(s: Seq<char>) -> Option<Seq<u32>> {
    if s.len() >= 8 && s.take(8) == "version:"@ {
        parse_parts(unquote(trim_end(trim_start(s.skip(8)))))
    } else {
        None
    }
}

/// The metadata text of a non-empty version reads back as that version.
pub proof fn lemma_metadata_round_trip(v: Seq<u32>)
    requires
        v.len() > 0,
    ensures
        parse_metadata(metadata_text(v)) == Some(v),
{
    reveal_strlit("version: ");
    reveal_strlit("version:");
    reveal_strlit("\n");
    let s = metadata_text(v);
    let p = parts_text(v);
    assert(s.take(8) =~= "version:"@);
    crate::version::lemma_parts_text_ends(v);
    let x = s.skip(8);
    assert(x =~= seq![' '] + p + seq!['\n']);
    assert(x.drop_first() =~= p + seq!['\n']);
    assert(trim_start(x) == trim_start(p + seq!['\n']));
    assert((p + seq!['\n'])[0] == p[0]);
    assert(trim_start(x) == p + seq!['\n']);
    assert((p + seq!['\n']).drop_last() =~= p);
    assert(trim_end(p + seq!['\n']) == trim_end(p));
    assert(trim_end(p) == p);
    assert(unquote(p) == p);
    crate::version::lemma_parts_round_trip(v);
}

/// What `write_metadata` writes, `read_metadata` reads back: right after writing
/// metadata with a non-empty version, the repository's metadata can be read and
/// states that version.
pub proof fn law_metadata_round_trip(written: SpfsRepository, v: Seq<u32>)
    requires
        v.len() > 0,
        exists|t: Tag|
            written.tags().contains_key(metadata_path()) && written.tags()[metadata_path()].last() == t
                && t.target.value < written.blobs().len()
                && #[trigger] written.blobs()[t.target.value as int] == metadata_text(v),
    ensures
        written.metadata_ok(),
        written.metadata_version() == v,
{
    lemma_metadata_round_trip(v);
}

/// The path of the metadata tag, `spk/repo`.
pub open spec fn metadata_path() -> Seq<Seq<char>> {
    seq!["spk"@, "repo"@]
}

fn metadata_tag() -> (r: TagPathBuf)
    ensures
        path_view(r@) == metadata_path(),
{
    proof {
        reveal_strlit("spk");
        reveal_strlit("repo");
    }
    let mut p: Vec<String> = Vec::new();
    p.push(String::from_str("spk"));
    p.push(String::from_str("repo"));
    proof {
        assert(path_view(p@) =~= metadata_path());
    }
    p
}

impl RepositoryMetadata {
    /// The metadata of a repository that has none: version `0.0.0`.
    pub fn default() -> (r: RepositoryMetadata)
        ensures
            r.version@ == seq![0u32, 0u32, 0u32],
    {
        let mut parts: Vec<u32> = Vec::new();
        parts.push(0);
        parts.push(0);
        parts.push(0);
        proof {
            assert(parts@ =~= seq![0u32, 0u32, 0u32]);
        }
        RepositoryMetadata { version: Version::new(parts) }
    }

    /// The text of the metadata blob.
    pub fn to_text(&self) -> (r: String)
        ensures
            r@ == metadata_text(self.version@),
    {
        proof {
            reveal_strlit("version: ");
            reveal_strlit("\n");
        }
        let mut s = String::from_str("version: ");
        crate::version::push_parts_text(&mut s, &self.version.parts);
        s.append("\n");
        s
    }

    /// Reads a metadata blob.
    pub fn from_text(s: &str) -> (r: Result<RepositoryMetadata, Error>)
        ensures
            r is Ok <==> parse_metadata(s@) is Some,
            r matches Ok(m) ==> parse_metadata(s@) == Some(m.version@),
            r is Err ==> r matches Err(Error::InvalidRepositoryMetadata(_)),
    {
        proof {
            reveal_strlit("version:");
        }
        let n = s.unicode_len();
        if n < 8 || !str_eq(s.substring_char(0, 8), "version:") {
            return Err(Error::InvalidRepositoryMetadata(String::from_str(s)));
        }
        let i = skip_blanks(s, 8);
        let j = drop_blanks(s, i, n);
        proof {
            assert(trim_start(s@.skip(8)) == s@.skip(i as int));
            assert(s@.skip(i as int) =~= s@.subrange(i as int, n as int));
        }
        let mut lo = i;
        let mut hi = j;
        if j - i >= 2 {
            let c = s.get_char(i);
            if (c == '"' || c == '\'') && s.get_char(j - 1) == c {
                lo = i + 1;
                hi = j - 1;
            }
        }
        let rest = s.substring_char(lo, hi);
        proof {
            let t = s@.subrange(i as int, j as int);
            assert(rest@ =~= unquote(t));
        }
        match parse_version(rest) {
            Ok(v) => Ok(RepositoryMetadata { version: v }),
            Err(_) => Err(Error::InvalidRepositoryMetadata(String::from_str(s))),
        }
    }
}

impl SpfsRepository {
    /// Reads the repository metadata at `spk/repo`; a repository without it is
    /// at version `0.0.0`.
    pub fn read_metadata(&self) -> (r: Result<RepositoryMetadata, Error>)
        requires
            self.wf(),
        ensures
            !self.tags().contains_key(metadata_path()) ==> (r matches Ok(m) && m.version@ == seq![
                0u32,
                0u32,
                0u32,
            ]),
            self.tags().contains_key(metadata_path()) ==> {
                let d = self.tags()[metadata_path()].last().target.value;
                &&& (r is Ok <==> (d < self.blobs().len() && parse_metadata(self.blobs()[d as int]) is Some))
                &&& (r matches Ok(m) ==> parse_metadata(self.blobs()[d as int]) == Some(m.version@))
                &&& (d >= self.blobs().len() ==> r matches Err(Error::FileReadError(_)))
                &&& (d < self.blobs().len() && parse_metadata(self.blobs()[d as int]) is None ==> r matches Err(
                    Error::InvalidRepositoryMetadata(_),
                ))
            },
            r is Ok <==> self.metadata_ok(),
            r matches Ok(m) ==> m.version@ == self.metadata_version(),
    {
        let path = metadata_tag();
        let tag = match self.resolve_tag_uncached(&path) {
            Ok(t) => t,
            Err(_) => {
                return Ok(RepositoryMetadata::default());
            },
        };
        let yaml = match self.open_payload(tag.target) {
            Ok(s) => s,
            Err(_) => {
                return Err(Error::FileReadError(String::from_str("spk/repo")));
            },
        };
        RepositoryMetadata::from_text(yaml.as_str())
    }

    /// Writes the repository metadata at `spk/repo`.
    pub fn write_metadata(&mut self, meta: &RepositoryMetadata) -> (r: Result<(), Error>)
        requires
            old(self).wf(),
            old(self).blobs().len() < u64::MAX,
        ensures
            r is Ok,
            final(self).wf(),
            final(self).caches_empty(),
            final(self).coherent(),
            final(self).policy() == old(self).policy(),
            exists|t: Tag|
                final(self).tags() == pushed(old(self).tags(), metadata_path(), t)
                    && t.target.value < final(self).blobs().len()
                    && final(self).blobs()[t.target.value as int] == metadata_text(meta.version@),
    {
        let path = metadata_tag();
        let digest = self.commit_blob(meta.to_text());
        let t = self.push_tag_uncached(&path, digest);
        self.invalidate_caches();
        proof {
            assert(self.tags() == pushed(old(self).tags(), metadata_path(), t));
        }
        Ok(())
    }
}

/// Whether `n`, `v`, `k`, `b` name a build that an upgrade visits: `n` is a
/// valid package folder of `spk/spec`, `v` a version named below it, `k` a
/// probed length for `v`, and `b` a build segment found below `v` padded to `k`.
pub open spec fn candidate_at(m: Map<Seq<Seq<char>>, Seq<Tag>>, n: Seq<char>, v: Seq<u32>, k: nat, b: Seq<char>) -> bool {
    &&& has_entry(m, spk_root(spec_root()), n, false)
    &&& is_valid_name(n)
    &&& store_names_version(m, spk_root(spec_root()).push(n), v)
    &&& is_probe(k, normalized(v).len())
    &&& concrete_build_at(m, n, padded(v, k), b)
    &&& parse_build_spec(b) is Some
}

/// Whether `p` is the legacy tag path of a build that an upgrade visits.
pub open spec fn candidate(m: Map<Seq<Seq<char>>, Seq<Tag>>, p: Seq<Seq<char>>) -> bool {
    exists|n: Seq<char>, v: Seq<u32>, k: nat, b: Seq<char>|
        #[trigger] candidate_at(m, n, v, k, b) && p == build_path(pkg_root(), (n, padded(v, k), b))
}

/// Whether some build of `out` has the legacy tag path `p`.
pub open spec fn found(out: Seq<BuildIdent>, p: Seq<Seq<char>>) -> bool {
    exists|t: int| 0 <= t < out.len() && build_path(pkg_root(), (#[trigger] out[t])@) == p
}

/// One step of an upgrade on the build whose legacy tag path is `l`.
pub open spec fn upgrade_step(m: Map<Seq<Seq<char>>, Seq<Tag>>, l: Seq<Seq<char>>) -> Map<Seq<Seq<char>>, Seq<Tag>> {
    if exists|n: Seq<char>| #[trigger] is_component_at(m, l, n) {
        m
    } else {
        upgraded_tags(m, l)
    }
}

/// The tags after upgrading, in turn, the builds whose legacy tag paths are `cs`.
pub open spec fn upgrade_all(m: Map<Seq<Seq<char>>, Seq<Tag>>, cs: Seq<Seq<Seq<char>>>) -> Map<Seq<Seq<char>>, Seq<Tag>>
    decreases cs.len(),
{
    if cs.len() == 0 {
        m
    } else {
        upgrade_step(upgrade_all(m, cs.drop_last()), cs.last())
    }
}

/// Upgrading one stored build leaves unchanged whether any build path is stored.
pub proof fn lemma_step_keeps_stored(m: Map<Seq<Seq<char>>, Seq<Tag>>, l2: Seq<Seq<char>>, l: Seq<Seq<char>>)
    requires
        is_stored(m, l2),
        l.len() == 5,
        l2.len() == 5,
    ensures
        is_stored(upgrade_step(m, l2), l) == is_stored(m, l),
{
    reveal_strlit("src");
    reveal_strlit("build");
    reveal_strlit("run");
    let u = upgrade_step(m, l2);
    if !exists|n: Seq<char>| #[trigger] is_component_at(m, l2, n) {
        assert(m.contains_key(l2));
        assert(crate::name::is_valid_name("src"@));
        assert(crate::name::is_valid_name("build"@));
        assert(crate::name::is_valid_name("run"@));
        if l == l2 {
            assert(u.contains_key(l));
        } else {
            assert forall|n: Seq<char>| u.contains_key(l.push(n)) == m.contains_key(l.push(n)) by {
                if l.push(n) == l2.push("src"@) || l.push(n) == l2.push("build"@) || l.push(n)
                    == l2.push("run"@) {
                    assert(l.push(n).drop_last() == l);
                    assert(l2.push("src"@).drop_last() == l2);
                    assert(l2.push("build"@).drop_last() == l2);
                    assert(l2.push("run"@).drop_last() == l2);
                }
            }
            assert(u.contains_key(l) == m.contains_key(l)) by {
                assert(l2.push("src"@).len() == 6);
                assert(l2.push("build"@).len() == 6);
                assert(l2.push("run"@).len() == 6);
            }
            if is_stored(u, l) && !m.contains_key(l) {
                let n = choose|n: Seq<char>| #[trigger] is_component_at(u, l, n);
                assert(is_component_at(m, l, n));
            }
            if is_stored(m, l) && !m.contains_key(l) {
                let n = choose|n: Seq<char>| #[trigger] is_component_at(m, l, n);
                assert(is_component_at(u, l, n));
            }
        }
    }
}

/// What an upgrade from `old` to `new` with result `r` did: `cs` are the
/// legacy tag paths of exactly the builds that the listings find; the upgrade
/// succeeds when all of them are stored, and then the tags are those of
/// upgrading each in turn, plus the metadata tag at version `1.0.0`.
pub open spec fn upgrade_outcome(old: &SpfsRepository, new: &SpfsRepository, cs: Seq<Seq<Seq<char>>>, r: Result<String, Error>) -> bool {
    &&& forall|j: int| 0 <= j < cs.len() ==> candidate(old.tags(), #[trigger] cs[j])
    &&& forall|n: Seq<char>, v: Seq<u32>, k: nat, b: Seq<char>|
        #[trigger] candidate_at(old.tags(), n, v, k, b) ==> cs.contains(build_path(pkg_root(), (n, padded(v, k), b)))
    &&& (r is Ok <==> forall|j: int| 0 <= j < cs.len() ==> is_stored(old.tags(), #[trigger] cs[j]))
    &&& (r matches Ok(s) ==> s@ == "Repo up to date"@ && exists|t: Tag|
        new.tags() == pushed(upgrade_all(old.tags(), cs), metadata_path(), t)
            && t.target.value < new.blobs().len()
            && new.blobs()[t.target.value as int] == metadata_text(repo_version()))
    &&& (r is Err ==> r matches Err(Error::PackageNotFound(_)))
}

/// Upgrading stored builds in turn leaves unchanged whether any build path is stored.
pub proof fn lemma_all_keeps_stored(m: Map<Seq<Seq<char>>, Seq<Tag>>, cs: Seq<Seq<Seq<char>>>, l: Seq<Seq<char>>)
    requires
        forall|j: int| 0 <= j < cs.len() ==> is_stored(m, #[trigger] cs[j]) && cs[j].len() == 5,
        l.len() == 5,
    ensures
        is_stored(upgrade_all(m, cs), l) == is_stored(m, l),
    decreases cs.len(),
{
    if cs.len() > 0 {
        let p = cs.drop_last();
        assert forall|j: int| 0 <= j < p.len() implies is_stored(m, #[trigger] p[j]) && p[j].len() == 5 by {
            assert(p[j] == cs[j]);
        }
        lemma_all_keeps_stored(m, p, l);
        lemma_all_keeps_stored(m, p, cs.last());
        lemma_step_keeps_stored(upgrade_all(m, p), cs.last(), l);
    }
}

/// The legacy tag paths of the collected builds are exactly the candidates.
proof fn lemma_candidates_view(m: Map<Seq<Seq<char>>, Seq<Tag>>, cands: Seq<BuildIdent>, cs: Seq<Seq<Seq<char>>>)
    requires
        cs == cands.map_values(|b: BuildIdent| build_path(pkg_root(), b@)),
        forall|t: int| 0 <= t < cands.len() ==> candidate(m, build_path(pkg_root(), (#[trigger] cands[t])@)),
        forall|n: Seq<char>, v: Seq<u32>, k: nat, b: Seq<char>|
            #[trigger] candidate_at(m, n, v, k, b) ==> found(cands, build_path(pkg_root(), (n, padded(v, k), b))),
    ensures
        forall|j: int| 0 <= j < cs.len() ==> candidate(m, #[trigger] cs[j]),
        forall|n: Seq<char>, v: Seq<u32>, k: nat, b: Seq<char>|
            #[trigger] candidate_at(m, n, v, k, b) ==> cs.contains(build_path(pkg_root(), (n, padded(v, k), b))),
{
    assert forall|j: int| 0 <= j < cs.len() implies candidate(m, #[trigger] cs[j]) by {
        assert(cs[j] == build_path(pkg_root(), cands[j]@));
    }
    assert forall|n: Seq<char>, v: Seq<u32>, k: nat, b: Seq<char>|
        #[trigger] candidate_at(m, n, v, k, b) implies cs.contains(build_path(pkg_root(), (n, padded(v, k), b))) by {
        let p = build_path(pkg_root(), (n, padded(v, k), b));
        assert(found(cands, p));
        let t = choose|t: int| 0 <= t < cands.len() && build_path(pkg_root(), (#[trigger] cands[t])@) == p;
        assert(cs[t] == p);
    }
}

/// The tags that upgrading a legacy package at `l` adds: its tag copied to
/// `l/src` for a source package, to `l/build` and `l/run` otherwise.
pub open spec fn upgraded_tags(m: Map<Seq<Seq<char>>, Seq<Tag>>, l: Seq<Seq<char>>) -> Map<Seq<Seq<char>>, Seq<Tag>> {
    let t = m[l].last();
    if is_source_path(l) {
        pushed(m, l.push("src"@), t)
    } else {
        pushed(pushed(m, l.push("build"@), t), l.push("run"@), t)
    }
}

impl SpfsRepository {
    /// Whether the metadata of this repository can be read: there is none, or
    /// its blob is there and states a version.
    pub open spec fn metadata_ok(&self) -> bool {
        self.tags().contains_key(metadata_path()) ==> {
            let d = self.tags()[metadata_path()].last().target.value;
            d < self.blobs().len() && parse_metadata(self.blobs()[d as int]) is Some
        }
    }

    /// The version that the metadata of this repository states; `0.0.0` without metadata.
    pub open spec fn metadata_version(&self) -> Seq<u32> {
        if self.tags().contains_key(metadata_path()) {
            parse_metadata(self.blobs()[self.tags()[metadata_path()].last().target.value as int])->Some_0
        } else {
            seq![0u32, 0u32, 0u32]
        }
    }

    /// The builds that an upgrade visits: for each package folder of `spk/spec`,
    /// each of its versions and each build found under the probed lengths of
    /// that version. The listings bypass the cache.
    pub fn upgrade_candidates(&mut self) -> (out: Vec<BuildIdent>)
        requires
            old(self).wf(),
        ensures
            final(self).wf(),
            final(self).tags() == old(self).tags(),
            final(self).blobs() == old(self).blobs(),
            final(self).policy() == old(self).policy(),
            old(self).coherent() ==> final(self).coherent(),
            forall|t: int|
                0 <= t < out.len() ==> !((#[trigger] out@[t]).build is Embedded) && candidate(
                    old(self).tags(),
                    build_path(pkg_root(), out@[t]@),
                ),
            forall|n: Seq<char>, v: Seq<u32>, k: nat, b: Seq<char>|
                #[trigger] candidate_at(old(self).tags(), n, v, k, b) ==> found(
                    out@,
                    build_path(pkg_root(), (n, padded(v, k), b)),
                ),
    {
        let ghost m = self.tags();
        let orig = self.set_cache_policy(CachePolicy::BypassCache);
        let names = self.list_packages();
        let mut out: Vec<BuildIdent> = Vec::new();
        let mut i: usize = 0;
        while i < names.len()
            invariant
                self.wf(),
                self.tags() == m,
                self.blobs() == old(self).blobs(),
                self.policy() is BypassCache,
                old(self).coherent() ==> self.coherent(),
                i <= names.len(),
                forall|nn: Seq<char>|
                    #[trigger] crate::listing::strings_view(names@).contains(nn) <==> (has_entry(
                        m,
                        spk_root(spec_root()),
                        nn,
                        false,
                    ) && is_valid_name(nn)),
                forall|t: int|
                    0 <= t < out.len() ==> !((#[trigger] out@[t]).build is Embedded) && candidate(
                        m,
                        build_path(pkg_root(), out@[t]@),
                    ),
                forall|i2: int, v: Seq<u32>, k: nat, b: Seq<char>|
                    0 <= i2 < i && #[trigger] candidate_at(m, names@[i2]@, v, k, b) ==> found(
                        out@,
                        build_path(pkg_root(), (names@[i2]@, padded(v, k), b)),
                    ),
            decreases names.len() - i,
        {
            let ghost nm = names@[i as int]@;
            let ghost f = spk_root(spec_root()).push(nm);
            proof {
                assert(crate::listing::strings_view(names@)[i as int] == nm);
                assert(crate::listing::strings_view(names@).contains(nm));
            }
            let versions = match self.list_package_versions(names[i].as_str()) {
                Ok(v) => v,
                Err(_) => Vec::new(),
            };
            proof {
                assert(crate::listing::versions_in_store(m, f, crate::cache::versions_view(versions@)));
            }
            let ghost out_i = out@;
            let mut j: usize = 0;
            while j < versions.len()
                invariant
                    self.wf(),
                    self.tags() == m,
                    self.blobs() == old(self).blobs(),
                    self.policy() is BypassCache,
                    old(self).coherent() ==> self.coherent(),
                    i < names.len(),
                    j <= versions.len(),
                    nm == names@[i as int]@,
                    f == spk_root(spec_root()).push(nm),
                    has_entry(m, spk_root(spec_root()), nm, false) && is_valid_name(nm),
                    crate::listing::versions_in_store(m, f, crate::cache::versions_view(versions@)),
                    out_i.is_prefix_of(out@),
                    forall|t: int|
                        0 <= t < out.len() ==> !((#[trigger] out@[t]).build is Embedded) && candidate(
                            m,
                            build_path(pkg_root(), out@[t]@),
                        ),
                    forall|j2: int, k: nat, b: Seq<char>|
                        0 <= j2 < j && is_probe(k, normalized(versions@[j2]@).len())
                            && #[trigger] concrete_build_at(m, nm, padded(versions@[j2]@, k), b)
                            && parse_build_spec(b) is Some ==> found(
                            out@,
                            build_path(pkg_root(), (nm, padded(versions@[j2]@, k), b)),
                        ),
                decreases versions.len() - j,
            {
                let ghost w = versions@[j as int]@;
                proof {
                    assert(crate::cache::versions_view(versions@)[j as int] == w);
                    assert(store_names_version(m, f, w));
                }
                let vid = VersionIdent::new(names[i].clone(), versions[j].duplicate());
                let builds = self.list_package_builds(&vid);
                let ghost kk = choose|k: int|
                    0 <= k <= builds.len() && crate::builds::concrete_sound(m, (nm, w), builds@.take(k))
                        && crate::builds::concrete_complete(m, (nm, w), builds@.take(k))
                        && crate::builds::embedded_ok(m, (nm, w), builds@.skip(k));
                let ghost out_j = out@;
                let mut q: usize = 0;
                while q < builds.len()
                    invariant
                        self.wf(),
                        self.tags() == m,
                        self.blobs() == old(self).blobs(),
                        self.policy() is BypassCache,
                        old(self).coherent() ==> self.coherent(),
                        q <= builds.len(),
                        0 <= kk <= builds.len(),
                        crate::builds::concrete_sound(m, (nm, w), builds@.take(kk)),
                        crate::builds::embedded_ok(m, (nm, w), builds@.skip(kk)),
                        has_entry(m, spk_root(spec_root()), nm, false) && is_valid_name(nm),
                        store_names_version(m, f, w),
                        f == spk_root(spec_root()).push(nm),
                        out_j.is_prefix_of(out@),
                        forall|t: int|
                            0 <= t < out.len() ==> !((#[trigger] out@[t]).build is Embedded) && candidate(
                                m,
                                build_path(pkg_root(), out@[t]@),
                            ),
                        forall|q2: int|
                            0 <= q2 < q && !((#[trigger] builds@[q2]).build is Embedded) ==> found(
                                out@,
                                build_path(pkg_root(), builds@[q2]@),
                            ),
                    decreases builds.len() - q,
                {
                    let ghost before = out@;
                    if !builds[q].build.is_embedded() {
                        proof {
                            if q >= kk {
                                assert(builds@.skip(kk)[q - kk] == builds@[q as int]);
                            }
                            assert(q < kk);
                            assert(builds@.take(kk)[q as int] == builds@[q as int]);
                            let b = builds@[q as int];
                            assert(crate::builds::sound_build(m, (nm, w), b));
                            assert(candidate_at(m, nm, w, b.version@.len(), crate::ident::build_text(b.build)));
                            assert(build_path(pkg_root(), b@) == build_path(
                                pkg_root(),
                                (nm, padded(w, b.version@.len()), crate::ident::build_text(b.build)),
                            ));
                        }
                        out.push(builds[q].duplicate());
                        proof {
                            assert(out@[before.len() as int]@ == builds@[q as int]@);
                        }
                    }
                    proof {
                        assert forall|q2: int|
                            0 <= q2 < q + 1 && !((#[trigger] builds@[q2]).build is Embedded) implies found(
                                out@,
                                build_path(pkg_root(), builds@[q2]@),
                            ) by {
                            if q2 < q {
                                let t = choose|t: int|
                                    0 <= t < before.len() && build_path(pkg_root(), (#[trigger] before[t])@)
                                        == build_path(pkg_root(), builds@[q2]@);
                                assert(out@[t] == before[t]);
                            } else {
                                assert(build_path(pkg_root(), out@[before.len() as int]@) == build_path(pkg_root(), builds@[q2]@));
                            }
                        }
                        assert forall|t: int|
                            0 <= t < out.len() implies !((#[trigger] out@[t]).build is Embedded) && candidate(
                                m,
                                build_path(pkg_root(), out@[t]@),
                            ) by {
                            if t < before.len() {
                                assert(out@[t] == before[t]);
                            }
                        }
                        assert(out_j.is_prefix_of(out@));
                    }
                    q = q + 1;
                }
                proof {
                    assert forall|j2: int, k: nat, b: Seq<char>|
                        0 <= j2 < j + 1 && is_probe(k, normalized(versions@[j2]@).len())
                            && #[trigger] concrete_build_at(m, nm, padded(versions@[j2]@, k), b)
                            && parse_build_spec(b) is Some implies found(
                            out@,
                            build_path(pkg_root(), (nm, padded(versions@[j2]@, k), b)),
                        ) by {
                        if j2 < j {
                            let t = choose|t: int|
                                0 <= t < out_j.len() && build_path(pkg_root(), (#[trigger] out_j[t])@)
                                    == build_path(pkg_root(), (nm, padded(versions@[j2]@, k), b));
                            assert(out@[t] == out_j[t]);
                        } else {
                            let tk = builds@.take(kk);
                            assert(crate::builds::concrete_complete(m, (nm, w), tk));
                            assert(versions@[j2]@ == w);
                            assert(is_probe(k, normalized((nm, w).1).len()));
                            assert(concrete_build_at(m, (nm, w).0, padded((nm, w).1, k), b));
                            assert(crate::builds::has_build_at(tk, tk.len() as int, padded((nm, w).1, k), b));
                            let q2 = choose|q2: int|
                                0 <= q2 < tk.len() && (#[trigger] tk[q2]).version@ == padded(w, k)
                                    && crate::ident::build_text(tk[q2].build) == b;
                            assert(tk[q2] == builds@[q2]);
                            assert(!(builds@[q2].build is Embedded)) by {
                                assert(crate::builds::sound_build(m, (nm, w), tk[q2]));
                            }
                            assert(build_path(pkg_root(), builds@[q2]@) == build_path(pkg_root(), (nm, padded(w, k), b)));
                        }
                    }
                }
                j = j + 1;
            }
            proof {
                assert forall|i2: int, v: Seq<u32>, k: nat, b: Seq<char>|
                    0 <= i2 < i + 1 && #[trigger] candidate_at(m, names@[i2]@, v, k, b) implies found(
                        out@,
                        build_path(pkg_root(), (names@[i2]@, padded(v, k), b)),
                    ) by {
                    if i2 < i {
                        let t = choose|t: int|
                            0 <= t < out_i.len() && build_path(pkg_root(), (#[trigger] out_i[t])@)
                                == build_path(pkg_root(), (names@[i2]@, padded(v, k), b));
                        assert(out@[t] == out_i[t]);
                    } else {
                        assert(store_names_version(m, f, v));
                        assert(crate::listing::covers(crate::cache::versions_view(versions@), v));
                        let j2 = choose|j2: int|
                            0 <= j2 < crate::cache::versions_view(versions@).len() && crate::version::same_version(
                                #[trigger] crate::cache::versions_view(versions@)[j2],
                                v,
                            );
                        let w2 = versions@[j2]@;
                        assert(crate::cache::versions_view(versions@)[j2] == w2);
                        crate::version::lemma_normalized_prefix(v);
                        crate::version::lemma_normalized_prefix(w2);
                        crate::version::lemma_padded_same(v, k);
                        crate::version::lemma_padded_same(w2, k);
                        assert(padded(w2, k) == padded(v, k));
                        assert(concrete_build_at(m, nm, padded(versions@[j2]@, k), b));
                    }
                }
            }
            i = i + 1;
        }
        self.set_cache_policy(orig);
        proof {
            assert forall|n: Seq<char>, v: Seq<u32>, k: nat, b: Seq<char>|
                #[trigger] candidate_at(m, n, v, k, b) implies found(
                    out@,
                    build_path(pkg_root(), (n, padded(v, k), b)),
                ) by {
                assert(crate::listing::strings_view(names@).contains(n));
                let i2 = choose|i2: int| 0 <= i2 < crate::listing::strings_view(names@).len() && crate::listing::strings_view(names@)[i2] == n;
                assert(names@[i2]@ == n);
                assert(candidate_at(m, names@[i2]@, v, k, b));
            }
        }
        out
    }

    /// Gives a build stored with a legacy tag one tag per component, each a
    /// copy of the legacy tag (target, parent and time); a build that already
    /// has component tags is left as it is.
    #[verifier::spinoff_prover]
    pub fn upgrade_build(&mut self, build: &BuildIdent) -> (r: Result<(), Error>)
        requires
            old(self).wf(),
        ensures
            final(self).wf(),
            final(self).blobs() == old(self).blobs(),
            final(self).policy() == old(self).policy(),
            final(self).caches_empty(),
            final(self).coherent(),
            r is Ok <==> is_stored(old(self).tags(), build_path(pkg_root(), build@)),
            r is Err ==> (r matches Err(Error::PackageNotFound(_))) && final(self).tags() == old(self).tags(),
            r is Ok ==> {
                let l = build_path(pkg_root(), build@);
                if exists|n: Seq<char>| #[trigger] is_component_at(old(self).tags(), l, n) {
                    final(self).tags() == old(self).tags()
                } else {
                    final(self).tags() == upgraded_tags(old(self).tags(), l)
                }
            },
    {
        proof {
            reveal_strlit("src");
            reveal_strlit("build");
            reveal_strlit("run");
        }
        let ghost m = self.tags();
        let ghost l = build_path(pkg_root(), build@);
        let orig = self.set_cache_policy(CachePolicy::BypassCache);
        let looked = self.lookup_package(build);
        self.set_cache_policy(orig);
        let stored = match looked {
            Ok(s) => s,
            Err(e) => {
                self.invalidate_caches();
                return Err(e);
            },
        };
        if stored.has_components() {
            self.invalidate_caches();
            proof {
                if let StoredPackage::WithComponents(cs) = stored {
                    assert(is_component_at(m, l, cs@[0].0.text()));
                }
            }
            return Ok(());
        }
        let ghost legacy = stored;
        let comps = stored.into_components();
        let ghost t = m[l].last();
        let mut i: usize = 0;
        while i < comps.len()
            invariant
                self.wf(),
                i <= comps.len(),
                self.blobs() == old(self).blobs(),
                self.policy() == old(self).policy(),
                stored_ok(m, l, legacy),
                l == build_path(pkg_root(), build@),
                m == old(self).tags(),
                legacy is WithoutComponents,
                t == m[l].last(),
                comps@.map_values(|c: (Component, TagPathBuf)| (c.0, path_view(c.1@))) == component_tags(legacy),
                self.tags() == if is_source_path(l) {
                    if i == 0 { m } else { pushed(m, l.push("src"@), t) }
                } else if i == 0 {
                    m
                } else if i == 1 {
                    pushed(m, l.push("build"@), t)
                } else {
                    pushed(pushed(m, l.push("build"@), t), l.push("run"@), t)
                },
            decreases comps.len() - i,
        {
            let ghost ct = component_tags(legacy);
            proof {
                assert(path_view((legacy->WithoutComponents_0)@) == l);
                if is_source_path(l) {
                    assert(ct =~= seq![(Component::Source, l)]);
                } else {
                    assert(ct =~= seq![(Component::Build, l), (Component::Run, l)]);
                }
                assert(ct[i as int] == (comps@[i as int].0, path_view(comps@[i as int].1@)));
                assert(ct[i as int].1 == l);
                assert(l.push(ct[i as int].0.text()) != l) by {
                    assert(l.push(ct[i as int].0.text()).len() != l.len());
                }
            }
            proof {
                assert(self.tags().contains_key(l));
                assert(self.tags()[l] == m[l]);
            }
            let tag = match self.resolve_tag_uncached(&comps[i].1) {
                Ok(t) => t,
                Err(_) => {
                    proof {
                        assert(false);
                    }
                    self.invalidate_caches();
                    return Err(Error::PackageNotFound(build.to_any()));
                },
            };
            let new_path = component_tag(build, comps[i].0.as_str());
            proof {
                assert(path_view((legacy->WithoutComponents_0)@) == l);
                if is_source_path(l) {
                    assert(component_tags(legacy) =~= seq![(Component::Source, l)]);
                    assert(comps@[i as int].0 == Component::Source);
                } else {
                    assert(component_tags(legacy) =~= seq![(Component::Build, l), (Component::Run, l)]);
                    if i == 0 {
                        assert(comps@[i as int].0 == Component::Build);
                    } else {
                        assert(comps@[i as int].0 == Component::Run);
                    }
                }
            }
            let ghost prev = self.tags();
            self.insert_tag_uncached(&new_path, tag);
            proof {
                assert(tag == t);
                assert(path_view(new_path@) == l.push(comps@[i as int].0.text()));
                assert(self.tags() == pushed(prev, l.push(comps@[i as int].0.text()), t));
                if is_source_path(l) {
                    assert(comps@[i as int].0.text() == "src"@);
                } else if i == 0 {
                    assert(comps@[i as int].0.text() == "build"@);
                } else {
                    assert(comps@[i as int].0.text() == "run"@);
                }
            }
            i = i + 1;
        }
        self.invalidate_caches();
        Ok(())
    }

    /// Upgrades the repository's tag layout: every build that the listings
    /// find (`upgrade_candidates`) and that is stored with a legacy tag gets one
    /// tag per component, then the metadata records version `1.0.0`. A
    /// repository at that version or later has nothing to do; a listed build
    /// that is not stored at all stops the upgrade with `PackageNotFound`.
    pub fn upgrade(&mut self) -> (r: Result<String, Error>)
        requires
            old(self).wf(),
            old(self).blobs().len() < u64::MAX,
        ensures
            final(self).wf(),
            final(self).policy() == old(self).policy(),
            (old(self).metadata_ok() && !crate::version::version_lt(
                old(self).metadata_version(),
                repo_version(),
            )) <==> (r matches Ok(s) && s@ == "Nothing to do."@),
            (r matches Ok(s) && s@ == "Nothing to do."@) ==> *final(self) == *old(self),
            !old(self).metadata_ok() ==> (r matches Err(Error::InvalidRepositoryMetadata(_)) || r matches Err(
                Error::FileReadError(_),
            )),
            (old(self).metadata_ok() && crate::version::version_lt(
                old(self).metadata_version(),
                repo_version(),
            )) ==> exists|cs: Seq<Seq<Seq<char>>>| #[trigger] upgrade_outcome(&*old(self), &*final(self), cs, r),
    {
        proof {
            reveal_strlit("Nothing to do.");
            reveal_strlit("Repo up to date");
        }
        let mut parts: Vec<u32> = Vec::new();
        parts.push(1);
        parts.push(0);
        parts.push(0);
        let target = Version::new(parts);
        proof {
            assert(target@ =~= repo_version());
        }
        let meta = match self.read_metadata() {
            Ok(m) => m,
            Err(e) => {
                return Err(e);
            },
        };
        if !meta.version.less_than(&target) {
            return Ok(String::from_str("Nothing to do."));
        }
        proof {
            assert("Repo up to date"@.len() != "Nothing to do."@.len());
        }
        let ghost m = self.tags();
        let cands = self.upgrade_candidates();
        let ghost cs = cands@.map_values(|b: BuildIdent| build_path(pkg_root(), b@));
        proof {
            assert(upgrade_all(m, cs.take(0)) == m);
        }
        let mut q: usize = 0;
        while q < cands.len()
            invariant
                self.wf(),
                q <= cands.len(),
                self.blobs() == old(self).blobs(),
                self.policy() == old(self).policy(),
                old(self).blobs().len() < u64::MAX,
                m == old(self).tags(),
                cs == cands@.map_values(|b: BuildIdent| build_path(pkg_root(), b@)),
                self.tags() == upgrade_all(m, cs.take(q as int)),
                forall|q2: int| 0 <= q2 < q ==> is_stored(m, #[trigger] cs[q2]),
                old(self).metadata_ok() && crate::version::version_lt(
                    old(self).metadata_version(),
                    repo_version(),
                ),
                forall|t: int|
                    0 <= t < cands.len() ==> !((#[trigger] cands@[t]).build is Embedded) && candidate(
                        m,
                        build_path(pkg_root(), cands@[t]@),
                    ),
                forall|n: Seq<char>, v: Seq<u32>, k: nat, b: Seq<char>|
                    #[trigger] candidate_at(m, n, v, k, b) ==> found(
                        cands@,
                        build_path(pkg_root(), (n, padded(v, k), b)),
                    ),
            decreases cands.len() - q,
        {
            proof {
                assert(cs.take(q as int + 1).drop_last() =~= cs.take(q as int));
                assert(cs[q as int] == build_path(pkg_root(), cands@[q as int]@));
                lemma_all_keeps_stored(m, cs.take(q as int), cs[q as int]);
            }
            match self.upgrade_build(&cands[q]) {
                Ok(_) => {},
                Err(e) => {
                    proof {
                        assert(!is_stored(m, cs[q as int]));
                        assert(upgrade_outcome(&*old(self), &*self, cs, Err(e))) by {
                            lemma_candidates_view(m, cands@, cs);
                        }
                    }
                    return Err(e);
                },
            }
            q = q + 1;
        }
        proof {
            assert(cs.take(q as int) =~= cs);
        }
        let new_meta = RepositoryMetadata { version: target };
        let ghost before = *self;
        let _ = self.write_metadata(&new_meta);
        let r = Ok(String::from_str("Repo up to date"));
        proof {
            let t = choose|t: Tag|
                self.tags() == pushed(before.tags(), metadata_path(), t)
                    && t.target.value < self.blobs().len()
                    && self.blobs()[t.target.value as int] == metadata_text(new_meta.version@);
            lemma_candidates_view(m, cands@, cs);
            assert(upgrade_outcome(&*old(self), &*self, cs, r));
        }
        r
    }
}

} // verus!
