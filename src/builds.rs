use vstd::prelude::*;
use vstd::string::*;

use crate::cache::entries_view;
use crate::component::str_eq;
use crate::ident::{build_text, build_wf, embedded_of, has_embedded_prefix, parse_build, parse_build_spec, parse_embedded_key, pkg_root, spec_root, starts_with_embedded, version_path, version_tag, Build, BuildIdent, VersionIdent};
use crate::repository::{listing_ok, SpfsRepository};
use crate::store::{entry_view, has_entry, path_view, EntryType, Tag};
use crate::version::{normalized, padded, Version};

verus! {

/// The version lengths probed for a version whose normalized form has `n`
/// parts: those from one to five that exceed `n`, and `n` itself.
pub open spec fn is_probe(k: nat, n: nat) -> bool {
    (1 <= k <= 5 && k > n) || k == n
}

/// Whether a listing holds the build segment `n`: a folder, or a tag that is
/// not an embed stub.
pub open spec fn entry_concrete(es: Seq<(Seq<char>, bool)>, n: Seq<char>) -> bool {
    es.contains((n, false)) || (es.contains((n, true)) && !has_embedded_prefix(n))
}

/// Whether the namespace `m` holds the build segment `n` below version `v` of
/// `name`, in either tag tree.
pub open spec fn concrete_build_at(
    m: Map<Seq<Seq<char>>, Seq<Tag>>,
    name: Seq<char>,
    v: Seq<u32>,
    n: Seq<char>,
) -> bool {
    ||| has_entry(m, version_path(spec_root(), name, v), n, false)
    ||| (has_entry(m, version_path(spec_root(), name, v), n, true) && !has_embedded_prefix(n))
    ||| has_entry(m, version_path(pkg_root(), name, v), n, false)
    ||| (has_entry(m, version_path(pkg_root(), name, v), n, true) && !has_embedded_prefix(n))
}

/// Whether `b` is among the first `k` builds, by exact version and build text.
pub open spec fn has_build_at(bs: Seq<BuildIdent>, k: int, v: Seq<u32>, n: Seq<char>) -> bool {
    exists|i: int| 0 <= i < k && (#[trigger] bs[i]).version@ == v && build_text(bs[i].build) == n
}

/// No two builds have the same version and build segment.
pub open spec fn distinct_builds(bs: Seq<BuildIdent>) -> bool {
    forall|a: int, b: int|
        0 <= a < b < bs.len() ==> !((#[trigger] bs[a]).version@ == (#[trigger] bs[b]).version@
            && build_text(bs[a].build) == build_text(bs[b].build))
}

fn same_parts(a: &Version, b: &Version) -> (r: bool)
    ensures
        r == (a@ == b@),
{
    if a.parts.len() != b.parts.len() {
        return false;
    }
    let mut i: usize = 0;
    while i < a.parts.len()
        invariant
            a.parts.len() == b.parts.len(),
            i <= a.parts.len(),
            forall|j: int| 0 <= j < i ==> a@[j] == b@[j],
        decreases a.parts.len() - i,
    {
        if a.parts[i] != b.parts[i] {
            return false;
        }
        i = i + 1;
    }
    proof {
        assert(a@ =~= b@);
    }
    true
}

fn contains_build(bs: &Vec<BuildIdent>, v: &Version, n: &str) -> (r: bool)
    ensures
        r == has_build_at(bs@, bs@.len() as int, v@, n@),
{
    let mut i: usize = 0;
    while i < bs.len()
        invariant
            i <= bs.len(),
            forall|j: int|
                0 <= j < i ==> !((#[trigger] bs@[j]).version@ == v@ && build_text(bs@[j].build) == n@),
        decreases bs.len() - i,
    {
        if same_parts(&bs[i].version, v) {
            let t = bs[i].build.to_text();
            if str_eq(t.as_str(), n) {
                return true;
            }
        }
        i = i + 1;
    }
    false
}

/// Appends the builds that a listing of version `version` of `name` holds,
/// skipping those already present.
fn add_builds(bs: &mut Vec<BuildIdent>, entries: &Vec<EntryType>, name: &String, version: &Version)
    requires
        distinct_builds(old(bs)@),
    ensures
        distinct_builds(final(bs)@),
        old(bs)@.is_prefix_of(final(bs)@),
        forall|i: int|
            old(bs)@.len() <= i < final(bs)@.len() ==> {
                let b = #[trigger] final(bs)@[i];
                &&& b.name@ == name@
                &&& b.version@ == version@
                &&& !(b.build is Embedded)
                &&& build_wf(b.build)
                &&& parse_build_spec(build_text(b.build)) is Some
                &&& entry_concrete(entries_view(entries@), build_text(b.build))
            },
        forall|n: Seq<char>|
            #[trigger] entry_concrete(entries_view(entries@), n) && parse_build_spec(n) is Some
                ==> has_build_at(final(bs)@, final(bs)@.len() as int, version@, n),
{
    let ghost es = entries_view(entries@);
    let mut i: usize = 0;
    while i < entries.len()
        invariant
            i <= entries.len(),
            es == entries_view(entries@),
            old(bs)@.is_prefix_of(bs@),
            distinct_builds(bs@),
            forall|k: int|
                old(bs)@.len() <= k < bs@.len() ==> {
                    let b = #[trigger] bs@[k];
                    &&& b.name@ == name@
                    &&& b.version@ == version@
                    &&& !(b.build is Embedded)
                    &&& build_wf(b.build)
                    &&& parse_build_spec(build_text(b.build)) is Some
                    &&& entry_concrete(es, build_text(b.build))
                },
            forall|j: int|
                0 <= j < i && entry_concrete(es, (#[trigger] es[j]).0) && parse_build_spec(es[j].0) is Some
                    && (es[j].1 ==> !has_embedded_prefix(es[j].0)) ==> has_build_at(
                    bs@,
                    bs@.len() as int,
                    version@,
                    es[j].0,
                ),
        decreases entries.len() - i,
    {
        let ghost b0 = bs@;
        proof {
            assert(es[i as int] == entry_view(entries@[i as int]));
        }
        let candidate: Option<&String> = match &entries[i] {
            EntryType::Tag(n) => if starts_with_embedded(n.as_str()) {
                None
            } else {
                Some(n)
            },
            EntryType::Folder(n) => Some(n),
        };
        if let Some(n) = candidate {
            proof {
                assert(es.contains(es[i as int]));
                assert(entry_concrete(es, n@));
            }
            if let Ok(b) = parse_build(n.as_str()) {
                if !contains_build(bs, version, n.as_str()) {
                    bs.push(BuildIdent::new(name.clone(), version.duplicate(), b));
                    proof {
                        assert(bs@[b0.len() as int].version@ == version@);
                        assert forall|a: int, c: int|
                            0 <= a < c < bs@.len() implies !((#[trigger] bs@[a]).version@ == (
                            #[trigger] bs@[c]).version@ && build_text(bs@[a].build) == build_text(
                                bs@[c].build,
                            )) by {
                            if c == b0.len() {
                                assert(bs@[a] == b0[a]);
                                if bs@[a].version@ == version@ && build_text(bs@[a].build) == n@ {
                                    assert(has_build_at(b0, b0.len() as int, version@, n@));
                                }
                            } else {
                                assert(bs@[a] == b0[a] && bs@[c] == b0[c]);
                            }
                        }
                    }
                }
            }
        }
        proof {
            assert(b0.is_prefix_of(bs@));
            assert forall|j: int|
                0 <= j < i + 1 && entry_concrete(es, (#[trigger] es[j]).0) && parse_build_spec(es[j].0) is Some
                    && (es[j].1 ==> !has_embedded_prefix(es[j].0)) implies has_build_at(
                    bs@,
                    bs@.len() as int,
                    version@,
                    es[j].0,
                ) by {
                if j < i {
                    let k = choose|k: int|
                        0 <= k < b0.len() && (#[trigger] b0[k]).version@ == version@ && build_text(b0[k].build)
                            == es[j].0;
                    assert(bs@[k] == b0[k]);
                } else if bs@.len() > b0.len() {
                    assert(bs@[b0.len() as int].version@ == version@);
                }
            }
        }
        i = i + 1;
    }
    proof {
        assert forall|n: Seq<char>|
            #[trigger] entry_concrete(es, n) && parse_build_spec(n) is Some implies has_build_at(
                bs@,
                bs@.len() as int,
                version@,
                n,
            ) by {
            if es.contains((n, false)) {
                let j = choose|j: int| 0 <= j < es.len() && es[j] == (n, false);
                assert(entry_concrete(es, es[j].0));
            } else {
                let j = choose|j: int| 0 <= j < es.len() && es[j] == (n, true);
                assert(entry_concrete(es, es[j].0));
            }
        }
    }
}

/// Whether the builds `bs` of `pkg`, found under probe lengths `k` with `ok(k)`,
/// are sound: each is a real build segment below a zero-padded form of the version.
pub open spec fn concrete_sound(m: Map<Seq<Seq<char>>, Seq<Tag>>, pkg: (Seq<char>, Seq<u32>), bs: Seq<BuildIdent>) -> bool {
    forall|i: int| 0 <= i < bs.len() ==> sound_build(m, pkg, #[trigger] bs[i])
}

/// Whether `b` is a real build segment below a probed zero-padded form of the version `pkg`.
pub open spec fn sound_build(m: Map<Seq<Seq<char>>, Seq<Tag>>, pkg: (Seq<char>, Seq<u32>), b: BuildIdent) -> bool {
    &&& b.name@ == pkg.0
    &&& is_probe(b.version@.len(), normalized(pkg.1).len())
    &&& b.version@ == padded(pkg.1, b.version@.len())
    &&& build_wf(b.build)
    &&& !(b.build is Embedded)
    &&& parse_build_spec(build_text(b.build)) is Some
    &&& concrete_build_at(m, pkg.0, b.version@, build_text(b.build))
}

/// Whether every build segment below the zero-padded forms of the version
/// (of the probed lengths) is among `bs`.
pub open spec fn concrete_complete(m: Map<Seq<Seq<char>>, Seq<Tag>>, pkg: (Seq<char>, Seq<u32>), bs: Seq<BuildIdent>) -> bool {
    forall|k: nat, n: Seq<char>|
        is_probe(k, normalized(pkg.1).len()) && #[trigger] concrete_build_at(m, pkg.0, padded(pkg.1, k), n)
            && parse_build_spec(n) is Some ==> has_build_at(bs, bs.len() as int, padded(pkg.1, k), n)
}

impl SpfsRepository {
    /// Adds the builds found in both tag trees below the version `v` of `name`.
    fn probe_builds(&mut self, bs: &mut Vec<BuildIdent>, name: &String, v: &Version)
        requires
            old(self).wf(),
            distinct_builds(old(bs)@),
        ensures
            distinct_builds(final(bs)@),
            old(self).reads_only(&*final(self)),
            old(bs)@.is_prefix_of(final(bs)@),
            old(self).fresh() ==> forall|i: int|
                old(bs)@.len() <= i < final(bs)@.len() ==> {
                    let b = #[trigger] final(bs)@[i];
                    &&& b.name@ == name@
                    &&& b.version@ == v@
                    &&& !(b.build is Embedded)
                    &&& build_wf(b.build)
                    &&& parse_build_spec(build_text(b.build)) is Some
                    &&& concrete_build_at(old(self).tags(), name@, v@, build_text(b.build))
                },
            old(self).fresh() ==> forall|n: Seq<char>|
                #[trigger] concrete_build_at(old(self).tags(), name@, v@, n) && parse_build_spec(n) is Some
                    ==> has_build_at(final(bs)@, final(bs)@.len() as int, v@, n),
    {
        proof {
            reveal_strlit("spec");
            reveal_strlit("pkg");
        }
        let ghost m = self.tags();
        let ghost s0 = *self;
        let spec_base = version_tag("spec", name, v);
        let package_base = version_tag("pkg", name, v);
        let spec_tags = self.ls_tags(&spec_base);
        let ghost s1 = *self;
        let package_tags = self.ls_tags(&package_base);
        proof {
            SpfsRepository::lemma_reads_only_trans(&s0, &s1, &*self);
        }
        let ghost b0 = bs@;
        add_builds(bs, &spec_tags, name, v);
        let ghost b1 = bs@;
        add_builds(bs, &package_tags, name, v);
        proof {
            if s0.fresh() {
                let es = entries_view(spec_tags@);
                let ps = entries_view(package_tags@);
                assert(listing_ok(m, version_path(spec_root(), name@, v@), es));
                assert(listing_ok(m, version_path(pkg_root(), name@, v@), ps));
                assert forall|n: Seq<char>|
                    entry_concrete(es, n) || entry_concrete(ps, n) <==> #[trigger] concrete_build_at(m, name@, v@, n) by {
                    assert(es.contains((n, false)) == has_entry(m, version_path(spec_root(), name@, v@), n, false));
                    assert(es.contains((n, true)) == has_entry(m, version_path(spec_root(), name@, v@), n, true));
                    assert(ps.contains((n, false)) == has_entry(m, version_path(pkg_root(), name@, v@), n, false));
                    assert(ps.contains((n, true)) == has_entry(m, version_path(pkg_root(), name@, v@), n, true));
                }
                assert forall|i: int| b0.len() <= i < bs@.len() implies concrete_build_at(m, name@, v@, build_text((#[trigger] bs@[i]).build)) by {
                    if i < b1.len() {
                        assert(bs@[i] == b1[i]);
                        assert(entry_concrete(es, build_text(b1[i].build)));
                    } else {
                        assert(entry_concrete(ps, build_text(bs@[i].build)));
                    }
                }
                assert forall|i: int| b0.len() <= i < bs@.len() implies {
                    let b = #[trigger] bs@[i];
                    &&& b.name@ == name@
                    &&& b.version@ == v@
                    &&& !(b.build is Embedded)
                    &&& build_wf(b.build)
                    &&& parse_build_spec(build_text(b.build)) is Some
                } by {
                    if i < b1.len() {
                        assert(bs@[i] == b1[i]);
                    }
                }
                assert forall|n: Seq<char>|
                    #[trigger] concrete_build_at(m, name@, v@, n) && parse_build_spec(n) is Some implies has_build_at(
                        bs@,
                        bs@.len() as int,
                        v@,
                        n,
                    ) by {
                    if entry_concrete(es, n) {
                        assert(has_build_at(b1, b1.len() as int, v@, n));
                        let k = choose|k: int|
                            0 <= k < b1.len() && (#[trigger] b1[k]).version@ == v@ && build_text(b1[k].build) == n;
                        assert(bs@[k] == b1[k]);
                    }
                }
            }
        }
    }

    /// The builds of a version found in either tag tree, under every zero-padded
    /// form of the version of length one to five (beyond its normalized length)
    /// and under its normalized length.
    pub fn get_concrete_package_builds(&mut self, pkg: &VersionIdent) -> (r: Vec<BuildIdent>)
        requires
            old(self).wf(),
        ensures
            old(self).reads_only(&*final(self)),
            old(self).fresh() ==> concrete_sound(old(self).tags(), pkg@, r@),
            old(self).fresh() ==> concrete_complete(old(self).tags(), pkg@, r@),
            distinct_builds(r@),
    {
        let ghost m = self.tags();
        let ghost s0 = *self;
        let ghost nn = normalized(pkg.version@).len();
        let n = pkg.version.normalized_len();
        proof {
            crate::version::lemma_normalized_prefix(pkg.version@);
        }
        let mut builds: Vec<BuildIdent> = Vec::new();
        let mut k: usize = 1;
        while k <= 6
            invariant
                1 <= k <= 7,
                n == nn,
                nn == normalized(pkg.version@).len(),
                nn <= pkg.version@.len(),
                s0.reads_only(&*self),
                m == s0.tags(),
                s0 == *old(self),
                self.wf(),
                distinct_builds(builds@),
                s0.fresh() ==> self.fresh(),
                s0.fresh() ==> concrete_sound(m, pkg@, builds@),
                s0.fresh() ==> forall|j: nat, t: Seq<char>|
                    ((1 <= j < k && j <= 5 && j > nn) || (k == 7 && j == nn)) && #[trigger] concrete_build_at(
                        m,
                        pkg@.0,
                        padded(pkg@.1, j),
                        t,
                    ) && parse_build_spec(t) is Some ==> has_build_at(
                        builds@,
                        builds@.len() as int,
                        padded(pkg@.1, j),
                        t,
                    ),
            decreases 7 - k,
        {
            proof {
                crate::version::lemma_normalized_prefix(pkg.version@);
            }
            let len: usize = if k <= 5 {
                k
            } else {
                n
            };
            if (k <= 5 && k > n) || k == 6 {
                let v = pkg.version.with_len(len);
                let ghost b0 = builds@;
                let ghost before = *self;
                self.probe_builds(&mut builds, &pkg.name, &v);
                proof {
                    SpfsRepository::lemma_reads_only_trans(&s0, &before, &*self);
                    if s0.fresh() {
                        assert forall|i: int| 0 <= i < builds@.len() implies sound_build(m, pkg@, #[trigger] builds@[i]) by {
                            if i < b0.len() {
                                assert(builds@[i] == b0[i]);
                                assert(concrete_sound(m, pkg@, b0));
                                let bb = b0[i];
                                assert(is_probe(bb.version@.len(), normalized(pkg@.1).len()));
                                assert(concrete_build_at(m, pkg@.0, bb.version@, build_text(bb.build)));
                                assert(sound_build(m, pkg@, bb));
                            } else {
                                assert(builds@[i].version@ == padded(pkg@.1, len as nat));
                                assert(builds@[i].version@.len() == len);
                                assert(is_probe(len as nat, nn));
                                assert(before.fresh());
                                assert(builds@[i].name@ == pkg@.0);
                                assert(concrete_build_at(m, pkg@.0, builds@[i].version@, build_text(builds@[i].build)));
                                assert(parse_build_spec(build_text(builds@[i].build)) is Some);
                                assert(!(builds@[i].build is Embedded));
                                assert(build_wf(builds@[i].build));
                                assert(builds@[i].version@ == padded(pkg@.1, builds@[i].version@.len()));
                                assert(is_probe(builds@[i].version@.len(), normalized(pkg@.1).len()));
                            }
                        }
                        assert forall|j: nat, t: Seq<char>|
                            ((1 <= j < k + 1 && j <= 5 && j > nn) || (k + 1 == 7 && j == nn))
                                && #[trigger] concrete_build_at(m, pkg@.0, padded(pkg@.1, j), t)
                                && parse_build_spec(t) is Some implies has_build_at(
                                builds@,
                                builds@.len() as int,
                                padded(pkg@.1, j),
                                t,
                            ) by {
                            if j != len {
                                let q = choose|q: int|
                                    0 <= q < b0.len() && (#[trigger] b0[q]).version@ == padded(pkg@.1, j)
                                        && build_text(b0[q].build) == t;
                                assert(builds@[q] == b0[q]);
                            }
                        }
                    }
                }
            }
            k = k + 1;
        }
        proof {
            if s0.fresh() {
                assert forall|j: nat, t: Seq<char>|
                    is_probe(j, normalized(pkg@.1).len()) && #[trigger] concrete_build_at(m, pkg@.0, padded(pkg@.1, j), t)
                        && parse_build_spec(t) is Some implies has_build_at(
                        builds@,
                        builds@.len() as int,
                        padded(pkg@.1, j),
                        t,
                    ) by {
                }
            }
        }
        builds
    }
}

/// Whether the segment `n` is an embed stub whose embedder decodes and parses.
pub open spec fn embeds_valid(n: Seq<char>) -> bool {
    embedded_of(n) matches Some(t) && crate::ident::is_embedder_text(t)
}

/// Whether the builds `bs` are exactly the embed stubs tagged directly below
/// the spec folder of version `pkg`.
pub open spec fn embedded_ok(m: Map<Seq<Seq<char>>, Seq<Tag>>, pkg: (Seq<char>, Seq<u32>), bs: Seq<BuildIdent>) -> bool {
    &&& forall|i: int|
        0 <= i < bs.len() ==> {
            &&& (#[trigger] bs[i]).name@ == pkg.0
            &&& bs[i].version@ == pkg.1
            &&& bs[i].build matches Build::Embedded(t) && crate::ident::is_embedder_text(t@)
            &&& has_entry(m, version_path(spec_root(), pkg.0, pkg.1), build_text(bs[i].build), true)
        }
    &&& forall|n: Seq<char>|
        #[trigger] has_entry(m, version_path(spec_root(), pkg.0, pkg.1), n, true) && embeds_valid(n)
            ==> exists|i: int| 0 <= i < bs.len() && build_text((#[trigger] bs[i]).build) == n
}

impl SpfsRepository {
    /// The embed stubs of a version: the tags `embedded[...]` beside its source
    /// build under `spk/spec`, whose embedder decodes.
    pub fn get_embedded_package_builds(&mut self, pkg: &VersionIdent) -> (r: Vec<BuildIdent>)
        requires
            old(self).wf(),
        ensures
            old(self).reads_only(&*final(self)),
            old(self).fresh() ==> embedded_ok(old(self).tags(), pkg@, r@),
            distinct_builds(r@),
    {
        proof {
            reveal_strlit("spec");
        }
        let ghost m = self.tags();
        let ghost fresh0 = self.fresh();
        let base = version_tag("spec", &pkg.name, &pkg.version);
        let entries = self.ls_tags(&base);
        let ghost es = entries_view(entries@);
        let ghost f = version_path(spec_root(), pkg@.0, pkg@.1);
        let mut builds: Vec<BuildIdent> = Vec::new();
        let mut i: usize = 0;
        while i < entries.len()
            invariant
                i <= entries.len(),
                es == entries_view(entries@),
                path_view(base@) == f,
                f == version_path(spec_root(), pkg@.0, pkg@.1),
                fresh0 ==> listing_ok(m, f, es),
                distinct_builds(builds@),
                forall|k: int|
                    0 <= k < builds.len() ==> {
                        &&& (#[trigger] builds@[k]).name@ == pkg@.0
                        &&& builds@[k].version@ == pkg@.1
                        &&& builds@[k].build matches Build::Embedded(t) && crate::ident::is_embedder_text(t@)
                        &&& es.contains((build_text(builds@[k].build), true))
                    },
                forall|j: int|
                    0 <= j < i && (#[trigger] es[j]).1 && embeds_valid(es[j].0) ==> exists|k: int|
                        0 <= k < builds.len() && build_text((#[trigger] builds@[k]).build) == es[j].0,
            decreases entries.len() - i,
        {
            let ghost b0 = builds@;
            let ghost mut witness: int = 0;
            proof {
                assert(es[i as int] == entry_view(entries@[i as int]));
            }
            match &entries[i] {
                EntryType::Tag(n) => {
                    if let Some(t) = parse_embedded_key(n.as_str()) {
                        proof {
                            assert(es.contains(es[i as int]));
                        }
                        if crate::ident::check_embedder(t.as_str()) && !contains_build(&builds, &pkg.version, n.as_str()) {
                            builds.push(pkg.to_build(Build::Embedded(t)));
                            proof {
                                assert(build_text(builds@[b0.len() as int].build) == n@);
                                assert forall|a: int, c: int|
                                    0 <= a < c < builds@.len() implies !((#[trigger] builds@[a]).version@ == (
                                    #[trigger] builds@[c]).version@ && build_text(builds@[a].build) == build_text(
                                        builds@[c].build,
                                    )) by {
                                    if c == b0.len() {
                                        assert(builds@[a] == b0[a]);
                                        if builds@[a].version@ == pkg.version@ && build_text(builds@[a].build) == n@ {
                                            assert(has_build_at(b0, b0.len() as int, pkg.version@, n@));
                                        }
                                    } else {
                                        assert(builds@[a] == b0[a] && builds@[c] == b0[c]);
                                    }
                                }
                            }
                        } else {
                            proof {
                                witness = choose|k: int|
                                    0 <= k < builds@.len() && (#[trigger] builds@[k]).version@ == pkg.version@
                                        && build_text(builds@[k].build) == n@;
                            }
                        }
                    }
                },
                EntryType::Folder(_) => {},
            }
            proof {
                assert forall|j: int|
                    0 <= j < i + 1 && (#[trigger] es[j]).1 && embeds_valid(es[j].0) implies exists|k: int|
                        0 <= k < builds.len() && build_text((#[trigger] builds@[k]).build) == es[j].0 by {
                    if j < i {
                        let k = choose|k: int| 0 <= k < b0.len() && build_text((#[trigger] b0[k]).build) == es[j].0;
                        assert(builds@[k] == b0[k]);
                    } else if builds@.len() > b0.len() {
                        assert(build_text(builds@[b0.len() as int].build) == es[j].0);
                    } else {
                        assert(build_text(builds@[witness].build) == es[j].0);
                    }
                }
                assert forall|k: int| 0 <= k < builds.len() implies {
                    &&& (#[trigger] builds@[k]).name@ == pkg@.0
                    &&& builds@[k].version@ == pkg@.1
                    &&& builds@[k].build matches Build::Embedded(t) && crate::ident::is_embedder_text(t@)
                    &&& es.contains((build_text(builds@[k].build), true))
                } by {
                    if k < b0.len() {
                        assert(builds@[k] == b0[k]);
                    }
                }
            }
            i = i + 1;
        }
        proof {
            if fresh0 {
                assert forall|n: Seq<char>|
                    #[trigger] has_entry(m, f, n, true) && embeds_valid(n) implies exists|k: int|
                        0 <= k < builds.len() && build_text((#[trigger] builds@[k]).build) == n by {
                    assert(es.contains((n, true)));
                    let j = choose|j: int| 0 <= j < es.len() && es[j] == (n, true);
                    assert(es[j].1 && embeds_valid(es[j].0));
                }
            }
        }
        builds
    }

    /// All builds of a version: the concrete ones and the embed stubs.
    pub fn list_package_builds(&mut self, pkg: &VersionIdent) -> (r: Vec<BuildIdent>)
        requires
            old(self).wf(),
        ensures
            old(self).reads_only(&*final(self)),
            old(self).fresh() ==> exists|k: int|
                0 <= k <= r.len() && concrete_sound(old(self).tags(), pkg@, r@.take(k))
                    && concrete_complete(old(self).tags(), pkg@, r@.take(k)) && embedded_ok(
                    old(self).tags(),
                    pkg@,
                    r@.skip(k),
                ),
            old(self).fresh() ==> distinct_builds(r@),
    {
        let ghost s0 = *self;
        let mut builds = self.get_concrete_package_builds(pkg);
        let ghost s1 = *self;
        let ghost c = builds@;
        let mut embedded = self.get_embedded_package_builds(pkg);
        let ghost e = embedded@;
        builds.append(&mut embedded);
        proof {
            SpfsRepository::lemma_reads_only_trans(&s0, &s1, &*self);
            assert(builds@.take(c.len() as int) =~= c);
            assert(builds@.skip(c.len() as int) =~= e);
            if s0.fresh() {
                reveal_strlit("src");
                reveal_strlit("embedded[");
                reveal_strlit("]");
                assert forall|a: int, b: int|
                    0 <= a < b < builds@.len() implies !((#[trigger] builds@[a]).version@ == (
                    #[trigger] builds@[b]).version@ && build_text(builds@[a].build) == build_text(
                        builds@[b].build,
                    )) by {
                    if b < c.len() {
                        assert(builds@[a] == c[a] && builds@[b] == c[b]);
                    } else if a >= c.len() {
                        assert(builds@[a] == e[a - c.len()] && builds@[b] == e[b - c.len()]);
                    } else {
                        assert(builds@[a] == c[a] && builds@[b] == e[b - c.len()]);
                        assert(sound_build(s0.tags(), pkg@, c[a]));
                        assert(e[b - c.len()].build is Embedded);
                        assert(build_text(c[a].build).len() < 9);
                        assert(build_text(e[b - c.len()].build).len() >= 10);
                    }
                }
            }
        }
        builds
    }
}

} // verus!
