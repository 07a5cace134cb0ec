use vstd::prelude::*;

use crate::cache::{entries_view, versions_view};
use crate::name::{is_valid_name, validate_name};
use crate::repository::{listing_ok, SpfsRepository};
use crate::store::{entry_view, has_entry, path_view, EntryType, Tag};
use crate::version::{decode_segment, decode_tag_segment, lemma_version_order, parse_parts, parse_version, same_version, version_lt, Version};

verus! {

/// The versions are strictly increasing, so no two are the same up to trailing zeros.
pub open spec fn strictly_sorted(vs: Seq<Seq<u32>>) -> bool {
    forall|i: int, j: int| 0 <= i < j < vs.len() ==> version_lt(vs[i], vs[j])
}

/// The version that a stored version segment names, if any.
#[verifier::opaque]
pub open spec fn segment_version(n: Seq<char>) -> Option<Seq<u32>> {
    parse_parts(decode_segment(n))
}

/// Whether some entry of `es` (of either kind) names the version `v` once decoded.
pub open spec fn names_version(es: Seq<(Seq<char>, bool)>, v: Seq<u32>) -> bool {
    exists|i: int| 0 <= i < es.len() && segment_version(#[trigger] es[i].0) == Some(v)
}

/// Whether some version of `w` is the same as `x` up to trailing zeros.
pub open spec fn covers(w: Seq<Seq<u32>>, x: Seq<u32>) -> bool {
    exists|k: int| 0 <= k < w.len() && same_version(#[trigger] w[k], x)
}

/// Whether `vs` lists, sorted and once each up to trailing zeros, the versions named by `es`.
pub open spec fn versions_of(es: Seq<(Seq<char>, bool)>, vs: Seq<Seq<u32>>) -> bool {
    &&& strictly_sorted(vs)
    &&& forall|i: int| 0 <= i < vs.len() ==> names_version(es, #[trigger] vs[i])
    &&& forall|v: Seq<u32>| #[trigger] names_version(es, v) ==> covers(vs, v)
}

/// Inserts `v` at its place in a strictly sorted list, unless the list has it already.
pub fn insert_version(vs: &mut Vec<Version>, v: Version)
    requires
        strictly_sorted(versions_view(old(vs)@)),
    ensures
        strictly_sorted(versions_view(final(vs)@)),
        forall|x: Seq<u32>|
            #[trigger] covers(versions_view(final(vs)@), x) <==> (same_version(v@, x) || covers(
                versions_view(old(vs)@),
                x,
            )),
        forall|i: int|
            0 <= i < final(vs)@.len() ==> (#[trigger] versions_view(final(vs)@)[i]) == v@ || exists|j: int|
                0 <= j < old(vs)@.len() && versions_view(old(vs)@)[j] == versions_view(final(vs)@)[i],
{
    let ghost w = versions_view(vs@);
    let mut k: usize = 0;
    while k < vs.len() && vs[k].less_than(&v)
        invariant
            k <= vs.len(),
            vs@ == old(vs)@,
            forall|j: int| 0 <= j < k ==> version_lt(vs@[j]@, v@),
        decreases vs.len() - k,
    {
        k = k + 1;
    }
    if k < vs.len() && vs[k].same_as(&v) {
        proof {
            assert forall|x: Seq<u32>|
                #[trigger] covers(versions_view(vs@), x) <==> (same_version(v@, x) || covers(
                    versions_view(old(vs)@),
                    x,
                )) by {
                if same_version(v@, x) {
                    assert(w[k as int] == vs@[k as int]@);
                    assert(same_version(w[k as int], x));
                }
            }
            assert forall|i: int|
                0 <= i < vs@.len() implies (#[trigger] versions_view(vs@)[i]) == v@ || exists|j: int|
                    0 <= j < old(vs)@.len() && versions_view(old(vs)@)[j] == versions_view(vs@)[i] by {
                assert(versions_view(old(vs)@)[i] == versions_view(vs@)[i]);
            }
        }
        return;
    }
    let ghost vv = v@;
    vs.insert(k, v);
    proof {
        let nw = versions_view(vs@);
        assert forall|i: int, j: int| 0 <= i < j < nw.len() implies version_lt(nw[i], nw[j]) by {
            if j < k {
                assert(nw[i] == w[i] && nw[j] == w[j]);
            } else if j == k {
                assert(nw[i] == w[i]);
            } else if i == k {
                assert(nw[j] == w[j - 1]);
                lemma_version_order(vv, w[k as int], w[j - 1]);
                if j - 1 > k {
                    lemma_version_order(w[k as int], w[j - 1], vv);
                }
            } else if i < k {
                assert(nw[i] == w[i] && nw[j] == w[j - 1]);
                if i < j - 1 {
                } else {
                }
            } else {
                assert(nw[i] == w[i - 1] && nw[j] == w[j - 1]);
            }
        }
        assert forall|x: Seq<u32>|
            #[trigger] covers(nw, x) <==> (same_version(vv, x) || covers(w, x)) by {
            if covers(w, x) {
                let i = choose|i: int| 0 <= i < w.len() && same_version(#[trigger] w[i], x);
                if i < k {
                    assert(nw[i] == w[i]);
                } else {
                    assert(nw[i + 1] == w[i]);
                }
            }
            if covers(nw, x) {
                let i = choose|i: int| 0 <= i < nw.len() && same_version(#[trigger] nw[i], x);
                if i < k {
                    assert(nw[i] == w[i]);
                } else if i > k {
                    assert(nw[i] == w[i - 1]);
                }
            }
            assert(nw[k as int] == vv);
        }
        assert forall|i: int|
            0 <= i < vs@.len() implies (#[trigger] nw[i]) == vv || exists|j: int|
                0 <= j < w.len() && w[j] == nw[i] by {
            if i < k {
                assert(nw[i] == w[i]);
            } else if i > k {
                assert(nw[i] == w[i - 1]);
            }
        }
    }
}

/// The versions named by a folder listing, sorted and once each up to trailing zeros;
/// names that are not versions are skipped.
/// The versions named by a folder listing, sorted and once each up to trailing zeros;
/// names that are not versions are skipped.
pub fn versions_of_entries(entries: &Vec<EntryType>) -> (r: Vec<Version>)
    ensures
        versions_of(entries_view(entries@), versions_view(r@)),
{
    let ghost es = entries_view(entries@);
    let mut vs: Vec<Version> = Vec::new();
    let mut i: usize = 0;
    proof {
        assert(versions_view(vs@) =~= Seq::<Seq<u32>>::empty());
    }
    while i < entries.len()
        invariant
            i <= entries.len(),
            es == entries_view(entries@),
            versions_of(es.take(i as int), versions_view(vs@)),
        decreases entries.len() - i,
    {
        let name = match &entries[i] {
            EntryType::Folder(n) => n,
            EntryType::Tag(n) => n,
        };
        proof {
            assert(es[i as int] == entry_view(entries@[i as int]));
            assert(es[i as int].0 == name@);
        }
        let decoded = decode_tag_segment(name.as_str());
        let ghost w0 = versions_view(vs@);
        let ghost t0 = es.take(i as int);
        let ghost t1 = es.take(i as int + 1);
        proof {
            assert(t1 =~= t0.push(es[i as int]));
        }
        let parsed = parse_version(decoded.as_str());
        proof {
            reveal(segment_version);
        }
        match parsed {
            Ok(v) => {
                let ghost vv = v@;
                insert_version(&mut vs, v);
                proof {
                    let w1 = versions_view(vs@);
                    lemma_versions_step(t0, es[i as int], w0, w1, Some(vv));
                }
            },
            Err(_) => {
                proof {
                    lemma_versions_step(t0, es[i as int], w0, w0, None);
                }
            },
        }
        i = i + 1;
    }
    proof {
        assert(es.take(i as int) =~= es);
    }
    vs
}

/// One more entry of a listing keeps `versions_of`.
proof fn lemma_versions_step(
    t0: Seq<(Seq<char>, bool)>,
    e: (Seq<char>, bool),
    w0: Seq<Seq<u32>>,
    w1: Seq<Seq<u32>>,
    parsed: Option<Seq<u32>>,
)
    requires
        versions_of(t0, w0),
        parsed == segment_version(e.0),
        strictly_sorted(w1),
        parsed is None ==> w1 == w0,
        parsed matches Some(vv) ==> forall|x: Seq<u32>|
            #[trigger] covers(w1, x) <==> (same_version(vv, x) || covers(w0, x)),
        parsed matches Some(vv) ==> forall|k: int| 0 <= k < w1.len() ==> (#[trigger] w1[k]) == vv
            || exists|j: int| 0 <= j < w0.len() && w0[j] == w1[k],
    ensures
        versions_of(t0.push(e), w1),
{
    let t1 = t0.push(e);
    assert forall|v: Seq<u32>| #[trigger] names_version(t0, v) implies names_version(t1, v) by {
        let j = choose|j: int| 0 <= j < t0.len() && segment_version(#[trigger] t0[j].0) == Some(v);
        assert(t1[j] == t0[j]);
    }
    assert forall|v: Seq<u32>| #[trigger] names_version(t1, v) implies names_version(t0, v) || parsed == Some(v) by {
        let j = choose|j: int| 0 <= j < t1.len() && segment_version(#[trigger] t1[j].0) == Some(v);
        if j < t0.len() {
            assert(t1[j] == t0[j]);
        }
    }
    if let Some(vv) = parsed {
        assert(names_version(t1, vv)) by {
            assert(t1[t0.len() as int] == e);
        }
        assert forall|k: int| 0 <= k < w1.len() implies names_version(t1, #[trigger] w1[k]) by {
            if w1[k] != vv {
                let j = choose|j: int| 0 <= j < w0.len() && w0[j] == w1[k];
                assert(names_version(t0, w0[j]));
            }
        }
        assert forall|v: Seq<u32>| #[trigger] names_version(t1, v) implies covers(w1, v) by {
            if names_version(t0, v) {
                assert(covers(w0, v));
            }
            assert(covers(w1, v) <==> (same_version(vv, v) || covers(w0, v)));
            if !names_version(t0, v) {
                assert(parsed == Some(v));
                crate::version::lemma_version_order(v, v, v);
                assert(same_version(vv, v));
            }
        }
    } else {
        assert forall|k: int| 0 <= k < w1.len() implies names_version(t1, #[trigger] w1[k]) by {
            assert(names_version(t0, w0[k]));
        }
    }
}

/// The texts of a list of strings.
pub open spec fn strings_view(r: Seq<String>) -> Seq<Seq<char>> {
    r.map_values(|s: String| s@)
}

/// The valid package names among the folders of a listing, each once.
pub fn names_of_entries(entries: &Vec<EntryType>) -> (r: Vec<String>)
    ensures
        forall|n: Seq<char>|
            #![trigger strings_view(r@).contains(n)]
            #![trigger entries_view(entries@).contains((n, false))]
            strings_view(r@).contains(n) <==> (entries_view(entries@).contains((n, false))
                && is_valid_name(n)),
        forall|i: int, j: int| 0 <= i < j < r.len() ==> (#[trigger] r@[i])@ != (#[trigger] r@[j])@,
{
    let ghost es = entries_view(entries@);
    let mut r: Vec<String> = Vec::new();
    let mut i: usize = 0;
    while i < entries.len()
        invariant
            i <= entries.len(),
            es == entries_view(entries@),
            forall|n: Seq<char>|
                #![trigger strings_view(r@).contains(n)]
                #![trigger es.take(i as int).contains((n, false))]
                strings_view(r@).contains(n) <==> (es.take(i as int).contains((n, false))
                    && is_valid_name(n)),
            forall|a: int, b: int| 0 <= a < b < r.len() ==> (#[trigger] r@[a])@ != (#[trigger] r@[b])@,
        decreases entries.len() - i,
    {
        let ghost t0 = es.take(i as int);
        let ghost t1 = es.take(i as int + 1);
        let ghost r0 = r@;
        proof {
            assert(t1 =~= t0.push(es[i as int]));
            assert(es[i as int] == entry_view(entries@[i as int]));
        }
        let pushed: bool = match &entries[i] {
            EntryType::Folder(n) => {
                let ok = validate_name(n.as_str());
                let dup = contains_string(&r, n);
                if ok && !dup {
                    r.push(n.clone());
                    true
                } else {
                    proof {
                        if ok {
                            let k = choose|k: int| 0 <= k < r0.len() && (#[trigger] r0[k])@ == n@;
                            assert(strings_view(r0)[k] == n@);
                        }
                    }
                    false
                }
            },
            EntryType::Tag(_) => false,
        };
        proof {
            let rv = strings_view(r@);
            let rv0 = strings_view(r0);
            assert forall|n: Seq<char>|
                #![trigger strings_view(r@).contains(n)]
                #![trigger es.take(i as int + 1).contains((n, false))]
                strings_view(r@).contains(n) <==> (es.take(i as int + 1).contains((n, false))
                    && is_valid_name(n)) by {
                if rv.contains(n) {
                    let k = choose|k: int| 0 <= k < rv.len() && rv[k] == n;
                    if k < rv0.len() {
                        assert(rv0[k] == n);
                        assert(rv0.contains(n));
                        assert(t0.contains((n, false)));
                        let j = choose|j: int| 0 <= j < t0.len() && t0[j] == (n, false);
                        assert(t1[j] == t0[j]);
                    } else {
                        assert(t1[i as int] == (n, false));
                    }
                }
                if t1.contains((n, false)) && is_valid_name(n) {
                    let j = choose|j: int| 0 <= j < t1.len() && t1[j] == (n, false);
                    if j < i {
                        assert(t0[j] == t1[j]);
                        assert(rv0.contains(n));
                        let k = choose|k: int| 0 <= k < rv0.len() && rv0[k] == n;
                        assert(rv[k] == n);
                    } else if pushed {
                        assert(rv[rv0.len() as int] == n);
                    } else {
                        assert(rv0.contains(n));
                        assert(rv == rv0);
                    }
                }
            }
        }
        i = i + 1;
    }
    proof {
        assert(es.take(i as int) =~= es);
    }
    r
}

fn contains_string(r: &Vec<String>, n: &String) -> (b: bool)
    ensures
        b == exists|k: int| 0 <= k < r.len() && (#[trigger] r@[k])@ == n@,
{
    let mut k: usize = 0;
    while k < r.len()
        invariant
            k <= r.len(),
            forall|j: int| 0 <= j < k ==> (#[trigger] r@[j])@ != n@,
        decreases r.len() - k,
    {
        if r[k] == *n {
            return true;
        }
        k = k + 1;
    }
    false
}

/// Whether the namespace `m` holds, under the folder `f`, an entry (of either kind)
/// that names the version `v`.
pub open spec fn store_names_version(m: Map<Seq<Seq<char>>, Seq<Tag>>, f: Seq<Seq<char>>, v: Seq<u32>) -> bool {
    exists|n: Seq<char>, t: bool| #[trigger] has_entry(m, f, n, t) && segment_version(n) == Some(v)
}

/// Whether `w` lists, sorted and once each up to trailing zeros, the versions
/// that the folder `f` of the namespace `m` names.
pub open spec fn versions_in_store(m: Map<Seq<Seq<char>>, Seq<Tag>>, f: Seq<Seq<char>>, w: Seq<Seq<u32>>) -> bool {
    &&& strictly_sorted(w)
    &&& forall|i: int| 0 <= i < w.len() ==> store_names_version(m, f, #[trigger] w[i])
    &&& forall|v: Seq<u32>| #[trigger] store_names_version(m, f, v) ==> covers(w, v)
}

pub proof fn lemma_versions_in_store(
    m: Map<Seq<Seq<char>>, Seq<Tag>>,
    f: Seq<Seq<char>>,
    es: Seq<(Seq<char>, bool)>,
    w: Seq<Seq<u32>>,
)
    requires
        listing_ok(m, f, es),
        versions_of(es, w),
    ensures
        versions_in_store(m, f, w),
{
    assert forall|v: Seq<u32>| #[trigger] names_version(es, v) <==> store_names_version(m, f, v) by {
        if names_version(es, v) {
            let i = choose|i: int| 0 <= i < es.len() && segment_version(#[trigger] es[i].0) == Some(v);
            assert(es.contains((es[i].0, es[i].1)));
            assert(has_entry(m, f, es[i].0, es[i].1));
        }
        if store_names_version(m, f, v) {
            let (n, t) = choose|n: Seq<char>, t: bool| #[trigger] has_entry(m, f, n, t) && segment_version(n) == Some(v);
            assert(es.contains((n, t)));
            let i = choose|i: int| 0 <= i < es.len() && es[i] == (n, t);
            assert(segment_version(es[i].0) == Some(v));
        }
    }
    assert forall|i: int| 0 <= i < w.len() implies store_names_version(m, f, #[trigger] w[i]) by {
        assert(names_version(es, w[i]));
    }
    assert forall|v: Seq<u32>| #[trigger] store_names_version(m, f, v) implies covers(w, v) by {
        assert(names_version(es, v));
    }
}

impl SpfsRepository {
    /// The valid package names that are folders of `spk/spec`, each once.
    pub fn list_packages(&mut self) -> (r: Vec<String>)
        requires
            old(self).wf(),
        ensures
            old(self).reads_only(&*final(self)),
            old(self).fresh() ==> forall|n: Seq<char>|
                #[trigger] strings_view(r@).contains(n) <==> (has_entry(
                    old(self).tags(),
                    crate::ident::spk_root(crate::ident::spec_root()),
                    n,
                    false,
                ) && is_valid_name(n)),
            forall|i: int, j: int| 0 <= i < j < r.len() ==> (#[trigger] r@[i])@ != (#[trigger] r@[j])@,
    {
        proof {
            reveal_strlit("spec");
        }
        let path = crate::ident::root_path("spec");
        let entries = self.ls_tags(&path);
        let r = names_of_entries(&entries);
        proof {
            let es = entries_view(entries@);
            assert(path_view(path@) == crate::ident::spk_root(crate::ident::spec_root()));
            if old(self).fresh() {
                assert(listing_ok(old(self).tags(), path_view(path@), es));
                assert forall|n: Seq<char>|
                    #[trigger] strings_view(r@).contains(n) <==> (has_entry(
                        old(self).tags(),
                        crate::ident::spk_root(crate::ident::spec_root()),
                        n,
                        false,
                    ) && is_valid_name(n)) by {
                    assert(es.contains((n, false)) <==> has_entry(old(self).tags(), path_view(path@), n, false));
                    assert(strings_view(r@).contains(n) <==> (es.contains((n, false)) && is_valid_name(n)));
                }
            }
        }
        r
    }
}

} // verus!
