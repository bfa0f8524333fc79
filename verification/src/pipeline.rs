//! The discovery pipeline's pure stages: deduplicate raw candidate paths,
//! turn probe outputs into validated records, filter to the valid ones, sort
//! by the ranking order, and select the primary candidate.

use vstd::prelude::*;

use crate::java::{
    lemma_cmp_antisymmetric, lemma_cmp_reflexive, lemma_rank_le_trans, rank_le, JavaMeta, MetaView,
};
use crate::props::{spec_scan_output, validate_jvm_properties, PropsError, ScanState};

verus! {

broadcast use vstd::seq_lib::group_to_multiset_ensures;

/// Exact-string deduplication: keeps the first occurrence of every path and
/// otherwise preserves order. Two spellings of the same location are two
/// paths.
pub open spec fn dedup_spec(s: Seq<Seq<char>>) -> Seq<Seq<char>>
    decreases s.len(),
{
    if s.len() == 0 {
        s
    } else if s.drop_last().contains(s.last()) {
        dedup_spec(s.drop_last())
    } else {
        dedup_spec(s.drop_last()).push(s.last())
    }
}

proof fn lemma_contains_step(s: Seq<Seq<char>>, x: Seq<char>)
    requires
        s.len() > 0,
    ensures
        s.contains(x) == (s.drop_last().contains(x) || s.last() == x),
{
    if s.drop_last().contains(x) {
        let i = choose|i: int| 0 <= i < s.drop_last().len() && s.drop_last()[i] == x;
        assert(s[i] == x);
    }
    if s.last() == x {
        assert(s[s.len() - 1] == x);
    }
    if s.contains(x) {
        let i = choose|i: int| 0 <= i < s.len() && s[i] == x;
        if i < s.len() - 1 {
            assert(s.drop_last()[i] == x);
        }
    }
}

/// Deduplication neither loses nor invents paths.
pub proof fn lemma_dedup_membership(s: Seq<Seq<char>>, x: Seq<char>)
    ensures
        dedup_spec(s).contains(x) == s.contains(x),
    decreases s.len(),
{
    if s.len() > 0 {
        lemma_dedup_membership(s.drop_last(), x);
        lemma_contains_step(s, x);
        if !s.drop_last().contains(s.last()) {
            let d = dedup_spec(s.drop_last());
            if d.push(s.last()).contains(x) {
                let i = choose|i: int| 0 <= i < d.push(s.last()).len() && d.push(s.last())[i] == x;
                if i < d.len() {
                    assert(d[i] == x);
                } else {
                    assert(x == s.last());
                }
            }
            if d.contains(x) {
                let i = choose|i: int| 0 <= i < d.len() && d[i] == x;
                assert(d.push(s.last())[i] == x);
            }
            if x == s.last() {
                assert(d.push(s.last())[d.len() as int] == x);
            }
        }
    }
}

/// After deduplication every path occurs at most once.
pub proof fn lemma_dedup_no_duplicates(s: Seq<Seq<char>>)
    ensures
        dedup_spec(s).no_duplicates(),
    decreases s.len(),
{
    if s.len() > 0 {
        lemma_dedup_no_duplicates(s.drop_last());
        if !s.drop_last().contains(s.last()) {
            lemma_dedup_membership(s.drop_last(), s.last());
            let d = dedup_spec(s.drop_last());
            let e = d.push(s.last());
            assert forall|i: int, j: int| 0 <= i < j < e.len() implies e[i] != e[j] by {
                if j < d.len() {
                    assert(e[i] == d[i] && e[j] == d[j]);
                } else {
                    assert(e[j] == s.last());
                    assert(e[i] == d[i]);
                    if d[i] == s.last() {
                        assert(d.contains(s.last()));
                    }
                }
            }
        }
    }
}

/// A list of pairwise distinct paths is left exactly as it was.
pub proof fn lemma_dedup_of_distinct(s: Seq<Seq<char>>)
    requires
        s.no_duplicates(),
    ensures
        dedup_spec(s) == s,
    decreases s.len(),
{
    if s.len() > 0 {
        assert forall|i: int, j: int|
            0 <= i < j < s.drop_last().len() implies s.drop_last()[i] != s.drop_last()[j] by {
            assert(s[i] == s.drop_last()[i] && s[j] == s.drop_last()[j]);
        }
        lemma_dedup_of_distinct(s.drop_last());
        if s.drop_last().contains(s.last()) {
            let i = choose|i: int| 0 <= i < s.drop_last().len() && s.drop_last()[i] == s.last();
            assert(s[i] == s[s.len() - 1]);
            assert(false);
        }
        assert(dedup_spec(s) =~= s);
    }
}

/// Removes exact duplicate path strings, keeping the first occurrence and
/// otherwise preserving order.
pub fn dedup_paths(paths: &Vec<String>) -> (r: Vec<String>)
    ensures
        r.deep_view() == dedup_spec(paths.deep_view()),
{
    let ghost orig = paths.deep_view();
    let mut out: Vec<String> = Vec::new();
    let mut i: usize = 0;
    while i < paths.len()
        invariant
            i <= paths.len(),
            orig == paths.deep_view(),
            out.deep_view() == dedup_spec(orig.subrange(0, i as int)),
        decreases paths.len() - i,
    {
        proof {
            assert(paths@[i as int]@ == orig[i as int]);
            assert(orig.subrange(0, i as int + 1).drop_last() =~= orig.subrange(0, i as int));
            assert(orig.subrange(0, i as int + 1).last() == orig[i as int]);
        }
        let mut seen: bool = false;
        let mut j: usize = 0;
        while j < out.len()
            invariant
                j <= out.len(),
                orig == paths.deep_view(),
                i < paths.len(),
                !seen ==> forall|l: int| 0 <= l < j ==> out.deep_view()[l] != orig[i as int],
                seen ==> out.deep_view().contains(orig[i as int]),
            decreases out.len() - j,
        {
            if paths[i].eq(&out[j]) {
                proof {
                    assert(out.deep_view()[j as int] == out@[j as int]@);
                    assert(out.deep_view()[j as int] == orig[i as int]);
                }
                seen = true;
                j = out.len();
            } else {
                proof {
                    assert(out.deep_view()[j as int] == out@[j as int]@);
                }
                j = j + 1;
            }
        }
        proof {
            if !seen {
                if out.deep_view().contains(orig[i as int]) {
                    let l = choose|l: int|
                        0 <= l < out.deep_view().len() && out.deep_view()[l] == orig[i as int];
                    assert(false);
                }
            }
            lemma_dedup_membership(orig.subrange(0, i as int), orig[i as int]);
        }
        if !seen {
            out.push(paths[i].clone());
            proof {
                assert(out.deep_view() =~= dedup_spec(orig.subrange(0, i as int + 1)));
            }
        }
        i = i + 1;
    }
    proof {
        assert(orig.subrange(0, orig.len() as int) =~= orig);
    }
    out
}

/// The records that survive validation, in their original order.
pub open spec fn keep_valid(s: Seq<MetaView>) -> Seq<MetaView>
    decreases s.len(),
{
    if s.len() == 0 {
        s
    } else if s.last().valid {
        keep_valid(s.drop_last()).push(s.last())
    } else {
        keep_valid(s.drop_last())
    }
}

/// A record is kept exactly when it occurs and is valid.
pub proof fn lemma_keep_valid_membership(s: Seq<MetaView>, x: MetaView)
    ensures
        keep_valid(s).contains(x) == (s.contains(x) && x.valid),
    decreases s.len(),
{
    if s.len() > 0 {
        lemma_keep_valid_membership(s.drop_last(), x);
        let d = keep_valid(s.drop_last());
        if s.last().valid && d.push(s.last()).contains(x) {
            let i = choose|i: int| 0 <= i < d.push(s.last()).len() && d.push(s.last())[i] == x;
            if i < d.len() {
                assert(d[i] == x);
            }
        }
        if s.drop_last().contains(x) {
            let i = choose|i: int| 0 <= i < s.drop_last().len() && s.drop_last()[i] == x;
            assert(s[i] == x);
        }
        if s.contains(x) {
            let i = choose|i: int| 0 <= i < s.len() && s[i] == x;
            if i < s.len() - 1 {
                assert(s.drop_last()[i] == x);
            }
        }
        if d.contains(x) {
            let i = choose|i: int| 0 <= i < d.len() && d[i] == x;
            if s.last().valid {
                assert(d.push(s.last())[i] == x);
            }
        }
        if s.last().valid && x == s.last() {
            assert(d.push(s.last())[d.len() as int] == x);
        }
    }
}

fn clone_meta(m: &JavaMeta) -> (r: JavaMeta)
    ensures
        r == *m,
{
    JavaMeta {
        arch: m.arch,
        exec_path: match &m.exec_path {
            Some(p) => Some(p.clone()),
            None => None,
        },
        version: m.version,
        valid: m.valid,
    }
}

/// Discards every record whose valid flag is unset; such records never reach
/// ranking.
pub fn filter_valid(metas: &Vec<JavaMeta>) -> (r: Vec<JavaMeta>)
    ensures
        r.deep_view() == keep_valid(metas.deep_view()),
{
    let ghost orig = metas.deep_view();
    let mut out: Vec<JavaMeta> = Vec::new();
    let mut i: usize = 0;
    while i < metas.len()
        invariant
            i <= metas.len(),
            orig == metas.deep_view(),
            out.deep_view() == keep_valid(orig.subrange(0, i as int)),
        decreases metas.len() - i,
    {
        proof {
            assert(metas@[i as int]@ == orig[i as int]);
            assert(orig.subrange(0, i as int + 1).drop_last() =~= orig.subrange(0, i as int));
            assert(orig.subrange(0, i as int + 1).last() == orig[i as int]);
        }
        if metas[i].valid {
            let m = clone_meta(&metas[i]);
            out.push(m);
        }
        proof {
            assert(out.deep_view() =~= keep_valid(orig.subrange(0, i as int + 1)));
        }
        i = i + 1;
    }
    proof {
        assert(orig.subrange(0, orig.len() as int) =~= orig);
    }
    out
}

/// Ascending by the ranking order.
pub open spec fn sorted_by_rank(s: Seq<MetaView>) -> bool {
    forall|i: int, j: int| 0 <= i < j < s.len() ==> rank_le(s[i], s[j])
}

/// Sorts records ascending by the ranking order. The result is a permutation
/// of the input.
pub fn sort_by_rank(metas: Vec<JavaMeta>) -> (r: Vec<JavaMeta>)
    ensures
        sorted_by_rank(r.deep_view()),
        r.deep_view().to_multiset() == metas.deep_view().to_multiset(),
{
    let ghost orig = metas.deep_view();
    let mut input = metas;
    let mut out: Vec<JavaMeta> = Vec::new();
    proof {
        assert(out.deep_view() =~= Seq::<MetaView>::empty());
        assert(out.deep_view().to_multiset().add(input.deep_view().to_multiset())
            =~= orig.to_multiset());
    }
    while input.len() > 0
        invariant
            out.deep_view().to_multiset().add(input.deep_view().to_multiset())
                == orig.to_multiset(),
            sorted_by_rank(out.deep_view()),
            forall|i: int, j: int|
                0 <= i < out.deep_view().len() && 0 <= j < input.deep_view().len() ==> rank_le(
                    out.deep_view()[i],
                    input.deep_view()[j],
                ),
        decreases input.len(),
    {
        let ghost dv = input.deep_view();
        let mut mi: usize = 0;
        let mut t: usize = 1;
        proof {
            lemma_cmp_reflexive(dv[0]);
        }
        while t < input.len()
            invariant
                dv == input.deep_view(),
                input.len() > 0,
                (mi as int) < (t as int),
                t <= input.len(),
                forall|j: int| 0 <= j < t ==> rank_le(dv[mi as int], dv[j]),
            decreases input.len() - t,
        {
            proof {
                assert(input@[t as int]@ == dv[t as int]);
                assert(input@[mi as int]@ == dv[mi as int]);
            }
            let less = match input[t].cmp(&input[mi]) {
                core::cmp::Ordering::Less => true,
                _ => false,
            };
            if less {
                proof {
                    lemma_cmp_reflexive(dv[t as int]);
                    assert forall|j: int| 0 <= j < t + 1 implies rank_le(dv[t as int], dv[j]) by {
                        if j < t {
                            lemma_rank_le_trans(dv[t as int], dv[mi as int], dv[j]);
                        }
                    }
                }
                mi = t;
            } else {
                proof {
                    lemma_cmp_antisymmetric(dv[t as int], dv[mi as int]);
                    assert(rank_le(dv[mi as int], dv[t as int]));
                }
            }
            t = t + 1;
        }
        let ghost pre = input@;
        let ghost out_dv0 = out.deep_view();
        let x = input.remove(mi);
        out.push(x);
        proof {
            assert(x@ == dv[mi as int]);
            assert forall|j: int|
                0 <= j < input.deep_view().len() implies input.deep_view()[j] == dv.remove(
                mi as int,
            )[j] by {
                assert(input.deep_view()[j] == input@[j]@);
                if j < mi as int {
                    assert(input@[j] == pre[j]);
                    assert(dv[j] == pre[j]@);
                } else {
                    assert(input@[j] == pre[j + 1]);
                    assert(dv[j + 1] == pre[j + 1]@);
                }
            }
            assert(input.deep_view() =~= dv.remove(mi as int));
            assert(out.deep_view() =~= out_dv0.push(x@));
            assert(dv.contains(x@));
            assert(dv.to_multiset().count(x@) > 0);
            assert(out.deep_view().to_multiset().add(input.deep_view().to_multiset())
                =~= out_dv0.to_multiset().add(dv.to_multiset()));
            assert forall|i: int, j: int|
                0 <= i < j < out.deep_view().len() implies rank_le(
                out.deep_view()[i],
                out.deep_view()[j],
            ) by {
                if j < out_dv0.len() {
                    assert(out.deep_view()[i] == out_dv0[i] && out.deep_view()[j] == out_dv0[j]);
                } else {
                    assert(out.deep_view()[i] == out_dv0[i] && out.deep_view()[j] == x@);
                }
            }
            assert forall|i: int, j: int|
                0 <= i < out.deep_view().len() && 0 <= j < input.deep_view().len() implies rank_le(
                out.deep_view()[i],
                input.deep_view()[j],
            ) by {
                let jj = if j < mi as int {
                    j
                } else {
                    j + 1
                };
                assert(input.deep_view()[j] == dv[jj]);
                if i < out_dv0.len() {
                    assert(out.deep_view()[i] == out_dv0[i]);
                } else {
                    assert(out.deep_view()[i] == x@);
                }
            }
        }
    }
    proof {
        assert(input.deep_view() =~= Seq::<MetaView>::empty());
        assert(out.deep_view().to_multiset().add(input.deep_view().to_multiset())
            =~= out.deep_view().to_multiset());
    }
    out
}

/// A record that claims validity carries an architecture, a version and an
/// executable path.
pub open spec fn meta_wf(m: MetaView) -> bool {
    m.valid ==> m.arch is Some && m.version is Some && m.exec_path is Some
}

/// Selects the primary candidate: the executable path of a greatest valid
/// record under the ranking order, or nothing when no record is valid.
pub fn select_primary(metas: &Vec<JavaMeta>) -> (r: Option<String>)
    requires
        forall|i: int|
            0 <= i < metas.deep_view().len() ==> meta_wf(#[trigger] metas.deep_view()[i]),
    ensures
        match r {
            Some(p) => exists|i: int|
                #![auto]
                0 <= i < metas.deep_view().len() && metas.deep_view()[i].valid
                    && metas.deep_view()[i].exec_path == Some(p@) && (forall|j: int|
                    0 <= j < metas.deep_view().len() && (#[trigger] metas.deep_view()[j]).valid
                        ==> rank_le(metas.deep_view()[j], metas.deep_view()[i])),
            None => forall|i: int|
                0 <= i < metas.deep_view().len() ==> !(#[trigger] metas.deep_view()[i]).valid,
        },
{
    let ghost dv = metas.deep_view();
    let valid = filter_valid(metas);
    let ghost kept = valid.deep_view();
    let sorted = sort_by_rank(valid);
    let ghost sdv = sorted.deep_view();
    if sorted.len() == 0 {
        proof {
            assert(sdv.len() == 0);
            assert(kept.to_multiset().len() == 0);
            assert(kept.len() == 0);
            assert forall|i: int| 0 <= i < dv.len() implies !(#[trigger] dv[i]).valid by {
                if dv[i].valid {
                    assert(dv.contains(dv[i]));
                    lemma_keep_valid_membership(dv, dv[i]);
                    assert(kept.contains(dv[i]));
                }
            }
        }
        return None;
    }
    let mut sorted = sorted;
    let last = sorted.len() - 1;
    let x = sorted.remove(last);
    proof {
        assert(x@ == sdv[last as int]);
        assert(sdv.contains(x@));
        assert(sdv.to_multiset().count(x@) > 0);
        assert(kept.contains(x@));
        lemma_keep_valid_membership(dv, x@);
        assert(dv.contains(x@) && x@.valid);
        let wi = choose|i: int| 0 <= i < dv.len() && dv[i] == x@;
        assert(meta_wf(dv[wi]));
        assert forall|j: int|
            0 <= j < dv.len() && (#[trigger] dv[j]).valid implies rank_le(dv[j], dv[wi]) by {
            assert(dv.contains(dv[j]));
            lemma_keep_valid_membership(dv, dv[j]);
            assert(kept.contains(dv[j]));
            assert(kept.to_multiset().count(dv[j]) > 0);
            assert(sdv.contains(dv[j]));
            let sj = choose|sj: int| 0 <= sj < sdv.len() && sdv[sj] == dv[j];
            if sj < last as int {
                assert(rank_le(sdv[sj], sdv[last as int]));
            } else {
                lemma_cmp_reflexive(x@);
            }
        }
    }
    match x.exec_path {
        Some(p) => Some(p),
        None => None,
    }
}

/// The record a probe contributes: valid, carrying the candidate's path, when
/// its output reported both an architecture and an accepted version; nothing
/// otherwise.
pub open spec fn finalize_spec(st: ScanState, path: Seq<char>) -> Option<MetaView> {
    if st.0 is Some && st.1 is Some {
        Some(MetaView { arch: st.0, exec_path: Some(path), version: st.1, valid: true })
    } else {
        None
    }
}

/// The validated records of a probe run, in order, or the first probe
/// output's scan failure.
pub open spec fn collect_spec(probes: Seq<(Seq<char>, Seq<char>)>) -> Result<
    Seq<MetaView>,
    PropsError,
>
    decreases probes.len(),
{
    if probes.len() == 0 {
        Ok(Seq::empty())
    } else {
        match collect_spec(probes.drop_last()) {
            Err(e) => Err(e),
            Ok(acc) => match spec_scan_output(probes.last().1) {
                Err(e) => Err(e),
                Ok(st) => match finalize_spec(st, probes.last().0) {
                    Some(m) => Ok(acc.push(m)),
                    None => Ok(acc),
                },
            },
        }
    }
}

/// Once a prefix of the probes has failed, the whole run fails the same way.
proof fn lemma_collect_err(probes: Seq<(Seq<char>, Seq<char>)>, k: int)
    requires
        0 <= k <= probes.len(),
        collect_spec(probes.subrange(0, k)) is Err,
    ensures
        collect_spec(probes) == collect_spec(probes.subrange(0, k)),
    decreases probes.len() - k,
{
    if k == probes.len() {
        assert(probes.subrange(0, k) =~= probes);
    } else {
        assert(probes.subrange(0, k + 1).drop_last() =~= probes.subrange(0, k));
        lemma_collect_err(probes, k + 1);
    }
}

/// Every collected record is well-formed and valid.
pub proof fn lemma_collect_wf(probes: Seq<(Seq<char>, Seq<char>)>)
    requires
        collect_spec(probes) is Ok,
    ensures
        forall|i: int|
            0 <= i < collect_spec(probes).unwrap().len() ==> meta_wf(
                #[trigger] collect_spec(probes).unwrap()[i],
            ) && collect_spec(probes).unwrap()[i].valid,
    decreases probes.len(),
{
    if probes.len() > 0 {
        lemma_collect_wf(probes.drop_last());
    }
}

/// Each probe is a (candidate executable path, decoded probe output) pair, in
/// pipeline order. Returns one valid record per probe whose output reported a
/// 64-bit architecture and an accepted version; a probe whose output is
/// malformed fails the whole run.
pub fn collect_valid_candidates(probes: &Vec<(String, String)>) -> (r: Result<
    Vec<JavaMeta>,
    PropsError,
>)
    ensures
        match r {
            Ok(ms) => collect_spec(probes.deep_view()) matches Ok(vs) && ms.deep_view() == vs,
            Err(e) => collect_spec(probes.deep_view()) == Err::<Seq<MetaView>, PropsError>(e),
        },
{
    let ghost orig = probes.deep_view();
    let mut out: Vec<JavaMeta> = Vec::new();
    let mut i: usize = 0;
    while i < probes.len()
        invariant
            i <= probes.len(),
            orig == probes.deep_view(),
            collect_spec(orig.subrange(0, i as int)) matches Ok(vs) && out.deep_view() == vs,
        decreases probes.len() - i,
    {
        proof {
            assert(probes@[i as int].deep_view() == orig[i as int]);
            assert(orig.subrange(0, i as int + 1).drop_last() =~= orig.subrange(0, i as int));
            assert(orig.subrange(0, i as int + 1).last() == orig[i as int]);
        }
        let entry = &probes[i];
        match validate_jvm_properties(entry.1.as_str()) {
            Err(e) => {
                proof {
                    assert(collect_spec(orig.subrange(0, i as int + 1)) == Err::<
                        Seq<MetaView>,
                        PropsError,
                    >(e));
                    lemma_collect_err(orig, i as int + 1);
                    assert(orig.subrange(0, orig.len() as int) =~= orig);
                }
                return Err(e);
            },
            Ok(m) => {
                let keep = m.arch.is_some() && m.version.is_some();
                if keep {
                    let rec = JavaMeta {
                        arch: m.arch,
                        exec_path: Some(entry.0.clone()),
                        version: m.version,
                        valid: true,
                    };
                    out.push(rec);
                }
                proof {
                    assert(collect_spec(orig.subrange(0, i as int + 1)) matches Ok(vs)
                        && out.deep_view() =~= vs);
                }
            },
        }
        i = i + 1;
    }
    proof {
        assert(orig.subrange(0, orig.len() as int) =~= orig);
    }
    Ok(out)
}

/// Runs the pure pipeline tail on gathered probes: validate each, keep the
/// valid records, and return them ascending by rank.
pub fn discover_all(probes: &Vec<(String, String)>) -> (r: Result<Vec<JavaMeta>, PropsError>)
    ensures
        match r {
            Ok(ms) => collect_spec(probes.deep_view()) matches Ok(vs) && sorted_by_rank(
                ms.deep_view(),
            ) && ms.deep_view().to_multiset() == vs.to_multiset(),
            Err(e) => collect_spec(probes.deep_view()) == Err::<Seq<MetaView>, PropsError>(e),
        },
{
    match collect_valid_candidates(probes) {
        Err(e) => Err(e),
        Ok(ms) => Ok(sort_by_rank(ms)),
    }
}

/// Runs the pure pipeline tail on gathered probes and selects the primary
/// candidate: the executable path of a greatest validated record, or nothing
/// when no probe validated.
pub fn discover_primary(probes: &Vec<(String, String)>) -> (r: Result<Option<String>, PropsError>)
    ensures
        match r {
            Ok(opt) => collect_spec(probes.deep_view()) matches Ok(vs) && (match opt {
                Some(p) => exists|i: int|
                    #![auto]
                    0 <= i < vs.len() && vs[i].exec_path == Some(p@) && (forall|j: int|
                        0 <= j < vs.len() ==> rank_le(#[trigger] vs[j], vs[i])),
                None => vs.len() == 0,
            }),
            Err(e) => collect_spec(probes.deep_view()) == Err::<Seq<MetaView>, PropsError>(e),
        },
{
    let ms = match collect_valid_candidates(probes) {
        Err(e) => {
            return Err(e);
        },
        Ok(ms) => ms,
    };
    proof {
        lemma_collect_wf(probes.deep_view());
    }
    let picked = select_primary(&ms);
    proof {
        if picked is None && ms.deep_view().len() > 0 {
            assert(!ms.deep_view()[0].valid);
        }
    }
    Ok(picked)
}

} // verus!
