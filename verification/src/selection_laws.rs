//! Properties of every representative selection, stated over its model.
use vstd::prelude::*;

use crate::archive::CandidateModel;
use crate::front::ids_of;
use crate::selection::{
    SelectionPackage, all_eligible, eligibility_answers, outcome_model, packages_model, selection_agrees,
    singleton_packages, SelectionResult,
};
use crate::selection_spec::{
    SelectionError, consulted_from, eligibility_consulted, initial_package_scan, lemma_scan_answers_agree,
    scan_packages,
    GreedyState, PackageModel, best_among, greedy,
    initial_greedy, lemma_best_among_range, room, select_result, sorted_package, take_package,
    marginal_coverage, package_min_distance, min_dist_to, cand_distance,
};

verus! {

proof fn lemma_best_among_fits(cands: Seq<CandidateModel>, st: GreedyState, slots: nat, n: int)
    ensures
        best_among(cands, st, slots, n) matches Some(i) ==> st.remaining[i].members.len() <= slots,
        best_among(cands, st, slots, n) is None ==> forall|i: int|
            0 <= i < n ==> (#[trigger] st.remaining[i]).members.len() > slots,
    decreases n,
{
    if n > 0 {
        lemma_best_among_fits(cands, st, slots, n - 1);
    }
}

proof fn lemma_greedy_bounds(cands: Seq<CandidateModel>, st: GreedyState, maximum: nat)
    requires
        st.selected.len() <= maximum,
    ensures
        greedy(cands, st, maximum).selected.len() <= maximum,
        st.selected.len() <= greedy(cands, st, maximum).selected.len(),
        forall|i: int|
            0 <= i < greedy(cands, st, maximum).remaining.len() ==> (#[trigger] greedy(
                cands,
                st,
                maximum,
            ).remaining[i]).members.len() > room(greedy(cands, st, maximum), maximum),
    decreases st.remaining.len(),
{
    let n = st.remaining.len() as int;
    let slots = room(st, maximum);
    lemma_best_among_range(cands, st, slots, n);
    lemma_best_among_fits(cands, st, slots, n);
    match best_among(cands, st, slots, n) {
        None => {},
        Some(i) => {
            let next = take_package(cands, st, i);
            assert(next.selected.len() == st.selected.len() + st.remaining[i].members.len());
            lemma_greedy_bounds(cands, next, maximum);
        },
    }
}

/// A successful selection holds between `minimum` and `maximum` candidates,
/// and no package left unselected would still fit under `maximum`.
pub proof fn lemma_selection_within_range(
    cands: Seq<CandidateModel>,
    packages: Seq<PackageModel>,
    eligible: Seq<bool>,
    minimum: nat,
    maximum: nat,
)
    ensures
        select_result(cands, packages, eligible, minimum, maximum) matches Ok(m) ==> minimum
            <= m.selected_candidates.len() <= maximum,
{
    if minimum <= maximum {
        let scanned = crate::selection_spec::scan_packages(
            cands,
            crate::selection_spec::initial_package_scan(),
            packages,
            eligible,
        );
        if scanned is Ok {
            lemma_greedy_bounds(cands, initial_greedy(scanned->Ok_0.eligible), maximum);
        }
    }
}

/// Greedy selection stops only when no remaining package fits in the room
/// left under `maximum`.
pub proof fn lemma_greedy_maximal(cands: Seq<CandidateModel>, eligible: Seq<PackageModel>, maximum: nat)
    ensures
        forall|i: int|
            0 <= i < greedy(cands, initial_greedy(eligible), maximum).remaining.len() ==> (
            #[trigger] greedy(cands, initial_greedy(eligible), maximum).remaining[i]).members.len()
                > room(greedy(cands, initial_greedy(eligible), maximum), maximum),
        greedy(cands, initial_greedy(eligible), maximum).selected.len() <= maximum,
{
    lemma_greedy_bounds(cands, initial_greedy(eligible), maximum);
}

/// `is_eligible` answers alike for packages with the same identifier and members.
pub open spec fn eligibility_deterministic<F: Fn(&SelectionPackage) -> bool>(is_eligible: F) -> bool {
    forall|q1: SelectionPackage, q2: SelectionPackage, b1: bool, b2: bool|
        q1@ == q2@ && #[trigger] call_ensures(is_eligible, (&q1,), b1) && #[trigger] call_ensures(
            is_eligible,
            (&q2,),
            b2,
        ) ==> b1 == b2
}

proof fn lemma_consulted_prefix(
    cands: Seq<CandidateModel>,
    ps: Seq<PackageModel>,
    e: Seq<bool>,
    i: int,
    j: int,
)
    requires
        0 <= j < i <= ps.len(),
        i <= e.len(),
    ensures
        consulted_from(cands, initial_package_scan(), ps.take(i), e.take(i), j) == consulted_from(
            cands,
            initial_package_scan(),
            ps,
            e,
            j,
        ),
{
    assert(ps.take(i).take(j) =~= ps.take(j));
    assert(e.take(i).take(j) =~= e.take(j));
    assert(ps.take(i)[j] == ps[j]);
}

proof fn lemma_deterministic_answers_agree<F: Fn(&SelectionPackage) -> bool>(
    is_eligible: F,
    cands: Seq<CandidateModel>,
    packages: Seq<SelectionPackage>,
    e1: Seq<bool>,
    e2: Seq<bool>,
    i: int,
)
    requires
        eligibility_deterministic(is_eligible),
        eligibility_answers(is_eligible, cands, packages, e1),
        eligibility_answers(is_eligible, cands, packages, e2),
        0 <= i <= packages.len(),
    ensures
        forall|j: int|
            0 <= j < i && #[trigger] consulted_from(cands, initial_package_scan(), packages_model(packages), e1, j)
                ==> e1[j] == e2[j],
    decreases i,
{
    let pm = packages_model(packages);
    if i > 0 {
        lemma_deterministic_answers_agree(is_eligible, cands, packages, e1, e2, i - 1);
        let k = i - 1;
        assert forall|j: int|
            0 <= j < k && #[trigger] consulted_from(cands, initial_package_scan(), pm.take(k), e1.take(k), j)
            implies e1.take(k)[j] == e2.take(k)[j] by {
            lemma_consulted_prefix(cands, pm, e1, k, j);
        }
        lemma_scan_answers_agree(cands, initial_package_scan(), pm.take(k), e1.take(k), e2.take(k));
        if consulted_from(cands, initial_package_scan(), pm, e1, k) {
            assert(consulted_from(cands, initial_package_scan(), pm, e2, k));
            assert(eligibility_consulted(cands, pm, e1, k));
            assert(eligibility_consulted(cands, pm, e2, k));
            let q1 = choose|q: SelectionPackage|
                q@ == sorted_package(packages[k]@) && call_ensures(is_eligible, (&q,), e1[k]);
            let q2 = choose|q: SelectionPackage|
                q@ == sorted_package(packages[k]@) && call_ensures(is_eligible, (&q,), e2[k]);
            assert(call_ensures(is_eligible, (&q1,), e1[k]) && call_ensures(is_eligible, (&q2,), e2[k]));
        }
    }
}

/// Validation with two answer sequences that a deterministic eligibility
/// test can both give comes out the same.
proof fn lemma_deterministic_scan(
    is_eligible: impl Fn(&SelectionPackage) -> bool,
    cands: Seq<CandidateModel>,
    packages: Seq<SelectionPackage>,
    e1: Seq<bool>,
    e2: Seq<bool>,
)
    requires
        eligibility_deterministic(is_eligible),
        eligibility_answers(is_eligible, cands, packages, e1),
        eligibility_answers(is_eligible, cands, packages, e2),
    ensures
        scan_packages(cands, initial_package_scan(), packages_model(packages), e1) == scan_packages(
            cands,
            initial_package_scan(),
            packages_model(packages),
            e2,
        ),
{
    lemma_deterministic_answers_agree(is_eligible, cands, packages, e1, e2, packages.len() as int);
    lemma_scan_answers_agree(cands, initial_package_scan(), packages_model(packages), e1, e2);
}

/// The cached selector and the reference selector agree: for a
/// deterministic eligibility test, any two results that the contracts of
/// `select_farthest_packages` and `select_farthest_packages_reference`
/// admit for the same packages and bounds are the same selection.
pub proof fn lemma_cached_matches_reference<F: Fn(&SelectionPackage) -> bool>(
    is_eligible: F,
    cands: Seq<CandidateModel>,
    packages: Seq<SelectionPackage>,
    minimum: nat,
    maximum: nat,
    cached: Result<SelectionResult, SelectionError>,
    reference: Result<SelectionResult, SelectionError>,
)
    requires
        eligibility_deterministic(is_eligible),
        selection_agrees(is_eligible, cands, packages, minimum, maximum, cached),
        selection_agrees(is_eligible, cands, packages, minimum, maximum, reference),
    ensures
        outcome_model(cached) == outcome_model(reference),
{
    let e1 = choose|e: Seq<bool>|
        (minimum <= maximum ==> eligibility_answers(is_eligible, cands, packages, e)) && outcome_model(cached)
            == select_result(cands, packages_model(packages), e, minimum, maximum);
    let e2 = choose|e: Seq<bool>|
        (minimum <= maximum ==> eligibility_answers(is_eligible, cands, packages, e)) && outcome_model(reference)
            == select_result(cands, packages_model(packages), e, minimum, maximum);
    if minimum <= maximum {
        lemma_deterministic_scan(is_eligible, cands, packages, e1, e2);
    }
}

/// Selecting singleton candidates is selecting singleton packages, one per
/// retained candidate and keyed by its identifier, every one eligible: any
/// result the contract of `select_farthest_packages` admits for those
/// packages and an always-eligible test is the selection `select_farthest`
/// states.
pub proof fn lemma_farthest_is_singleton_packages<F: Fn(&SelectionPackage) -> bool>(
    is_eligible: F,
    cands: Seq<CandidateModel>,
    packages: Seq<SelectionPackage>,
    minimum: nat,
    maximum: nat,
    r: Result<SelectionResult, SelectionError>,
)
    requires
        packages_model(packages) == singleton_packages(ids_of(cands)),
        forall|q: SelectionPackage, b: bool| #[trigger] call_ensures(is_eligible, (&q,), b) ==> b,
        selection_agrees(is_eligible, cands, packages, minimum, maximum, r),
    ensures
        outcome_model(r) == select_result(
            cands,
            singleton_packages(ids_of(cands)),
            all_eligible(cands.len()),
            minimum,
            maximum,
        ),
{
    let pm = packages_model(packages);
    let e = choose|e: Seq<bool>|
        (minimum <= maximum ==> eligibility_answers(is_eligible, cands, packages, e)) && outcome_model(r)
            == select_result(cands, pm, e, minimum, maximum);
    if minimum <= maximum {
        let all = all_eligible(cands.len());
        assert(pm.len() == cands.len());
        assert forall|i: int|
            0 <= i < pm.len() && #[trigger] consulted_from(cands, initial_package_scan(), pm, e, i) implies e[i]
            == all[i] by {
            assert(eligibility_consulted(cands, pm, e, i));
            let q = choose|q: SelectionPackage|
                q@ == sorted_package(packages[i]@) && call_ensures(is_eligible, (&q,), e[i]);
        }
        lemma_scan_answers_agree(cands, initial_package_scan(), pm, e, all);
    }
}

/// A choice with coverage `cb`, minimum distance `db` and identifier `ib` is
/// at least as good as one with `cj`, `dj`, `ij`: it covers at least as many
/// new cells; on equal coverage its minimum L1 distance to the selected set
/// is at least as large (no distance yet, for a first singleton, counts as
/// the largest); on equal coverage and distance its identifier is smaller.
pub open spec fn choice_at_least(cb: nat, db: Option<u128>, ib: u64, cj: nat, dj: Option<u128>, ij: u64) -> bool {
    &&& cj <= cb
    &&& cj == cb ==> match (db, dj) {
        (Some(x), Some(y)) => y <= x && (y == x ==> ib <= ij),
        (None, Some(_)) => true,
        (Some(_), None) => false,
        (None, None) => ib <= ij,
    }
}

/// Remaining package `b` of `st` is at least as good a choice as `j`.
pub open spec fn package_at_least(cands: Seq<CandidateModel>, st: GreedyState, b: int, j: int) -> bool {
    choice_at_least(
        marginal_coverage(cands, st.remaining[b].members, st.covered),
        package_min_distance(cands, st.remaining[b].members, st.selected),
        st.remaining[b].id,
        marginal_coverage(cands, st.remaining[j].members, st.covered),
        package_min_distance(cands, st.remaining[j].members, st.selected),
        st.remaining[j].id,
    )
}

proof fn lemma_choice_transitive(
    ca: nat, da: Option<u128>, ia: u64,
    cb: nat, db: Option<u128>, ib: u64,
    cc: nat, dc: Option<u128>, ic: u64,
)
    requires
        choice_at_least(ca, da, ia, cb, db, ib),
        choice_at_least(cb, db, ib, cc, dc, ic),
    ensures
        choice_at_least(ca, da, ia, cc, dc, ic),
{
}

proof fn lemma_preferred_choice(cands: Seq<CandidateModel>, st: GreedyState, i: int, j: int)
    ensures
        crate::selection_spec::preferred(cands, st, i, j) ==> package_at_least(cands, st, i, j),
        !crate::selection_spec::preferred(cands, st, i, j) ==> package_at_least(cands, st, j, i),
{
}

proof fn lemma_best_among_dominates(cands: Seq<CandidateModel>, st: GreedyState, slots: nat, n: int)
    requires
        0 <= n <= st.remaining.len(),
    ensures
        best_among(cands, st, slots, n) matches Some(b) ==> forall|j: int|
            0 <= j < n && (#[trigger] st.remaining[j]).members.len() <= slots ==> package_at_least(cands, st, b, j),
    decreases n,
{
    if n > 0 {
        lemma_best_among_dominates(cands, st, slots, n - 1);
        lemma_best_among_range(cands, st, slots, n - 1);
        lemma_best_among_fits(cands, st, slots, n - 1);
        let m = n - 1;
        if st.remaining[m].members.len() <= slots {
            match best_among(cands, st, slots, m) {
                None => {
                    assert(package_at_least(cands, st, m, m));
                },
                Some(c) => {
                    lemma_preferred_choice(cands, st, m, c);
                    assert(package_at_least(cands, st, c, c));
                    assert(package_at_least(cands, st, m, m));
                    if crate::selection_spec::preferred(cands, st, m, c) {
                        assert forall|j: int| 0 <= j < n && (#[trigger] st.remaining[j]).members.len() <= slots implies package_at_least(cands, st, m, j) by {
                            if j < m {
                                let r = st.remaining;
                                lemma_choice_transitive(
                                    marginal_coverage(cands, r[m].members, st.covered), package_min_distance(cands, r[m].members, st.selected), r[m].id,
                                    marginal_coverage(cands, r[c].members, st.covered), package_min_distance(cands, r[c].members, st.selected), r[c].id,
                                    marginal_coverage(cands, r[j].members, st.covered), package_min_distance(cands, r[j].members, st.selected), r[j].id,
                                );
                            }
                        }
                    }
                },
            }
        }
    }
}

proof fn lemma_greedy_keeps_steps(cands: Seq<CandidateModel>, st: GreedyState, maximum: nat)
    ensures
        greedy(cands, st, maximum).steps.len() >= st.steps.len(),
        forall|k: int| 0 <= k < st.steps.len() ==> #[trigger] greedy(cands, st, maximum).steps[k] == st.steps[k],
    decreases st.remaining.len(),
{
    let n = st.remaining.len() as int;
    lemma_best_among_range(cands, st, room(st, maximum), n);
    match best_among(cands, st, room(st, maximum), n) {
        None => {},
        Some(i) => {
            let next = take_package(cands, st, i);
            lemma_greedy_keeps_steps(cands, next, maximum);
            assert forall|k: int| 0 <= k < st.steps.len() implies #[trigger] greedy(cands, st, maximum).steps[k] == st.steps[k] by {
                assert(next.steps[k] == st.steps[k]);
            }
        },
    }
}

/// Each greedy step takes, among the remaining packages that still fit, one
/// that covers the most new cells; among those covering as many, one whose
/// minimum L1 distance to the candidates already selected is greatest (a
/// first singleton, with no distance yet, counts as farthest); and among
/// those, the smallest identifier. So a package strictly farther from the
/// selected set is never passed over for a nearer one of equal coverage.
pub proof fn lemma_greedy_takes_farthest(cands: Seq<CandidateModel>, st: GreedyState, maximum: nat)
    requires
        best_among(cands, st, room(st, maximum), st.remaining.len() as int) is Some,
    ensures
        ({
            let g = greedy(cands, st, maximum);
            let s = g.steps[st.steps.len() as int];
            &&& g.steps.len() > st.steps.len()
            &&& exists|i: int| 0 <= i < st.remaining.len() && s.package_id == (#[trigger] st.remaining[i]).id
                && s.members == st.remaining[i].members && st.remaining[i].members.len() <= room(st, maximum)
            &&& forall|j: int|
                0 <= j < st.remaining.len() && (#[trigger] st.remaining[j]).members.len() <= room(st, maximum)
                    ==> choice_at_least(
                    s.marginal_cell_coverage,
                    s.minimum_l1_distance,
                    s.package_id,
                    marginal_coverage(cands, st.remaining[j].members, st.covered),
                    package_min_distance(cands, st.remaining[j].members, st.selected),
                    st.remaining[j].id,
                )
        }),
{
    let n = st.remaining.len() as int;
    let slots = room(st, maximum);
    lemma_best_among_range(cands, st, slots, n);
    lemma_best_among_fits(cands, st, slots, n);
    lemma_best_among_dominates(cands, st, slots, n);
    let i = best_among(cands, st, slots, n)->Some_0;
    assert(package_at_least(cands, st, i, i));
    let next = take_package(cands, st, i);
    assert(greedy(cands, st, maximum) == greedy(cands, next, maximum));
    lemma_greedy_keeps_steps(cands, next, maximum);
    assert(next.steps[st.steps.len() as int] == next.steps.last());
    let g = greedy(cands, st, maximum);
    let s = g.steps[st.steps.len() as int];
    assert(s == next.steps[st.steps.len() as int]);
    assert forall|j: int|
        0 <= j < st.remaining.len() && (#[trigger] st.remaining[j]).members.len() <= room(st, maximum) implies choice_at_least(
        s.marginal_cell_coverage,
        s.minimum_l1_distance,
        s.package_id,
        marginal_coverage(cands, st.remaining[j].members, st.covered),
        package_min_distance(cands, st.remaining[j].members, st.selected),
        st.remaining[j].id,
    ) by {
        assert(package_at_least(cands, st, i, j));
    }
}

/// The distance from `m` to its nearest candidate among `others`: absent
/// exactly when there are none, and otherwise attained by one of them and
/// no greater than the distance to any of them.
pub proof fn lemma_min_dist_to_is_nearest(cands: Seq<CandidateModel>, m: u64, others: Seq<u64>)
    ensures
        min_dist_to(cands, m, others) is None <==> others.len() == 0,
        min_dist_to(cands, m, others) matches Some(d) ==> {
            &&& forall|t: int| 0 <= t < others.len() ==> d <= cand_distance(cands, m, #[trigger] others[t])
            &&& exists|t: int| 0 <= t < others.len() && d == cand_distance(cands, m, #[trigger] others[t])
        },
    decreases others.len(),
{
    if others.len() > 0 {
        let d = others.drop_last();
        lemma_min_dist_to_is_nearest(cands, m, d);
        let n = others.len() - 1;
        assert(others[n] == others.last());
        assert forall|t: int| 0 <= t < n implies others[t] == d[t] by {}
        match min_dist_to(cands, m, d) {
            None => {
                assert(cand_distance(cands, m, others[n]) == cand_distance(cands, m, others.last()));
            },
            Some(x) => {
                let t0 = choose|t: int| 0 <= t < d.len() && x == cand_distance(cands, m, #[trigger] d[t]);
                assert(others[t0] == d[t0]);
                let r = min_dist_to(cands, m, others)->Some_0;
                assert forall|t: int| 0 <= t < others.len() implies r <= cand_distance(cands, m, #[trigger] others[t]) by {
                    if t < n {
                        assert(others[t] == d[t]);
                    }
                }
            },
        }
    }
}

/// The minimum L1 distance of a package over its pairs: each member
/// against every candidate already selected and every earlier member. It
/// is absent exactly when there is no such pair, and otherwise attained by
/// one pair and no greater than any pair's distance.
pub proof fn lemma_package_min_distance_is_closest_pair(
    cands: Seq<CandidateModel>,
    members: Seq<u64>,
    selected: Seq<u64>,
)
    ensures
        package_min_distance(cands, members, selected) is None <==> (members.len() == 0 || (members.len() == 1
            && selected.len() == 0)),
        package_min_distance(cands, members, selected) matches Some(d) ==> {
            &&& forall|k: int, t: int|
                0 <= k < members.len() && 0 <= t < (selected + members.take(k)).len() ==> d <= #[trigger] cand_distance(
                    cands,
                    members[k],
                    (selected + members.take(k))[t],
                )
            &&& exists|k: int, t: int|
                0 <= k < members.len() && 0 <= t < (selected + members.take(k)).len() && d == #[trigger] cand_distance(
                    cands,
                    members[k],
                    (selected + members.take(k))[t],
                )
        },
    decreases members.len(),
{
    if members.len() > 0 {
        let d = members.drop_last();
        let n = members.len() - 1;
        lemma_package_min_distance_is_closest_pair(cands, d, selected);
        let others = selected + d;
        lemma_min_dist_to_is_nearest(cands, members.last(), others);
        assert(members.take(n) =~= d);
        assert(members[n] == members.last());
        assert forall|k: int| 0 <= k < n implies #[trigger] members.take(k) == d.take(k) && members[k] == d[k] by {
            assert(members.take(k) =~= d.take(k));
        }
        let r = package_min_distance(cands, members, selected);
        if r is Some {
            let x = r->Some_0;
            assert forall|k: int, t: int|
                0 <= k < members.len() && 0 <= t < (selected + members.take(k)).len() implies x <= #[trigger] cand_distance(
                cands,
                members[k],
                (selected + members.take(k))[t],
            ) by {
                if k < n {
                    assert(members.take(k) == d.take(k));
                    assert(cand_distance(cands, d[k], (selected + d.take(k))[t]) == cand_distance(
                        cands,
                        members[k],
                        (selected + members.take(k))[t],
                    ));
                } else {
                    assert(others[t] == (selected + members.take(k))[t]);
                }
            }
            match package_min_distance(cands, d, selected) {
                Some(y) => {
                    if y == x {
                        let (k, t) = choose|k: int, t: int|
                            0 <= k < d.len() && 0 <= t < (selected + d.take(k)).len() && y == #[trigger] cand_distance(
                                cands,
                                d[k],
                                (selected + d.take(k))[t],
                            );
                        assert(members.take(k) == d.take(k));
                        assert(cand_distance(cands, members[k], (selected + members.take(k))[t]) == x);
                    } else {
                        let t = choose|t: int| 0 <= t < others.len() && x == cand_distance(cands, members.last(), #[trigger] others[t]);
                        assert(cand_distance(cands, members[n], (selected + members.take(n))[t]) == x);
                    }
                },
                None => {
                    let t = choose|t: int| 0 <= t < others.len() && x == cand_distance(cands, members.last(), #[trigger] others[t]);
                    assert(cand_distance(cands, members[n], (selected + members.take(n))[t]) == x);
                },
            }
        }
    }
}

} // verus!
