use downwards_research::archive::{
    ArchiveCandidate, ArchiveConfig, ObjectiveDirection, ProjectedCell, QualityDiversityArchive,
};
use downwards_research::selection::SelectionPackage;
use downwards_research::selection_spec::SelectionError;

fn projected(projection: u64, cell: i64) -> ProjectedCell {
    ProjectedCell::new(projection, vec![cell])
}

fn candidate(id: u64, projections: &[(u64, i64)], quality: &[i64], diversity: &[i64]) -> ArchiveCandidate {
    ArchiveCandidate::new(
        id,
        projections
            .iter()
            .map(|&(projection, cell)| projected(projection, cell))
            .collect(),
        quality.to_vec(),
        diversity.to_vec(),
    )
}

fn archive(cap: usize, candidates: Vec<ArchiveCandidate>) -> QualityDiversityArchive {
    QualityDiversityArchive::build(
        ArchiveConfig::new(
            vec![ObjectiveDirection::Maximize, ObjectiveDirection::Maximize],
            cap,
        ),
        candidates,
    )
    .unwrap()
}

#[test]
fn dominated_candidate_is_rejected() {
    let archive = archive(
        4,
        vec![
            candidate(1, &[(0, 0)], &[3, 3], &[0]),
            candidate(2, &[(0, 0)], &[2, 3], &[1]),
        ],
    );

    assert!(archive.candidate(&1).is_some());
    assert!(archive.candidate(&2).is_none());
    assert_eq!(archive.cells()[0].1.elites(), &[1]);
}

#[test]
fn pareto_incomparable_candidates_are_kept() {
    let archive = archive(
        4,
        vec![
            candidate(1, &[(0, 0)], &[5, 2], &[0]),
            candidate(2, &[(0, 0)], &[2, 5], &[1]),
        ],
    );

    assert_eq!(archive.cells()[0].1.elites(), &[1, 2]);
}

#[test]
fn cell_cap_and_crowding_tie_break_are_input_order_independent() {
    let inputs = vec![
        candidate(4, &[(0, 0)], &[0, 30], &[4]),
        candidate(3, &[(0, 0)], &[10, 20], &[3]),
        candidate(2, &[(0, 0)], &[20, 10], &[2]),
        candidate(1, &[(0, 0)], &[30, 0], &[1]),
    ];
    let mut reversed = inputs.clone();
    reversed.reverse();

    let first = archive(3, inputs);
    let second = archive(3, reversed);

    // Both extremes survive. The equal-crowding interior tie keeps the
    // smaller stable identifier.
    assert_eq!(first.cells()[0].1.elites(), &[1, 2, 4]);
    assert_eq!(first, second);
}

#[test]
fn marginal_coverage_counts_independent_projection_cells() {
    let archive = archive(
        4,
        vec![
            candidate(1, &[(0, 0), (1, 0)], &[3, 3], &[0]),
            candidate(2, &[(0, 0), (1, 1)], &[3, 3], &[1]),
            candidate(3, &[(0, 1), (1, 1)], &[3, 3], &[2]),
        ],
    );

    let selected = archive.select_farthest(2..=2).unwrap();

    assert_eq!(selected.selected_candidates, vec![1, 3]);
    assert_eq!(selected.steps[0].marginal_cell_coverage, 2);
    assert_eq!(selected.steps[1].marginal_cell_coverage, 2);
    assert_eq!(selected.covered_cells.len(), 4);
    // There are four independent cells, not three Cartesian tuple cells.
    assert_eq!(archive.summary().cell_count, 4);
}

#[test]
fn farthest_point_tie_uses_stable_candidate_id() {
    let archive = archive(
        4,
        vec![
            candidate(1, &[(0, 0)], &[3, 3], &[0]),
            candidate(2, &[(0, 0)], &[3, 3], &[-10]),
            candidate(3, &[(0, 0)], &[3, 3], &[10]),
        ],
    );

    let selected = archive.select_farthest(2..=2).unwrap();

    assert_eq!(selected.selected_candidates, vec![1, 2]);
    assert_eq!(selected.steps[1].minimum_l1_distance, Some(10));
}

#[test]
fn cached_package_selection_matches_reference_across_internal_and_external_ties() {
    let archive = archive(
        16,
        vec![
            candidate(0, &[(0, 0), (1, 0)], &[3, 3], &[0, 0]),
            candidate(1, &[(0, 0), (1, 1)], &[3, 3], &[0, 10]),
            candidate(2, &[(0, 1), (1, 0)], &[3, 3], &[10, 0]),
            candidate(3, &[(0, 1), (1, 1)], &[3, 3], &[10, 10]),
            candidate(4, &[(0, 2), (1, 0)], &[3, 3], &[-10, 0]),
            candidate(5, &[(0, 2), (1, 1)], &[3, 3], &[0, -10]),
        ],
    );
    let packages = vec![
        SelectionPackage::new(20, vec![1, 0]),
        SelectionPackage::new(10, vec![2]),
        SelectionPackage::new(30, vec![4, 3]),
        SelectionPackage::new(40, vec![5]),
    ];

    let cached = archive
        .select_farthest_packages(packages.clone(), 3..=5, |_| true)
        .unwrap();
    let reference = archive
        .select_farthest_packages_reference(packages, 3..=5, |_| true)
        .unwrap();

    assert_eq!(cached, reference);
}

#[test]
fn cached_selection_matches_reference_on_deterministic_random_fixtures() {
    let mut state = 0x9e37_79b9_u64;
    let mut next = || {
        state = state
            .wrapping_mul(6_364_136_223_846_793_005)
            .wrapping_add(1_442_695_040_888_963_407);
        state
    };

    for fixture in 0..48_u8 {
        let candidate_count = 12 + (next() % 13) as u8;
        let mut candidates = Vec::new();
        for id in 0..candidate_count {
            let diversity = (0..7)
                .map(|dimension| {
                    let value = next();
                    // Small ranges deliberately create exact distance
                    // ties; occasional extrema exercise saturating L1.
                    if id == 0 && dimension == 0 {
                        i64::MIN
                    } else if id == 1 && dimension == 0 {
                        i64::MAX
                    } else {
                        (value % 11) as i64 - 5
                    }
                })
                .collect::<Vec<_>>();
            candidates.push(candidate(
                u64::from(id),
                &[(0, i64::from(id % 4)), (1, i64::from((id + fixture) % 5))],
                &[1, 1],
                &diversity,
            ));
        }
        let archive = archive(32, candidates);

        let mut packages = Vec::new();
        let mut member = 0_u8;
        let mut package_id = 0_u8;
        while member < candidate_count {
            let package_len = 1 + (next() % 3) as u8;
            let end = member.saturating_add(package_len).min(candidate_count);
            packages.push(SelectionPackage::new(
                u64::from(package_id),
                (member..end).rev().map(u64::from).collect(),
            ));
            member = end;
            package_id += 1;
        }
        let maximum = (next() % u64::from(candidate_count + 1)) as usize;
        let eligibility_modulus = 2 + (next() % 3) as u8;
        let eligible = |package: &SelectionPackage| {
            (package.id as u8).wrapping_add(fixture) % eligibility_modulus != 0
        };

        let cached = archive.select_farthest_packages(packages.clone(), 0..=maximum, eligible);
        let reference = archive.select_farthest_packages_reference(packages, 0..=maximum, eligible);
        assert_eq!(cached, reference, "fixture {fixture}");
    }
}

#[test]
fn quality_is_not_collapsed_to_a_scalar_fun_score() {
    let archive = archive(
        4,
        vec![
            // A weighted sum could rank one of these above the other;
            // Pareto comparison correctly preserves the trade-off.
            candidate(1, &[(0, 0)], &[100, 0], &[0]),
            candidate(2, &[(0, 0)], &[40, 40], &[1]),
        ],
    );

    assert_eq!(archive.cells()[0].1.elites(), &[1, 2]);
}

#[test]
fn package_ids_must_be_unique_even_after_an_ineligible_package() {
    let archive = archive(
        4,
        vec![
            candidate(1, &[(0, 0)], &[3, 3], &[0]),
            candidate(2, &[(0, 1)], &[3, 3], &[10]),
        ],
    );
    let packages = vec![SelectionPackage::new(7, vec![1]), SelectionPackage::new(7, vec![2])];
    let result = archive.select_farthest_packages(packages.clone(), 1..=1, |p| p.members != vec![1]);
    assert_eq!(result, Err(SelectionError::DuplicatePackageId));
    let reference = archive.select_farthest_packages_reference(packages, 1..=1, |p| p.members != vec![1]);
    assert_eq!(reference, Err(SelectionError::DuplicatePackageId));
}

#[test]
fn every_cell_keeps_a_nonempty_bounded_front_in_id_order() {
    let archive = archive(
        2,
        vec![
            candidate(9, &[(0, 0), (1, 4)], &[1, 1], &[0]),
            candidate(4, &[(0, 0)], &[5, 1], &[1]),
            candidate(7, &[(0, 0)], &[1, 5], &[2]),
            candidate(2, &[(0, 0)], &[3, 3], &[3]),
        ],
    );
    for (key, cell) in archive.cells() {
        let elites = cell.elites();
        assert!(!elites.is_empty(), "cell {key:?} is empty");
        assert!(elites.len() <= 2);
        assert!(elites.windows(2).all(|w| w[0] < w[1]));
        for id in elites {
            assert!(archive.candidate(id).is_some());
        }
    }
    // The lone member of projection 1 is kept though it is dominated in projection 0.
    assert_eq!(archive.cells()[1].1.elites(), &[9]);
    assert!(archive.candidate(&9).is_some());
    assert_eq!(archive.cells()[0].1.elites().len(), 2);
}

#[test]
fn listing_projections_in_another_order_builds_the_same_archive() {
    let build = |first: &[(u64, i64)], second: &[(u64, i64)]| {
        archive(
            1,
            vec![
                candidate(3, first, &[4, 1], &[0, 1]),
                candidate(5, second, &[1, 4], &[2, 3]),
                candidate(8, &[(2, 7)], &[2, 2], &[4, 5]),
            ],
        )
    };
    let a = build(&[(2, 7), (0, 1), (1, 3)], &[(1, 3), (0, 2)]);
    let b = build(&[(1, 3), (2, 7), (0, 1)], &[(0, 2), (1, 3)]);
    assert_eq!(a, b);
    assert_eq!(a.cells().len(), 4);
}

#[test]
fn diversity_coordinates_never_influence_archiving() {
    let build = |diversity: [&[i64]; 3]| {
        archive(
            2,
            vec![
                candidate(1, &[(0, 0)], &[3, 1], diversity[0]),
                candidate(2, &[(0, 0), (1, 1)], &[1, 3], diversity[1]),
                candidate(3, &[(0, 0)], &[0, 0], diversity[2]),
            ],
        )
    };
    let a = build([&[0], &[5], &[9]]);
    let b = build([&[7, -4, 2], &[i64::MIN, 0, 1], &[3, 3, 3]]);
    assert_eq!(a.cells(), b.cells());
    assert_eq!(a.candidate_ids(), b.candidate_ids());
    assert_eq!(a.summary(), b.summary());
    assert_eq!(a.candidate_ids(), vec![1, 2]);
}

#[test]
fn selection_ignores_package_and_member_order() {
    let archive = archive(
        16,
        vec![
            candidate(0, &[(0, 0), (1, 0)], &[3, 3], &[0, 0]),
            candidate(1, &[(0, 0), (1, 1)], &[3, 3], &[0, 10]),
            candidate(2, &[(0, 1), (1, 0)], &[3, 3], &[10, 0]),
            candidate(3, &[(0, 1), (1, 1)], &[3, 3], &[10, 10]),
            candidate(4, &[(0, 2), (1, 0)], &[3, 3], &[-10, 0]),
            candidate(5, &[(0, 2), (1, 1)], &[3, 3], &[0, -10]),
        ],
    );
    let eligible = |package: &SelectionPackage| package.id != 40;
    let first = archive
        .select_farthest_packages(
            vec![
                SelectionPackage::new(20, vec![1, 0]),
                SelectionPackage::new(10, vec![2]),
                SelectionPackage::new(30, vec![4, 3]),
                SelectionPackage::new(40, vec![5]),
            ],
            2..=3,
            eligible,
        )
        .unwrap();
    let second = archive
        .select_farthest_packages(
            vec![
                SelectionPackage::new(40, vec![5]),
                SelectionPackage::new(30, vec![3, 4]),
                SelectionPackage::new(20, vec![0, 1]),
                SelectionPackage::new(10, vec![2]),
            ],
            2..=3,
            eligible,
        )
        .unwrap();
    assert_eq!(first, second);
    assert!(!first.selected_packages.contains(&40));
}
