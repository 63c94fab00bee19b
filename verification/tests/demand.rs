use downwards_research::demand::{
    ControllerDemandCoordinatesRecord, ControllerDemandRecord, coordinates_dominate,
    coordinates_from_demand, pareto_indices, record_coordinates_dominate,
};

fn coords(class: u8, ticks: usize) -> ControllerDemandCoordinatesRecord {
    ControllerDemandCoordinatesRecord {
        controller_class: class,
        ability_events: 0,
        horizontal_reversals: 0,
        vertical_decisions: 0,
        semantic_spans: 1,
        semantic_transitions: 0,
        duration_ticks: ticks,
    }
}

#[test]
fn demand_coordinates_classify_and_saturate() {
    let demand = ControllerDemandRecord {
        run_only: false,
        monotone_simple: true,
        ordinary_jump_events: 1,
        wall_jump_events: usize::MAX,
        dash_events: 2,
        jump_press_edges: 1,
        dash_press_edges: 2,
        horizontal_reversals: 3,
        vertical_input_changes: 4,
        dash_direction_changes: 5,
        vertical_decisions: 6,
        semantic_spans: 7,
        semantic_transitions: 8,
        duration_ticks: 9,
    };
    let c = coordinates_from_demand(demand);
    assert_eq!(c.controller_class, 1);
    assert_eq!(c.ability_events, usize::MAX);
    assert_eq!(c.horizontal_reversals, 3);
    assert_eq!(c.vertical_decisions, 6);
    assert_eq!(c.duration_ticks, 9);
    let run_only = ControllerDemandRecord { run_only: true, ..demand };
    assert_eq!(coordinates_from_demand(run_only).controller_class, 0);
    let complex = ControllerDemandRecord { monotone_simple: false, ..demand };
    assert_eq!(coordinates_from_demand(complex).controller_class, 2);
}

#[test]
fn dominance_requires_no_harder_and_strictly_easier() {
    assert!(coordinates_dominate(coords(0, 5), coords(1, 5)));
    assert!(!coordinates_dominate(coords(0, 5), coords(0, 5)));
    assert!(!coordinates_dominate(coords(0, 6), coords(1, 5)));
    assert!(record_coordinates_dominate(coords(0, 5), coords(0, 6)));
    assert!(!record_coordinates_dominate(coords(0, 5), coords(0, 5)));
}

#[test]
fn pareto_indices_keep_undominated_candidates_in_order() {
    let all = vec![coords(1, 10), coords(0, 20), coords(0, 10), coords(2, 1)];
    // Witness 2 dominates 0 and 1; witness 3 is easier in duration only.
    assert_eq!(pareto_indices(&all, &[0, 1, 2, 3]), vec![2, 3]);
    // Only candidates listed compete.
    assert_eq!(pareto_indices(&all, &[1, 0]), vec![1, 0]);
    // Equal coordinates do not dominate one another.
    let equal = vec![coords(0, 1), coords(0, 1)];
    assert_eq!(pareto_indices(&equal, &[0, 1]), vec![0, 1]);
}
