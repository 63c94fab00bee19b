//! A route's references to retained controller witnesses: an easiest witness
//! exactly when there is a Pareto front, that witness first on the front, no
//! repeats, every witness present and bound to the room, route and loadout,
//! and no front member dominating another; and every retained witness
//! referenced by some route.
use vstd::prelude::*;

use crate::ability_promotion::EvaluationLoadout;
use crate::checks::{ArtifactViolation, CorpusAnalysisArtifactError};
use crate::demand::{ControllerDemandCoordinatesRecord, no_harder, record_coordinates_dominate};
use crate::room_evidence::{DirectedControllerLoadoutRecord, DirectedControllerRouteRecord};
use crate::room_record::RoomRecord;

verus! {

/// What a route's references read of one retained controller witness.
#[derive(Clone, Debug, PartialEq, Eq)]
pub struct WitnessBindingRecord {
    pub witness_id: String,
    pub room_id: String,
    pub source_door_id: String,
    pub target_door_id: String,
    pub loadout: EvaluationLoadout,
    pub coordinates: ControllerDemandCoordinatesRecord,
}

/// The route a set of references belongs to.
pub struct ReferencingRoute {
    pub room_id: String,
    pub source_door_id: String,
    pub target_door_id: String,
    /// The loadout the references must be bound to; `None` for the route's
    /// overall references.
    pub loadout: Option<EvaluationLoadout>,
}

/// Position of the first witness with identifier `id`.
pub open spec fn find_witness(ws: Seq<WitnessBindingRecord>, id: Seq<char>) -> Option<int>
    decreases ws.len(),
{
    if ws.len() == 0 {
        None
    } else {
        match find_witness(ws.drop_last(), id) {
            Some(i) => Some(i),
            None => if ws.last().witness_id@ == id {
                Some(ws.len() - 1)
            } else {
                None
            },
        }
    }
}

/// The referenced identifiers: the easiest witness, if any, then the front.
pub open spec fn referenced_ids(easiest: Option<String>, pareto: Seq<String>) -> Seq<Seq<char>> {
    let front = pareto.map_values(|s: String| s@);
    match easiest {
        Some(e) => seq![e@] + front,
        None => front,
    }
}

/// The witness is bound to the route (and to its loadout, when given).
pub open spec fn bound_to(w: WitnessBindingRecord, route: ReferencingRoute) -> bool {
    &&& w.room_id@ == route.room_id@
    &&& w.source_door_id@ == route.source_door_id@
    &&& w.target_door_id@ == route.target_door_id@
    &&& match route.loadout {
        Some(l) => w.loadout == l,
        None => true,
    }
}

/// The first failing reference's outcome, from position `k` on.
pub open spec fn ids_from(
    ids: Seq<Seq<char>>,
    k: int,
    ws: Seq<WitnessBindingRecord>,
    route: ReferencingRoute,
) -> Result<(), CorpusAnalysisArtifactError>
    decreases ids.len() - k,
{
    if k < 0 || k >= ids.len() {
        Ok(())
    } else {
        match find_witness(ws, ids[k]) {
            None => Err(CorpusAnalysisArtifactError::Invalid(ArtifactViolation::AbsentWitness)),
            Some(i) => if !bound_to(ws[i], route) {
                Err(CorpusAnalysisArtifactError::Invalid(ArtifactViolation::WitnessBinding))
            } else {
                ids_from(ids, k + 1, ws, route)
            },
        }
    }
}

/// The coordinates of the witness with identifier `id`.
pub open spec fn coordinates_of(ws: Seq<WitnessBindingRecord>, id: Seq<char>) -> ControllerDemandCoordinatesRecord {
    ws[find_witness(ws, id)->0].coordinates
}

/// Some front member dominates another.
pub open spec fn front_dominated(ws: Seq<WitnessBindingRecord>, pareto: Seq<String>) -> bool {
    exists|a: int, b: int|
        0 <= a < b < pareto.len() && {
            let x = coordinates_of(ws, (#[trigger] pareto[a])@);
            let y = coordinates_of(ws, (#[trigger] pareto[b])@);
            (no_harder(x, y) && x != y) || (no_harder(y, x) && y != x)
        }
}

/// The outcome of checking a route's witness references.
pub open spec fn witness_refs_result(
    route: ReferencingRoute,
    easiest: Option<String>,
    pareto: Seq<String>,
    ws: Seq<WitnessBindingRecord>,
) -> Result<(), CorpusAnalysisArtifactError> {
    if (easiest is None) != (pareto.len() == 0) {
        Err(CorpusAnalysisArtifactError::Invalid(ArtifactViolation::EasiestParetoAvailability))
    } else if easiest is Some && pareto[0]@ != easiest->0@ {
        Err(CorpusAnalysisArtifactError::Invalid(ArtifactViolation::EasiestNotFirstOnFront))
    } else if exists|a: int, b: int| 0 <= a < b < pareto.len() && (#[trigger] pareto[a])@ == (#[trigger] pareto[b])@ {
        Err(CorpusAnalysisArtifactError::Invalid(ArtifactViolation::ParetoWitnessRepeated))
    } else if ids_from(referenced_ids(easiest, pareto), 0, ws, route) is Err {
        ids_from(referenced_ids(easiest, pareto), 0, ws, route)
    } else if front_dominated(ws, pareto) {
        Err(CorpusAnalysisArtifactError::Invalid(ArtifactViolation::ParetoWitnessesDominate))
    } else {
        Ok(())
    }
}

proof fn lemma_find_witness_bound(ws: Seq<WitnessBindingRecord>, id: Seq<char>)
    ensures
        find_witness(ws, id) matches Some(i) ==> 0 <= i < ws.len() && ws[i].witness_id@ == id,
    decreases ws.len(),
{
    if ws.len() > 0 {
        lemma_find_witness_bound(ws.drop_last(), id);
    }
}

proof fn lemma_find_witness_prefix(ws: Seq<WitnessBindingRecord>, id: Seq<char>, k: int)
    requires
        0 <= k <= ws.len(),
    ensures
        find_witness(ws.take(k), id) matches Some(i) ==> find_witness(ws, id) == Some(i),
    decreases ws.len(),
{
    if k < ws.len() {
        assert(ws.drop_last().take(k) =~= ws.take(k));
        lemma_find_witness_prefix(ws.drop_last(), id, k);
    } else {
        assert(ws.take(k) =~= ws);
    }
}

fn locate(ws: &[WitnessBindingRecord], id: &String) -> (r: Option<usize>)
    ensures
        match r {
            Some(i) => find_witness(ws@, id@) == Some(i as int) && i < ws@.len(),
            None => find_witness(ws@, id@) is None,
        },
{
    let mut k: usize = 0;
    while k < ws.len()
        invariant
            k <= ws.len(),
            find_witness(ws@.take(k as int), id@) is None,
        decreases ws.len() - k,
    {
        assert(ws@.take(k + 1).drop_last() =~= ws@.take(k as int));
        proof {
            lemma_find_witness_prefix(ws@, id@, k as int + 1);
        }
        if ws[k].witness_id == *id {
            return Some(k);
        }
        k = k + 1;
    }
    assert(ws@.take(k as int) =~= ws@);
    None
}

fn bound(w: &WitnessBindingRecord, route: &ReferencingRoute) -> (r: bool)
    ensures
        r == bound_to(*w, *route),
{
    let loadout_ok = match route.loadout {
        Some(l) => w.loadout == l,
        None => true,
    };
    w.room_id == route.room_id && w.source_door_id == route.source_door_id && w.target_door_id == route.target_door_id
        && loadout_ok
}

/// Check one referenced identifier: present and bound to the route.
fn check_reference(
    id: &String,
    ws: &[WitnessBindingRecord],
    route: &ReferencingRoute,
) -> (r: Result<(), CorpusAnalysisArtifactError>)
    ensures
        r == (match find_witness(ws@, id@) {
            None => Err(CorpusAnalysisArtifactError::Invalid(ArtifactViolation::AbsentWitness)),
            Some(i) => if !bound_to(ws@[i], *route) {
                Err(CorpusAnalysisArtifactError::Invalid(ArtifactViolation::WitnessBinding))
            } else {
                Ok(())
            },
        }),
{
    match locate(ws, id) {
        None => Err(CorpusAnalysisArtifactError::Invalid(ArtifactViolation::AbsentWitness)),
        Some(i) => if !bound(&ws[i], route) {
            Err(CorpusAnalysisArtifactError::Invalid(ArtifactViolation::WitnessBinding))
        } else {
            Ok(())
        },
    }
}

proof fn lemma_ids_found(ids: Seq<Seq<char>>, j: int, ws: Seq<WitnessBindingRecord>, route: ReferencingRoute)
    requires
        0 <= j,
        ids_from(ids, j, ws, route) is Ok,
    ensures
        forall|k: int| j <= k < ids.len() ==> find_witness(ws, #[trigger] ids[k]) is Some,
    decreases ids.len() - j,
{
    if j < ids.len() {
        lemma_ids_found(ids, j + 1, ws, route);
    }
}

/// Check a route's references to retained controller witnesses: the easiest
/// witness exactly when there is a front, first on it, no repeated front
/// member, every referenced witness present and bound to the route, and no
/// front member dominating another.
pub fn validate_witness_refs(
    route: &ReferencingRoute,
    easiest: &Option<String>,
    pareto: &Vec<String>,
    ws: &[WitnessBindingRecord],
) -> (r: Result<(), CorpusAnalysisArtifactError>)
    ensures
        r == witness_refs_result(*route, *easiest, pareto@, ws@),
{
    if easiest.is_none() != (pareto.len() == 0) {
        return Err(CorpusAnalysisArtifactError::Invalid(ArtifactViolation::EasiestParetoAvailability));
    }
    match easiest {
        Some(e) => {
            if pareto[0] != *e {
                return Err(CorpusAnalysisArtifactError::Invalid(ArtifactViolation::EasiestNotFirstOnFront));
            }
        },
        None => {},
    }
    let mut a: usize = 0;
    while a < pareto.len()
        invariant
            a <= pareto.len(),
            (easiest is None) == (pareto@.len() == 0),
            easiest is Some ==> pareto@[0]@ == easiest->0@,
            forall|x: int, y: int| 0 <= x < y < pareto@.len() && x < a ==> pareto@[x]@ != pareto@[y]@,
        decreases pareto.len() - a,
    {
        let mut b: usize = a + 1;
        while b < pareto.len()
            invariant
                a < pareto.len(),
                a < b <= pareto.len(),
                (easiest is None) == (pareto@.len() == 0),
                easiest is Some ==> pareto@[0]@ == easiest->0@,
                forall|x: int, y: int| 0 <= x < y < pareto@.len() && x < a ==> pareto@[x]@ != pareto@[y]@,
                forall|y: int| a < y < b ==> pareto@[a as int]@ != pareto@[y]@,
            decreases pareto.len() - b,
        {
            if pareto[a] == pareto[b] {
                assert(pareto@[a as int]@ == pareto@[b as int]@);
                return Err(CorpusAnalysisArtifactError::Invalid(ArtifactViolation::ParetoWitnessRepeated));
            }
            b = b + 1;
        }
        a = a + 1;
    }
    let ghost ids = referenced_ids(*easiest, pareto@);
    let ghost offset: int = if easiest.is_some() { 1 } else { 0 };
    match easiest {
        Some(e) => {
            assert(ids[0] == e@);
            let checked = check_reference(e, ws, route);
            if checked.is_err() {
                return checked;
            }
        },
        None => {},
    }
    assert(ids.len() == offset + pareto@.len());
    let mut k: usize = 0;
    while k < pareto.len()
        invariant
            k <= pareto.len(),
            ids == referenced_ids(*easiest, pareto@),
            offset == (if easiest.is_some() { 1int } else { 0int }),
            ids.len() == offset + pareto@.len(),
            forall|t: int| 0 <= t < pareto@.len() ==> ids[offset + t] == (#[trigger] pareto@[t])@,
            ids_from(ids, 0, ws@, *route) == ids_from(ids, offset + k, ws@, *route),
            witness_refs_result(*route, *easiest, pareto@, ws@) == (if ids_from(ids, 0, ws@, *route) is Err {
                ids_from(ids, 0, ws@, *route)
            } else if front_dominated(ws@, pareto@) {
                Err(CorpusAnalysisArtifactError::Invalid(ArtifactViolation::ParetoWitnessesDominate))
            } else {
                Ok(())
            }),
        decreases pareto.len() - k,
    {
        let checked = check_reference(&pareto[k], ws, route);
        if checked.is_err() {
            return checked;
        }
        k = k + 1;
    }
    proof {
        lemma_ids_found(ids, 0, ws@, *route);
        assert forall|t: int| 0 <= t < pareto@.len() implies find_witness(ws@, (#[trigger] pareto@[t])@) is Some by {
            assert(ids[offset + t] == pareto@[t]@);
        }
    }
    let mut x: usize = 0;
    while x < pareto.len()
        invariant
            x <= pareto.len(),
            forall|t: int| 0 <= t < pareto@.len() ==> find_witness(ws@, (#[trigger] pareto@[t])@) is Some,
            witness_refs_result(*route, *easiest, pareto@, ws@) == (if front_dominated(ws@, pareto@) {
                Err(CorpusAnalysisArtifactError::Invalid(ArtifactViolation::ParetoWitnessesDominate))
            } else {
                Ok(())
            }),
            forall|p: int, q: int|
                0 <= p < q < pareto@.len() && p < x ==> {
                    let c = coordinates_of(ws@, (#[trigger] pareto@[p])@);
                    let d = coordinates_of(ws@, (#[trigger] pareto@[q])@);
                    !((no_harder(c, d) && c != d) || (no_harder(d, c) && d != c))
                },
        decreases pareto.len() - x,
    {
        let i = match locate(ws, &pareto[x]) {
            Some(i) => i,
            None => {
                proof {
                    assert(find_witness(ws@, pareto@[x as int]@) is Some);
                }
                return Ok(());
            },
        };
        let mut y: usize = x + 1;
        while y < pareto.len()
            invariant
                x < pareto.len(),
                x < y <= pareto.len(),
                i < ws@.len(),
                find_witness(ws@, pareto@[x as int]@) == Some(i as int),
                witness_refs_result(*route, *easiest, pareto@, ws@) == (if front_dominated(ws@, pareto@) {
                    Err(CorpusAnalysisArtifactError::Invalid(ArtifactViolation::ParetoWitnessesDominate))
                } else {
                    Ok(())
                }),
                forall|t: int| 0 <= t < pareto@.len() ==> find_witness(ws@, (#[trigger] pareto@[t])@) is Some,
                forall|q: int|
                    x < q < y ==> {
                        let c = coordinates_of(ws@, pareto@[x as int]@);
                        let d = coordinates_of(ws@, (#[trigger] pareto@[q])@);
                        !((no_harder(c, d) && c != d) || (no_harder(d, c) && d != c))
                    },
            decreases pareto.len() - y,
        {
            let j = match locate(ws, &pareto[y]) {
                Some(j) => j,
                None => {
                    proof {
                        assert(find_witness(ws@, pareto@[y as int]@) is Some);
                    }
                    return Ok(());
                },
            };
            if record_coordinates_dominate(ws[i].coordinates, ws[j].coordinates) || record_coordinates_dominate(
                ws[j].coordinates,
                ws[i].coordinates,
            ) {
                assert(front_dominated(ws@, pareto@)) by {
                    assert(coordinates_of(ws@, pareto@[x as int]@) == ws@[i as int].coordinates);
                    assert(coordinates_of(ws@, pareto@[y as int]@) == ws@[j as int].coordinates);
                }
                return Err(CorpusAnalysisArtifactError::Invalid(ArtifactViolation::ParetoWitnessesDominate));
            }
            y = y + 1;
        }
        x = x + 1;
    }
    Ok(())
}

/// Some identifier of `ids` is `id`.
pub open spec fn names(ids: Seq<String>, id: Seq<char>) -> bool {
    exists|j: int| 0 <= j < ids.len() && (#[trigger] ids[j])@ == id
}

/// The optional identifier is `id`.
pub open spec fn names_opt(o: Option<String>, id: Seq<char>) -> bool {
    o matches Some(e) && e@ == id
}

/// A loadout record references `id`, as its easiest witness or on its front.
pub open spec fn loadout_references(l: DirectedControllerLoadoutRecord, id: Seq<char>) -> bool {
    names_opt(l.easiest_known_witness_id, id) || names(l.pareto_front_witness_ids@, id)
}

/// A route references `id`, overall or for one of its loadouts.
pub open spec fn route_references(r: DirectedControllerRouteRecord, id: Seq<char>) -> bool {
    ||| names_opt(r.overall_easiest_known_witness_id, id)
    ||| names(r.overall_pareto_front_witness_ids@, id)
    ||| exists|q: int| 0 <= q < r.loadouts@.len() && loadout_references(#[trigger] r.loadouts@[q], id)
}

/// The directed routes of a room.
pub open spec fn routes_of(room: RoomRecord) -> Seq<DirectedControllerRouteRecord> {
    room.direct_controller_evidence.directed_routes@
}

/// Some route of some room references `id`.
pub open spec fn referenced_in(rooms: Seq<RoomRecord>, id: Seq<char>) -> bool {
    exists|k: int, m: int|
        0 <= k < rooms.len() && 0 <= m < routes_of(rooms[k]).len() && route_references(
            #[trigger] routes_of(rooms[k])[m],
            id,
        )
}

/// The outcome of checking that every retained witness is referenced.
pub open spec fn orphan_result(
    ws: Seq<WitnessBindingRecord>,
    rooms: Seq<RoomRecord>,
) -> Result<(), CorpusAnalysisArtifactError> {
    if forall|i: int| 0 <= i < ws.len() ==> referenced_in(rooms, (#[trigger] ws[i]).witness_id@) {
        Ok(())
    } else {
        Err(CorpusAnalysisArtifactError::Invalid(ArtifactViolation::OrphanWitness))
    }
}

fn names_id(ids: &Vec<String>, id: &String) -> (r: bool)
    ensures
        r == names(ids@, id@),
{
    let mut j: usize = 0;
    while j < ids.len()
        invariant
            j <= ids.len(),
            forall|t: int| 0 <= t < j ==> (#[trigger] ids@[t])@ != id@,
        decreases ids.len() - j,
    {
        if ids[j] == *id {
            return true;
        }
        j = j + 1;
    }
    false
}

fn names_opt_id(o: &Option<String>, id: &String) -> (r: bool)
    ensures
        r == names_opt(*o, id@),
{
    match o {
        Some(e) => *e == *id,
        None => false,
    }
}

fn route_refers(r: &DirectedControllerRouteRecord, id: &String) -> (b: bool)
    ensures
        b == route_references(*r, id@),
{
    if names_opt_id(&r.overall_easiest_known_witness_id, id) || names_id(&r.overall_pareto_front_witness_ids, id) {
        return true;
    }
    let mut q: usize = 0;
    while q < r.loadouts.len()
        invariant
            q <= r.loadouts.len(),
            forall|t: int| 0 <= t < q ==> !loadout_references(#[trigger] r.loadouts@[t], id@),
        decreases r.loadouts.len() - q,
    {
        let l = &r.loadouts[q];
        if names_opt_id(&l.easiest_known_witness_id, id) || names_id(&l.pareto_front_witness_ids, id) {
            assert(loadout_references(r.loadouts@[q as int], id@));
            return true;
        }
        q = q + 1;
    }
    false
}

fn is_referenced(rooms: &[RoomRecord], id: &String) -> (b: bool)
    ensures
        b == referenced_in(rooms@, id@),
{
    let mut k: usize = 0;
    while k < rooms.len()
        invariant
            k <= rooms.len(),
            forall|a: int, m: int|
                0 <= a < k && 0 <= m < routes_of(rooms@[a]).len() ==> !route_references(
                    #[trigger] routes_of(rooms@[a])[m],
                    id@,
                ),
        decreases rooms.len() - k,
    {
        let routes = &rooms[k].direct_controller_evidence.directed_routes;
        let mut m: usize = 0;
        while m < routes.len()
            invariant
                k < rooms.len(),
                routes@ == routes_of(rooms@[k as int]),
                m <= routes.len(),
                forall|a: int, n: int|
                    0 <= a < k && 0 <= n < routes_of(rooms@[a]).len() ==> !route_references(
                        #[trigger] routes_of(rooms@[a])[n],
                        id@,
                    ),
                forall|n: int| 0 <= n < m ==> !route_references(#[trigger] routes@[n], id@),
            decreases routes.len() - m,
        {
            if route_refers(&routes[m], id) {
                assert(route_references(routes_of(rooms@[k as int])[m as int], id@));
                return true;
            }
            m = m + 1;
        }
        k = k + 1;
    }
    false
}

/// Check that every retained witness is referenced by some route of some
/// room, as an easiest witness or a front member, overall or per loadout.
pub fn validate_no_orphan_witnesses(
    ws: &[WitnessBindingRecord],
    rooms: &[RoomRecord],
) -> (r: Result<(), CorpusAnalysisArtifactError>)
    ensures
        r == orphan_result(ws@, rooms@),
{
    let mut i: usize = 0;
    while i < ws.len()
        invariant
            i <= ws.len(),
            forall|t: int| 0 <= t < i ==> referenced_in(rooms@, (#[trigger] ws@[t]).witness_id@),
        decreases ws.len() - i,
    {
        if !is_referenced(rooms, &ws[i].witness_id) {
            return Err(CorpusAnalysisArtifactError::Invalid(ArtifactViolation::OrphanWitness));
        }
        i = i + 1;
    }
    Ok(())
}

} // verus!
