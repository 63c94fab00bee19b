//! A door or pickup matrix checked against the rooms it covers: every row in
//! a known room, from one of its doors to a valid target, no cell twice,
//! every positive row's witness present and verified, and every cell of the
//! exact four-loadout matrix present.
use vstd::prelude::*;

use crate::ability_promotion::{EvaluationLoadout, all_loadouts};
use crate::checks::{ArtifactViolation, CorpusArtifactV3Error};
use crate::positive_witness::{TargetEvidenceV3, TargetKindV3, TargetRowRecordV3};

verus! {

/// The doors and pickups of a room's physical evidence source.
#[derive(Clone, Debug, PartialEq, Eq)]
pub struct EvidenceSourceTargetsV3 {
    pub door_ids: Vec<String>,
    pub pickup_ids: Vec<String>,
}

/// A room as the matrices read it: its identity, and the targets of its
/// physical evidence source (`None` when it has no native variant).
#[derive(Clone, Debug, PartialEq, Eq)]
pub struct RoomTargetsV3 {
    pub room_id: String,
    pub evidence_source: Option<EvidenceSourceTargetsV3>,
}

/// Some identifier of `ids` is `id`.
pub open spec fn listed(ids: Seq<String>, id: Seq<char>) -> bool {
    exists|j: int| 0 <= j < ids.len() && (#[trigger] ids[j])@ == id
}

/// Position of the first room with identifier `id`.
pub open spec fn find_room(rooms: Seq<RoomTargetsV3>, id: Seq<char>) -> Option<int>
    decreases rooms.len(),
{
    if rooms.len() == 0 {
        None
    } else {
        match find_room(rooms.drop_last(), id) {
            Some(i) => Some(i),
            None => if rooms.last().room_id@ == id {
                Some(rooms.len() - 1)
            } else {
                None
            },
        }
    }
}

/// Two rows name the same matrix cell.
pub open spec fn same_cell(a: TargetRowRecordV3, b: TargetRowRecordV3) -> bool {
    &&& a.room_id@ == b.room_id@
    &&& a.source_door_id@ == b.source_door_id@
    &&& a.target_id@ == b.target_id@
    &&& a.loadout == b.loadout
}

/// The target of a row is valid for the matrix kind.
pub open spec fn target_ok(kind: TargetKindV3, row: TargetRowRecordV3, t: EvidenceSourceTargetsV3) -> bool {
    match kind {
        TargetKindV3::Door => row.source_door_id@ != row.target_id@ && listed(t.door_ids@, row.target_id@),
        TargetKindV3::Pickup => listed(t.pickup_ids@, row.target_id@),
    }
}

/// The outcome of checking row `k`, given each row's positive-witness verdict.
pub open spec fn row_result(
    kind: TargetKindV3,
    rows: Seq<TargetRowRecordV3>,
    k: int,
    rooms: Seq<RoomTargetsV3>,
    witness_ids: Seq<String>,
    verdicts: Seq<Result<(), CorpusArtifactV3Error>>,
) -> Result<(), CorpusArtifactV3Error> {
    let row = rows[k];
    match find_room(rooms, row.room_id@) {
        None => Err(CorpusArtifactV3Error::Invalid(ArtifactViolation::UnknownTargetRoom)),
        Some(i) => match rooms[i].evidence_source {
            None => Err(CorpusArtifactV3Error::Invalid(ArtifactViolation::NoNativeVariants)),
            Some(t) => if !listed(t.door_ids@, row.source_door_id@) {
                Err(CorpusArtifactV3Error::Invalid(ArtifactViolation::UnknownSourceDoor))
            } else if !target_ok(kind, row, t) {
                Err(CorpusArtifactV3Error::Invalid(ArtifactViolation::InvalidTarget))
            } else if exists|j: int| 0 <= j < k && same_cell(#[trigger] rows[j], row) {
                Err(CorpusArtifactV3Error::Invalid(ArtifactViolation::DuplicateMatrixCell))
            } else {
                match row.evidence {
                    TargetEvidenceV3::PositiveReplay { witness_id } => if !listed(witness_ids, witness_id@) {
                        Err(CorpusArtifactV3Error::Invalid(ArtifactViolation::MissingTargetWitness))
                    } else {
                        verdicts[k]
                    },
                    TargetEvidenceV3::BoundedInconclusive => Ok(()),
                }
            },
        },
    }
}

/// The first failing row's outcome, from position `k` on.
pub open spec fn rows_from(
    kind: TargetKindV3,
    rows: Seq<TargetRowRecordV3>,
    k: int,
    rooms: Seq<RoomTargetsV3>,
    witness_ids: Seq<String>,
    verdicts: Seq<Result<(), CorpusArtifactV3Error>>,
) -> Result<(), CorpusArtifactV3Error>
    decreases rows.len() - k,
{
    if k < 0 || k >= rows.len() {
        Ok(())
    } else {
        match row_result(kind, rows, k, rooms, witness_ids, verdicts) {
            Err(e) => Err(e),
            Ok(()) => rows_from(kind, rows, k + 1, rooms, witness_ids, verdicts),
        }
    }
}

/// Some row names the cell.
pub open spec fn cell_present(
    rows: Seq<TargetRowRecordV3>,
    room: Seq<char>,
    source: Seq<char>,
    target: Seq<char>,
    loadout: EvaluationLoadout,
) -> bool {
    exists|k: int|
        0 <= k < rows.len() && {
            let r = #[trigger] rows[k];
            r.room_id@ == room && r.source_door_id@ == source && r.target_id@ == target && r.loadout == loadout
        }
}

/// The targets of a matrix of `kind` from `source` in a room.
pub open spec fn targets_of(kind: TargetKindV3, t: EvidenceSourceTargetsV3) -> Seq<String> {
    match kind {
        TargetKindV3::Door => t.door_ids@,
        TargetKindV3::Pickup => t.pickup_ids@,
    }
}

/// Every expected cell of room `room` is present: each loadout, each source
/// door, each target (a door other than the source, or a pickup).
pub open spec fn room_covered(kind: TargetKindV3, rows: Seq<TargetRowRecordV3>, room: RoomTargetsV3) -> bool {
    match room.evidence_source {
        None => false,
        Some(t) => forall|l: int, s: int, g: int|
            0 <= l < 4 && 0 <= s < t.door_ids@.len() && 0 <= g < targets_of(kind, t).len() && (kind
                == TargetKindV3::Pickup || t.door_ids@[s]@ != targets_of(kind, t)[g]@) ==> #[trigger] cell_present(
                rows,
                room.room_id@,
                t.door_ids@[s]@,
                targets_of(kind, t)[g]@,
                all_loadouts()[l],
            ),
    }
}

/// The outcome of checking a matrix of `kind`.
pub open spec fn target_rows_result(
    kind: TargetKindV3,
    rows: Seq<TargetRowRecordV3>,
    rooms: Seq<RoomTargetsV3>,
    witness_ids: Seq<String>,
    verdicts: Seq<Result<(), CorpusArtifactV3Error>>,
) -> Result<(), CorpusArtifactV3Error> {
    if rows_from(kind, rows, 0, rooms, witness_ids, verdicts) is Err {
        rows_from(kind, rows, 0, rooms, witness_ids, verdicts)
    } else if exists|i: int| 0 <= i < rooms.len() && (#[trigger] rooms[i]).evidence_source is None {
        Err(CorpusArtifactV3Error::Invalid(ArtifactViolation::NoNativeVariants))
    } else if !(forall|i: int| 0 <= i < rooms.len() ==> room_covered(kind, rows, #[trigger] rooms[i])) {
        Err(CorpusArtifactV3Error::Invalid(ArtifactViolation::IncompleteTargetMatrix))
    } else {
        Ok(())
    }
}

proof fn lemma_find_room_bound(rooms: Seq<RoomTargetsV3>, id: Seq<char>)
    ensures
        find_room(rooms, id) matches Some(i) ==> 0 <= i < rooms.len() && rooms[i].room_id@ == id,
    decreases rooms.len(),
{
    if rooms.len() > 0 {
        lemma_find_room_bound(rooms.drop_last(), id);
    }
}

proof fn lemma_find_room_prefix(rooms: Seq<RoomTargetsV3>, id: Seq<char>, k: int)
    requires
        0 <= k <= rooms.len(),
    ensures
        find_room(rooms.take(k), id) matches Some(i) ==> find_room(rooms, id) == Some(i),
    decreases rooms.len(),
{
    if k < rooms.len() {
        assert(rooms.drop_last().take(k) =~= rooms.take(k));
        lemma_find_room_prefix(rooms.drop_last(), id, k);
    } else {
        assert(rooms.take(k) =~= rooms);
    }
}

fn locate_room(rooms: &[RoomTargetsV3], id: &String) -> (r: Option<usize>)
    ensures
        match r {
            Some(i) => find_room(rooms@, id@) == Some(i as int) && i < rooms@.len(),
            None => find_room(rooms@, id@) is None,
        },
{
    let mut k: usize = 0;
    while k < rooms.len()
        invariant
            k <= rooms.len(),
            find_room(rooms@.take(k as int), id@) is None,
        decreases rooms.len() - k,
    {
        assert(rooms@.take(k + 1).drop_last() =~= rooms@.take(k as int));
        proof {
            lemma_find_room_prefix(rooms@, id@, k as int + 1);
        }
        if rooms[k].room_id == *id {
            return Some(k);
        }
        k = k + 1;
    }
    assert(rooms@.take(k as int) =~= rooms@);
    None
}

fn is_listed(ids: &Vec<String>, id: &String) -> (r: bool)
    ensures
        r == listed(ids@, id@),
{
    let mut j: usize = 0;
    while j < ids.len()
        invariant
            j <= ids.len(),
            forall|t: int| 0 <= t < j ==> (#[trigger] ids@[t])@ != id@,
        decreases ids.len() - j,
    {
        if ids[j] == *id {
            return true;
        }
        j = j + 1;
    }
    false
}

fn is_listed_slice(ids: &[String], id: &String) -> (r: bool)
    ensures
        r == listed(ids@, id@),
{
    let mut j: usize = 0;
    while j < ids.len()
        invariant
            j <= ids.len(),
            forall|t: int| 0 <= t < j ==> (#[trigger] ids@[t])@ != id@,
        decreases ids.len() - j,
    {
        if ids[j] == *id {
            return true;
        }
        j = j + 1;
    }
    false
}

fn cell_seen(rows: &[TargetRowRecordV3], k: usize) -> (r: bool)
    requires
        k < rows.len(),
    ensures
        r == exists|j: int| 0 <= j < k && same_cell(#[trigger] rows@[j], rows@[k as int]),
{
    let row = &rows[k];
    let mut j: usize = 0;
    while j < k
        invariant
            j <= k,
            k < rows.len(),
            row == &rows@[k as int],
            forall|t: int| 0 <= t < j ==> !same_cell(#[trigger] rows@[t], rows@[k as int]),
        decreases k - j,
    {
        let other = &rows[j];
        if other.room_id == row.room_id && other.source_door_id == row.source_door_id && other.target_id
            == row.target_id && other.loadout == row.loadout {
            assert(same_cell(rows@[j as int], rows@[k as int]));
            return true;
        }
        j = j + 1;
    }
    false
}

fn check_row(
    kind: TargetKindV3,
    rows: &[TargetRowRecordV3],
    k: usize,
    rooms: &[RoomTargetsV3],
    witness_ids: &[String],
    verdicts: &[Result<(), CorpusArtifactV3Error>],
) -> (r: Result<(), CorpusArtifactV3Error>)
    requires
        k < rows.len(),
        verdicts@.len() == rows@.len(),
    ensures
        r == row_result(kind, rows@, k as int, rooms@, witness_ids@, verdicts@),
{
    let row = &rows[k];
    let i = match locate_room(rooms, &row.room_id) {
        None => {
            return Err(CorpusArtifactV3Error::Invalid(ArtifactViolation::UnknownTargetRoom));
        },
        Some(i) => i,
    };
    let t = match &rooms[i].evidence_source {
        None => {
            return Err(CorpusArtifactV3Error::Invalid(ArtifactViolation::NoNativeVariants));
        },
        Some(t) => t,
    };
    if !is_listed(&t.door_ids, &row.source_door_id) {
        return Err(CorpusArtifactV3Error::Invalid(ArtifactViolation::UnknownSourceDoor));
    }
    let target = match kind {
        TargetKindV3::Door => row.source_door_id != row.target_id && is_listed(&t.door_ids, &row.target_id),
        TargetKindV3::Pickup => is_listed(&t.pickup_ids, &row.target_id),
    };
    if !target {
        return Err(CorpusArtifactV3Error::Invalid(ArtifactViolation::InvalidTarget));
    }
    if cell_seen(rows, k) {
        return Err(CorpusArtifactV3Error::Invalid(ArtifactViolation::DuplicateMatrixCell));
    }
    match &row.evidence {
        TargetEvidenceV3::PositiveReplay { witness_id } => {
            if !is_listed_slice(witness_ids, witness_id) {
                return Err(CorpusArtifactV3Error::Invalid(ArtifactViolation::MissingTargetWitness));
            }
            verdicts[k]
        },
        TargetEvidenceV3::BoundedInconclusive => Ok(()),
    }
}

fn find_cell(rows: &[TargetRowRecordV3], room: &String, source: &String, target: &String, loadout: EvaluationLoadout) -> (r:
    bool)
    ensures
        r == cell_present(rows@, room@, source@, target@, loadout),
{
    let mut k: usize = 0;
    while k < rows.len()
        invariant
            k <= rows.len(),
            forall|j: int|
                0 <= j < k ==> !({
                    let r = #[trigger] rows@[j];
                    r.room_id@ == room@ && r.source_door_id@ == source@ && r.target_id@ == target@ && r.loadout
                        == loadout
                }),
        decreases rows.len() - k,
    {
        let r = &rows[k];
        if r.room_id == *room && r.source_door_id == *source && r.target_id == *target && r.loadout == loadout {
            return true;
        }
        k = k + 1;
    }
    false
}

fn room_complete(kind: TargetKindV3, rows: &[TargetRowRecordV3], room: &RoomTargetsV3) -> (r: bool)
    requires
        room.evidence_source is Some,
    ensures
        r == room_covered(kind, rows@, *room),
{
    let t = match &room.evidence_source {
        Some(t) => t,
        None => {
            return false;
        },
    };
    let targets = match kind {
        TargetKindV3::Door => &t.door_ids,
        TargetKindV3::Pickup => &t.pickup_ids,
    };
    assert(targets@ == targets_of(kind, *t));
    let all = EvaluationLoadout::all();
    let mut l: usize = 0;
    while l < 4
        invariant
            l <= 4,
            all@ == all_loadouts(),
            room.evidence_source == Some(*t),
            targets@ == targets_of(kind, *t),
            forall|a: int, s: int, g: int|
                0 <= a < l && 0 <= s < t.door_ids@.len() && 0 <= g < targets@.len() && (kind == TargetKindV3::Pickup
                    || t.door_ids@[s]@ != targets@[g]@) ==> #[trigger] cell_present(
                    rows@,
                    room.room_id@,
                    t.door_ids@[s]@,
                    targets@[g]@,
                    all_loadouts()[a],
                ),
        decreases 4 - l,
    {
        let mut s: usize = 0;
        while s < t.door_ids.len()
            invariant
                l < 4,
                s <= t.door_ids.len(),
                all@ == all_loadouts(),
                room.evidence_source == Some(*t),
                targets@ == targets_of(kind, *t),
                forall|a: int, x: int, g: int|
                    0 <= a < l && 0 <= x < t.door_ids@.len() && 0 <= g < targets@.len() && (kind
                        == TargetKindV3::Pickup || t.door_ids@[x]@ != targets@[g]@) ==> #[trigger] cell_present(
                        rows@,
                        room.room_id@,
                        t.door_ids@[x]@,
                        targets@[g]@,
                        all_loadouts()[a],
                    ),
                forall|x: int, g: int|
                    0 <= x < s && 0 <= g < targets@.len() && (kind == TargetKindV3::Pickup || t.door_ids@[x]@
                        != targets@[g]@) ==> #[trigger] cell_present(
                        rows@,
                        room.room_id@,
                        t.door_ids@[x]@,
                        targets@[g]@,
                        all_loadouts()[l as int],
                    ),
            decreases t.door_ids.len() - s,
        {
            let mut g: usize = 0;
            while g < targets.len()
                invariant
                    l < 4,
                    s < t.door_ids.len(),
                    g <= targets.len(),
                    all@ == all_loadouts(),
                    room.evidence_source == Some(*t),
                    targets@ == targets_of(kind, *t),
                    forall|a: int, x: int, h: int|
                        0 <= a < l && 0 <= x < t.door_ids@.len() && 0 <= h < targets@.len() && (kind
                            == TargetKindV3::Pickup || t.door_ids@[x]@ != targets@[h]@) ==> #[trigger] cell_present(
                            rows@,
                            room.room_id@,
                            t.door_ids@[x]@,
                            targets@[h]@,
                            all_loadouts()[a],
                        ),
                    forall|x: int, h: int|
                        0 <= x < s && 0 <= h < targets@.len() && (kind == TargetKindV3::Pickup || t.door_ids@[x]@
                            != targets@[h]@) ==> #[trigger] cell_present(
                            rows@,
                            room.room_id@,
                            t.door_ids@[x]@,
                            targets@[h]@,
                            all_loadouts()[l as int],
                        ),
                    forall|h: int|
                        0 <= h < g && (kind == TargetKindV3::Pickup || t.door_ids@[s as int]@ != targets@[h]@)
                            ==> #[trigger] cell_present(
                            rows@,
                            room.room_id@,
                            t.door_ids@[s as int]@,
                            targets@[h]@,
                            all_loadouts()[l as int],
                        ),
                decreases targets.len() - g,
            {
                let skip = match kind {
                    TargetKindV3::Door => t.door_ids[s] == targets[g],
                    TargetKindV3::Pickup => false,
                };
                if !skip {
                    if !find_cell(rows, &room.room_id, &t.door_ids[s], &targets[g], all[l]) {
                        proof {
                            assert(kind == TargetKindV3::Pickup || t.door_ids@[s as int]@ != targets_of(kind, *t)[g as int]@);
                            assert(all@[l as int] == all_loadouts()[l as int]);
                            if room_covered(kind, rows@, *room) {
                                let tt = room.evidence_source->0;
                                assert(tt == *t);
                                assert(cell_present(
                                    rows@,
                                    room.room_id@,
                                    tt.door_ids@[s as int]@,
                                    targets_of(kind, tt)[g as int]@,
                                    all_loadouts()[l as int],
                                ));
                                assert(false);
                            }
                        }
                        return false;
                    }
                }
                g = g + 1;
            }
            s = s + 1;
        }
        l = l + 1;
    }
    true
}

proof fn lemma_rows_ok(
    kind: TargetKindV3,
    rows: Seq<TargetRowRecordV3>,
    j: int,
    rooms: Seq<RoomTargetsV3>,
    witness_ids: Seq<String>,
    verdicts: Seq<Result<(), CorpusArtifactV3Error>>,
)
    requires
        0 <= j,
        rows_from(kind, rows, j, rooms, witness_ids, verdicts) is Ok,
    ensures
        forall|k: int| j <= k < rows.len() ==> row_result(kind, rows, k, rooms, witness_ids, verdicts) is Ok,
    decreases rows.len() - j,
{
    if j < rows.len() {
        lemma_rows_ok(kind, rows, j + 1, rooms, witness_ids, verdicts);
    }
}

/// Check a door or pickup matrix: each row in a known room with a native
/// variant, from a door of its evidence source to a valid target (another
/// door, or a pickup), no cell twice, each positive row's witness among
/// `witness_ids` with its verdict `verdicts[k]` (that of
/// `verify_positive_witness_v3` on the row, its witness and the replay) Ok;
/// then every room with a native variant, and every cell of the exact
/// four-loadout matrix of each room present.
pub fn verify_target_rows_v3(
    kind: TargetKindV3,
    rows: &[TargetRowRecordV3],
    rooms: &[RoomTargetsV3],
    witness_ids: &[String],
    verdicts: &[Result<(), CorpusArtifactV3Error>],
) -> (r: Result<(), CorpusArtifactV3Error>)
    requires
        verdicts@.len() == rows@.len(),
    ensures
        r == target_rows_result(kind, rows@, rooms@, witness_ids@, verdicts@),
{
    let mut k: usize = 0;
    while k < rows.len()
        invariant
            k <= rows.len(),
            verdicts@.len() == rows@.len(),
            rows_from(kind, rows@, 0, rooms@, witness_ids@, verdicts@) == rows_from(
                kind,
                rows@,
                k as int,
                rooms@,
                witness_ids@,
                verdicts@,
            ),
        decreases rows.len() - k,
    {
        let checked = check_row(kind, rows, k, rooms, witness_ids, verdicts);
        if checked.is_err() {
            return checked;
        }
        k = k + 1;
    }
    let mut i: usize = 0;
    while i < rooms.len()
        invariant
            i <= rooms.len(),
            rows_from(kind, rows@, 0, rooms@, witness_ids@, verdicts@) is Ok,
            forall|a: int| 0 <= a < i ==> (#[trigger] rooms@[a]).evidence_source is Some,
        decreases rooms.len() - i,
    {
        if rooms[i].evidence_source.is_none() {
            return Err(CorpusArtifactV3Error::Invalid(ArtifactViolation::NoNativeVariants));
        }
        i = i + 1;
    }
    let mut i: usize = 0;
    while i < rooms.len()
        invariant
            i <= rooms.len(),
            rows_from(kind, rows@, 0, rooms@, witness_ids@, verdicts@) is Ok,
            forall|a: int| 0 <= a < rooms@.len() ==> (#[trigger] rooms@[a]).evidence_source is Some,
            forall|a: int| 0 <= a < i ==> room_covered(kind, rows@, #[trigger] rooms@[a]),
        decreases rooms.len() - i,
    {
        if !room_complete(kind, rows, &rooms[i]) {
            return Err(CorpusArtifactV3Error::Invalid(ArtifactViolation::IncompleteTargetMatrix));
        }
        i = i + 1;
    }
    Ok(())
}

/// Two lists of texts are the same texts.
pub open spec fn same_texts(a: Seq<String>, b: Seq<String>) -> bool {
    a.len() == b.len() && forall|j: int| 0 <= j < a.len() ==> (#[trigger] a[j])@ == b[j]@
}

/// Two rooms have the same identifier and the same target texts.
pub open spec fn targets_agree(x: RoomTargetsV3, y: RoomTargetsV3) -> bool {
    &&& x.room_id@ == y.room_id@
    &&& match (x.evidence_source, y.evidence_source) {
        (Some(p), Some(q)) => same_texts(p.door_ids@, q.door_ids@) && same_texts(p.pickup_ids@, q.pickup_ids@),
        (None, None) => true,
        _ => false,
    }
}

/// Two room lists describe the same rooms and targets.
pub open spec fn same_room_targets(a: Seq<RoomTargetsV3>, b: Seq<RoomTargetsV3>) -> bool {
    a.len() == b.len() && forall|i: int| 0 <= i < a.len() ==> targets_agree(#[trigger] a[i], b[i])
}

proof fn lemma_find_room_same(a: Seq<RoomTargetsV3>, b: Seq<RoomTargetsV3>, id: Seq<char>)
    requires
        same_room_targets(a, b),
    ensures
        find_room(a, id) == find_room(b, id),
    decreases a.len(),
{
    if a.len() > 0 {
        assert(same_room_targets(a.drop_last(), b.drop_last())) by {
            assert forall|i: int| 0 <= i < a.len() - 1 implies targets_agree(#[trigger] a.drop_last()[i], b.drop_last()[i]) by {
                assert(a.drop_last()[i] == a[i] && b.drop_last()[i] == b[i]);
            }
        }
        lemma_find_room_same(a.drop_last(), b.drop_last(), id);
        assert(targets_agree(a[a.len() - 1], b[a.len() - 1]));
    }
}

proof fn lemma_listed_same(a: Seq<String>, b: Seq<String>, id: Seq<char>)
    requires
        same_texts(a, b),
    ensures
        listed(a, id) == listed(b, id),
{
    if listed(a, id) {
        let j = choose|j: int| 0 <= j < a.len() && (#[trigger] a[j])@ == id;
        assert(b[j]@ == id);
    }
    if listed(b, id) {
        let j = choose|j: int| 0 <= j < b.len() && (#[trigger] b[j])@ == id;
        assert(a[j]@ == id);
    }
}

proof fn lemma_rows_from_same(
    kind: TargetKindV3,
    rows: Seq<TargetRowRecordV3>,
    k: int,
    a: Seq<RoomTargetsV3>,
    b: Seq<RoomTargetsV3>,
    witness_ids: Seq<String>,
    verdicts: Seq<Result<(), CorpusArtifactV3Error>>,
)
    requires
        same_room_targets(a, b),
    ensures
        rows_from(kind, rows, k, a, witness_ids, verdicts) == rows_from(kind, rows, k, b, witness_ids, verdicts),
    decreases rows.len() - k,
{
    if 0 <= k < rows.len() {
        let row = rows[k];
        lemma_find_room_same(a, b, row.room_id@);
        match find_room(a, row.room_id@) {
            None => {},
            Some(i) => {
                lemma_find_room_bound(a, row.room_id@);
                assert(targets_agree(a[i], b[i]));
                match (a[i].evidence_source, b[i].evidence_source) {
                    (Some(x), Some(y)) => {
                        lemma_listed_same(x.door_ids@, y.door_ids@, row.source_door_id@);
                        lemma_listed_same(x.door_ids@, y.door_ids@, row.target_id@);
                        lemma_listed_same(x.pickup_ids@, y.pickup_ids@, row.target_id@);
                        assert(target_ok(kind, row, x) == target_ok(kind, row, y));
                    },
                    _ => {},
                }
                assert(row_result(kind, rows, k, a, witness_ids, verdicts) == row_result(kind, rows, k, b, witness_ids, verdicts));
            },
        }
        lemma_rows_from_same(kind, rows, k + 1, a, b, witness_ids, verdicts);
    }
}

proof fn lemma_covered_same(kind: TargetKindV3, rows: Seq<TargetRowRecordV3>, x: RoomTargetsV3, y: RoomTargetsV3)
    requires
        targets_agree(x, y),
    ensures
        room_covered(kind, rows, x) == room_covered(kind, rows, y),
{
    match (x.evidence_source, y.evidence_source) {
        (Some(p), Some(q)) => {
            assert(same_texts(targets_of(kind, p), targets_of(kind, q)));
            if room_covered(kind, rows, x) {
                assert forall|l: int, s: int, g: int|
                    0 <= l < 4 && 0 <= s < q.door_ids@.len() && 0 <= g < targets_of(kind, q).len() && (kind
                        == TargetKindV3::Pickup || q.door_ids@[s]@ != targets_of(kind, q)[g]@) implies #[trigger] cell_present(
                    rows,
                    y.room_id@,
                    q.door_ids@[s]@,
                    targets_of(kind, q)[g]@,
                    all_loadouts()[l],
                ) by {
                    assert(p.door_ids@[s]@ == q.door_ids@[s]@);
                    assert(targets_of(kind, p)[g]@ == targets_of(kind, q)[g]@);
                    assert(cell_present(rows, x.room_id@, p.door_ids@[s]@, targets_of(kind, p)[g]@, all_loadouts()[l]));
                }
            }
            if room_covered(kind, rows, y) {
                assert forall|l: int, s: int, g: int|
                    0 <= l < 4 && 0 <= s < p.door_ids@.len() && 0 <= g < targets_of(kind, p).len() && (kind
                        == TargetKindV3::Pickup || p.door_ids@[s]@ != targets_of(kind, p)[g]@) implies #[trigger] cell_present(
                    rows,
                    x.room_id@,
                    p.door_ids@[s]@,
                    targets_of(kind, p)[g]@,
                    all_loadouts()[l],
                ) by {
                    assert(p.door_ids@[s]@ == q.door_ids@[s]@);
                    assert(targets_of(kind, p)[g]@ == targets_of(kind, q)[g]@);
                    assert(cell_present(rows, y.room_id@, q.door_ids@[s]@, targets_of(kind, q)[g]@, all_loadouts()[l]));
                }
            }
        },
        _ => {},
    }
}

/// A matrix check reads its rooms only through their identifiers and the
/// texts of their targets.
pub proof fn lemma_target_rows_same(
    kind: TargetKindV3,
    rows: Seq<TargetRowRecordV3>,
    a: Seq<RoomTargetsV3>,
    b: Seq<RoomTargetsV3>,
    witness_ids: Seq<String>,
    verdicts: Seq<Result<(), CorpusArtifactV3Error>>,
)
    requires
        same_room_targets(a, b),
    ensures
        target_rows_result(kind, rows, a, witness_ids, verdicts) == target_rows_result(kind, rows, b, witness_ids, verdicts),
{
    lemma_rows_from_same(kind, rows, 0, a, b, witness_ids, verdicts);
    assert forall|i: int| 0 <= i < a.len() implies (#[trigger] a[i]).evidence_source is None == b[i].evidence_source is None
        && room_covered(kind, rows, a[i]) == room_covered(kind, rows, b[i]) by {
        assert(targets_agree(a[i], b[i]));
        lemma_covered_same(kind, rows, a[i], b[i]);
    }
    if exists|i: int| 0 <= i < a.len() && (#[trigger] a[i]).evidence_source is None {
        let i = choose|i: int| 0 <= i < a.len() && (#[trigger] a[i]).evidence_source is None;
        assert(b[i].evidence_source is None);
    }
    if exists|i: int| 0 <= i < b.len() && (#[trigger] b[i]).evidence_source is None {
        let i = choose|i: int| 0 <= i < b.len() && (#[trigger] b[i]).evidence_source is None;
        assert(a[i].evidence_source is None);
    }
    if !(forall|i: int| 0 <= i < a.len() ==> room_covered(kind, rows, #[trigger] a[i])) {
        let i = choose|i: int| !(0 <= i < a.len() ==> room_covered(kind, rows, #[trigger] a[i]));
        assert(!room_covered(kind, rows, b[i]));
    }
    if !(forall|i: int| 0 <= i < b.len() ==> room_covered(kind, rows, #[trigger] b[i])) {
        let i = choose|i: int| !(0 <= i < b.len() ==> room_covered(kind, rows, #[trigger] b[i]));
        assert(!room_covered(kind, rows, a[i]));
    }
}

} // verus!
