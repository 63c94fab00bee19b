//! The stable order of projected cells: by projection, then by the
//! lexicographic order of the integer coordinates.
use vstd::prelude::*;

verus! {

/// Mathematical value of one projected cell: projection identifier and coordinates.
pub type CellModel = (u64, Seq<i64>);

/// Lexicographic order of integer coordinate sequences; a proper prefix
/// orders before its extensions.
pub open spec fn seq_lex_lt(a: Seq<i64>, b: Seq<i64>) -> bool
    decreases a.len(),
{
    if a.len() == 0 {
        b.len() > 0
    } else if b.len() == 0 {
        false
    } else if a[0] != b[0] {
        a[0] < b[0]
    } else {
        seq_lex_lt(a.drop_first(), b.drop_first())
    }
}

/// Strict order of cells: by projection identifier, then by coordinates.
pub open spec fn cell_lt(a: CellModel, b: CellModel) -> bool {
    a.0 < b.0 || (a.0 == b.0 && seq_lex_lt(a.1, b.1))
}

/// Every earlier cell orders strictly before every later one.
pub open spec fn strictly_sorted_cells(s: Seq<CellModel>) -> bool {
    forall|i: int, j: int| 0 <= i < j < s.len() ==> cell_lt(#[trigger] s[i], #[trigger] s[j])
}

pub proof fn lemma_lex_irreflexive(a: Seq<i64>)
    ensures
        !seq_lex_lt(a, a),
    decreases a.len(),
{
    if a.len() > 0 {
        lemma_lex_irreflexive(a.drop_first());
    }
}

pub proof fn lemma_lex_transitive(a: Seq<i64>, b: Seq<i64>, c: Seq<i64>)
    requires
        seq_lex_lt(a, b),
        seq_lex_lt(b, c),
    ensures
        seq_lex_lt(a, c),
    decreases a.len(),
{
    if a.len() > 0 && b.len() > 0 && c.len() > 0 {
        if a[0] == b[0] && b[0] == c[0] {
            lemma_lex_transitive(a.drop_first(), b.drop_first(), c.drop_first());
        }
    }
}

pub proof fn lemma_lex_total(a: Seq<i64>, b: Seq<i64>)
    ensures
        a == b || seq_lex_lt(a, b) || seq_lex_lt(b, a),
    decreases a.len(),
{
    if a.len() > 0 && b.len() > 0 && a[0] == b[0] {
        lemma_lex_total(a.drop_first(), b.drop_first());
        if a.drop_first() == b.drop_first() {
            assert(a =~= seq![a[0]] + a.drop_first());
            assert(b =~= seq![b[0]] + b.drop_first());
        }
    } else if a.len() == 0 && b.len() == 0 {
        assert(a =~= b);
    }
}

pub proof fn lemma_lex_asymmetric(a: Seq<i64>, b: Seq<i64>)
    requires
        seq_lex_lt(a, b),
    ensures
        !seq_lex_lt(b, a),
{
    if seq_lex_lt(b, a) {
        lemma_lex_transitive(a, b, a);
        lemma_lex_irreflexive(a);
    }
}

pub proof fn lemma_cell_order()
    ensures
        forall|a: CellModel| !cell_lt(a, a),
        forall|a: CellModel, b: CellModel, c: CellModel|
            #![trigger cell_lt(a, b), cell_lt(b, c)]
            cell_lt(a, b) && cell_lt(b, c) ==> cell_lt(a, c),
        forall|a: CellModel, b: CellModel|
            a == b || #[trigger] cell_lt(a, b) || #[trigger] cell_lt(b, a),
{
    assert forall|a: CellModel| !cell_lt(a, a) by {
        lemma_lex_irreflexive(a.1);
    }
    assert forall|a: CellModel, b: CellModel, c: CellModel|
        #![trigger cell_lt(a, b), cell_lt(b, c)]
        cell_lt(a, b) && cell_lt(b, c) implies cell_lt(a, c) by {
        if a.0 == b.0 && b.0 == c.0 {
            lemma_lex_transitive(a.1, b.1, c.1);
        }
    }
    assert forall|a: CellModel, b: CellModel|
        a == b || #[trigger] cell_lt(a, b) || #[trigger] cell_lt(b, a) by {
        lemma_lex_total(a.1, b.1);
    }
}

/// Three-way lexicographic comparison of two coordinate slices: negative,
/// zero or positive as `a` orders before, equal to, or after `b`.
pub fn lex_compare(a: &[i64], b: &[i64]) -> (r: i8)
    ensures
        (r < 0) == seq_lex_lt(a@, b@),
        (r == 0) == (a@ == b@),
        (r > 0) == seq_lex_lt(b@, a@),
        -1 <= r <= 1,
{
    let mut i: usize = 0;
    assert(a@.skip(0) =~= a@);
    assert(b@.skip(0) =~= b@);
    while i < a.len() && i < b.len()
        invariant
            i <= a.len(),
            i <= b.len(),
            a@.take(i as int) == b@.take(i as int),
            seq_lex_lt(a@, b@) == seq_lex_lt(a@.skip(i as int), b@.skip(i as int)),
            seq_lex_lt(b@, a@) == seq_lex_lt(b@.skip(i as int), a@.skip(i as int)),
        decreases a.len() - i,
    {
        if a[i] != b[i] {
            proof {
                lemma_lex_total(a@, b@);
                if a@ == b@ {
                    assert(a@[i as int] == b@[i as int]);
                }
            }
            if a[i] < b[i] {
                proof {
                    lemma_lex_asymmetric(a@, b@);
                }
                return -1;
            } else {
                proof {
                    lemma_lex_asymmetric(b@, a@);
                }
                return 1;
            }
        }
        assert(a@.skip(i as int).drop_first() =~= a@.skip(i + 1));
        assert(b@.skip(i as int).drop_first() =~= b@.skip(i + 1));
        assert(a@.take(i + 1) =~= a@.take(i as int).push(a@[i as int]));
        assert(b@.take(i + 1) =~= b@.take(i as int).push(b@[i as int]));
        i = i + 1;
    }
    if a.len() == b.len() {
        assert(a@ =~= a@.take(i as int));
        assert(b@ =~= b@.take(i as int));
        proof {
            lemma_lex_irreflexive(a@);
        }
        0
    } else if a.len() < b.len() {
        assert(a@.skip(i as int).len() == 0);
        assert(b@.skip(i as int).len() > 0);
        assert(a@ =~= a@.take(i as int));
        assert(a@ != b@);
        1 - 2
    } else {
        assert(b@.skip(i as int).len() == 0);
        assert(a@.skip(i as int).len() > 0);
        assert(b@ =~= b@.take(i as int));
        assert(a@ != b@);
        1
    }
}

/// Three-way comparison of two cells by projection, then coordinates.
pub fn cell_compare(ap: u64, ac: &[i64], bp: u64, bc: &[i64]) -> (r: i8)
    ensures
        (r < 0) == cell_lt((ap, ac@), (bp, bc@)),
        (r == 0) == ((ap, ac@) == (bp, bc@)),
        (r > 0) == cell_lt((bp, bc@), (ap, ac@)),
{
    if ap < bp {
        -1
    } else if ap > bp {
        1
    } else {
        lex_compare(ac, bc)
    }
}

} // verus!
