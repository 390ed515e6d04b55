//! What the comparators decide, stated over the relations that the element
//! comparisons decide.
use vstd::prelude::*;

use crate::diff::DiffError;
use crate::diff::DiffResult;
use crate::diff::MapName;
use crate::diff::has_name;
use crate::diff::is_last;
use crate::diff::map_outcome;
use crate::diff::names_within;
use crate::diff::outcome;
use crate::diff::seq_fails_at;
use crate::diff::seq_outcome;
use crate::diff::succeeds;
use crate::path::CodePath;
use crate::path::Step;

verus! {

/// The failure `e` lies at `p` or below it.
pub open spec fn under(e: DiffError, p: Seq<Step>) -> bool {
    p.len() <= e.at().len() && e.at().subrange(0, p.len() as int) == p
}

/// Every result of `f` succeeds exactly when `eqv` holds of its two values,
/// and every failure of `f` lies at or below the path it was given.
pub open spec fn decides<A, B, F: Fn(&CodePath, &A, &B) -> DiffResult>(
    f: F,
    eqv: spec_fn(A, B) -> bool,
) -> bool {
    forall|c: &CodePath, x: &A, y: &B, s: DiffResult|
        #[trigger] f.ensures((c, x, y), s) ==> (s is Ok <==> eqv(*x, *y)) && (s matches Err(e)
            ==> under(e, c@))
}

/// The sequences have one length and `eqv` holds position by position.
pub open spec fn pointwise<V>(a: Seq<V>, b: Seq<V>, eqv: spec_fn(V, V) -> bool) -> bool {
    a.len() == b.len() && forall|i: int| 0 <= i < a.len() ==> eqv(#[trigger] a[i], b[i])
}

/// The keyed collections hold the same names, and `eqv` holds of the entries
/// that stand for each name.
pub open spec fn keyed<Ta: MapName, Tb: MapName>(
    a: Seq<Ta>,
    b: Seq<Tb>,
    eqv: spec_fn(Ta, Tb) -> bool,
) -> bool {
    &&& names_within(a, b)
    &&& names_within(b, a)
    &&& forall|i: int, j: int|
        is_last(a, i) && is_last(b, j) && a[i].name_spec() == b[j].name_spec() ==> eqv(
            #[trigger] a[i],
            #[trigger] b[j],
        )
}

/// A failure at `p` lies at or below `p`.
pub proof fn lemma_under_here(e: DiffError, p: Seq<Step>)
    requires
        e.at() == p,
    ensures
        under(e, p),
{
    assert(e.at().subrange(0, p.len() as int) =~= p);
}

/// A failure at or below `p` followed by one step lies at or below `p`.
pub proof fn lemma_under_push(e: DiffError, p: Seq<Step>, s: Step)
    requires
        under(e, p.push(s)),
    ensures
        under(e, p),
{
    assert(e.at().subrange(0, p.len() as int) =~= e.at().subrange(0, p.len() + 1 as int).subrange(
        0,
        p.len() as int,
    ));
    assert(p.push(s).subrange(0, p.len() as int) =~= p);
}

/// An ordered-sequence comparison whose element comparison decides `eqv`
/// succeeds exactly when the sequences agree position by position, and any
/// failure lies at or below the sequence's path.
pub proof fn lemma_seq_decides<V, F: Fn(&CodePath, &V, &V) -> DiffResult>(
    f: F,
    eqv: spec_fn(V, V) -> bool,
    path: Seq<Step>,
    a: Seq<V>,
    b: Seq<V>,
    r: DiffResult,
)
    requires
        decides(f, eqv),
        seq_outcome(f, path, a, b, r),
    ensures
        r is Ok <==> pointwise(a, b, eqv),
        r matches Err(e) ==> under(e, path),
{
    match r {
        Ok(_) => {
            assert forall|i: int| 0 <= i < a.len() implies eqv(#[trigger] a[i], b[i]) by {
                assert(succeeds(f, path.push(Step::Index(i as nat)), &a[i], &b[i]));
            }
        },
        Err(e) => {
            let k = choose|k: int| #[trigger] seq_fails_at(f, path, a, b, k, e);
            if k < a.len() && k < b.len() {
                let c = choose|c: CodePath|
                    c@ == path.push(Step::Index(k as nat)) && #[trigger] f.ensures(
                        (&c, &a[k], &b[k]),
                        Err(e),
                    );
                assert(f.ensures((&c, &a[k], &b[k]), Err(e)));
                assert(!eqv(a[k], b[k]));
                lemma_under_push(e, path, Step::Index(k as nat));
            } else {
                assert(e.at() == path);
                assert(e.at().subrange(0, path.len() as int) =~= path);
            }
        },
    }
}

/// A keyed-collection comparison whose entry comparison decides `eqv`
/// succeeds exactly when the collections agree by name, and any failure lies
/// at or below the collection's path.
pub proof fn lemma_map_decides<Ta: MapName, Tb: MapName, F: Fn(&CodePath, &Ta, &Tb) -> DiffResult>(
    f: F,
    eqv: spec_fn(Ta, Tb) -> bool,
    path: Seq<Step>,
    a: Seq<Ta>,
    b: Seq<Tb>,
    r: DiffResult,
)
    requires
        decides(f, eqv),
        map_outcome(f, path, a, b, r),
    ensures
        r is Ok <==> keyed(a, b, eqv),
        r matches Err(e) ==> under(e, path),
{
    match r {
        Ok(_) => {
            assert forall|i: int, j: int|
                is_last(a, i) && is_last(b, j) && a[i].name_spec() == b[j].name_spec() implies eqv(
                #[trigger] a[i],
                #[trigger] b[j],
            ) by {
                assert(succeeds(f, path.push(Step::Key(a[i].name_spec())), &a[i], &b[j]));
            }
        },
        Err(e) => {
            if exists|i: int, j: int|
                is_last(a, i) && is_last(b, j) && a[i].name_spec() == b[j].name_spec() && outcome(
                    f,
                    path.push(Step::Key(a[i].name_spec())),
                    &a[i],
                    &b[j],
                    Err(e),
                ) {
                let (i, j) = choose|i: int, j: int|
                    is_last(a, i) && is_last(b, j) && a[i].name_spec() == b[j].name_spec()
                        && outcome(f, path.push(Step::Key(a[i].name_spec())), &a[i], &b[j], Err(e));
                let c = choose|c: CodePath|
                    c@ == path.push(Step::Key(a[i].name_spec())) && #[trigger] f.ensures(
                        (&c, &a[i], &b[j]),
                        Err(e),
                    );
                assert(f.ensures((&c, &a[i], &b[j]), Err(e)));
                assert(!eqv(a[i], b[j]));
                lemma_under_push(e, path, Step::Key(a[i].name_spec()));
            } else {
                assert(e.at() == path);
                assert(e.at().subrange(0, path.len() as int) =~= path);
                if e is ExtraOnLeft {
                    let k = e->ExtraOnLeft_key@;
                    let i = choose|i: int| 0 <= i < a.len() && (#[trigger] a[i]).name_spec() == k;
                    assert(!has_name(b, a[i].name_spec()));
                } else {
                    let k = e->ExtraOnRight_key@;
                    let j = choose|j: int| 0 <= j < b.len() && (#[trigger] b[j]).name_spec() == k;
                    assert(!has_name(a, b[j].name_spec()));
                }
            }
        },
    }
}

/// No two elements of `s` share a name.
pub open spec fn unique_names<T: MapName>(s: Seq<T>) -> bool {
    forall|i: int, j: int|
        0 <= i < s.len() && 0 <= j < s.len() && i != j ==> (#[trigger] s[i]).name_spec()
            != (#[trigger] s[j]).name_spec()
}

/// Every element of `a` is an element of `b`.
pub open spec fn contained<T>(a: Seq<T>, b: Seq<T>) -> bool {
    forall|i: int| 0 <= i < a.len() ==> b.contains(#[trigger] a[i])
}

/// `f` succeeds whenever it compares a value with itself.
pub open spec fn reflexive<T, F: Fn(&CodePath, &T, &T) -> DiffResult>(f: F) -> bool {
    forall|c: &CodePath, x: &T, s: DiffResult| #[trigger] f.ensures((c, x, x), s) ==> s is Ok
}

/// Comparing a keyed collection with itself succeeds when its entries
/// compare equal to themselves.
pub proof fn lemma_map_reflexive<T: MapName, F: Fn(&CodePath, &T, &T) -> DiffResult>(
    f: F,
    path: Seq<Step>,
    a: Seq<T>,
    r: DiffResult,
)
    requires
        reflexive(f),
        map_outcome(f, path, a, a, r),
    ensures
        r is Ok,
{
    if let Err(e) = r {
        if exists|i: int, j: int|
            is_last(a, i) && is_last(a, j) && a[i].name_spec() == a[j].name_spec() && outcome(
                f,
                path.push(Step::Key(a[i].name_spec())),
                &a[i],
                &a[j],
                Err(e),
            ) {
            let (i, j) = choose|i: int, j: int|
                is_last(a, i) && is_last(a, j) && a[i].name_spec() == a[j].name_spec() && outcome(
                    f,
                    path.push(Step::Key(a[i].name_spec())),
                    &a[i],
                    &a[j],
                    Err(e),
                );
            if i < j {
                assert(a[j].name_spec() != a[i].name_spec());
            } else if j < i {
                assert(a[i].name_spec() != a[j].name_spec());
            }
            let c = choose|c: CodePath|
                c@ == path.push(Step::Key(a[i].name_spec())) && #[trigger] f.ensures(
                    (&c, &a[i], &a[j]),
                    Err(e),
                );
            assert(f.ensures((&c, &a[i], &a[i]), Err(e)));
        } else if e is ExtraOnLeft {
            let k = e->ExtraOnLeft_key@;
            let i = choose|i: int| 0 <= i < a.len() && (#[trigger] a[i]).name_spec() == k;
            assert(has_name(a, k));
        } else {
            let k = e->ExtraOnRight_key@;
            let i = choose|i: int| 0 <= i < a.len() && (#[trigger] a[i]).name_spec() == k;
            assert(has_name(a, k));
        }
    }
}

/// Comparing an ordered sequence with itself succeeds when its elements
/// compare equal to themselves.
pub proof fn lemma_seq_reflexive<V, F: Fn(&CodePath, &V, &V) -> DiffResult>(
    f: F,
    path: Seq<Step>,
    a: Seq<V>,
    r: DiffResult,
)
    requires
        reflexive(f),
        seq_outcome(f, path, a, a, r),
    ensures
        r is Ok,
{
    if let Err(e) = r {
        let k = choose|k: int| #[trigger] seq_fails_at(f, path, a, a, k, e);
        let c = choose|c: CodePath|
            c@ == path.push(Step::Index(k as nat)) && #[trigger] f.ensures((&c, &a[k], &a[k]), Err(e));
        assert(f.ensures((&c, &a[k], &a[k]), Err(e)));
    }
}

/// Two keyed collections that hold the same named entities, each name once
/// on each side, compare equal in whatever order the entities stand, when
/// entities compare equal to themselves.
pub proof fn lemma_map_order_insensitive<T: MapName, F: Fn(&CodePath, &T, &T) -> DiffResult>(
    f: F,
    path: Seq<Step>,
    a: Seq<T>,
    b: Seq<T>,
    r: DiffResult,
)
    requires
        reflexive(f),
        unique_names(a),
        unique_names(b),
        contained(a, b),
        contained(b, a),
        map_outcome(f, path, a, b, r),
    ensures
        r is Ok,
{
    if let Err(e) = r {
        if exists|i: int, j: int|
            is_last(a, i) && is_last(b, j) && a[i].name_spec() == b[j].name_spec() && outcome(
                f,
                path.push(Step::Key(a[i].name_spec())),
                &a[i],
                &b[j],
                Err(e),
            ) {
            let (i, j) = choose|i: int, j: int|
                is_last(a, i) && is_last(b, j) && a[i].name_spec() == b[j].name_spec() && outcome(
                    f,
                    path.push(Step::Key(a[i].name_spec())),
                    &a[i],
                    &b[j],
                    Err(e),
                );
            assert(b.contains(a[i]));
            let j2 = choose|j2: int| 0 <= j2 < b.len() && b[j2] == a[i];
            if j2 != j {
                assert(b[j2].name_spec() != b[j].name_spec());
            }
            let c = choose|c: CodePath|
                c@ == path.push(Step::Key(a[i].name_spec())) && #[trigger] f.ensures(
                    (&c, &a[i], &b[j]),
                    Err(e),
                );
            assert(f.ensures((&c, &a[i], &a[i]), Err(e)));
        } else if e is ExtraOnLeft {
            let k = e->ExtraOnLeft_key@;
            let i = choose|i: int| 0 <= i < a.len() && (#[trigger] a[i]).name_spec() == k;
            assert(b.contains(a[i]));
            let j = choose|j: int| 0 <= j < b.len() && b[j] == a[i];
            assert(b[j].name_spec() == k);
            assert(has_name(b, k));
        } else {
            let k = e->ExtraOnRight_key@;
            let j = choose|j: int| 0 <= j < b.len() && (#[trigger] b[j]).name_spec() == k;
            assert(a.contains(b[j]));
            let i = choose|i: int| 0 <= i < a.len() && a[i] == b[j];
            assert(a[i].name_spec() == k);
            assert(has_name(a, k));
        }
    }
}

/// Removing one entity from a keyed collection whose names are unique makes
/// the comparison fail with `ExtraOnLeft`, at the collection's path, naming
/// that entity, when entities compare equal to themselves.
pub proof fn lemma_map_removed_entity<T: MapName, F: Fn(&CodePath, &T, &T) -> DiffResult>(
    f: F,
    path: Seq<Step>,
    a: Seq<T>,
    k: int,
    r: DiffResult,
)
    requires
        reflexive(f),
        unique_names(a),
        0 <= k < a.len(),
        map_outcome(f, path, a, a.remove(k), r),
    ensures
        r matches Err(e) && (e matches DiffError::ExtraOnLeft { path: p, key } && p@ == path && key@
            == a[k].name_spec()),
{
    let b = a.remove(k);
    assert forall|j: int| 0 <= j < b.len() implies (#[trigger] b[j]).name_spec()
        != a[k].name_spec() by {
        if j < k {
            assert(b[j] == a[j]);
        } else {
            assert(b[j] == a[j + 1]);
        }
    }
    assert(has_name(a, a[k].name_spec()));
    assert(!has_name(b, a[k].name_spec()));
    assert(!names_within(a, b));
    if let Err(e) = r {
        if exists|i: int, j: int|
            is_last(a, i) && is_last(b, j) && a[i].name_spec() == b[j].name_spec() && outcome(
                f,
                path.push(Step::Key(a[i].name_spec())),
                &a[i],
                &b[j],
                Err(e),
            ) {
            let (i, j) = choose|i: int, j: int|
                is_last(a, i) && is_last(b, j) && a[i].name_spec() == b[j].name_spec() && outcome(
                    f,
                    path.push(Step::Key(a[i].name_spec())),
                    &a[i],
                    &b[j],
                    Err(e),
                );
            let j2 = if j < k { j } else { j + 1 };
            assert(b[j] == a[j2]);
            if i != j2 {
                assert(a[i].name_spec() != a[j2].name_spec());
            }
            let c = choose|c: CodePath|
                c@ == path.push(Step::Key(a[i].name_spec())) && #[trigger] f.ensures(
                    (&c, &a[i], &b[j]),
                    Err(e),
                );
            assert(f.ensures((&c, &a[i], &a[i]), Err(e)));
        } else if e is ExtraOnLeft {
            let key = e->ExtraOnLeft_key@;
            let i = choose|i: int| 0 <= i < a.len() && (#[trigger] a[i]).name_spec() == key;
            if i != k {
                let j = if i < k { i } else { i - 1 };
                assert(b[j] == a[i]);
                assert(has_name(b, key));
            }
        }
    }
}

/// Where the element comparisons before position `i` can only succeed and the
/// one at `i` can only fail, the sequence comparison fails with exactly the
/// failure of position `i`: nothing after it is reported.
pub proof fn lemma_seq_first_failure<V, F: Fn(&CodePath, &V, &V) -> DiffResult>(
    f: F,
    path: Seq<Step>,
    a: Seq<V>,
    b: Seq<V>,
    i: int,
    r: DiffResult,
)
    requires
        a.len() == b.len(),
        0 <= i < a.len(),
        forall|m: int, c: CodePath, s: DiffResult|
            0 <= m < i && c@ == path.push(Step::Index(m as nat)) && #[trigger] f.ensures(
                (&c, &a[m], &b[m]),
                s,
            ) ==> s is Ok,
        forall|c: CodePath, s: DiffResult|
            c@ == path.push(Step::Index(i as nat)) && #[trigger] f.ensures((&c, &a[i], &b[i]), s)
                ==> s is Err,
        seq_outcome(f, path, a, b, r),
    ensures
        r matches Err(e) && outcome(f, path.push(Step::Index(i as nat)), &a[i], &b[i], Err(e)),
{
    match r {
        Ok(_) => {
            assert(succeeds(f, path.push(Step::Index(i as nat)), &a[i], &b[i]));
        },
        Err(e) => {
            let k = choose|k: int| #[trigger] seq_fails_at(f, path, a, b, k, e);
            if k > i {
                assert(succeeds(f, path.push(Step::Index(i as nat)), &a[i], &b[i]));
            } else if k < i {
                let c = choose|c: CodePath|
                    c@ == path.push(Step::Index(k as nat)) && #[trigger] f.ensures(
                        (&c, &a[k], &b[k]),
                        Err(e),
                    );
                assert(f.ensures((&c, &a[k], &b[k]), Err(e)));
            }
        },
    }
}

/// A keyed collection agrees with itself by name under any reflexive
/// relation, whether or not it repeats a name.
pub proof fn lemma_keyed_reflexive<T: MapName>(a: Seq<T>, eqv: spec_fn(T, T) -> bool)
    requires
        forall|x: T| #[trigger] eqv(x, x),
    ensures
        keyed(a, a, eqv),
{
    assert forall|i: int, j: int|
        is_last(a, i) && is_last(a, j) && a[i].name_spec() == a[j].name_spec() implies eqv(
        #[trigger] a[i],
        #[trigger] a[j],
    ) by {
        if i < j {
            assert(a[j].name_spec() != a[i].name_spec());
        } else if j < i {
            assert(a[i].name_spec() != a[j].name_spec());
        }
        assert(eqv(a[i], a[i]));
    }
}

} // verus!
