//! The comparators: leaves, optional values, ordered sequences, keyed
//! collections and unordered sets. Each either succeeds or reports exactly one
//! divergence, located by a path.
use vstd::prelude::*;

use crate::path::CodePath;
use crate::path::Step;
use crate::path::append_text;
use crate::path::path_text;
use vstd::std_specs::cmp::PartialEqSpec;

verus! {

/// Which of the two trees a failure speaks of.
#[derive(Clone, Copy, Debug, PartialEq, Eq, Structural)]
pub enum Side {
    Left,
    Right,
}

/// The one divergence that a comparison reports.
pub enum DiffError {
    /// Two leaf values differ, or exactly one side of an optional value is present.
    Mismatch { path: CodePath, lhs: String, rhs: String },
    /// Two ordered sequences differ in length; `longer` is the side that had more.
    LengthMismatch { path: CodePath, longer: Side },
    /// The left keyed collection has `key` and the right one does not.
    ExtraOnLeft { path: CodePath, key: String },
    /// The right keyed collection has `key` and the left one does not.
    ExtraOnRight { path: CodePath, key: String },
    /// `value` is in the set on side `only_on` and not in the other.
    SetDifference { path: CodePath, only_on: Side, value: String },
}

impl DiffError {
    /// Where the divergence was found.
    pub open spec fn at(&self) -> Seq<Step> {
        match self {
            DiffError::Mismatch { path, .. } => path@,
            DiffError::LengthMismatch { path, .. } => path@,
            DiffError::ExtraOnLeft { path, .. } => path@,
            DiffError::ExtraOnRight { path, .. } => path@,
            DiffError::SetDifference { path, .. } => path@,
        }
    }

    /// Where the divergence was found.
    pub fn path(&self) -> (r: &CodePath)
        ensures
            r@ == self.at(),
    {
        match self {
            DiffError::Mismatch { path, .. } => path,
            DiffError::LengthMismatch { path, .. } => path,
            DiffError::ExtraOnLeft { path, .. } => path,
            DiffError::ExtraOnRight { path, .. } => path,
            DiffError::SetDifference { path, .. } => path,
        }
    }
}

/// The text that describes a failure: where it is, and what differed.
pub open spec fn message(e: &DiffError) -> Seq<char> {
    match e {
        DiffError::Mismatch { path, lhs, rhs } => "Mismatch in "@ + path_text(path@) + ":\n"@ + lhs@
            + "\n"@ + rhs@,
        DiffError::LengthMismatch { path, longer } => "Mismatch in "@ + path_text(path@) + (match longer {
            Side::Left => ": A side is longer."@,
            Side::Right => ": B side is longer."@,
        }),
        DiffError::ExtraOnLeft { path, key } => "In "@ + path_text(path@) + " lhs has key "@ + key@
            + " but rhs does not"@,
        DiffError::ExtraOnRight { path, key } => "In "@ + path_text(path@) + " rhs has key "@ + key@
            + " but lhs does not"@,
        DiffError::SetDifference { path, only_on, value } => "In "@ + path_text(path@) + (match only_on {
            Side::Left => " lhs has value "@,
            Side::Right => " rhs has value "@,
        }) + value@ + (match only_on {
            Side::Left => " but rhs does not"@,
            Side::Right => " but lhs does not"@,
        }),
    }
}

impl DiffError {
    /// The text that describes this failure.
    pub fn describe(&self) -> (r: String)
        ensures
            r@ == message(self),
    {
        let mut out = String::new();
        match self {
            DiffError::Mismatch { path, lhs, rhs } => {
                append_text(&mut out, "Mismatch in ");
                append_text(&mut out, path.render().as_str());
                append_text(&mut out, ":\n");
                append_text(&mut out, lhs.as_str());
                append_text(&mut out, "\n");
                append_text(&mut out, rhs.as_str());
            },
            DiffError::LengthMismatch { path, longer } => {
                append_text(&mut out, "Mismatch in ");
                append_text(&mut out, path.render().as_str());
                match longer {
                    Side::Left => append_text(&mut out, ": A side is longer."),
                    Side::Right => append_text(&mut out, ": B side is longer."),
                }
            },
            DiffError::ExtraOnLeft { path, key } => {
                append_text(&mut out, "In ");
                append_text(&mut out, path.render().as_str());
                append_text(&mut out, " lhs has key ");
                append_text(&mut out, key.as_str());
                append_text(&mut out, " but rhs does not");
            },
            DiffError::ExtraOnRight { path, key } => {
                append_text(&mut out, "In ");
                append_text(&mut out, path.render().as_str());
                append_text(&mut out, " rhs has key ");
                append_text(&mut out, key.as_str());
                append_text(&mut out, " but lhs does not");
            },
            DiffError::SetDifference { path, only_on, value } => {
                append_text(&mut out, "In ");
                append_text(&mut out, path.render().as_str());
                match only_on {
                    Side::Left => append_text(&mut out, " lhs has value "),
                    Side::Right => append_text(&mut out, " rhs has value "),
                }
                append_text(&mut out, value.as_str());
                match only_on {
                    Side::Left => append_text(&mut out, " but rhs does not"),
                    Side::Right => append_text(&mut out, " but lhs does not"),
                }
            },
        }
        proof {
            assert(out@ =~= message(self));
        }
        out
    }
}

/// The result of a comparison.
pub type DiffResult = Result<(), DiffError>;

/// A value that carries a stable name, by which keyed collections are matched.
pub trait MapName {
    spec fn name_spec(&self) -> Seq<char>;

    fn get_name(&self) -> (r: &str)
        ensures
            r@ == self.name_spec(),
    ;
}

/// `f` accepts every path and every pair of values.
pub open spec fn total<A, B, F: Fn(&CodePath, &A, &B) -> DiffResult>(f: F) -> bool {
    forall|c: &CodePath, x: &A, y: &B| #[trigger] f.requires((c, x, y))
}

/// `f`, called at a path whose steps are `p` on `x` and `y`, may return `r`.
pub open spec fn outcome<A, B, F: Fn(&CodePath, &A, &B) -> DiffResult>(
    f: F,
    p: Seq<Step>,
    x: &A,
    y: &B,
    r: DiffResult,
) -> bool {
    exists|c: CodePath| c@ == p && #[trigger] f.ensures((&c, x, y), r)
}

/// `f`, called at a path whose steps are `p` on `x` and `y`, may succeed.
pub open spec fn succeeds<A, B, F: Fn(&CodePath, &A, &B) -> DiffResult>(
    f: F,
    p: Seq<Step>,
    x: &A,
    y: &B,
) -> bool {
    exists|c: CodePath, r: DiffResult| c@ == p && #[trigger] f.ensures((&c, x, y), r) && r is Ok
}

/// Relies on the `Debug` formatting of `T`: a readable rendering of `v`.
#[verifier::external_body]
fn debug_text<T: std::fmt::Debug + ?Sized>(v: &T) -> String {
    format!("{:?}", v)
}

/// Relies on `str`'s `==`: two strings are equal when their characters are.
#[verifier::external_body]
pub(crate) fn same_text(x: &str, y: &str) -> (r: bool)
    ensures
        r == (x@ == y@),
{
    x == y
}

/// Compares two leaf values with their own equality.
pub fn sem_diff_eq<Ta, Tb>(path: &CodePath, a: &Ta, b: &Tb) -> (r: DiffResult) where
    Ta: PartialEq<Tb> + std::fmt::Debug,
    Tb: std::fmt::Debug,

    ensures
        Ta::obeys_eq_spec() ==> (r is Ok <==> a.eq_spec(b)),
        r matches Err(e) ==> e is Mismatch && e.at() == path@,
{
    if a != b {
        return Err(DiffError::Mismatch { path: path.duplicate(), lhs: debug_text(a), rhs: debug_text(b) });
    }
    Ok(())
}

/// Some element of `s` is named `k`.
pub open spec fn has_name<T: MapName>(s: Seq<T>, k: Seq<char>) -> bool {
    exists|i: int| 0 <= i < s.len() && (#[trigger] s[i]).name_spec() == k
}

/// `s[i]` is the last element of `s` with its name: the one that stands for
/// that name when the collection is indexed (a later duplicate wins).
pub open spec fn is_last<T: MapName>(s: Seq<T>, i: int) -> bool {
    &&& 0 <= i < s.len()
    &&& forall|j: int| i < j < s.len() ==> (#[trigger] s[j]).name_spec() != s[i].name_spec()
}

/// Every name of `a` is a name of `b`.
pub open spec fn names_within<Ta: MapName, Tb: MapName>(a: Seq<Ta>, b: Seq<Tb>) -> bool {
    forall|i: int| 0 <= i < a.len() ==> has_name(b, (#[trigger] a[i]).name_spec())
}

/// Every name that both sides hold: `f` on the entries that stand for it,
/// at `path` followed by the name, succeeds.
pub open spec fn shared_ok<Ta: MapName, Tb: MapName, F: Fn(&CodePath, &Ta, &Tb) -> DiffResult>(
    f: F,
    path: Seq<Step>,
    a: Seq<Ta>,
    b: Seq<Tb>,
) -> bool {
    forall|i: int, j: int|
        is_last(a, i) && is_last(b, j) && a[i].name_spec() == b[j].name_spec() ==> succeeds(
            f,
            path.push(Step::Key(a[i].name_spec())),
            &a[i],
            &b[j],
        )
}

/// What comparing the keyed collections `a` and `b` at `path` may return.
pub open spec fn map_outcome<Ta: MapName, Tb: MapName, F: Fn(&CodePath, &Ta, &Tb) -> DiffResult>(
    f: F,
    path: Seq<Step>,
    a: Seq<Ta>,
    b: Seq<Tb>,
    r: DiffResult,
) -> bool {
    match r {
        Ok(_) => names_within(a, b) && names_within(b, a) && shared_ok(f, path, a, b),
        Err(e) => {
            // a matched pair failed
            ||| exists|i: int, j: int|
                is_last(a, i) && is_last(b, j) && a[i].name_spec() == b[j].name_spec() && outcome(
                    f,
                    path.push(Step::Key(a[i].name_spec())),
                    &a[i],
                    &b[j],
                    Err(e),
                )
            // all matched pairs agree, and a name is on the left alone
            ||| shared_ok(f, path, a, b) && (e matches DiffError::ExtraOnLeft { path: p, key }
                && p@ == path && has_name(a, key@) && !has_name(b, key@))
            // all matched pairs agree, every left name is on the right, and a
            // name is on the right alone
            ||| shared_ok(f, path, a, b) && names_within(a, b) && (
            e matches DiffError::ExtraOnRight { path: p, key }
                && p@ == path && has_name(b, key@) && !has_name(a, key@))
        },
    }
}

proof fn lemma_last_unique<T: MapName>(s: Seq<T>, i: int, j: int)
    requires
        is_last(s, i),
        is_last(s, j),
        s[i].name_spec() == s[j].name_spec(),
    ensures
        i == j,
{
    if i < j {
        assert(s[j].name_spec() != s[i].name_spec());
    } else if j < i {
        assert(s[i].name_spec() != s[j].name_spec());
    }
}

/// The position of the last element of `s` named `k`, if there is one.
fn last_named<T: MapName>(s: &[T], k: &str) -> (r: Option<usize>)
    ensures
        match r {
            Some(j) => is_last(s@, j as int) && s@[j as int].name_spec() == k@,
            None => !has_name(s@, k@),
        },
{
    let mut j: usize = s.len();
    while j > 0
        invariant
            j <= s@.len(),
            forall|m: int| j <= m < s@.len() ==> (#[trigger] s@[m]).name_spec() != k@,
        decreases j,
    {
        if same_text(s[j - 1].get_name(), k) {
            return Some(j - 1);
        }
        j = j - 1;
    }
    None
}

/// Compares two keyed collections by name, whatever the order of their
/// elements. Each name held by both sides is compared with `f` at `path`
/// followed by that name; the first failure is returned. Then a name on the
/// left alone gives `ExtraOnLeft`, and else a name on the right alone gives
/// `ExtraOnRight`. Where a side repeats a name, its last element with that
/// name stands for it.
pub fn sem_diff_map_t<Ta, Tb, F>(path: &CodePath, a: &[Ta], b: &[Tb], f: F) -> (r: DiffResult) where
    Ta: MapName,
    Tb: MapName,
    F: Fn(&CodePath, &Ta, &Tb) -> DiffResult,

    requires
        total(f),
    ensures
        map_outcome(f, path@, a@, b@, r),
{
    let mut i: usize = 0;
    while i < a.len()
        invariant
            total(f),
            i <= a@.len(),
            forall|i0: int, j0: int|
                0 <= i0 < i && is_last(a@, i0) && is_last(b@, j0) && a@[i0].name_spec()
                    == b@[j0].name_spec() ==> succeeds(
                    f,
                    path@.push(Step::Key(a@[i0].name_spec())),
                    &a@[i0],
                    &b@[j0],
                ),
        decreases a@.len() - i,
    {
        let name = a[i].get_name();
        let own = last_named(a, name);
        if own == Some(i) {
            match last_named(b, name) {
                Some(j) => {
                    let p = path.index_str(name);
                    let res = f(&p, &a[i], &b[j]);
                    assert(outcome(
                        f,
                        path@.push(Step::Key(a@[i as int].name_spec())),
                        &a@[i as int],
                        &b@[j as int],
                        res,
                    ));
                    if res.is_err() {
                        return res;
                    }
                    proof {
                        assert forall|j0: int|
                            is_last(b@, j0) && a@[i as int].name_spec()
                                == b@[j0].name_spec() implies succeeds(
                            f,
                            path@.push(Step::Key(a@[i as int].name_spec())),
                            &a@[i as int],
                            &b@[j0],
                        ) by {
                            lemma_last_unique(b@, j0, j as int);
                        }
                    }
                },
                None => {
                    assert forall|j0: int|
                        is_last(b@, j0) implies a@[i as int].name_spec() != b@[j0].name_spec() by {
                        if a@[i as int].name_spec() == b@[j0].name_spec() {
                            assert(b@[j0].name_spec() == name@);
                        }
                    }
                },
            }
        } else {
            proof {
                if is_last(a@, i as int) {
                    lemma_last_unique(a@, i as int, own->0 as int);
                }
            }
        }
        i = i + 1;
    }
    assert(shared_ok(f, path@, a@, b@));
    let mut i: usize = 0;
    while i < a.len()
        invariant
            i <= a@.len(),
            shared_ok(f, path@, a@, b@),
            forall|i0: int| 0 <= i0 < i ==> has_name(b@, (#[trigger] a@[i0]).name_spec()),
        decreases a@.len() - i,
    {
        let name = a[i].get_name();
        if last_named(b, name).is_none() {
            assert(a@[i as int].name_spec() == name@);
            return Err(DiffError::ExtraOnLeft { path: path.duplicate(), key: name.to_owned() });
        }
        i = i + 1;
    }
    let mut j: usize = 0;
    while j < b.len()
        invariant
            j <= b@.len(),
            shared_ok(f, path@, a@, b@),
            names_within(a@, b@),
            forall|j0: int| 0 <= j0 < j ==> has_name(a@, (#[trigger] b@[j0]).name_spec()),
        decreases b@.len() - j,
    {
        let name = b[j].get_name();
        if last_named(a, name).is_none() {
            assert(b@[j as int].name_spec() == name@);
            return Err(DiffError::ExtraOnRight { path: path.duplicate(), key: name.to_owned() });
        }
        j = j + 1;
    }
    Ok(())
}

/// Compares two optional values: both absent succeeds; both present compares
/// the values with `f` at `path` followed by the qualifier `unwrap()`; one
/// present and one absent is a `Mismatch` at `path`, and `f` is not called.
pub fn sem_diff_option<T, F>(path: &CodePath, a: Option<&T>, b: Option<&T>, f: F) -> (r: DiffResult) where
    T: std::fmt::Debug,
    F: FnOnce(&CodePath, &T, &T) -> DiffResult,

    requires
        a is Some && b is Some ==> forall|c: &CodePath| #[trigger] f.requires((c, a->0, b->0)),
    ensures
        a is None && b is None ==> r is Ok,
        a is Some != b is Some ==> (r matches Err(e) && e is Mismatch && e.at() == path@),
        a is Some && b is Some ==> exists|c: CodePath|
            c@ == path@.push(Step::Qualifier("unwrap()"@)) && #[trigger] f.ensures(
                (&c, a->0, b->0),
                r,
            ),
{
    match (a, b) {
        (None, None) => Ok(()),
        (Some(_), None) | (None, Some(_)) => Err(
            DiffError::Mismatch { path: path.duplicate(), lhs: debug_text(&a), rhs: debug_text(&b) },
        ),
        (Some(lhs), Some(rhs)) => {
            let p = path.qualified("unwrap()");
            let r = f(&p, lhs, rhs);
            assert(f.ensures((&p, lhs, rhs), r));
            r
        },
    }
}

/// The pairs before position `k` of `a` and `b` are compared by `f` and
/// succeed, and the comparison stops at `k` with `e`: either `f` fails there,
/// or one side ends there and the other does not.
pub open spec fn seq_fails_at<V, F: Fn(&CodePath, &V, &V) -> DiffResult>(
    f: F,
    path: Seq<Step>,
    a: Seq<V>,
    b: Seq<V>,
    k: int,
    e: DiffError,
) -> bool {
    &&& 0 <= k <= a.len()
    &&& k <= b.len()
    &&& forall|i: int| 0 <= i < k ==> #[trigger] succeeds(f, path.push(Step::Index(i as nat)), &a[i], &b[i])
    &&& {
        ||| k < a.len() && k < b.len() && outcome(f, path.push(Step::Index(k as nat)), &a[k], &b[k], Err(e))
        ||| k == b.len() && k < a.len() && (e matches DiffError::LengthMismatch { path: p, longer }
            && p@ == path && longer == Side::Left)
        ||| k == a.len() && k < b.len() && (e matches DiffError::LengthMismatch { path: p, longer }
            && p@ == path && longer == Side::Right)
    }
}

/// What comparing the ordered sequences `a` and `b` at `path` may return.
pub open spec fn seq_outcome<V, F: Fn(&CodePath, &V, &V) -> DiffResult>(
    f: F,
    path: Seq<Step>,
    a: Seq<V>,
    b: Seq<V>,
    r: DiffResult,
) -> bool {
    match r {
        Ok(_) => a.len() == b.len() && forall|i: int|
            0 <= i < a.len() ==> #[trigger] succeeds(f, path.push(Step::Index(i as nat)), &a[i], &b[i]),
        Err(e) => exists|k: int| #[trigger] seq_fails_at(f, path, a, b, k, e),
    }
}

/// Walks two sequences in lock-step, comparing the pairs at each position `i`
/// with `f` at `path` followed by `i`, and stops at the first failure. Where
/// one sequence ends before the other, the result is a `LengthMismatch` at
/// `path` that names the longer side.
pub fn sem_diff_iter<V, F>(path: &CodePath, a: &[V], b: &[V], f: F) -> (r: DiffResult) where
    F: Fn(&CodePath, &V, &V) -> DiffResult,

    requires
        total(f),
    ensures
        seq_outcome(f, path@, a@, b@, r),
{
    let mut i: usize = 0;
    loop
        invariant
            total(f),
            i <= a@.len(),
            i <= b@.len(),
            forall|i0: int|
                0 <= i0 < i ==> #[trigger] succeeds(f, path@.push(Step::Index(i0 as nat)), &a@[i0], &b@[i0]),
        decreases a@.len() - i,
    {
        if i == a.len() && i == b.len() {
            return Ok(());
        }
        if i == b.len() {
            let e = DiffError::LengthMismatch { path: path.duplicate(), longer: Side::Left };
            assert(seq_fails_at(f, path@, a@, b@, i as int, e));
            return Err(e);
        }
        if i == a.len() {
            let e = DiffError::LengthMismatch { path: path.duplicate(), longer: Side::Right };
            assert(seq_fails_at(f, path@, a@, b@, i as int, e));
            return Err(e);
        }
        let p = path.index(i);
        let res = f(&p, &a[i], &b[i]);
        match res {
            Ok(u) => {
                assert(f.ensures((&p, &a@[i as int], &b@[i as int]), Ok(u)));
                assert(succeeds(f, path@.push(Step::Index(i as nat)), &a@[i as int], &b@[i as int]));
            },
            Err(e) => {
                assert(f.ensures((&p, &a@[i as int], &b@[i as int]), Err(e)));
                assert(seq_fails_at(f, path@, a@, b@, i as int, e));
                return Err(e);
            },
        }
        i = i + 1;
    }
}

/// Compares two slices element by element, as `sem_diff_iter` does.
pub fn sem_diff_slice<V, F>(path: &CodePath, a: &[V], b: &[V], f: F) -> (r: DiffResult) where
    F: Fn(&CodePath, &V, &V) -> DiffResult,

    requires
        total(f),
    ensures
        seq_outcome(f, path@, a@, b@, r),
{
    sem_diff_iter(path, a, b, f)
}

/// Some element `y` of `s` has `y == x`.
pub open spec fn holds<T: PartialEq>(s: Seq<T>, x: T) -> bool {
    exists|j: int| 0 <= j < s.len() && (#[trigger] s[j]).eq_spec(&x)
}

/// Every element of `a` is held by `b`.
pub open spec fn all_held<T: PartialEq>(a: Seq<T>, b: Seq<T>) -> bool {
    forall|i: int| 0 <= i < a.len() ==> holds(b, #[trigger] a[i])
}

fn find_eq<T: PartialEq>(s: &[T], x: &T) -> (r: bool)
    requires
        T::obeys_eq_spec(),
    ensures
        r == holds(s@, *x),
{
    let mut j: usize = 0;
    while j < s.len()
        invariant
            T::obeys_eq_spec(),
            j <= s@.len(),
            forall|m: int| 0 <= m < j ==> !(#[trigger] s@[m]).eq_spec(x),
        decreases s@.len() - j,
    {
        if s[j] == *x {
            return true;
        }
        j = j + 1;
    }
    false
}

/// Compares two collections as sets: an element of `a` that `b` lacks gives
/// a `SetDifference` on the left; else an element of `b` that `a` lacks gives
/// one on the right; else the comparison succeeds.
pub fn sem_diff_set_t<T>(path: &CodePath, a: &[T], b: &[T]) -> (r: DiffResult) where
    T: PartialEq + std::fmt::Debug,

    requires
        T::obeys_eq_spec(),
    ensures
        r is Ok <==> all_held(a@, b@) && all_held(b@, a@),
        r matches Err(e) ==> (e matches DiffError::SetDifference { path: p, only_on, .. } && p@
            == path@ && (only_on == Side::Left <==> !all_held(a@, b@))),
{
    let mut i: usize = 0;
    while i < a.len()
        invariant
            T::obeys_eq_spec(),
            i <= a@.len(),
            forall|i0: int| 0 <= i0 < i ==> holds(b@, #[trigger] a@[i0]),
        decreases a@.len() - i,
    {
        if !find_eq(b, &a[i]) {
            return Err(
                DiffError::SetDifference {
                    path: path.duplicate(),
                    only_on: Side::Left,
                    value: debug_text(&a[i]),
                },
            );
        }
        i = i + 1;
    }
    let mut j: usize = 0;
    while j < b.len()
        invariant
            T::obeys_eq_spec(),
            all_held(a@, b@),
            j <= b@.len(),
            forall|j0: int| 0 <= j0 < j ==> holds(a@, #[trigger] b@[j0]),
        decreases b@.len() - j,
    {
        if !find_eq(a, &b[j]) {
            return Err(
                DiffError::SetDifference {
                    path: path.duplicate(),
                    only_on: Side::Right,
                    value: debug_text(&b[j]),
                },
            );
        }
        j = j + 1;
    }
    Ok(())
}

/// Compares two strings by their characters.
pub fn sem_diff_str(path: &CodePath, a: &str, b: &str) -> (r: DiffResult)
    ensures
        r is Ok <==> a@ == b@,
        r matches Err(e) ==> e is Mismatch && e.at() == path@,
{
    if !same_text(a, b) {
        return Err(DiffError::Mismatch { path: path.duplicate(), lhs: debug_text(a), rhs: debug_text(b) });
    }
    Ok(())
}

} // verus!
