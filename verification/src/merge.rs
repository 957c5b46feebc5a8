use vstd::prelude::*;
use vstd::pervasive::VecAdditionalExecFns;
use vstd::string::StrSliceExecFns;

use crate::strutil::str_eq;
use crate::timestamp::is_after;
use crate::timestamp::lemma_is_after_irreflexive;
use crate::timestamp::spec_is_after;

verus! {

// The merge engine: three-way reconciliation of the remote snapshot's
// categories, transactions and month-closing flags into the local
// tables. The surrounding application reads both databases into row
// vectors, calls the merge, and writes the result back.

/// A ledger category. The natural key is the name; the tax rate is
/// carried in basis points.
#[derive(Debug)]
pub struct CategoryRow {
    pub id: i64,
    pub name: String,
    pub description: Option<String>,
    pub mwst_rate_bp: i64,
    pub is_active: bool,
}

/// A month-closing flag. The natural key is year and month.
#[derive(Debug)]
pub struct MonthClosingRow {
    pub year: i32,
    pub month: i32,
    pub is_closed: bool,
    pub closed_at: Option<String>,
    pub closed_by: Option<String>,
}

// ---------------------------------------------------------------------
// Categories: remote categories absent locally (by exact name) are
// inserted; existing local categories are never overwritten.

/// Whether some category carries exactly this name.
pub open spec fn cat_has_name(cats: Seq<CategoryRow>, name: Seq<char>) -> bool {
    exists|i: int| 0 <= i < cats.len() && (#[trigger] cats[i]).name@ == name
}

/// The remote categories to insert: those whose name is neither local
/// nor already inserted for an earlier remote row.
pub open spec fn merge_categories_spec(
    local: Seq<CategoryRow>,
    remote: Seq<CategoryRow>,
) -> Seq<CategoryRow>
    decreases remote.len(),
{
    if remote.len() == 0 {
        Seq::empty()
    } else {
        let r0 = remote[0];
        if cat_has_name(local, r0.name@) {
            merge_categories_spec(local, remote.skip(1))
        } else {
            seq![r0] + merge_categories_spec(local.push(r0), remote.skip(1))
        }
    }
}

proof fn lemma_cat_has_name_concat(a: Seq<CategoryRow>, b: Seq<CategoryRow>, name: Seq<char>)
    ensures
        cat_has_name(a + b, name) == (cat_has_name(a, name) || cat_has_name(b, name)),
{
    if cat_has_name(a, name) {
        let i = choose|i: int| 0 <= i < a.len() && (#[trigger] a[i]).name@ == name;
        assert((a + b)[i] == a[i]);
    }
    if cat_has_name(b, name) {
        let i = choose|i: int| 0 <= i < b.len() && (#[trigger] b[i]).name@ == name;
        assert((a + b)[a.len() + i] == b[i]);
    }
    if cat_has_name(a + b, name) {
        let i = choose|i: int| 0 <= i < (a + b).len() && (#[trigger] (a + b)[i]).name@ == name;
        if i < a.len() {
            assert(a[i] == (a + b)[i]);
        } else {
            assert(b[i - a.len()] == (a + b)[i]);
        }
    }
}

/// Whether some category carries exactly this name.
fn cats_contain_name(cats: &Vec<CategoryRow>, name: &str) -> (r: bool)
    ensures
        r == cat_has_name(cats@, name@),
{
    let mut i: usize = 0;
    while i < cats.len()
        invariant
            i <= cats@.len(),
            forall|k: int| 0 <= k < i ==> (#[trigger] cats@[k]).name@ != name@,
        decreases cats@.len() - i,
    {
        if str_eq(cats[i].name.as_str(), name) {
            return true;
        }
        i = i + 1;
    }
    false
}

/// Compute the categories a merge inserts: each remote category whose
/// name is not yet present, in remote order, never touching local rows.
pub fn merge_categories(local: &Vec<CategoryRow>, remote: Vec<CategoryRow>) -> (r: Vec<
    CategoryRow,
>)
    ensures
        r@ == merge_categories_spec(local@, remote@),
{
    let mut rem = remote;
    let mut inserted: Vec<CategoryRow> = Vec::new();
    proof {
        assert(local@ + inserted@ =~= local@);
        assert(inserted@ + merge_categories_spec(local@ + inserted@, rem@)
            =~= merge_categories_spec(local@, remote@));
    }
    while rem.len() > 0
        invariant
            merge_categories_spec(local@, remote@) == inserted@ + merge_categories_spec(
                local@ + inserted@,
                rem@,
            ),
        decreases rem@.len(),
    {
        let ghost rem_old = rem@;
        let ghost ins_old = inserted@;
        let r0 = rem.remove(0);
        proof {
            assert(rem@ =~= rem_old.skip(1));
            lemma_cat_has_name_concat(local@, ins_old, r0.name@);
        }
        let in_local = cats_contain_name(local, r0.name.as_str());
        let in_inserted = cats_contain_name(&inserted, r0.name.as_str());
        if !in_local && !in_inserted {
            proof {
                assert(merge_categories_spec(local@ + ins_old, rem_old) == seq![r0]
                    + merge_categories_spec((local@ + ins_old).push(r0), rem_old.skip(1)));
                assert((local@ + ins_old).push(r0) =~= local@ + ins_old.push(r0));
                assert(ins_old + (seq![r0] + merge_categories_spec(
                    local@ + ins_old.push(r0),
                    rem_old.skip(1),
                )) =~= ins_old.push(r0) + merge_categories_spec(
                    local@ + ins_old.push(r0),
                    rem_old.skip(1),
                ));
            }
            inserted.push(r0);
        } else {
            proof {
                assert(merge_categories_spec(local@ + ins_old, rem_old) == merge_categories_spec(
                    local@ + ins_old,
                    rem_old.skip(1),
                ));
            }
        }
    }
    proof {
        assert(merge_categories_spec(local@ + inserted@, rem@) =~= Seq::<CategoryRow>::empty());
        assert(inserted@ + Seq::<CategoryRow>::empty() =~= inserted@);
    }
    inserted
}

/// Merging categories is idempotent: once the computed insertions are
/// applied, merging the same remote snapshot again inserts nothing, so
/// no duplicate categories can arise.
pub proof fn lemma_merge_categories_idempotent(local: Seq<CategoryRow>, remote: Seq<CategoryRow>)
    ensures
        merge_categories_spec(local + merge_categories_spec(local, remote), remote) == Seq::<
            CategoryRow,
        >::empty(),
    decreases remote.len(),
{
    if remote.len() == 0 {
    } else {
        let r0 = remote[0];
        let rest = remote.skip(1);
        if cat_has_name(local, r0.name@) {
            let ins = merge_categories_spec(local, rest);
            lemma_merge_categories_idempotent(local, rest);
            lemma_cat_has_name_concat(local, ins, r0.name@);
            assert(merge_categories_spec(local + ins, remote) == merge_categories_spec(
                local + ins,
                rest,
            ));
        } else {
            let ins_rest = merge_categories_spec(local.push(r0), rest);
            let ins = seq![r0] + ins_rest;
            assert(merge_categories_spec(local, remote) == ins);
            lemma_merge_categories_idempotent(local.push(r0), rest);
            assert(ins[0] == r0);
            lemma_cat_has_name_concat(local, ins, r0.name@);
            assert(cat_has_name(ins, r0.name@));
            assert(merge_categories_spec(local + ins, remote) == merge_categories_spec(
                local + ins,
                rest,
            ));
            assert(local + ins =~= local.push(r0) + ins_rest);
        }
    }
}

// ---------------------------------------------------------------------
// Month-closing flags: absent locally, insert verbatim; local open and
// remote closed, adopt closed; both closed, keep the later closing
// stamp; closing is sticky and cannot be reverted by a merge.

/// Index of the first row with the given year and month, `-1` if none.
pub open spec fn find_month(ms: Seq<MonthClosingRow>, y: int, m: int) -> int
    decreases ms.len(),
{
    if ms.len() == 0 {
        -1
    } else if ms[0].year == y && ms[0].month == m {
        0
    } else {
        let r = find_month(ms.skip(1), y, m);
        if r == -1 {
            -1
        } else {
            r + 1
        }
    }
}

pub proof fn lemma_find_month(ms: Seq<MonthClosingRow>, y: int, m: int)
    ensures
        -1 <= find_month(ms, y, m) < ms.len(),
        find_month(ms, y, m) >= 0 ==> ms[find_month(ms, y, m)].year == y && ms[find_month(
            ms,
            y,
            m,
        )].month == m,
        find_month(ms, y, m) >= 0 ==> forall|k: int|
            0 <= k < find_month(ms, y, m) ==> !((#[trigger] ms[k]).year == y && ms[k].month == m),
        find_month(ms, y, m) == -1 ==> forall|k: int|
            0 <= k < ms.len() ==> !((#[trigger] ms[k]).year == y && ms[k].month == m),
    decreases ms.len(),
{
    if ms.len() > 0 && !(ms[0].year == y && ms[0].month == m) {
        lemma_find_month(ms.skip(1), y, m);
        assert(forall|k: int| 1 <= k < ms.len() ==> ms.skip(1)[k - 1] == ms[k]);
    }
}

/// The closing stamp of a row, with the empty string for a missing one.
pub open spec fn opt_or_empty(o: Option<String>) -> Seq<char> {
    match o {
        Some(s) => s@,
        None => Seq::empty(),
    }
}

/// A local row overwritten by a remote closing: the key stays, the row
/// becomes closed with the remote's stamp and author.
pub open spec fn month_overwrite(l: MonthClosingRow, r: MonthClosingRow) -> MonthClosingRow {
    MonthClosingRow {
        year: l.year,
        month: l.month,
        is_closed: true,
        closed_at: r.closed_at,
        closed_by: r.closed_by,
    }
}

/// One remote month-closing row folded into the local table.
pub open spec fn merge_month_one(ms: Seq<MonthClosingRow>, r: MonthClosingRow) -> Seq<
    MonthClosingRow,
> {
    let i = find_month(ms, r.year as int, r.month as int);
    if i == -1 {
        ms.push(r)
    } else if r.is_closed && !ms[i].is_closed {
        ms.update(i, month_overwrite(ms[i], r))
    } else if r.is_closed && ms[i].is_closed {
        if spec_is_after(opt_or_empty(r.closed_at), opt_or_empty(ms[i].closed_at)) {
            ms.update(i, month_overwrite(ms[i], r))
        } else {
            ms
        }
    } else {
        ms
    }
}

/// The remote month-closing rows folded into the local table in order.
pub open spec fn merge_month_closing_spec(
    ms: Seq<MonthClosingRow>,
    remote: Seq<MonthClosingRow>,
) -> Seq<MonthClosingRow>
    decreases remote.len(),
{
    if remote.len() == 0 {
        ms
    } else {
        merge_month_closing_spec(merge_month_one(ms, remote[0]), remote.skip(1))
    }
}

/// Index of the first row with the given year and month.
fn find_month_index(ms: &Vec<MonthClosingRow>, y: i32, m: i32) -> (r: Option<usize>)
    ensures
        match r {
            Some(i) => i < ms@.len() && find_month(ms@, y as int, m as int) == i,
            None => find_month(ms@, y as int, m as int) == -1,
        },
{
    let mut i: usize = 0;
    while i < ms.len()
        invariant
            i <= ms@.len(),
            forall|k: int|
                0 <= k < i ==> !((#[trigger] ms@[k]).year == y && ms@[k].month == m),
        decreases ms@.len() - i,
    {
        proof {
            lemma_find_month(ms@, y as int, m as int);
        }
        if ms[i].year == y && ms[i].month == m {
            return Some(i);
        }
        i = i + 1;
    }
    proof {
        lemma_find_month(ms@, y as int, m as int);
    }
    None
}

/// The closing stamp as a string slice, empty when missing.
fn closed_at_str(o: &Option<String>) -> (r: &str)
    ensures
        r@ == opt_or_empty(*o),
{
    match o {
        Some(s) => s.as_str(),
        None => {
            proof {
                reveal_strlit("");
            }
            assert(""@ =~= Seq::<char>::empty());
            ""
        },
    }
}

/// Fold the remote month-closing rows into the local table: insert
/// missing months, adopt remote closings, keep the later stamp when both
/// sides closed, and never reopen a closed month.
pub fn merge_month_closing(local: &mut Vec<MonthClosingRow>, remote: Vec<MonthClosingRow>)
    ensures
        final(local)@ == merge_month_closing_spec(old(local)@, remote@),
{
    let ghost ms0 = old(local)@;
    let ghost remote0 = remote@;
    let mut rem = remote;
    while rem.len() > 0
        invariant
            merge_month_closing_spec(ms0, remote0) == merge_month_closing_spec(local@, rem@),
        decreases rem@.len(),
    {
        let ghost ms_old = local@;
        let ghost rem_old = rem@;
        let r0 = rem.remove(0);
        proof {
            assert(rem@ =~= rem_old.skip(1));
            assert(merge_month_closing_spec(ms_old, rem_old) == merge_month_closing_spec(
                merge_month_one(ms_old, r0),
                rem_old.skip(1),
            ));
        }
        match find_month_index(local, r0.year, r0.month) {
            None => {
                local.push(r0);
            },
            Some(i) => {
                let l_closed = local[i].is_closed;
                if r0.is_closed && !l_closed {
                    let merged = MonthClosingRow {
                        year: local[i].year,
                        month: local[i].month,
                        is_closed: true,
                        closed_at: r0.closed_at,
                        closed_by: r0.closed_by,
                    };
                    local.set(i, merged);
                } else if r0.is_closed && l_closed {
                    let newer = is_after(
                        closed_at_str(&r0.closed_at),
                        closed_at_str(&local[i].closed_at),
                    );
                    if newer {
                        let merged = MonthClosingRow {
                            year: local[i].year,
                            month: local[i].month,
                            is_closed: true,
                            closed_at: r0.closed_at,
                            closed_by: r0.closed_by,
                        };
                        local.set(i, merged);
                    } else {
                        proof {
                            assert(merge_month_one(ms_old, r0) =~= ms_old);
                        }
                    }
                } else {
                    proof {
                        assert(merge_month_one(ms_old, r0) =~= ms_old);
                    }
                }
            },
        }
    }
    proof {
        assert(merge_month_closing_spec(local@, rem@) == local@);
    }
}

/// Closing is sticky: a merge never reopens a closed month, never
/// changes a row's key, and never drops a row.
pub proof fn lemma_merge_month_one_monotone(ms: Seq<MonthClosingRow>, r: MonthClosingRow)
    ensures
        merge_month_one(ms, r).len() >= ms.len(),
        forall|k: int|
            0 <= k < ms.len() ==> (#[trigger] merge_month_one(ms, r)[k]).year == ms[k].year
                && merge_month_one(ms, r)[k].month == ms[k].month && (ms[k].is_closed
                ==> merge_month_one(ms, r)[k].is_closed),
{
    lemma_find_month(ms, r.year as int, r.month as int);
}

/// Closing is sticky across a whole merge: every local row keeps its key
/// and, once closed, stays closed.
pub proof fn lemma_merge_month_closing_sticky(
    ms: Seq<MonthClosingRow>,
    remote: Seq<MonthClosingRow>,
)
    ensures
        merge_month_closing_spec(ms, remote).len() >= ms.len(),
        forall|k: int|
            0 <= k < ms.len() ==> (#[trigger] merge_month_closing_spec(ms, remote)[k]).year
                == ms[k].year && merge_month_closing_spec(ms, remote)[k].month == ms[k].month && (
            ms[k].is_closed ==> merge_month_closing_spec(ms, remote)[k].is_closed),
    decreases remote.len(),
{
    if remote.len() > 0 {
        lemma_merge_month_one_monotone(ms, remote[0]);
        lemma_merge_month_closing_sticky(merge_month_one(ms, remote[0]), remote.skip(1));
    }
}

/// No two rows share a (year, month) key.
pub open spec fn month_keys_unique(ms: Seq<MonthClosingRow>) -> bool {
    forall|i: int, j: int|
        0 <= i < j < ms.len() ==> !((#[trigger] ms[i]).year == (#[trigger] ms[j]).year
            && ms[i].month == ms[j].month)
}

/// Applying one remote row twice in a row changes nothing the second
/// time.
proof fn lemma_month_absorbed_after_one(ms: Seq<MonthClosingRow>, r: MonthClosingRow)
    ensures
        merge_month_one(merge_month_one(ms, r), r) == merge_month_one(ms, r),
{
    let y = r.year as int;
    let m = r.month as int;
    let i = find_month(ms, y, m);
    lemma_find_month(ms, y, m);
    let s1 = merge_month_one(ms, r);
    lemma_find_month(s1, y, m);
    lemma_is_after_irreflexive(opt_or_empty(r.closed_at));
    if i == -1 {
        // The appended row is found, and holds the remote values.
        assert(s1 == ms.push(r));
        assert(s1[ms.len() as int] == r);
        assert(find_month(s1, y, m) == ms.len() as int);
        assert(merge_month_one(s1, r) == s1);
    } else {
        if r.is_closed && !ms[i].is_closed {
            assert(s1 == ms.update(i, month_overwrite(ms[i], r)));
            assert(s1[i] == month_overwrite(ms[i], r));
            assert(find_month(s1, y, m) == i) by {
                lemma_find_month_same_keys(ms, s1, y, m);
            }
            assert(merge_month_one(s1, r) == s1);
        } else if r.is_closed && ms[i].is_closed {
            if spec_is_after(opt_or_empty(r.closed_at), opt_or_empty(ms[i].closed_at)) {
                assert(s1 == ms.update(i, month_overwrite(ms[i], r)));
                assert(s1[i] == month_overwrite(ms[i], r));
                assert(find_month(s1, y, m) == i) by {
                    lemma_find_month_same_keys(ms, s1, y, m);
                }
                assert(merge_month_one(s1, r) == s1);
            } else {
                assert(s1 == ms);
            }
        } else {
            assert(s1 == ms);
        }
    }
}

/// Rows with pairwise-equal keys are found at the same index.
proof fn lemma_find_month_same_keys(a: Seq<MonthClosingRow>, b: Seq<MonthClosingRow>, y: int, m: int)
    requires
        a.len() == b.len(),
        forall|k: int|
            0 <= k < a.len() ==> (#[trigger] a[k]).year == b[k].year && a[k].month == b[k].month,
    ensures
        find_month(a, y, m) == find_month(b, y, m),
    decreases a.len(),
{
    if a.len() > 0 {
        assert(a[0].year == b[0].year && a[0].month == b[0].month);
        lemma_find_month_same_keys(a.skip(1), b.skip(1), y, m);
        assert(forall|k: int| 0 <= k < a.len() - 1 ==> (#[trigger] a.skip(1)[k]) == a[k + 1]);
        assert(forall|k: int| 0 <= k < b.len() - 1 ==> (#[trigger] b.skip(1)[k]) == b[k + 1]);
    }
}

/// A row that a state absorbs is still absorbed after a row with another
/// key is folded in.
proof fn lemma_month_absorbed_stable(
    ms: Seq<MonthClosingRow>,
    r: MonthClosingRow,
    r2: MonthClosingRow,
)
    requires
        merge_month_one(ms, r) == ms,
        !(r2.year == r.year && r2.month == r.month),
    ensures
        merge_month_one(merge_month_one(ms, r2), r) == merge_month_one(ms, r2),
{
    let y = r.year as int;
    let m = r.month as int;
    let y2 = r2.year as int;
    let m2 = r2.month as int;
    let i = find_month(ms, y, m);
    let i2 = find_month(ms, y2, m2);
    lemma_find_month(ms, y, m);
    lemma_find_month(ms, y2, m2);
    let s2 = merge_month_one(ms, r2);
    lemma_find_month(s2, y, m);
    lemma_is_after_irreflexive(opt_or_empty(r.closed_at));
    // The first fold changed nothing, so r's key is present and r loses.
    assert(i >= 0) by {
        if i == -1 {
            assert(merge_month_one(ms, r) == ms.push(r));
            assert(ms.push(r).len() == ms.len() + 1);
        }
    }
    assert(!(r.is_closed && !ms[i].is_closed) && !(r.is_closed && ms[i].is_closed
        && spec_is_after(opt_or_empty(r.closed_at), opt_or_empty(ms[i].closed_at)))) by {
        if r.is_closed && !ms[i].is_closed {
            assert(merge_month_one(ms, r) == ms.update(i, month_overwrite(ms[i], r)));
            assert(ms.update(i, month_overwrite(ms[i], r))[i] == month_overwrite(ms[i], r));
            assert(ms[i].is_closed);
        } else if r.is_closed && ms[i].is_closed && spec_is_after(
            opt_or_empty(r.closed_at),
            opt_or_empty(ms[i].closed_at),
        ) {
            assert(merge_month_one(ms, r) == ms.update(i, month_overwrite(ms[i], r)));
            assert(ms.update(i, month_overwrite(ms[i], r))[i] == month_overwrite(ms[i], r));
            assert(ms[i].closed_at == r.closed_at);
        }
    }
    // The other key's fold leaves r's row alone.
    if i2 == -1 {
        assert(s2 == ms.push(r2));
        assert(forall|k: int| 0 <= k < ms.len() ==> (#[trigger] s2[k]) == ms[k]);
        assert(find_month(s2, y, m) == i) by {
            lemma_find_month_push_other(ms, r2, y, m);
        }
        assert(s2[i] == ms[i]);
        assert(merge_month_one(s2, r) == s2);
    } else {
        if r2.is_closed && !ms[i2].is_closed {
            assert(s2 == ms.update(i2, month_overwrite(ms[i2], r2)));
        } else if r2.is_closed && ms[i2].is_closed && spec_is_after(
            opt_or_empty(r2.closed_at),
            opt_or_empty(ms[i2].closed_at),
        ) {
            assert(s2 == ms.update(i2, month_overwrite(ms[i2], r2)));
        } else {
            assert(s2 == ms);
        }
        if s2 == ms {
            assert(merge_month_one(s2, r) == s2);
        } else {
            assert(find_month(s2, y, m) == i) by {
                lemma_find_month_same_keys(ms, s2, y, m);
            }
            assert(i != i2);
            assert(s2[i] == ms[i]);
            assert(merge_month_one(s2, r) == s2);
        }
    }
}

/// Appending a row with another key does not move a key's first index.
proof fn lemma_find_month_push_other(ms: Seq<MonthClosingRow>, x: MonthClosingRow, y: int, m: int)
    requires
        !(x.year == y && x.month == m),
    ensures
        find_month(ms.push(x), y, m) == find_month(ms, y, m),
    decreases ms.len(),
{
    lemma_find_month(ms, y, m);
    lemma_find_month(ms.push(x), y, m);
    let i = find_month(ms, y, m);
    let j = find_month(ms.push(x), y, m);
    assert(forall|k: int| 0 <= k < ms.len() ==> (#[trigger] ms.push(x)[k]) == ms[k]);
    assert(ms.push(x)[ms.len() as int] == x);
    if i >= 0 {
        assert(ms.push(x)[i].year == y && ms.push(x)[i].month == m);
        assert(j >= 0);
        assert(j <= i);
        assert(j >= i) by {
            if j < i {
                assert(ms[j].year == y && ms[j].month == m);
            }
        }
    } else {
        if j >= 0 {
            assert(j < ms.len() + 1);
            if j < ms.len() {
                assert(ms[j].year == y && ms[j].month == m);
            } else {
                assert(ms.push(x)[j] == x);
            }
            assert(false);
        }
    }
}

/// A row a state absorbs stays absorbed through a fold over rows with
/// other keys.
proof fn lemma_month_absorbed_through_fold(
    ms: Seq<MonthClosingRow>,
    rest: Seq<MonthClosingRow>,
    r: MonthClosingRow,
)
    requires
        merge_month_one(ms, r) == ms,
        forall|k: int|
            0 <= k < rest.len() ==> !((#[trigger] rest[k]).year == r.year && rest[k].month
                == r.month),
    ensures
        merge_month_one(merge_month_closing_spec(ms, rest), r) == merge_month_closing_spec(
            ms,
            rest,
        ),
    decreases rest.len(),
{
    if rest.len() > 0 {
        lemma_month_absorbed_stable(ms, r, rest[0]);
        lemma_month_absorbed_through_fold(merge_month_one(ms, rest[0]), rest.skip(1), r);
        assert(forall|k: int| 0 <= k < rest.len() - 1 ==> (#[trigger] rest.skip(1)[k]) == rest[k
            + 1]);
    }
}

/// Merging month-closing flags is idempotent: applying the same remote
/// snapshot twice yields the same table as applying it once. In
/// particular a closed month is never reopened by the repetition.
pub proof fn lemma_merge_month_closing_idempotent(
    ms: Seq<MonthClosingRow>,
    remote: Seq<MonthClosingRow>,
)
    requires
        month_keys_unique(remote),
    ensures
        merge_month_closing_spec(merge_month_closing_spec(ms, remote), remote)
            == merge_month_closing_spec(ms, remote),
    decreases remote.len(),
{
    if remote.len() > 0 {
        let r0 = remote[0];
        let rest = remote.skip(1);
        let s1 = merge_month_one(ms, r0);
        let f = merge_month_closing_spec(s1, rest);
        assert(forall|k: int| 0 <= k < rest.len() ==> (#[trigger] rest[k]) == remote[k + 1]);
        assert(month_keys_unique(rest));
        assert(forall|k: int|
            0 <= k < rest.len() ==> !((#[trigger] rest[k]).year == r0.year && rest[k].month
                == r0.month));
        lemma_month_absorbed_after_one(ms, r0);
        lemma_month_absorbed_through_fold(s1, rest, r0);
        assert(merge_month_one(f, r0) == f);
        lemma_merge_month_closing_idempotent(s1, rest);
        assert(merge_month_closing_spec(f, remote) == merge_month_closing_spec(
            merge_month_one(f, r0),
            rest,
        ));
        assert(merge_month_closing_spec(f, rest) == f);
    }
}

// ---------------------------------------------------------------------
// Transactions: natural key is the public identifier. Remote rows are
// remapped (category by name, attachment path into the local tree) and
// merged last-write-wins by the update stamp; rows absent locally are
// inserted.

/// A ledger transaction row. The natural key is `public_id`; amounts are
/// carried in cents and tax rates in basis points.
#[derive(Debug)]
pub struct TransactionRow {
    pub public_id: String,
    pub date: String,
    pub year: i32,
    pub month: i32,
    pub tx_type: String,
    pub payment_method: Option<String>,
    pub category_id: Option<i64>,
    pub description: Option<String>,
    pub amount_cents: i64,
    pub mwst_rate_bp: i64,
    pub receipt_path: Option<String>,
    pub note: Option<String>,
    pub ref_public_id: Option<String>,
    pub created_at: String,
    pub updated_at: String,
}

/// The mathematical image of a transaction row.
pub ghost struct TxRowView {
    pub public_id: Seq<char>,
    pub date: Seq<char>,
    pub year: int,
    pub month: int,
    pub tx_type: Seq<char>,
    pub payment_method: Option<Seq<char>>,
    pub category_id: Option<int>,
    pub description: Option<Seq<char>>,
    pub amount_cents: int,
    pub mwst_rate_bp: int,
    pub receipt_path: Option<Seq<char>>,
    pub note: Option<Seq<char>>,
    pub ref_public_id: Option<Seq<char>>,
    pub created_at: Seq<char>,
    pub updated_at: Seq<char>,
}

/// View of an optional machine integer.
pub open spec fn opt_int_view(o: Option<i64>) -> Option<int> {
    match o {
        Some(v) => Some(v as int),
        None => None,
    }
}

impl View for TransactionRow {
    type V = TxRowView;

    open spec fn view(&self) -> TxRowView {
        TxRowView {
            public_id: self.public_id@,
            date: self.date@,
            year: self.year as int,
            month: self.month as int,
            tx_type: self.tx_type@,
            payment_method: crate::strutil::opt_view(self.payment_method),
            category_id: opt_int_view(self.category_id),
            description: crate::strutil::opt_view(self.description),
            amount_cents: self.amount_cents as int,
            mwst_rate_bp: self.mwst_rate_bp as int,
            receipt_path: crate::strutil::opt_view(self.receipt_path),
            note: crate::strutil::opt_view(self.note),
            ref_public_id: crate::strutil::opt_view(self.ref_public_id),
            created_at: self.created_at@,
            updated_at: self.updated_at@,
        }
    }
}

impl Clone for TransactionRow {
    fn clone(&self) -> (r: Self)
        ensures
            r@ == self@,
    {
        TransactionRow {
            public_id: self.public_id.clone(),
            date: self.date.clone(),
            year: self.year,
            month: self.month,
            tx_type: self.tx_type.clone(),
            payment_method: crate::strutil::clone_opt_string(&self.payment_method),
            category_id: self.category_id,
            description: crate::strutil::clone_opt_string(&self.description),
            amount_cents: self.amount_cents,
            mwst_rate_bp: self.mwst_rate_bp,
            receipt_path: crate::strutil::clone_opt_string(&self.receipt_path),
            note: crate::strutil::clone_opt_string(&self.note),
            ref_public_id: crate::strutil::clone_opt_string(&self.ref_public_id),
            created_at: self.created_at.clone(),
            updated_at: self.updated_at.clone(),
        }
    }
}

/// The mathematical image of a category row: its id and name.
pub ghost struct CatView {
    pub id: int,
    pub name: Seq<char>,
}

pub open spec fn cat_view(c: CategoryRow) -> CatView {
    CatView { id: c.id as int, name: c.name@ }
}

pub open spec fn cat_views(s: Seq<CategoryRow>) -> Seq<CatView> {
    s.map_values(|c: CategoryRow| cat_view(c))
}

pub open spec fn tx_views(s: Seq<TransactionRow>) -> Seq<TxRowView> {
    s.map_values(|t: TransactionRow| t@)
}

proof fn lemma_tx_views_index(s: Seq<TransactionRow>, i: int)
    requires
        0 <= i < s.len(),
    ensures
        tx_views(s).len() == s.len(),
        tx_views(s)[i] == s[i]@,
{
}

proof fn lemma_cat_views_index(s: Seq<CategoryRow>, i: int)
    requires
        0 <= i < s.len(),
    ensures
        cat_views(s).len() == s.len(),
        cat_views(s)[i] == cat_view(s[i]),
{
}

/// Index of the first category with the given id, `-1` if none.
pub open spec fn find_cat_by_id(cats: Seq<CatView>, id: int) -> int
    decreases cats.len(),
{
    if cats.len() == 0 {
        -1
    } else if cats[0].id == id {
        0
    } else {
        let r = find_cat_by_id(cats.skip(1), id);
        if r == -1 {
            -1
        } else {
            r + 1
        }
    }
}

proof fn lemma_find_cat_by_id(cats: Seq<CatView>, id: int)
    ensures
        -1 <= find_cat_by_id(cats, id) < cats.len(),
        find_cat_by_id(cats, id) >= 0 ==> cats[find_cat_by_id(cats, id)].id == id,
        find_cat_by_id(cats, id) >= 0 ==> forall|k: int|
            0 <= k < find_cat_by_id(cats, id) ==> (#[trigger] cats[k]).id != id,
        find_cat_by_id(cats, id) == -1 ==> forall|k: int|
            0 <= k < cats.len() ==> (#[trigger] cats[k]).id != id,
    decreases cats.len(),
{
    if cats.len() > 0 && cats[0].id != id {
        lemma_find_cat_by_id(cats.skip(1), id);
        assert(forall|k: int| 1 <= k < cats.len() ==> cats.skip(1)[k - 1] == cats[k]);
    }
}

/// Index of the first category with the given name, `-1` if none.
pub open spec fn find_cat_by_name(cats: Seq<CatView>, name: Seq<char>) -> int
    decreases cats.len(),
{
    if cats.len() == 0 {
        -1
    } else if cats[0].name == name {
        0
    } else {
        let r = find_cat_by_name(cats.skip(1), name);
        if r == -1 {
            -1
        } else {
            r + 1
        }
    }
}

proof fn lemma_find_cat_by_name(cats: Seq<CatView>, name: Seq<char>)
    ensures
        -1 <= find_cat_by_name(cats, name) < cats.len(),
        find_cat_by_name(cats, name) >= 0 ==> cats[find_cat_by_name(cats, name)].name == name,
        find_cat_by_name(cats, name) >= 0 ==> forall|k: int|
            0 <= k < find_cat_by_name(cats, name) ==> (#[trigger] cats[k]).name != name,
        find_cat_by_name(cats, name) == -1 ==> forall|k: int|
            0 <= k < cats.len() ==> (#[trigger] cats[k]).name != name,
    decreases cats.len(),
{
    if cats.len() > 0 && cats[0].name != name {
        lemma_find_cat_by_name(cats.skip(1), name);
        assert(forall|k: int| 1 <= k < cats.len() ==> cats.skip(1)[k - 1] == cats[k]);
    }
}

/// The name the remote snapshot gives a remote category id.
pub open spec fn cat_name_for_id(rcats: Seq<CatView>, id: Option<int>) -> Option<Seq<char>> {
    match id {
        None => None,
        Some(i) => {
            let k = find_cat_by_id(rcats, i);
            if k >= 0 {
                Some(rcats[k].name)
            } else {
                None
            }
        },
    }
}

/// The local category id a remote category name resolves to; the link is
/// dropped when the name is unresolvable.
pub open spec fn mapped_cat_id(lcats: Seq<CatView>, name: Option<Seq<char>>) -> Option<int> {
    match name {
        None => None,
        Some(n) => {
            let k = find_cat_by_name(lcats, n);
            if k >= 0 {
                Some(lcats[k].id)
            } else {
                None
            }
        },
    }
}

/// A remote row as it lands locally: the category resolved by name to a
/// local id, the attachment path remapped into the local tree.
pub open spec fn remap_tx(
    r: TxRowView,
    rcats: Seq<CatView>,
    lcats: Seq<CatView>,
    base: Seq<char>,
    files: Seq<Seq<char>>,
) -> TxRowView {
    TxRowView {
        category_id: mapped_cat_id(lcats, cat_name_for_id(rcats, r.category_id)),
        receipt_path: match r.receipt_path {
            None => None,
            Some(p) => crate::paths::map_receipt_path_spec(p, base, files),
        },
        ..r
    }
}

/// A local row overwritten last-write-wins by a newer remote row: the
/// remapped remote row, keeping the existing attachment path where the
/// remapping found none.
pub open spec fn overwrite_tx(
    l: TxRowView,
    r: TxRowView,
    rcats: Seq<CatView>,
    lcats: Seq<CatView>,
    base: Seq<char>,
    files: Seq<Seq<char>>,
) -> TxRowView {
    let m = remap_tx(r, rcats, lcats, base, files);
    TxRowView {
        receipt_path: match m.receipt_path {
            Some(p) => Some(p),
            None => l.receipt_path,
        },
        ..m
    }
}

/// Index of the first row with the given public id, `-1` if none.
pub open spec fn find_tx(txs: Seq<TxRowView>, pid: Seq<char>) -> int
    decreases txs.len(),
{
    if txs.len() == 0 {
        -1
    } else if txs[0].public_id == pid {
        0
    } else {
        let r = find_tx(txs.skip(1), pid);
        if r == -1 {
            -1
        } else {
            r + 1
        }
    }
}

pub proof fn lemma_find_tx(txs: Seq<TxRowView>, pid: Seq<char>)
    ensures
        -1 <= find_tx(txs, pid) < txs.len(),
        find_tx(txs, pid) >= 0 ==> txs[find_tx(txs, pid)].public_id == pid,
        find_tx(txs, pid) >= 0 ==> forall|k: int|
            0 <= k < find_tx(txs, pid) ==> (#[trigger] txs[k]).public_id != pid,
        find_tx(txs, pid) == -1 ==> forall|k: int|
            0 <= k < txs.len() ==> (#[trigger] txs[k]).public_id != pid,
    decreases txs.len(),
{
    if txs.len() > 0 && txs[0].public_id != pid {
        lemma_find_tx(txs.skip(1), pid);
        assert(forall|k: int| 1 <= k < txs.len() ==> txs.skip(1)[k - 1] == txs[k]);
    }
}

/// One remote transaction folded into the local table: insert the
/// remapped row when its id is absent; overwrite last-write-wins when
/// the remote update stamp is strictly newer; keep the local row
/// unchanged otherwise.
pub open spec fn merge_tx_one(
    txs: Seq<TxRowView>,
    r: TxRowView,
    rcats: Seq<CatView>,
    lcats: Seq<CatView>,
    base: Seq<char>,
    files: Seq<Seq<char>>,
) -> Seq<TxRowView> {
    let i = find_tx(txs, r.public_id);
    if i == -1 {
        txs.push(remap_tx(r, rcats, lcats, base, files))
    } else if spec_is_after(r.updated_at, txs[i].updated_at) {
        txs.update(i, overwrite_tx(txs[i], r, rcats, lcats, base, files))
    } else {
        txs
    }
}

/// The remote transactions folded into the local table in order.
pub open spec fn merge_transactions_spec(
    txs: Seq<TxRowView>,
    remote: Seq<TxRowView>,
    rcats: Seq<CatView>,
    lcats: Seq<CatView>,
    base: Seq<char>,
    files: Seq<Seq<char>>,
) -> Seq<TxRowView>
    decreases remote.len(),
{
    if remote.len() == 0 {
        txs
    } else {
        merge_transactions_spec(
            merge_tx_one(txs, remote[0], rcats, lcats, base, files),
            remote.skip(1),
            rcats,
            lcats,
            base,
            files,
        )
    }
}

/// The name the remote snapshot gives a remote category id.
pub fn remote_category_name(cats: &Vec<CategoryRow>, id: Option<i64>) -> (r: Option<String>)
    ensures
        crate::strutil::opt_view(r) == cat_name_for_id(cat_views(cats@), opt_int_view(id)),
{
    let target = match id {
        Some(v) => v,
        None => { return None; },
    };
    let ghost cvs = cat_views(cats@);
    let mut i: usize = 0;
    while i < cats.len()
        invariant
            i <= cats@.len(),
            cvs == cat_views(cats@),
            id == Some(target),
            forall|k: int| 0 <= k < i ==> (#[trigger] cvs[k]).id != target as int,
        decreases cats@.len() - i,
    {
        proof {
            lemma_cat_views_index(cats@, i as int);
            lemma_find_cat_by_id(cvs, target as int);
        }
        if cats[i].id == target {
            assert(find_cat_by_id(cvs, target as int) == i);
            let picked = cats[i].name.clone();
            proof {
                assert(id == Some(target));
                assert(opt_int_view(id) == Some(target as int));
                assert(cvs[i as int].name == cats@[i as int].name@);
                assert(picked@ == cvs[i as int].name);
                assert(cat_name_for_id(cvs, opt_int_view(id)) == Some(cvs[i as int].name));
            }
            return Some(picked);
        }
        i = i + 1;
    }
    proof {
        lemma_find_cat_by_id(cvs, target as int);
    }
    None
}

/// The local category id a remote category name resolves to.
fn local_category_id(cats: &Vec<CategoryRow>, name: &Option<String>) -> (r: Option<i64>)
    ensures
        opt_int_view(r) == mapped_cat_id(cat_views(cats@), crate::strutil::opt_view(*name)),
{
    let n = match name {
        Some(v) => v,
        None => { return None; },
    };
    let ghost cvs = cat_views(cats@);
    let mut i: usize = 0;
    while i < cats.len()
        invariant
            i <= cats@.len(),
            cvs == cat_views(cats@),
            crate::strutil::opt_view(*name) == Some(n@),
            forall|k: int| 0 <= k < i ==> (#[trigger] cvs[k]).name != n@,
        decreases cats@.len() - i,
    {
        proof {
            lemma_cat_views_index(cats@, i as int);
            lemma_find_cat_by_name(cvs, n@);
        }
        if str_eq(cats[i].name.as_str(), n.as_str()) {
            assert(find_cat_by_name(cvs, n@) == i);
            proof {
                assert(crate::strutil::opt_view(*name) == Some(n@));
                assert(cvs[i as int].id == cats@[i as int].id as int);
                assert(mapped_cat_id(cvs, Some(n@)) == Some(cvs[i as int].id));
            }
            return Some(cats[i].id);
        }
        i = i + 1;
    }
    proof {
        lemma_find_cat_by_name(cvs, n@);
    }
    None
}

/// Index of the first local row with the given public id.
fn find_tx_index(txs: &Vec<TransactionRow>, pid: &str) -> (r: Option<usize>)
    ensures
        match r {
            Some(i) => i < txs@.len() && find_tx(tx_views(txs@), pid@) == i,
            None => find_tx(tx_views(txs@), pid@) == -1,
        },
{
    let ghost tvs = tx_views(txs@);
    let mut i: usize = 0;
    while i < txs.len()
        invariant
            i <= txs@.len(),
            tvs == tx_views(txs@),
            forall|k: int| 0 <= k < i ==> (#[trigger] tvs[k]).public_id != pid@,
        decreases txs@.len() - i,
    {
        proof {
            lemma_tx_views_index(txs@, i as int);
            lemma_find_tx(tvs, pid@);
        }
        if str_eq(txs[i].public_id.as_str(), pid) {
            assert(find_tx(tvs, pid@) == i);
            return Some(i);
        }
        i = i + 1;
    }
    proof {
        lemma_find_tx(tvs, pid@);
    }
    None
}

/// Fold the remote transactions into the local table: resolve each
/// remote row's category by name, remap its attachment path, insert it
/// when its public id is absent, and otherwise overwrite the local row
/// exactly when the remote update stamp is strictly newer.
pub fn merge_transactions(
    local: &mut Vec<TransactionRow>,
    remote: Vec<TransactionRow>,
    local_categories: &Vec<CategoryRow>,
    remote_categories: &Vec<CategoryRow>,
    receipt_base: &str,
    local_receipt_files: &Vec<String>,
)
    ensures
        tx_views(final(local)@) == merge_transactions_spec(
            tx_views(old(local)@),
            tx_views(remote@),
            cat_views(remote_categories@),
            cat_views(local_categories@),
            receipt_base@,
            crate::paths::seq_views(local_receipt_files@),
        ),
{
    let ghost txs0 = tx_views(old(local)@);
    let ghost remote0 = tx_views(remote@);
    let ghost rcats = cat_views(remote_categories@);
    let ghost lcats = cat_views(local_categories@);
    let ghost base = receipt_base@;
    let ghost files = crate::paths::seq_views(local_receipt_files@);
    let mut rem = remote;
    proof {
        assert(tx_views(rem@) =~= remote0);
    }
    while rem.len() > 0
        invariant
            merge_transactions_spec(txs0, remote0, rcats, lcats, base, files)
                == merge_transactions_spec(tx_views(local@), tx_views(rem@), rcats, lcats, base, files),
            rcats == cat_views(remote_categories@),
            lcats == cat_views(local_categories@),
            base == receipt_base@,
            files == crate::paths::seq_views(local_receipt_files@),
        decreases rem@.len(),
    {
        let ghost ms_old = tx_views(local@);
        let ghost rem_old = tx_views(rem@);
        let r0 = rem.remove(0);
        proof {
            lemma_tx_views_index(rem@.insert(0, r0), 0);
            assert(tx_views(rem@) =~= rem_old.skip(1)) by {
                assert(forall|k: int|
                    0 <= k < rem@.len() ==> tx_views(rem@)[k] == (#[trigger] rem@[k])@);
                assert(forall|k: int|
                    0 <= k < rem@.len() ==> rem_old.skip(1)[k] == (#[trigger] rem@[k])@);
            }
            assert(rem_old[0] == r0@);
            assert(merge_transactions_spec(ms_old, rem_old, rcats, lcats, base, files)
                == merge_transactions_spec(
                merge_tx_one(ms_old, r0@, rcats, lcats, base, files),
                rem_old.skip(1),
                rcats,
                lcats,
                base,
                files,
            ));
        }
        let cat_name = remote_category_name(remote_categories, r0.category_id);
        let mapped_id = local_category_id(local_categories, &cat_name);
        let mapped_receipt: Option<String> = match &r0.receipt_path {
            Some(p) => crate::paths::map_receipt_path(p.as_str(), receipt_base, local_receipt_files),
            None => None,
        };
        proof {
            lemma_find_tx(ms_old, r0@.public_id);
        }
        match find_tx_index(local, r0.public_id.as_str()) {
            None => {
                let row = TransactionRow {
                    public_id: r0.public_id,
                    date: r0.date,
                    year: r0.year,
                    month: r0.month,
                    tx_type: r0.tx_type,
                    payment_method: r0.payment_method,
                    category_id: mapped_id,
                    description: r0.description,
                    amount_cents: r0.amount_cents,
                    mwst_rate_bp: r0.mwst_rate_bp,
                    receipt_path: mapped_receipt,
                    note: r0.note,
                    ref_public_id: r0.ref_public_id,
                    created_at: r0.created_at,
                    updated_at: r0.updated_at,
                };
                proof {
                    assert(row@ == remap_tx(r0@, rcats, lcats, base, files));
                }
                local.push(row);
                proof {
                    assert(tx_views(local@) =~= ms_old.push(row@));
                }
            },
            Some(i) => {
                proof {
                    lemma_tx_views_index(local@, i as int);
                }
                let newer = is_after(r0.updated_at.as_str(), local[i].updated_at.as_str());
                if newer {
                    let existing = local.remove(i);
                    let receipt = match mapped_receipt {
                        Some(p) => Some(p),
                        None => existing.receipt_path,
                    };
                    let row = TransactionRow {
                        public_id: r0.public_id,
                        date: r0.date,
                        year: r0.year,
                        month: r0.month,
                        tx_type: r0.tx_type,
                        payment_method: r0.payment_method,
                        category_id: mapped_id,
                        description: r0.description,
                        amount_cents: r0.amount_cents,
                        mwst_rate_bp: r0.mwst_rate_bp,
                        receipt_path: receipt,
                        note: r0.note,
                        ref_public_id: r0.ref_public_id,
                        created_at: r0.created_at,
                        updated_at: r0.updated_at,
                    };
                    proof {
                        assert(existing@ == ms_old[i as int]);
                        assert(row@ == overwrite_tx(ms_old[i as int], r0@, rcats, lcats, base, files));
                    }
                    local.insert(i, row);
                    proof {
                        assert(tx_views(local@) =~= ms_old.update(i as int, row@));
                    }
                } else {
                    proof {
                        assert(merge_tx_one(ms_old, r0@, rcats, lcats, base, files) == ms_old);
                    }
                }
            },
        }
    }
    proof {
        assert(tx_views(rem@).len() == 0);
        assert(merge_transactions_spec(tx_views(local@), tx_views(rem@), rcats, lcats, base, files)
            == tx_views(local@));
    }
}

/// What the closing table says about one month: its flag and stamp, or
/// an open default when no row exists.
#[derive(Debug)]
pub struct MonthStatus {
    pub year: i32,
    pub month: i32,
    pub is_closed: bool,
    pub closed_at: Option<String>,
    pub closed_by: Option<String>,
}

/// Whether the month is closed: the first matching row's flag, open when
/// no row exists.
pub fn is_month_closed(ms: &Vec<MonthClosingRow>, year: i32, month: i32) -> (r: bool)
    ensures
        r == ({
            let i = find_month(ms@, year as int, month as int);
            i >= 0 && ms@[i].is_closed
        }),
{
    match find_month_index(ms, year, month) {
        Some(i) => ms[i].is_closed,
        None => false,
    }
}

/// The month's closing status: the first matching row, or an open
/// default when no row exists.
pub fn get_month_status(ms: &Vec<MonthClosingRow>, year: i32, month: i32) -> (r: MonthStatus)
    ensures
        r.year == year,
        r.month == month,
        ({
            let i = find_month(ms@, year as int, month as int);
            if i >= 0 {
                &&& r.is_closed == ms@[i].is_closed
                &&& crate::strutil::opt_view(r.closed_at) == crate::strutil::opt_view(
                    ms@[i].closed_at,
                )
                &&& crate::strutil::opt_view(r.closed_by) == crate::strutil::opt_view(
                    ms@[i].closed_by,
                )
            } else {
                &&& !r.is_closed
                &&& r.closed_at is None
                &&& r.closed_by is None
            }
        }),
{
    match find_month_index(ms, year, month) {
        Some(i) => MonthStatus {
            year,
            month,
            is_closed: ms[i].is_closed,
            closed_at: crate::strutil::clone_opt_string(&ms[i].closed_at),
            closed_by: crate::strutil::clone_opt_string(&ms[i].closed_by),
        },
        None => MonthStatus { year, month, is_closed: false, closed_at: None, closed_by: None },
    }
}

/// Whether an attachment path already lies in the local tree: it is the
/// base, a separator, and one of the local files.
pub open spec fn path_is_local(p: Seq<char>, base: Seq<char>, files: Seq<Seq<char>>) -> bool {
    exists|k: int| 0 <= k < files.len() && p == base + seq!['/'] + (#[trigger] files[k])
}

/// One row after attachment-path repair: a recorded path that is not in
/// the local tree is remapped into it where possible; everything else
/// stays.
pub open spec fn fix_tx_path(t: TxRowView, base: Seq<char>, files: Seq<Seq<char>>) -> TxRowView {
    match t.receipt_path {
        None => t,
        Some(p) => if path_is_local(p, base, files) {
            t
        } else {
            match crate::paths::map_receipt_path_spec(p, base, files) {
                Some(m) => TxRowView { receipt_path: Some(m), ..t },
                None => t,
            }
        },
    }
}

/// Whether an attachment path already lies in the local tree.
fn path_is_local_exec(p: &str, base: &str, files: &Vec<String>) -> (r: bool)
    ensures
        r == path_is_local(p@, base@, crate::paths::seq_views(files@)),
{
    let ghost fvs = crate::paths::seq_views(files@);
    let mut i: usize = 0;
    while i < files.len()
        invariant
            i <= files@.len(),
            fvs == crate::paths::seq_views(files@),
            forall|k: int| 0 <= k < i ==> p@ != base@ + seq!['/'] + (#[trigger] fvs[k]),
        decreases files@.len() - i,
    {
        proof {
            assert(fvs[i as int] == files@[i as int]@);
        }
        let candidate = crate::paths::join_base(base, files[i].as_str());
        if str_eq(p, candidate.as_str()) {
            assert(p@ == base@ + seq!['/'] + fvs[i as int]);
            return true;
        }
        i = i + 1;
    }
    false
}

/// Repair attachment-path references after a restore on this machine:
/// every recorded path that does not lie in the local tree is remapped
/// into it where possible; rows without one, or whose path is already
/// local or cannot be remapped, stay as they are.
pub fn fix_receipt_paths(
    txs: &mut Vec<TransactionRow>,
    receipt_base: &str,
    local_files: &Vec<String>,
)
    ensures
        tx_views(final(txs)@).len() == tx_views(old(txs)@).len(),
        forall|k: int|
            0 <= k < tx_views(old(txs)@).len() ==> tx_views(final(txs)@)[k] == fix_tx_path(
                #[trigger] tx_views(old(txs)@)[k],
                receipt_base@,
                crate::paths::seq_views(local_files@),
            ),
{
    let ghost txs0 = tx_views(old(txs)@);
    let ghost base = receipt_base@;
    let ghost files = crate::paths::seq_views(local_files@);
    let mut i: usize = 0;
    while i < txs.len()
        invariant
            i <= txs@.len(),
            txs@.len() == txs0.len(),
            base == receipt_base@,
            files == crate::paths::seq_views(local_files@),
            forall|k: int| i <= k < txs0.len() ==> (#[trigger] txs@[k])@ == txs0[k],
            forall|k: int|
                0 <= k < i ==> (#[trigger] txs@[k])@ == fix_tx_path(txs0[k], base, files),
        decreases txs@.len() - i,
    {
        let has_path = match &txs[i].receipt_path {
            Some(_) => true,
            None => false,
        };
        if has_path {
            let path = match &txs[i].receipt_path {
                Some(p) => p.clone(),
                None => {
                    proof {
                        assert(false);
                    }
                    String::new()
                },
            };
            if !path_is_local_exec(path.as_str(), receipt_base, local_files) {
                match crate::paths::map_receipt_path(path.as_str(), receipt_base, local_files) {
                    Some(mapped) => {
                        let ghost pre = txs@;
                        let mut row = txs.remove(i);
                        row.receipt_path = Some(mapped);
                        proof {
                            assert(row@ == fix_tx_path(pre[i as int]@, base, files));
                        }
                        txs.insert(i, row);
                        proof {
                            assert(forall|k: int|
                                0 <= k < pre.len() && k != i ==> txs@[k] == pre[k]);
                        }
                    },
                    None => {
                        proof {
                            assert(txs@[i as int]@ == fix_tx_path(txs0[i as int], base, files));
                        }
                    },
                }
            } else {
                proof {
                    assert(txs@[i as int]@ == fix_tx_path(txs0[i as int], base, files));
                }
            }
        } else {
            proof {
                assert(txs@[i as int]@ == fix_tx_path(txs0[i as int], base, files));
            }
        }
        i = i + 1;
    }
}

/// Transaction merge is last-write-wins: where a remote row's public id
/// exists locally, the merged table holds the remapped remote row
/// exactly when the remote update stamp is strictly newer, and the
/// untouched local row otherwise; no other row changes.
pub proof fn lemma_merge_transactions_lww(
    txs: Seq<TxRowView>,
    r: TxRowView,
    rcats: Seq<CatView>,
    lcats: Seq<CatView>,
    base: Seq<char>,
    files: Seq<Seq<char>>,
)
    requires
        find_tx(txs, r.public_id) >= 0,
    ensures
        ({
            let merged = merge_transactions_spec(txs, seq![r], rcats, lcats, base, files);
            let i = find_tx(txs, r.public_id);
            &&& merged.len() == txs.len()
            &&& (forall|k: int| 0 <= k < txs.len() && k != i ==> merged[k] == txs[k])
            &&& merged[i] == (if spec_is_after(r.updated_at, txs[i].updated_at) {
                overwrite_tx(txs[i], r, rcats, lcats, base, files)
            } else {
                txs[i]
            })
        }),
{
    lemma_find_tx(txs, r.public_id);
    let one = merge_tx_one(txs, r, rcats, lcats, base, files);
    assert(seq![r][0] == r);
    assert(seq![r].skip(1) =~= Seq::<TxRowView>::empty());
    assert(merge_transactions_spec(txs, seq![r], rcats, lcats, base, files)
        == merge_transactions_spec(one, seq![r].skip(1), rcats, lcats, base, files));
    assert(merge_transactions_spec(one, seq![r].skip(1), rcats, lcats, base, files) == one);
}

} // verus!
