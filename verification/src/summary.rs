use vstd::prelude::*;
use vstd::string::StrSliceExecFns;

use crate::merge::CatView;
use crate::merge::CategoryRow;
use crate::merge::TransactionRow;
use crate::merge::TxRowView;
use crate::merge::cat_name_for_id;
use crate::merge::cat_views;
use crate::merge::tx_views;
use crate::store::SyncConflictItem;
use crate::store::SyncConflictSummary;
use crate::strutil::lex_gt;
use crate::strutil::str_eq;
use crate::strutil::str_lex_gt;

verus! {

// The change log stands in for a vector clock: every committed mutation
// appends one row, and "last change" is the greatest timestamp over all
// rows, in the same byte-wise text order the log's storage uses, or an
// epoch sentinel when the log is empty.

/// One row of the append-only change log.
#[derive(Debug)]
pub struct AuditLogEntry {
    pub id: i64,
    pub ts: String,
    pub actor: Option<String>,
    pub action: String,
    pub entity_type: String,
    pub entity_id: Option<String>,
    pub ref_id: Option<String>,
    pub payload_json: String,
    pub details: Option<String>,
}

/// The greatest of `acc` and the timestamps from position `i` on, in
/// lexicographic order.
pub open spec fn lex_max_from(ts: Seq<Seq<char>>, i: int, acc: Seq<char>) -> Seq<char>
    decreases ts.len() - i,
{
    if i >= ts.len() {
        acc
    } else {
        lex_max_from(
            ts,
            i + 1,
            if lex_gt(ts[i], acc) {
                ts[i]
            } else {
                acc
            },
        )
    }
}

/// The logical change timestamp of a change log: the greatest `ts` over
/// all rows, or the epoch sentinel when there are none.
pub open spec fn last_change_spec(entries: Seq<AuditLogEntry>) -> Seq<char> {
    let ts = entries.map_values(|e: AuditLogEntry| e.ts@);
    if ts.len() == 0 {
        "1970-01-01T00:00:00Z"@
    } else {
        lex_max_from(ts, 1, ts[0])
    }
}

/// The current logical change timestamp of the change log.
pub fn get_last_change(entries: &Vec<AuditLogEntry>) -> (r: String)
    ensures
        r@ == last_change_spec(entries@),
{
    let ghost ts = entries@.map_values(|e: AuditLogEntry| e.ts@);
    if entries.len() == 0 {
        return "1970-01-01T00:00:00Z".to_owned();
    }
    let mut acc = entries[0].ts.clone();
    let mut i: usize = 1;
    while i < entries.len()
        invariant
            1 <= i <= entries@.len(),
            ts == entries@.map_values(|e: AuditLogEntry| e.ts@),
            last_change_spec(entries@) == lex_max_from(ts, i as int, acc@),
        decreases entries@.len() - i,
    {
        proof {
            assert(ts[i as int] == entries@[i as int].ts@);
        }
        if str_lex_gt(entries[i].ts.as_str(), acc.as_str()) {
            acc = entries[i].ts.clone();
        }
        i = i + 1;
    }
    acc
}

// ---------------------------------------------------------------------
// The lightweight summary of one side's dataset shown to the operator:
// the record count, the income and expense totals, and the five most
// recently updated records.

/// Amounts small enough that a million of them cannot overflow a total.
pub open spec fn amounts_bounded(txs: Seq<TxRowView>) -> bool {
    forall|i: int|
        0 <= i < txs.len() ==> -1_000_000_000_000 <= (#[trigger] txs[i]).amount_cents
            <= 1_000_000_000_000
}

/// Sum of the amounts of the income rows.
pub open spec fn income_sum(txs: Seq<TxRowView>) -> int
    decreases txs.len(),
{
    if txs.len() == 0 {
        0
    } else {
        income_sum(txs.drop_last()) + (if txs.last().tx_type == "INCOME"@ {
            txs.last().amount_cents
        } else {
            0
        })
    }
}

/// Sum of the amounts of the expense rows.
pub open spec fn expense_sum(txs: Seq<TxRowView>) -> int
    decreases txs.len(),
{
    if txs.len() == 0 {
        0
    } else {
        expense_sum(txs.drop_last()) + (if txs.last().tx_type == "EXPENSE"@ {
            txs.last().amount_cents
        } else {
            0
        })
    }
}

proof fn lemma_sums_bounded(txs: Seq<TxRowView>)
    requires
        amounts_bounded(txs),
    ensures
        -1_000_000_000_000 * txs.len() <= income_sum(txs) <= 1_000_000_000_000 * txs.len(),
        -1_000_000_000_000 * txs.len() <= expense_sum(txs) <= 1_000_000_000_000 * txs.len(),
    decreases txs.len(),
{
    if txs.len() > 0 {
        assert(forall|i: int|
            0 <= i < txs.drop_last().len() ==> (#[trigger] txs.drop_last()[i]) == txs[i]);
        lemma_sums_bounded(txs.drop_last());
    }
}

/// A row placed into a list sorted by update stamp, newest first.
pub open spec fn insert_desc(s: Seq<TxRowView>, x: TxRowView) -> Seq<TxRowView>
    decreases s.len(),
{
    if s.len() == 0 {
        seq![x]
    } else if lex_gt(x.updated_at, s[0].updated_at) {
        seq![x] + s
    } else {
        seq![s[0]] + insert_desc(s.skip(1), x)
    }
}

/// The rows sorted by update stamp, newest first.
pub open spec fn sort_desc(s: Seq<TxRowView>) -> Seq<TxRowView>
    decreases s.len(),
{
    if s.len() == 0 {
        Seq::empty()
    } else {
        insert_desc(sort_desc(s.drop_last()), s.last())
    }
}

/// Inserting at the first position whose element the row beats yields
/// the sorted insertion.
proof fn lemma_insert_desc_split(s: Seq<TxRowView>, x: TxRowView, j: int)
    requires
        0 <= j <= s.len(),
        forall|k: int| 0 <= k < j ==> !lex_gt(x.updated_at, (#[trigger] s[k]).updated_at),
        j < s.len() ==> lex_gt(x.updated_at, s[j].updated_at),
    ensures
        insert_desc(s, x) == s.take(j) + seq![x] + s.skip(j),
    decreases j,
{
    if j == 0 {
        if s.len() == 0 {
            assert(insert_desc(s, x) == seq![x]);
            assert(s.take(0) + seq![x] + s.skip(0) =~= seq![x]);
        } else {
            assert(insert_desc(s, x) == seq![x] + s);
            assert(s.take(0) + seq![x] + s.skip(0) =~= seq![x] + s);
        }
    } else {
        assert(!lex_gt(x.updated_at, s[0].updated_at));
        assert(forall|k: int|
            0 <= k < j - 1 ==> !lex_gt(x.updated_at, (#[trigger] s.skip(1)[k]).updated_at)) by {
            assert(forall|k: int| 0 <= k < s.len() - 1 ==> (#[trigger] s.skip(1)[k]) == s[k + 1]);
        }
        assert(j - 1 < s.skip(1).len() ==> lex_gt(x.updated_at, s.skip(1)[j - 1].updated_at)) by {
            assert(forall|k: int| 0 <= k < s.len() - 1 ==> (#[trigger] s.skip(1)[k]) == s[k + 1]);
        }
        lemma_insert_desc_split(s.skip(1), x, j - 1);
        assert(insert_desc(s, x) == seq![s[0]] + (s.skip(1).take(j - 1) + seq![x] + s.skip(1).skip(
            j - 1,
        )));
        assert(seq![s[0]] + (s.skip(1).take(j - 1) + seq![x] + s.skip(1).skip(j - 1)) =~= s.take(j)
            + seq![x] + s.skip(j));
    }
}

/// Insert a row into a list sorted by update stamp, newest first.
fn insert_sorted(sorted: &mut Vec<TransactionRow>, row: TransactionRow)
    ensures
        tx_views(final(sorted)@) == insert_desc(tx_views(old(sorted)@), row@),
{
    let ghost svs = tx_views(old(sorted)@);
    let mut j: usize = 0;
    while j < sorted.len() && !str_lex_gt(row.updated_at.as_str(), sorted[j].updated_at.as_str())
        invariant
            j <= sorted@.len(),
            sorted@ == old(sorted)@,
            svs == tx_views(sorted@),
            forall|k: int| 0 <= k < j ==> !lex_gt(row@.updated_at, (#[trigger] svs[k]).updated_at),
        decreases sorted@.len() - j,
    {
        proof {
            assert(svs[j as int] == sorted@[j as int]@);
        }
        j = j + 1;
    }
    proof {
        if j < sorted@.len() {
            assert(svs[j as int] == sorted@[j as int]@);
        }
        lemma_insert_desc_split(svs, row@, j as int);
    }
    sorted.insert(j, row);
    proof {
        assert(tx_views(sorted@) =~= svs.take(j as int) + seq![row@] + svs.skip(j as int));
    }
}

/// The label a record is shown under: its description, else its category
/// name, else its payment method, else a generic word.
pub open spec fn label_of(t: TxRowView, cats: Seq<CatView>) -> Seq<char> {
    match t.description {
        Some(d) => d,
        None => match cat_name_for_id(cats, t.category_id) {
            Some(n) => n,
            None => match t.payment_method {
                Some(p) => p,
                None => "Buchung"@,
            },
        },
    }
}

/// The label a record is shown under.
fn label_for(t: &TransactionRow, categories: &Vec<CategoryRow>) -> (r: String)
    ensures
        r@ == label_of(t@, cat_views(categories@)),
{
    match &t.description {
        Some(d) => d.clone(),
        None => {
            match crate::merge::remote_category_name(categories, t.category_id) {
                Some(n) => n,
                None => match &t.payment_method {
                    Some(p) => p.clone(),
                    None => "Buchung".to_owned(),
                },
            }
        },
    }
}

/// Build the lightweight dataset summary an operator decides a conflict
/// with: the record count, the income and expense totals, and the five
/// most recently updated records, newest first.
pub fn build_conflict_summary(txs: &Vec<TransactionRow>, categories: &Vec<CategoryRow>) -> (r:
    SyncConflictSummary)
    requires
        amounts_bounded(tx_views(txs@)),
        txs@.len() <= 1_000_000,
    ensures
        r.tx_count == txs@.len(),
        r.income_total_cents == income_sum(tx_views(txs@)),
        r.expense_total_cents == expense_sum(tx_views(txs@)),
        ({
            let s = sort_desc(tx_views(txs@));
            &&& r.last_items@.len() == (if s.len() < 5 {
                s.len()
            } else {
                5
            })
            &&& forall|i: int|
                0 <= i < r.last_items@.len() ==> {
                    let it = #[trigger] r.last_items@[i];
                    &&& it.date@ == s[i].date
                    &&& it.label@ == label_of(s[i], cat_views(categories@))
                    &&& it.amount_cents == s[i].amount_cents
                    &&& it.tx_type@ == s[i].tx_type
                }
        }),
{
    let ghost tvs = tx_views(txs@);
    let mut income: i64 = 0;
    let mut expense: i64 = 0;
    let mut i: usize = 0;
    proof {
        assert(tvs.take(0) =~= Seq::<TxRowView>::empty());
    }
    while i < txs.len()
        invariant
            i <= txs@.len(),
            txs@.len() <= 1_000_000,
            tvs == tx_views(txs@),
            amounts_bounded(tvs),
            income == income_sum(tvs.take(i as int)),
            expense == expense_sum(tvs.take(i as int)),
        decreases txs@.len() - i,
    {
        proof {
            assert(tvs[i as int] == txs@[i as int]@);
            assert(tvs.take(i as int + 1).drop_last() =~= tvs.take(i as int));
            assert(tvs.take(i as int + 1).last() == tvs[i as int]);
            lemma_sums_bounded(tvs.take(i as int));
            assert(forall|k: int|
                0 <= k < i ==> (#[trigger] tvs.take(i as int)[k]) == tvs[k]);
        }
        let t = &txs[i];
        proof {
            // The two kind labels are distinct words.
            reveal_strlit("INCOME");
            reveal_strlit("EXPENSE");
            assert("INCOME"@.len() == 6);
            assert("EXPENSE"@.len() == 7);
            assert("INCOME"@ != "EXPENSE"@);
        }
        if str_eq(t.tx_type.as_str(), "INCOME") {
            income = income + t.amount_cents;
        } else if str_eq(t.tx_type.as_str(), "EXPENSE") {
            expense = expense + t.amount_cents;
        }
        proof {
            assert(income_sum(tvs.take(i as int + 1)) == income_sum(tvs.take(i as int)) + (if tvs[
                i as int
            ].tx_type == "INCOME"@ {
                tvs[i as int].amount_cents
            } else {
                0
            }));
            assert(expense_sum(tvs.take(i as int + 1)) == expense_sum(tvs.take(i as int)) + (
            if tvs[i as int].tx_type == "EXPENSE"@ {
                tvs[i as int].amount_cents
            } else {
                0
            }));
        }
        i = i + 1;
    }
    proof {
        assert(tvs.take(txs@.len() as int) =~= tvs);
    }

    let mut sorted: Vec<TransactionRow> = Vec::new();
    let mut i: usize = 0;
    proof {
        assert(tvs.take(0) =~= Seq::<TxRowView>::empty());
        assert(tx_views(sorted@) =~= Seq::<TxRowView>::empty());
    }
    while i < txs.len()
        invariant
            i <= txs@.len(),
            tvs == tx_views(txs@),
            tx_views(sorted@) == sort_desc(tvs.take(i as int)),
        decreases txs@.len() - i,
    {
        proof {
            assert(tvs[i as int] == txs@[i as int]@);
            assert(tvs.take(i as int + 1).drop_last() =~= tvs.take(i as int));
            assert(tvs.take(i as int + 1).last() == tvs[i as int]);
        }
        insert_sorted(&mut sorted, txs[i].clone());
        i = i + 1;
    }
    proof {
        assert(tvs.take(txs@.len() as int) =~= tvs);
    }

    let ghost s = sort_desc(tvs);
    let limit: usize = if sorted.len() < 5 {
        sorted.len()
    } else {
        5
    };
    let mut items: Vec<SyncConflictItem> = Vec::new();
    let mut i: usize = 0;
    while i < limit
        invariant
            i <= limit,
            limit <= sorted@.len(),
            limit == (if s.len() < 5 {
                s.len() as int
            } else {
                5int
            }),
            s == sort_desc(tvs),
            tx_views(sorted@) == s,
            items@.len() == i,
            forall|k: int|
                0 <= k < i ==> {
                    let it = #[trigger] items@[k];
                    &&& it.date@ == s[k].date
                    &&& it.label@ == label_of(s[k], cat_views(categories@))
                    &&& it.amount_cents == s[k].amount_cents
                    &&& it.tx_type@ == s[k].tx_type
                },
        decreases limit - i,
    {
        proof {
            assert(s[i as int] == sorted@[i as int]@);
        }
        let t = &sorted[i];
        let label = label_for(t, categories);
        items.push(
            SyncConflictItem {
                date: t.date.clone(),
                label,
                amount_cents: t.amount_cents,
                tx_type: t.tx_type.clone(),
            },
        );
        i = i + 1;
    }

    SyncConflictSummary {
        tx_count: txs.len() as i64,
        income_total_cents: income,
        expense_total_cents: expense,
        last_items: items,
    }
}

} // verus!
