//! The harness lifecycle: idempotent provisioning and seeding
//! (`setup`), and the destructive erase-and-reseed cycle between tests
//! (`reset`), verified against the model store.

use vstd::prelude::*;

use crate::batch::{batch_count, into_batches};
use crate::record::{
    has_pk, key_matches, lookup_attr, record_key_view, same_key, spec_covered, Record,
};
use crate::schema::{
    filters_table_schema, is_filters_schema, is_items_schema, is_parties_schema,
    items_table_schema, lemma_standard_names_distinct, parties_table_schema,
};
use crate::store::{
    all_have_pk, contains_key_view, distinct_keys, lemma_put_seq, lemma_remove_covered_prefix,
    same_key_exec, ModelStore, ModelTable,
};

verus! {

/// Why a lifecycle operation refused to run.
#[derive(Clone, Copy, Debug, PartialEq, Eq, Structural)]
pub enum HarnessError {
    /// The fixture records are unusable: one lacks a partition key, or
    /// two share a composite key.
    InvalidFixtures,
    /// No collection called `items` exists to receive the fixtures.
    MissingItemsTable,
}

/// The index of the first table with the given name, if any.
pub open spec fn find_named(tables: Seq<ModelTable>, name: Seq<char>) -> Option<int>
    decreases tables.len(),
{
    if tables.len() == 0 {
        None
    } else if tables[0].schema.name@ == name {
        Some(0)
    } else {
        match find_named(tables.drop_first(), name) {
            Some(i) => Some(i + 1),
            None => None,
        }
    }
}

/// A first match at `i` pins `find_named` to `Some(i)`.
pub proof fn lemma_find_named_first(tables: Seq<ModelTable>, name: Seq<char>, i: int)
    requires
        0 <= i < tables.len(),
        tables[i].schema.name@ == name,
        forall|j: int| 0 <= j < i ==> #[trigger] tables[j].schema.name@ != name,
    ensures
        find_named(tables, name) == Some(i),
    decreases tables.len(),
{
    if i == 0 {
    } else {
        assert(tables[0].schema.name@ != name);
        assert(forall|j: int|
            0 <= j < tables.drop_first().len() ==> #[trigger] tables.drop_first()[j] == tables[j
                + 1]);
        lemma_find_named_first(tables.drop_first(), name, i - 1);
    }
}

/// No match anywhere pins `find_named` to `None`.
pub proof fn lemma_find_named_none(tables: Seq<ModelTable>, name: Seq<char>)
    requires
        forall|j: int| 0 <= j < tables.len() ==> #[trigger] tables[j].schema.name@ != name,
    ensures
        find_named(tables, name) is None,
    decreases tables.len(),
{
    if tables.len() == 0 {
    } else {
        assert(forall|j: int|
            0 <= j < tables.drop_first().len() ==> #[trigger] tables.drop_first()[j] == tables[j
                + 1]);
        lemma_find_named_none(tables.drop_first(), name);
    }
}

/// Any match at all means `find_named` finds one.
pub proof fn lemma_find_named_present(tables: Seq<ModelTable>, name: Seq<char>, i: int)
    requires
        0 <= i < tables.len(),
        tables[i].schema.name@ == name,
    ensures
        find_named(tables, name) is Some,
    decreases tables.len(),
{
    if tables[0].schema.name@ == name {
    } else {
        assert(i != 0);
        assert(tables.drop_first()[i - 1] == tables[i]);
        lemma_find_named_present(tables.drop_first(), name, i - 1);
    }
}

/// `find_named` reads only the table names.
pub proof fn lemma_find_named_same_names(s1: Seq<ModelTable>, s2: Seq<ModelTable>, name: Seq<char>)
    requires
        s1.len() == s2.len(),
        forall|j: int| 0 <= j < s1.len() ==> #[trigger] s1[j].schema.name@ == s2[j].schema.name@,
    ensures
        find_named(s1, name) == find_named(s2, name),
    decreases s1.len(),
{
    if s1.len() == 0 {
    } else {
        assert(forall|j: int|
            0 <= j < s1.drop_first().len() ==> #[trigger] s1.drop_first()[j] == s1[j + 1]
                && s2.drop_first()[j] == s2[j + 1]);
        lemma_find_named_same_names(s1.drop_first(), s2.drop_first(), name);
    }
}

/// How many scan pages a full erase of `n` records takes, `limit`
/// records a page: one page per `limit` records, and one (empty) page
/// for an empty table.
pub open spec fn erase_scan_calls(n: nat, limit: nat) -> nat
    decreases n,
    when limit >= 1
{
    if n <= limit {
        1
    } else {
        1 + erase_scan_calls((n - limit) as nat, limit)
    }
}

/// How many batch-delete calls a full erase of `n` records takes: each
/// scanned page is deleted in chunks of at most 25 keys.
pub open spec fn erase_delete_calls(n: nat, limit: nat) -> nat
    decreases n,
    when limit >= 1
{
    if n == 0 {
        0
    } else if n <= limit {
        batch_count(n)
    } else {
        batch_count(limit) + erase_delete_calls((n - limit) as nat, limit)
    }
}

/// The erase call counts stay within the record count.
pub proof fn lemma_erase_calls_bounds(n: nat, limit: nat)
    requires
        limit >= 1,
    ensures
        erase_scan_calls(n, limit) <= if n == 0 {
            1nat
        } else {
            n
        },
        erase_delete_calls(n, limit) <= n,
    decreases n,
{
    if n <= limit {
    } else {
        lemma_erase_calls_bounds((n - limit) as nat, limit)
    }
}

/// Erasing more than one batch of records takes more than one
/// batch-delete call, and more records than fit one page take more
/// than one scan page.
pub proof fn lemma_erase_needs_multiple_calls(n: nat, limit: nat)
    requires
        limit >= 1,
        n > 25,
    ensures
        erase_delete_calls(n, limit) >= 2,
        n > limit ==> erase_scan_calls(n, limit) >= 2,
    decreases n,
{
    if n <= limit {
        assert(batch_count(n) >= 2);
    } else {
        assert(batch_count(limit) >= 1);
        lemma_erase_delete_calls_pos((n - limit) as nat, limit);
        assert(erase_scan_calls((n - limit) as nat, limit) >= 1);
    }
}

/// Erasing at least one record takes at least one batch-delete call.
pub proof fn lemma_erase_delete_calls_pos(n: nat, limit: nat)
    requires
        limit >= 1,
        n >= 1,
    ensures
        erase_delete_calls(n, limit) >= 1,
    decreases n,
{
    if n <= limit {
        assert(batch_count(n) >= 1);
    } else {
        assert(batch_count(limit) >= 1);
    }
}

/// The observable cost of erasing one table.
pub struct EraseCounts {
    pub scan_calls: usize,
    pub delete_batch_calls: usize,
}

/// Erases every record of table `t` the way the harness does: scan a
/// page from the cursor, batch-delete the scanned keys in chunks of at
/// most 25, and continue until the backend reports no further cursor.
///
/// Each scanned page is deleted before the next scan, so the resume
/// position is always the front of what remains.
pub fn erase_table(store: &mut ModelStore, t: usize, page_limit: usize) -> (counts: EraseCounts)
    requires
        t < old(store).tables@.len(),
        1 <= page_limit,
        old(store).wf(),
    ensures
        final(store).tables@.len() == old(store).tables@.len(),
        forall|j: int|
            0 <= j < old(store).tables@.len() && j != t ==> final(store).tables@[j] == old(
                store,
            ).tables@[j],
        final(store).tables@[t as int].schema == old(store).tables@[t as int].schema,
        final(store).tables@[t as int].records@.len() == 0,
        final(store).wf(),
        counts.scan_calls == erase_scan_calls(
            old(store).tables@[t as int].records@.len() as nat,
            page_limit as nat,
        ),
        counts.delete_batch_calls == erase_delete_calls(
            old(store).tables@[t as int].records@.len() as nat,
            page_limit as nat,
        ),
{
    let ghost n0 = old(store).tables@[t as int].records@.len() as nat;
    let n0_bound: usize = store.table_len(t);
    proof {
        assert(n0 == n0_bound as nat);
        lemma_erase_calls_bounds(n0, page_limit as nat);
    }
    let mut scan_calls: usize = 0;
    let mut delete_batch_calls: usize = 0;
    loop
        invariant_except_break
            t < store.tables@.len(),
            1 <= page_limit,
            store.tables@.len() == old(store).tables@.len(),
            forall|j: int|
                0 <= j < old(store).tables@.len() && j != t ==> store.tables@[j] == old(
                    store,
                ).tables@[j],
            store.tables@[t as int].schema == old(store).tables@[t as int].schema,
            store.wf(),
            n0 == old(store).tables@[t as int].records@.len(),
            scan_calls + erase_scan_calls(
                store.tables@[t as int].records@.len() as nat,
                page_limit as nat,
            ) == erase_scan_calls(n0, page_limit as nat),
            delete_batch_calls + erase_delete_calls(
                store.tables@[t as int].records@.len() as nat,
                page_limit as nat,
            ) == erase_delete_calls(n0, page_limit as nat),
            erase_scan_calls(n0, page_limit as nat) <= if n0 == 0 {
                1nat
            } else {
                n0
            },
            erase_delete_calls(n0, page_limit as nat) <= n0,
            n0 <= usize::MAX,
        ensures
            t < store.tables@.len(),
            store.tables@.len() == old(store).tables@.len(),
            forall|j: int|
                0 <= j < old(store).tables@.len() && j != t ==> store.tables@[j] == old(
                    store,
                ).tables@[j],
            store.tables@[t as int].schema == old(store).tables@[t as int].schema,
            store.tables@[t as int].records@.len() == 0,
            store.wf(),
            scan_calls == erase_scan_calls(n0, page_limit as nat),
            delete_batch_calls == erase_delete_calls(n0, page_limit as nat),
        decreases store.tables@[t as int].records@.len(),
    {
        let ghost cur = store.tables@[t as int].records@;
        let page = store.scan(t, 0, page_limit);
        scan_calls = scan_calls + 1;
        let ghost p = page.records@.len() as int;

        // Extract the composite key of every scanned record.
        let mut keys: Vec<crate::record::RecordKey> = Vec::new();
        let mut j: usize = 0;
        while j < page.records.len()
            invariant
                j <= page.records@.len(),
                keys@.len() == j,
                t < store.tables@.len(),
                cur == store.tables@[t as int].records@,
                page.records@.len() <= cur.len(),
                forall|i: int| 0 <= i < page.records@.len() ==> page.records@[i]@ == cur[i]@,
                store.wf(),
                forall|i: int| 0 <= i < j ==> key_matches(cur[i], #[trigger] keys@[i]),
            decreases page.records@.len() - j,
        {
            proof {
                assert(has_pk(cur[j as int]));
                assert(record_key_view(page.records@[j as int]) == record_key_view(
                    cur[j as int],
                ));
            }
            match crate::record::record_key_of(&page.records[j]) {
                Some(k) => {
                    keys.push(k);
                },
                None => {
                    proof {
                        assert(false);
                    }
                },
            }
            j = j + 1;
        }

        // Delete the scanned keys in chunks of at most 25.
        let key_batches = into_batches(keys);
        let ghost nb = key_batches@.len() as int;
        let mut bi: usize = 0;
        let ghost pre_delete = cur;
        while bi < key_batches.len()
            invariant
                bi <= nb,
                nb == key_batches@.len(),
                t < store.tables@.len(),
                store.tables@.len() == old(store).tables@.len(),
                forall|j2: int|
                    0 <= j2 < old(store).tables@.len() && j2 != t ==> store.tables@[j2] == old(
                        store,
                    ).tables@[j2],
                store.tables@[t as int].schema == old(store).tables@[t as int].schema,
                store.wf(),
                p <= cur.len(),
                distinct_keys(cur),
                forall|i: int| 0 <= i < p ==> key_matches(cur[i], #[trigger] keys@[i]),
                keys@.len() == p,
                forall|i: int| 0 <= i < nb ==> 0 < #[trigger] key_batches@[i]@.len() <= 25,
                forall|i: int, j2: int|
                    0 <= i < nb && 0 <= j2 < key_batches@[i]@.len()
                        ==> #[trigger] key_batches@[i]@[j2] == keys@[25 * i + j2],
                nb == batch_count(p as nat),
                forall|i: int|
                    0 <= i < nb ==> #[trigger] key_batches@[i]@.len() == if 25 * (i + 1) <= p {
                        25int
                    } else {
                        p - 25 * i
                    },
                store.tables@[t as int].records@ == cur.skip(
                    deleted_before(key_batches@, bi as int),
                ),
                0 <= deleted_before(key_batches@, bi as int) <= p,
            decreases nb - bi,
        {
            let ghost d = deleted_before(key_batches@, bi as int);
            let ghost c = key_batches@[bi as int]@.len() as int;
            proof {
                lemma_deleted_before_step(key_batches@, bi as int);
                lemma_deleted_before_sizes(key_batches@, p, bi as int);
                lemma_deleted_before_sizes(key_batches@, p, bi + 1);
                let remaining = cur.skip(d);
                assert forall|i: int| 0 <= i < c implies spec_covered(
                    #[trigger] remaining[i],
                    key_batches@[bi as int]@,
                ) by {
                    assert(remaining[i] == cur[d + i]);
                    assert(key_batches@[bi as int]@[i] == keys@[d + i]);
                    assert(key_matches(cur[d + i], keys@[d + i]));
                }
                assert forall|i: int| c <= i < remaining.len() implies !spec_covered(
                    #[trigger] remaining[i],
                    key_batches@[bi as int]@,
                ) by {
                    if spec_covered(remaining[i], key_batches@[bi as int]@) {
                        let w = choose|w: int|
                            0 <= w < key_batches@[bi as int]@.len() && key_matches(
                                remaining[i],
                                key_batches@[bi as int]@[w],
                            );
                        assert(key_batches@[bi as int]@[w] == keys@[d + w]);
                        assert(key_matches(cur[d + w], keys@[d + w]));
                        assert(remaining[i] == cur[d + i]);
                        assert(record_key_view(cur[d + i]) == record_key_view(cur[d + w]));
                        assert(same_key(cur[d + w], cur[d + i]));
                        assert(false);
                    }
                }
            }
            let kb = &key_batches[bi];
            store.batch_delete(t, kb);
            proof {
                lemma_remove_covered_prefix(cur.skip(d), key_batches@[bi as int]@, c);
                assert(cur.skip(d).skip(c) =~= cur.skip(d + c));
            }
            bi = bi + 1;
        }
        delete_batch_calls = delete_batch_calls + key_batches.len();

        proof {
            lemma_deleted_before_sizes(key_batches@, p, nb);
            assert(store.tables@[t as int].records@ == cur.skip(p));
            assert(key_batches@.len() == batch_count(p as nat));
            // relate to the erase count recurrences
            if cur.len() == 0 {
                assert(p == 0);
                assert(erase_scan_calls(0, page_limit as nat) == 1);
                assert(erase_delete_calls(0, page_limit as nat) == 0);
                assert(batch_count(0) == 0);
            } else if cur.len() <= page_limit {
                assert(p == cur.len());
                assert(erase_scan_calls(cur.len() as nat, page_limit as nat) == 1);
                assert(erase_delete_calls(cur.len() as nat, page_limit as nat) == batch_count(
                    cur.len() as nat,
                ));
            } else {
                assert(p == page_limit);
                assert(erase_scan_calls(cur.len() as nat, page_limit as nat) == 1
                    + erase_scan_calls((cur.len() - page_limit) as nat, page_limit as nat));
                assert(erase_delete_calls(cur.len() as nat, page_limit as nat) == batch_count(
                    page_limit as nat,
                ) + erase_delete_calls((cur.len() - page_limit) as nat, page_limit as nat));
            }
            assert(cur.skip(p).len() == cur.len() - p);
        }

        match page.next_cursor {
            Some(_) => {
            },
            None => {
                proof {
                    assert(store.tables@[t as int].records@.len() == 0);
                }
                break ;
            },
        }
    }
    EraseCounts { scan_calls, delete_batch_calls }
}

/// Checks that the fixture records are usable as a baseline: every
/// record carries a partition key and no two records share a composite
/// key.
pub fn check_fixture_records(records: &Vec<Record>) -> (ok: bool)
    ensures
        ok == (all_have_pk(records@) && distinct_keys(records@)),
{
    let mut i: usize = 0;
    while i < records.len()
        invariant
            i <= records@.len(),
            forall|a: int| 0 <= a < i ==> has_pk(#[trigger] records@[a]),
            forall|a: int, b: int| 0 <= a < i && a < b < records@.len() ==> !same_key(records@[a], records@[b]),
        decreases records@.len() - i,
    {
        if lookup_attr(&records[i], "pk").is_none() {
            proof {
                assert(!has_pk(records@[i as int]));
            }
            return false;
        }
        let mut j: usize = i + 1;
        while j < records.len()
            invariant
                i < j <= records@.len(),
                forall|b: int| i < b < j ==> !same_key(records@[i as int], #[trigger] records@[b]),
            decreases records@.len() - j,
        {
            if same_key_exec(&records[i], &records[j]) {
                proof {
                    assert(same_key(records@[i as int], records@[j as int]));
                    assert(!distinct_keys(records@));
                }
                return false;
            }
            j = j + 1;
        }
        i = i + 1;
    }
    true
}

/// Writes the fixture records into the empty table `t` in batch-write
/// calls of at most 25 records each; returns how many calls were made:
/// the record count divided by 25, rounded up.
pub fn write_fixtures(store: &mut ModelStore, t: usize, records: Vec<Record>) -> (calls: usize)
    requires
        t < old(store).tables@.len(),
        old(store).wf(),
        all_have_pk(records@),
        distinct_keys(records@),
        old(store).tables@[t as int].records@.len() == 0,
    ensures
        final(store).tables@.len() == old(store).tables@.len(),
        forall|j: int|
            0 <= j < old(store).tables@.len() && j != t ==> final(store).tables@[j] == old(
                store,
            ).tables@[j],
        final(store).tables@[t as int].schema == old(store).tables@[t as int].schema,
        final(store).tables@[t as int].records@ == records@,
        final(store).wf(),
        calls == batch_count(records@.len() as nat),
{
    let ghost all = records@;
    let ghost n = all.len() as int;
    let batches = into_batches(records);
    let nb_bound: usize = batches.len();
    let ghost bs = batches@;
    let ghost nb = bs.len() as int;
    proof {
        assert(nb == nb_bound as int);
    }
    let mut rem = batches;
    let mut done: usize = 0;
    proof {
        assert(old(store).tables@[t as int].records@ =~= all.take(0));
        assert(rem@ =~= bs.skip(0));
    }
    while rem.len() > 0
        invariant
            t < store.tables@.len(),
            store.tables@.len() == old(store).tables@.len(),
            forall|j: int|
                0 <= j < old(store).tables@.len() && j != t ==> store.tables@[j] == old(
                    store,
                ).tables@[j],
            store.tables@[t as int].schema == old(store).tables@[t as int].schema,
            store.wf(),
            all_have_pk(all),
            distinct_keys(all),
            n == all.len(),
            nb == bs.len(),
            nb == batch_count(n as nat),
            forall|i: int| 0 <= i < nb ==> 0 < #[trigger] bs[i]@.len() <= 25,
            forall|i: int|
                0 <= i < nb ==> #[trigger] bs[i]@.len() == if 25 * (i + 1) <= n {
                    25int
                } else {
                    n - 25 * i
                },
            forall|i: int, j: int|
                0 <= i < nb && 0 <= j < bs[i]@.len() ==> #[trigger] bs[i]@[j] == all[25 * i + j],
            done <= nb,
            nb == nb_bound as int,
            rem@ == bs.skip(done as int),
            store.tables@[t as int].records@ == all.take(
                if done < nb {
                    25 * done as int
                } else {
                    n
                },
            ),
        decreases rem@.len(),
    {
        let ghost d = done as int;
        let ghost written = if d < nb {
            25 * d
        } else {
            n
        };
        let ghost pre = store.tables@[t as int].records@;
        let batch = rem.remove(0);
        proof {
            assert(rem@ =~= bs.skip(d).drop_first());
            assert(bs.skip(d).drop_first() =~= bs.skip(d + 1));
            assert(batch == bs[d]);
            assert(d < nb);
            assert(written == 25 * d);
            assert(batch@.len() <= 25);
        }
        store.batch_write(t, batch);
        proof {
            let c = bs[d]@.len() as int;
            // the batch is the slice of `all` from 25*d on
            assert(forall|j: int| 0 <= j < c ==> #[trigger] bs[d]@[j] == all[25 * d + j]);
            assert(all_have_pk(bs[d]@)) by {
                assert(forall|j: int|
                    0 <= j < c ==> has_pk(#[trigger] bs[d]@[j]) == has_pk(all[25 * d + j]));
            }
            assert(distinct_keys(bs[d]@)) by {
                assert forall|a: int, b: int| 0 <= a < b < c implies !same_key(
                    bs[d]@[a],
                    bs[d]@[b],
                ) by {
                    assert(bs[d]@[a] == all[25 * d + a]);
                    assert(bs[d]@[b] == all[25 * d + b]);
                    assert(!same_key(all[25 * d + a], all[25 * d + b]));
                }
            }
            assert forall|kv: (Option<Seq<char>>, Option<Seq<char>>)|
                contains_key_view(pre, kv) implies !contains_key_view(bs[d]@, kv) by {
                if contains_key_view(bs[d]@, kv) {
                    let a = choose|a: int|
                        0 <= a < pre.len() && record_key_view(pre[a]) == kv;
                    let b = choose|b: int|
                        0 <= b < bs[d]@.len() && record_key_view(bs[d]@[b]) == kv;
                    assert(pre[a] == all[a]);
                    assert(bs[d]@[b] == all[25 * d + b]);
                    assert(a < written);
                    assert(!same_key(all[a], all[25 * d + b]));
                    assert(false);
                }
            }
            lemma_put_seq(pre, bs[d]@);
            assert(store.tables@[t as int].records@ =~= pre + bs[d]@);
            // pre + batch is the next prefix of `all`
            let w2 = if d + 1 < nb {
                25 * (d + 1)
            } else {
                n
            };
            assert(w2 == written + c);
            assert(pre + bs[d]@ =~= all.take(w2)) by {
                assert(forall|j: int| 0 <= j < written ==> (pre + bs[d]@)[j] == all[j]);
                assert(forall|j: int|
                    written <= j < w2 ==> (pre + bs[d]@)[j] == bs[d]@[j - written]);
            }
        }
        done = done + 1;
    }
    proof {
        assert(bs.skip(done as int).len() == 0);
        assert(done == nb);
        if nb == 0 {
            assert(all.take(if (done as int) < nb {
                25 * done as int
            } else {
                n
            }) =~= all);
        } else {
            assert(all.take(n) =~= all);
        }
    }
    done
}

/// Establishes the baseline the tests start from: drops every existing
/// table, creates the three standard collections afresh, and writes the
/// fixture records into the `items` collection in batches of at most
/// 25.  Returns how many batch-write calls seeding took.  Refuses
/// unusable fixtures and then leaves the store untouched.
pub fn setup(store: &mut ModelStore, fixtures: Vec<Record>) -> (res: Result<usize, HarnessError>)
    ensures
        match res {
            Ok(calls) => {
                &&& all_have_pk(fixtures@) && distinct_keys(fixtures@)
                &&& final(store).tables@.len() == 3
                &&& is_parties_schema(final(store).tables@[0].schema)
                &&& is_items_schema(final(store).tables@[1].schema)
                &&& is_filters_schema(final(store).tables@[2].schema)
                &&& final(store).tables@[0].records@.len() == 0
                &&& final(store).tables@[1].records@ == fixtures@
                &&& final(store).tables@[2].records@.len() == 0
                &&& final(store).wf()
                &&& calls == batch_count(fixtures@.len() as nat)
            },
            Err(e) => {
                &&& e is InvalidFixtures
                &&& !(all_have_pk(fixtures@) && distinct_keys(fixtures@))
                &&& *final(store) == *old(store)
            },
        },
{
    if !check_fixture_records(&fixtures) {
        return Err(HarnessError::InvalidFixtures);
    }
    store.delete_all_tables();
    store.create_table(parties_table_schema());
    store.create_table(items_table_schema());
    store.create_table(filters_table_schema());
    proof {
        lemma_standard_names_distinct();
    }
    let ti = match store.find_table("items") {
        Some(i) => i,
        None => {
            proof {
                assert(store.tables@[1].schema.name@ == "items"@);
                assert(false);
            }
            0
        },
    };
    proof {
        assert(store.tables@[0].schema.name@ == "parties"@);
        assert(ti != 0);
        assert(ti == 1);
    }
    let calls = write_fixtures(store, ti, fixtures);
    Ok(calls)
}

/// Restores the baseline between tests: erases every record of every
/// table by paginated scan and batch-delete, then rewrites the fixture
/// records into the `items` collection.  Returns how many batch-write
/// calls the reseeding took.  Refuses unusable fixtures before touching
/// the store, and reports a missing `items` collection after erasing.
pub fn reset(store: &mut ModelStore, fixtures: Vec<Record>, page_limit: usize) -> (res: Result<
    usize,
    HarnessError,
>)
    requires
        old(store).wf(),
        1 <= page_limit,
    ensures
        final(store).tables@.len() == old(store).tables@.len(),
        forall|j: int|
            0 <= j < old(store).tables@.len() ==> #[trigger] final(store).tables@[j].schema == old(
                store,
            ).tables@[j].schema,
        final(store).wf(),
        match res {
            Ok(calls) => {
                &&& all_have_pk(fixtures@) && distinct_keys(fixtures@)
                &&& {
                    let ti = find_named(old(store).tables@, "items"@);
                    &&& ti is Some
                    &&& final(store).tables@[ti.unwrap()].records@ == fixtures@
                    &&& forall|j: int|
                        0 <= j < old(store).tables@.len() && j != ti.unwrap()
                            ==> #[trigger] final(store).tables@[j].records@.len() == 0
                }
                &&& calls == batch_count(fixtures@.len() as nat)
            },
            Err(e) => match e {
                HarnessError::InvalidFixtures => {
                    &&& !(all_have_pk(fixtures@) && distinct_keys(fixtures@))
                    &&& *final(store) == *old(store)
                },
                HarnessError::MissingItemsTable => {
                    &&& all_have_pk(fixtures@) && distinct_keys(fixtures@)
                    &&& find_named(old(store).tables@, "items"@) is None
                    &&& forall|j: int|
                        0 <= j < old(store).tables@.len()
                            ==> #[trigger] final(store).tables@[j].records@.len() == 0
                },
            },
        },
{
    if !check_fixture_records(&fixtures) {
        return Err(HarnessError::InvalidFixtures);
    }
    let mut t: usize = 0;
    let count = store.table_count();
    while t < count
        invariant
            t <= count,
            1 <= page_limit,
            count == old(store).tables@.len(),
            store.tables@.len() == old(store).tables@.len(),
            forall|j: int|
                0 <= j < old(store).tables@.len() ==> #[trigger] store.tables@[j].schema == old(
                    store,
                ).tables@[j].schema,
            forall|j: int| 0 <= j < t ==> #[trigger] store.tables@[j].records@.len() == 0,
            store.wf(),
        decreases count - t,
    {
        let _ = erase_table(store, t, page_limit);
        t = t + 1;
    }
    proof {
        assert(forall|j: int|
            0 <= j < store.tables@.len() ==> #[trigger] store.tables@[j].schema.name@ == old(
                store,
            ).tables@[j].schema.name@);
        lemma_find_named_same_names(store.tables@, old(store).tables@, "items"@);
    }
    match store.find_table("items") {
        None => {
            proof {
                lemma_find_named_none(store.tables@, "items"@);
            }
            Err(HarnessError::MissingItemsTable)
        },
        Some(ti) => {
            proof {
                lemma_find_named_first(store.tables@, "items"@, ti as int);
            }
            let calls = write_fixtures(store, ti, fixtures);
            Ok(calls)
        },
    }
}

/// How many keys the first `bi` key batches hold together.
pub open spec fn deleted_before(batches: Seq<Vec<crate::record::RecordKey>>, bi: int) -> int
    decreases bi,
{
    if bi <= 0 {
        0
    } else {
        deleted_before(batches, bi - 1) + batches[bi - 1]@.len()
    }
}

/// Unfolds `deleted_before` one step from the front of the remainder.
pub proof fn lemma_deleted_before_step(batches: Seq<Vec<crate::record::RecordKey>>, bi: int)
    requires
        0 <= bi < batches.len(),
    ensures
        deleted_before(batches, bi + 1) == deleted_before(batches, bi) + batches[bi]@.len(),
{
}

/// With the batch sizes `into_batches` produces, the first `k` batches
/// together hold the first `min(25 k, p)` keys.
pub proof fn lemma_deleted_before_sizes(
    batches: Seq<Vec<crate::record::RecordKey>>,
    p: int,
    k: int,
)
    requires
        p >= 0,
        0 <= k <= batches.len(),
        batches.len() == batch_count(p as nat),
        forall|i: int|
            0 <= i < batches.len() ==> #[trigger] batches[i]@.len() == if 25 * (i + 1) <= p {
                25int
            } else {
                p - 25 * i
            },
    ensures
        deleted_before(batches, k) == if 25 * k <= p {
            25 * k
        } else {
            p
        },
    decreases k,
{
    if k == 0 {
    } else {
        lemma_deleted_before_sizes(batches, p, k - 1);
        assert(deleted_before(batches, k) == deleted_before(batches, k - 1) + batches[k
            - 1]@.len());
        if 25 * k <= p {
        } else {
            if 25 * (k - 1) > p {
                assert(batches[k - 1]@.len() == p - 25 * (k - 1));
                assert(batches[k - 1]@.len() >= 0);
                assert(false);
            }
        }
    }
}

} // verus!
