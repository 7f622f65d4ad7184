//! An explicit model of the key-value store: named tables of records
//! with put, batch-delete and cursor-paginated scan semantics.
//!
//! The harness's lifecycle functions are verified against this model;
//! the process around the library replays the same batches and pages
//! against the emulated backend.

use vstd::prelude::*;

use crate::record::{
    covered_by, has_pk, record_key_view, same_key, spec_covered, str_eq, Record, RecordKey,
};
use crate::schema::TableSchema;

verus! {

/// The result of putting one record: the first record with the same
/// composite key is replaced, otherwise the record is appended.
pub open spec fn put_one(recs: Seq<Record>, r: Record) -> Seq<Record>
    decreases recs.len(),
{
    if recs.len() == 0 {
        seq![r]
    } else if same_key(recs.first(), r) {
        seq![r] + recs.drop_first()
    } else {
        seq![recs.first()] + put_one(recs.drop_first(), r)
    }
}

/// The result of putting a batch of records, in order.
pub open spec fn put_seq(recs: Seq<Record>, batch: Seq<Record>) -> Seq<Record>
    decreases batch.len(),
{
    if batch.len() == 0 {
        recs
    } else {
        put_seq(put_one(recs, batch.first()), batch.drop_first())
    }
}

/// The result of deleting every record whose composite key appears in
/// `keys`, keeping the remaining records in order.
pub open spec fn remove_covered(recs: Seq<Record>, keys: Seq<RecordKey>) -> Seq<Record>
    decreases recs.len(),
{
    if recs.len() == 0 {
        Seq::empty()
    } else if spec_covered(recs.first(), keys) {
        remove_covered(recs.drop_first(), keys)
    } else {
        seq![recs.first()] + remove_covered(recs.drop_first(), keys)
    }
}

/// Whether some record in `recs` carries the composite key `kv`.
pub open spec fn contains_key_view(
    recs: Seq<Record>,
    kv: (Option<Seq<char>>, Option<Seq<char>>),
) -> bool {
    exists|i: int| 0 <= i < recs.len() && record_key_view(recs[i]) == kv
}

/// No two records in `recs` carry the same composite key.
pub open spec fn distinct_keys(recs: Seq<Record>) -> bool {
    forall|i: int, j: int| 0 <= i < j < recs.len() ==> !same_key(recs[i], recs[j])
}

/// Every record in `recs` carries a partition key.
pub open spec fn all_have_pk(recs: Seq<Record>) -> bool {
    forall|i: int| 0 <= i < recs.len() ==> has_pk(#[trigger] recs[i])
}

/// Putting one record keeps well-formedness, touches no other key, and
/// grows the length by one exactly when the key was absent.
pub proof fn lemma_put_one(recs: Seq<Record>, r: Record)
    requires
        distinct_keys(recs),
        all_have_pk(recs),
        has_pk(r),
    ensures
        distinct_keys(put_one(recs, r)),
        all_have_pk(put_one(recs, r)),
        forall|kv: (Option<Seq<char>>, Option<Seq<char>>)|
            #[trigger] contains_key_view(put_one(recs, r), kv) <==> (contains_key_view(recs, kv)
                || kv == record_key_view(r)),
        put_one(recs, r).len() == if contains_key_view(recs, record_key_view(r)) {
            recs.len() as int
        } else {
            recs.len() + 1 as int
        },
        contains_key_view(recs, record_key_view(r)) <==> exists|i: int|
            0 <= i < recs.len() && same_key(recs[i], r),
    decreases recs.len(),
{
    if recs.len() == 0 {
        assert(put_one(recs, r) =~= seq![r]);
        assert forall|kv: (Option<Seq<char>>, Option<Seq<char>>)|
            #[trigger] contains_key_view(seq![r], kv) <==> kv == record_key_view(r) by {
            if kv == record_key_view(r) {
                assert(record_key_view(seq![r][0]) == kv);
            }
        }
    } else if same_key(recs.first(), r) {
        let res = seq![r] + recs.drop_first();
        assert(put_one(recs, r) == res);
        assert forall|kv: (Option<Seq<char>>, Option<Seq<char>>)|
            #[trigger] contains_key_view(res, kv) implies (contains_key_view(recs, kv) || kv
            == record_key_view(r)) by {
            let i = choose|i: int| 0 <= i < res.len() && record_key_view(res[i]) == kv;
            if i > 0 {
                assert(res[i] == recs[i]);
                assert(contains_key_view(recs, kv));
            }
        }
        assert forall|kv: (Option<Seq<char>>, Option<Seq<char>>)|
            (contains_key_view(recs, kv) || kv == record_key_view(r)) implies #[trigger]
            contains_key_view(res, kv) by {
            if kv == record_key_view(r) {
                assert(record_key_view(res[0]) == kv);
            } else {
                let i = choose|i: int| 0 <= i < recs.len() && record_key_view(recs[i]) == kv;
                assert(i != 0);
                assert(res[i] == recs[i]);
            }
        }
        assert(contains_key_view(recs, record_key_view(r))) by {
            assert(record_key_view(recs[0]) == record_key_view(r));
        }
        assert forall|i: int, j: int| 0 <= i < j < res.len() implies !same_key(
            res[i],
            res[j],
        ) by {
            assert(res[j] == recs.drop_first()[j - 1]);
            assert(recs.drop_first()[j - 1] == recs[j]);
            if i == 0 {
                assert(same_key(recs[0], r));
                assert(!same_key(recs[0], recs[j]));
            } else {
                assert(res[i] == recs.drop_first()[i - 1]);
                assert(recs.drop_first()[i - 1] == recs[i]);
                assert(!same_key(recs[i], recs[j]));
            }
        }
    } else {
        let rest = put_one(recs.drop_first(), r);
        let res = seq![recs.first()] + rest;
        assert(put_one(recs, r) == res);
        assert(distinct_keys(recs.drop_first())) by {
            assert(forall|i: int, j: int|
                0 <= i < j < recs.drop_first().len() ==> recs.drop_first()[i] == recs[i + 1]
                    && recs.drop_first()[j] == recs[j + 1]);
        }
        assert(all_have_pk(recs.drop_first())) by {
            assert(forall|i: int|
                0 <= i < recs.drop_first().len() ==> #[trigger] recs.drop_first()[i] == recs[i
                    + 1]);
        }
        lemma_put_one(recs.drop_first(), r);
        // key-membership characterization
        assert forall|kv: (Option<Seq<char>>, Option<Seq<char>>)|
            #[trigger] contains_key_view(res, kv) implies (contains_key_view(recs, kv) || kv
            == record_key_view(r)) by {
            let i = choose|i: int| 0 <= i < res.len() && record_key_view(res[i]) == kv;
            if i == 0 {
                assert(record_key_view(recs[0]) == kv);
            } else {
                assert(res[i] == rest[i - 1]);
                assert(contains_key_view(rest, kv));
            }
        }
        assert forall|kv: (Option<Seq<char>>, Option<Seq<char>>)|
            (contains_key_view(recs, kv) || kv == record_key_view(r)) implies #[trigger]
            contains_key_view(res, kv) by {
            if kv == record_key_view(r) {
                assert(contains_key_view(rest, kv));
                let i = choose|i: int| 0 <= i < rest.len() && record_key_view(rest[i]) == kv;
                assert(record_key_view(res[i + 1]) == kv);
            } else {
                let i = choose|i: int| 0 <= i < recs.len() && record_key_view(recs[i]) == kv;
                if i == 0 {
                    assert(record_key_view(res[0]) == kv);
                } else {
                    assert(recs.drop_first()[i - 1] == recs[i]);
                    assert(contains_key_view(recs.drop_first(), kv));
                    assert(contains_key_view(rest, kv));
                    let j = choose|j: int| 0 <= j < rest.len() && record_key_view(rest[j]) == kv;
                    assert(record_key_view(res[j + 1]) == kv);
                }
            }
        }
        // distinctness
        assert forall|i: int, j: int| 0 <= i < j < res.len() implies !same_key(res[i], res[j]) by {
            if i == 0 {
                assert(res[j] == rest[j - 1]);
                assert(record_key_view(rest[j - 1]) == record_key_view(res[j]));
                if same_key(res[0], res[j]) {
                    assert(contains_key_view(rest, record_key_view(recs[0])));
                    if record_key_view(recs[0]) == record_key_view(r) {
                        assert(same_key(recs.first(), r));
                    } else {
                        assert(contains_key_view(recs.drop_first(), record_key_view(recs[0])));
                        let m = choose|m: int|
                            0 <= m < recs.drop_first().len() && record_key_view(
                                recs.drop_first()[m],
                            ) == record_key_view(recs[0]);
                        assert(recs.drop_first()[m] == recs[m + 1]);
                        assert(same_key(recs[0], recs[m + 1]));
                    }
                }
            } else {
                assert(res[i] == rest[i - 1] && res[j] == rest[j - 1]);
            }
        }
        // all_have_pk
        assert forall|i: int| 0 <= i < res.len() implies has_pk(#[trigger] res[i]) by {
            if i == 0 {
                assert(res[0] == recs[0]);
            } else {
                assert(res[i] == rest[i - 1]);
            }
        }
        // membership of r's key in recs
        assert(contains_key_view(recs, record_key_view(r)) <==> exists|i: int|
            0 <= i < recs.len() && same_key(recs[i], r)) by {
            if contains_key_view(recs, record_key_view(r)) {
                let i = choose|i: int|
                    0 <= i < recs.len() && record_key_view(recs[i]) == record_key_view(r);
                assert(same_key(recs[i], r));
            }
            if exists|i: int| 0 <= i < recs.len() && same_key(recs[i], r) {
                let i = choose|i: int| 0 <= i < recs.len() && same_key(recs[i], r);
                assert(record_key_view(recs[i]) == record_key_view(r));
            }
        }
        // length
        if contains_key_view(recs, record_key_view(r)) {
            assert(contains_key_view(recs.drop_first(), record_key_view(r))) by {
                let i = choose|i: int|
                    0 <= i < recs.len() && record_key_view(recs[i]) == record_key_view(r);
                assert(i != 0);
                assert(recs.drop_first()[i - 1] == recs[i]);
            }
        } else {
            assert(!contains_key_view(recs.drop_first(), record_key_view(r))) by {
                if contains_key_view(recs.drop_first(), record_key_view(r)) {
                    let i = choose|i: int|
                        0 <= i < recs.drop_first().len() && record_key_view(recs.drop_first()[i])
                            == record_key_view(r);
                    assert(recs.drop_first()[i] == recs[i + 1]);
                    assert(contains_key_view(recs, record_key_view(r)));
                }
            }
        }
    }
}

/// Putting a batch of keyed records keeps well-formedness; if all the
/// batch keys are fresh and pairwise distinct, the batch is appended
/// whole.
pub proof fn lemma_put_seq(recs: Seq<Record>, batch: Seq<Record>)
    requires
        distinct_keys(recs),
        all_have_pk(recs),
        all_have_pk(batch),
    ensures
        distinct_keys(put_seq(recs, batch)),
        all_have_pk(put_seq(recs, batch)),
        forall|kv: (Option<Seq<char>>, Option<Seq<char>>)|
            #[trigger] contains_key_view(put_seq(recs, batch), kv) <==> (contains_key_view(
                recs,
                kv,
            ) || contains_key_view(batch, kv)),
        (distinct_keys(batch) && forall|kv: (Option<Seq<char>>, Option<Seq<char>>)|
            contains_key_view(recs, kv) ==> !contains_key_view(batch, kv)) ==> put_seq(recs, batch)
            =~= recs + batch,
    decreases batch.len(),
{
    if batch.len() == 0 {
        assert(put_seq(recs, batch) == recs);
        assert(forall|kv: (Option<Seq<char>>, Option<Seq<char>>)|
            !contains_key_view(batch, kv));
        assert(recs + batch =~= recs);
    } else {
        let b0 = batch.first();
        let bs = batch.drop_first();
        lemma_put_one(recs, b0);
        let recs1 = put_one(recs, b0);
        assert(all_have_pk(bs)) by {
            assert(forall|i: int| 0 <= i < bs.len() ==> #[trigger] bs[i] == batch[i + 1]);
        }
        lemma_put_seq(recs1, bs);
        assert(put_seq(recs, batch) == put_seq(recs1, bs));
        // membership: keys of batch = {key(b0)} ∪ keys(bs)
        assert forall|kv: (Option<Seq<char>>, Option<Seq<char>>)|
            #[trigger] contains_key_view(batch, kv) <==> (kv == record_key_view(b0)
                || contains_key_view(bs, kv)) by {
            if contains_key_view(batch, kv) {
                let i = choose|i: int| 0 <= i < batch.len() && record_key_view(batch[i]) == kv;
                if i == 0 {
                    assert(kv == record_key_view(b0));
                } else {
                    assert(bs[i - 1] == batch[i]);
                    assert(contains_key_view(bs, kv));
                }
            }
            if kv == record_key_view(b0) {
                assert(record_key_view(batch[0]) == kv);
            }
            if contains_key_view(bs, kv) {
                let i = choose|i: int| 0 <= i < bs.len() && record_key_view(bs[i]) == kv;
                assert(batch[i + 1] == bs[i]);
                assert(contains_key_view(batch, kv));
            }
        }
        // fresh-and-distinct case
        if distinct_keys(batch) && forall|kv: (Option<Seq<char>>, Option<Seq<char>>)|
            contains_key_view(recs, kv) ==> !contains_key_view(batch, kv) {
            assert(!contains_key_view(recs, record_key_view(b0))) by {
                assert(record_key_view(batch[0]) == record_key_view(b0));
            }
            assert(recs1 =~= recs.push(b0)) by {
                lemma_put_one_fresh(recs, b0);
            }
            assert(distinct_keys(bs)) by {
                assert(forall|i: int, j: int|
                    0 <= i < j < bs.len() ==> bs[i] == batch[i + 1] && bs[j] == batch[j + 1]);
            }
            assert forall|kv: (Option<Seq<char>>, Option<Seq<char>>)|
                contains_key_view(recs1, kv) implies !contains_key_view(bs, kv) by {
                if contains_key_view(bs, kv) {
                    if kv == record_key_view(b0) {
                        let i = choose|i: int|
                            0 <= i < bs.len() && record_key_view(bs[i]) == kv;
                        assert(same_key(batch[0], batch[i + 1]));
                        assert(false);
                    } else {
                        assert(contains_key_view(recs, kv));
                        assert(contains_key_view(batch, kv));
                        assert(false);
                    }
                }
            }
            assert(put_seq(recs1, bs) =~= recs1 + bs);
            assert(recs.push(b0) + bs =~= recs + batch) by {
                assert(forall|i: int|
                    0 <= i < bs.len() ==> #[trigger] bs[i] == batch[i + 1]);
            }
        }
    }
}

/// Putting a record whose key is absent appends it.
pub proof fn lemma_put_one_fresh(recs: Seq<Record>, r: Record)
    requires
        !contains_key_view(recs, record_key_view(r)),
    ensures
        put_one(recs, r) =~= recs.push(r),
    decreases recs.len(),
{
    if recs.len() == 0 {
    } else {
        assert(record_key_view(recs[0]) != record_key_view(r));
        assert(!same_key(recs.first(), r));
        assert(!contains_key_view(recs.drop_first(), record_key_view(r))) by {
            if contains_key_view(recs.drop_first(), record_key_view(r)) {
                let i = choose|i: int|
                    0 <= i < recs.drop_first().len() && record_key_view(recs.drop_first()[i])
                        == record_key_view(r);
                assert(recs.drop_first()[i] == recs[i + 1]);
                assert(contains_key_view(recs, record_key_view(r)));
            }
        }
        lemma_put_one_fresh(recs.drop_first(), r);
        assert(put_one(recs, r) =~= seq![recs.first()] + recs.drop_first().push(r));
        assert(seq![recs.first()] + recs.drop_first().push(r) =~= recs.push(r));
    }
}

/// Deleting by keys keeps exactly the uncovered records, in order.
pub proof fn lemma_remove_covered(recs: Seq<Record>, keys: Seq<RecordKey>)
    ensures
        remove_covered(recs, keys).len() <= recs.len(),
        forall|i: int|
            0 <= i < remove_covered(recs, keys).len() ==> !spec_covered(
                #[trigger] remove_covered(recs, keys)[i],
                keys,
            ),
        forall|i: int|
            0 <= i < remove_covered(recs, keys).len() ==> exists|j: int|
                0 <= j < recs.len() && #[trigger] remove_covered(recs, keys)[i] == recs[j],
        (forall|i: int| 0 <= i < recs.len() ==> !spec_covered(#[trigger] recs[i], keys))
            ==> remove_covered(recs, keys) =~= recs,
    decreases recs.len(),
{
    if recs.len() == 0 {
    } else {
        lemma_remove_covered(recs.drop_first(), keys);
        let rest = remove_covered(recs.drop_first(), keys);
        assert(forall|i: int|
            0 <= i < recs.drop_first().len() ==> #[trigger] recs.drop_first()[i] == recs[i + 1]);
        if spec_covered(recs.first(), keys) {
            assert(remove_covered(recs, keys) == rest);
        } else {
            let res = seq![recs.first()] + rest;
            assert(remove_covered(recs, keys) == res);
            assert forall|i: int| 0 <= i < res.len() implies !spec_covered(
                #[trigger] res[i],
                keys,
            ) by {
                if i > 0 {
                    assert(res[i] == rest[i - 1]);
                }
            }
            assert forall|i: int| 0 <= i < res.len() implies exists|j: int|
                0 <= j < recs.len() && #[trigger] res[i] == recs[j] by {
                if i == 0 {
                    assert(res[0] == recs[0]);
                } else {
                    assert(res[i] == rest[i - 1]);
                    let j = choose|j: int|
                        0 <= j < recs.drop_first().len() && rest[i - 1] == recs.drop_first()[j];
                    assert(res[i] == recs[j + 1]);
                }
            }
            if forall|i: int| 0 <= i < recs.len() ==> !spec_covered(#[trigger] recs[i], keys) {
                assert(forall|i: int|
                    0 <= i < recs.drop_first().len() ==> !spec_covered(
                        #[trigger] recs.drop_first()[i],
                        keys,
                    ));
                assert(rest =~= recs.drop_first());
                assert(res =~= recs);
            }
        }
    }
}

/// Removing an element and inserting another at the same place is an
/// update.
pub proof fn lemma_remove_insert<A>(s: Seq<A>, i: int, x: A)
    requires
        0 <= i < s.len(),
    ensures
        s.remove(i).insert(i, x) =~= s.update(i, x),
{
}

/// Whether two records carry the same composite key, decided at run
/// time.
pub fn same_key_exec(a: &Record, b: &Record) -> (res: bool)
    ensures
        res == same_key(*a, *b),
{
    let pk_eq = match (crate::record::lookup_attr(a, "pk"), crate::record::lookup_attr(b, "pk")) {
        (Some(x), Some(y)) => str_eq(x, y.as_str()),
        (None, None) => true,
        _ => false,
    };
    if !pk_eq {
        return false;
    }
    match (crate::record::lookup_attr(a, "sk"), crate::record::lookup_attr(b, "sk")) {
        (Some(x), Some(y)) => str_eq(x, y.as_str()),
        (None, None) => true,
        _ => false,
    }
}

/// Puts one record into a list of records: replaces the first record
/// with the same composite key, or appends.
pub fn put_record(recs: &mut Vec<Record>, r: Record)
    ensures
        final(recs)@ == put_one(old(recs)@, r),
{
    let ghost orig = recs@;
    proof {
        assert(orig.skip(0) =~= orig);
        assert(orig.take(0) + put_one(orig.skip(0), r) =~= put_one(orig, r));
    }
    let mut i: usize = 0;
    while i < recs.len()
        invariant
            i <= recs.len(),
            orig == old(recs)@,
            recs@ == orig,
            put_one(orig, r) == orig.take(i as int) + put_one(orig.skip(i as int), r),
        decreases recs.len() - i,
    {
        if same_key_exec(&recs[i], &r) {
            proof {
                let sk = orig.skip(i as int);
                assert(sk.first() == orig[i as int]);
                assert(same_key(sk.first(), r));
                assert(put_one(sk, r) == seq![r] + sk.drop_first());
                assert(sk.drop_first() =~= orig.skip(i + 1));
                assert(orig.take(i as int) + (seq![r] + orig.skip(i + 1)) =~= orig.update(
                    i as int,
                    r,
                ));
            }
            recs.set(i, r);
            proof {
                assert(recs@ == orig.update(i as int, r));
                assert(put_one(orig, r) == orig.take(i as int) + (seq![r] + orig.skip(i + 1)));
                assert(put_one(orig, r) =~= orig.update(i as int, r));
                assert(recs@ == put_one(orig, r));
            }
            return ;
        }
        proof {
            let sk = orig.skip(i as int);
            assert(sk.first() == orig[i as int]);
            assert(!same_key(sk.first(), r));
            assert(put_one(sk, r) == seq![sk.first()] + put_one(sk.drop_first(), r));
            assert(sk.drop_first() =~= orig.skip(i + 1));
            assert(orig.take(i as int) + (seq![orig[i as int]] + put_one(orig.skip(i + 1), r))
                =~= orig.take(i + 1) + put_one(orig.skip(i + 1), r));
        }
        i = i + 1;
    }
    proof {
        assert(orig.skip(orig.len() as int) =~= Seq::<Record>::empty());
        assert(orig.take(orig.len() as int) =~= orig);
        assert(put_one(orig.skip(orig.len() as int), r) == seq![r]);
        assert(orig + seq![r] =~= orig.push(r));
    }
    recs.push(r);
}

/// Puts a whole batch of records, in order.
pub fn put_batch(recs: &mut Vec<Record>, batch: Vec<Record>)
    ensures
        final(recs)@ == put_seq(old(recs)@, batch@),
{
    let ghost orig = recs@;
    let ghost bs = batch@;
    let mut rem = batch;
    while rem.len() > 0
        invariant
            put_seq(orig, bs) == put_seq(recs@, rem@),
        decreases rem@.len(),
    {
        let ghost pre = rem@;
        let r = rem.remove(0);
        proof {
            assert(put_seq(recs@, pre) == put_seq(put_one(recs@, pre.first()), pre.drop_first()));
            assert(rem@ =~= pre.drop_first());
        }
        put_record(recs, r);
    }
}

/// Deletes every record whose composite key appears in `keys`.
pub fn remove_batch(recs: &mut Vec<Record>, keys: &Vec<RecordKey>)
    ensures
        final(recs)@ == remove_covered(old(recs)@, keys@),
{
    let ghost orig = recs@;
    let mut kept: Vec<Record> = Vec::new();
    proof {
        assert(kept@ + remove_covered(recs@, keys@) =~= remove_covered(orig, keys@));
    }
    while recs.len() > 0
        invariant
            kept@ + remove_covered(recs@, keys@) == remove_covered(orig, keys@),
        decreases recs@.len(),
    {
        let ghost pre = recs@;
        let x = recs.remove(0);
        proof {
            assert(recs@ =~= pre.drop_first());
        }
        if covered_by(&x, keys) {
            proof {
                assert(remove_covered(pre, keys@) == remove_covered(pre.drop_first(), keys@));
            }
        } else {
            proof {
                assert(remove_covered(pre, keys@) == seq![x] + remove_covered(
                    pre.drop_first(),
                    keys@,
                ));
                assert(kept@ + (seq![x] + remove_covered(pre.drop_first(), keys@)) =~= kept@.push(
                    x,
                ) + remove_covered(pre.drop_first(), keys@));
            }
            kept.push(x);
        }
    }
    proof {
        assert(remove_covered(recs@, keys@) == Seq::<Record>::empty());
        assert(kept@ + Seq::<Record>::empty() =~= kept@);
    }
    *recs = kept;
}

/// One table of the model store: its declared schema and its records.
pub struct ModelTable {
    pub schema: TableSchema,
    pub records: Vec<Record>,
}

impl ModelTable {
    /// Every record is keyed and no two records share a composite key.
    pub open spec fn wf(self) -> bool {
        distinct_keys(self.records@) && all_have_pk(self.records@)
    }
}

/// One page of a paginated scan: the records of the page, and the
/// cursor to resume from, absent exactly when the scan is complete.
pub struct ScanPage {
    pub records: Vec<Record>,
    pub next_cursor: Option<usize>,
}

/// The model of the whole store: a list of named tables.
pub struct ModelStore {
    pub tables: Vec<ModelTable>,
}

impl ModelStore {
    /// Every table of the store is well-formed.
    pub open spec fn wf(self) -> bool {
        forall|i: int| 0 <= i < self.tables@.len() ==> (#[trigger] self.tables@[i]).wf()
    }

    /// An empty store.
    pub fn new() -> (s: Self)
        ensures
            s.tables@.len() == 0,
            s.wf(),
    {
        ModelStore { tables: Vec::new() }
    }

    /// How many tables exist.
    pub fn table_count(&self) -> (n: usize)
        ensures
            n == self.tables@.len(),
    {
        self.tables.len()
    }

    /// The number of records in table `t`.
    pub fn table_len(&self, t: usize) -> (n: usize)
        requires
            t < self.tables@.len(),
        ensures
            n == self.tables@[t as int].records@.len(),
    {
        self.tables[t].records.len()
    }

    /// Drops every table, as the idempotent provisioning step does
    /// before creating the fresh ones.
    pub fn delete_all_tables(&mut self)
        ensures
            final(self).tables@.len() == 0,
            final(self).wf(),
    {
        self.tables.clear();
    }

    /// Creates one table with the given schema and no records.
    pub fn create_table(&mut self, schema: TableSchema)
        ensures
            final(self).tables@.len() == old(self).tables@.len() + 1,
            forall|j: int|
                0 <= j < old(self).tables@.len() ==> final(self).tables@[j] == old(
                    self,
                ).tables@[j],
            final(self).tables@[old(self).tables@.len() as int].schema == schema,
            final(self).tables@[old(self).tables@.len() as int].records@.len() == 0,
            old(self).wf() ==> final(self).wf(),
    {
        self.tables.push(ModelTable { schema, records: Vec::new() });
    }

    /// The names of all tables, in order.
    pub fn list_table_names(&self) -> (names: Vec<String>)
        ensures
            names@.len() == self.tables@.len(),
            forall|i: int|
                0 <= i < names@.len() ==> #[trigger] names@[i]@ == self.tables@[i].schema.name@,
    {
        let mut names: Vec<String> = Vec::new();
        let mut i: usize = 0;
        while i < self.tables.len()
            invariant
                i <= self.tables@.len(),
                names@.len() == i,
                forall|j: int|
                    0 <= j < i ==> #[trigger] names@[j]@ == self.tables@[j].schema.name@,
            decreases self.tables@.len() - i,
        {
            names.push(self.tables[i].schema.name.clone());
            i = i + 1;
        }
        names
    }

    /// Finds the first table with the given name.
    pub fn find_table(&self, name: &str) -> (res: Option<usize>)
        ensures
            match res {
                Some(i) => i < self.tables@.len() && self.tables@[i as int].schema.name@ == name@
                    && forall|j: int|
                    0 <= j < i ==> #[trigger] self.tables@[j].schema.name@ != name@,
                None => forall|j: int|
                    0 <= j < self.tables@.len() ==> #[trigger] self.tables@[j].schema.name@
                        != name@,
            },
    {
        let mut i: usize = 0;
        while i < self.tables.len()
            invariant
                i <= self.tables@.len(),
                forall|j: int| 0 <= j < i ==> #[trigger] self.tables@[j].schema.name@ != name@,
            decreases self.tables@.len() - i,
        {
            if str_eq(&self.tables[i].schema.name, name) {
                return Some(i);
            }
            i = i + 1;
        }
        None
    }

    /// Applies one batch-write call of at most 25 records to table `t`.
    pub fn batch_write(&mut self, t: usize, batch: Vec<Record>)
        requires
            t < old(self).tables@.len(),
            batch@.len() <= 25,
        ensures
            final(self).tables@.len() == old(self).tables@.len(),
            forall|j: int|
                0 <= j < old(self).tables@.len() && j != t ==> final(self).tables@[j] == old(
                    self,
                ).tables@[j],
            final(self).tables@[t as int].schema == old(self).tables@[t as int].schema,
            final(self).tables@[t as int].records@ == put_seq(
                old(self).tables@[t as int].records@,
                batch@,
            ),
            old(self).wf() && all_have_pk(batch@) ==> final(self).wf(),
    {
        let ghost pre = self.tables@;
        let mut tbl = self.tables.remove(t);
        put_batch(&mut tbl.records, batch);
        proof {
            if old(self).wf() && all_have_pk(batch@) {
                lemma_put_seq(pre[t as int].records@, batch@);
            }
        }
        self.tables.insert(t, tbl);
        proof {
            lemma_remove_insert(pre, t as int, self.tables@[t as int]);
            assert(self.tables@ =~= pre.update(t as int, self.tables@[t as int]));
        }
    }

    /// Applies one batch-delete call of at most 25 keys to table `t`.
    pub fn batch_delete(&mut self, t: usize, keys: &Vec<RecordKey>)
        requires
            t < old(self).tables@.len(),
            keys@.len() <= 25,
        ensures
            final(self).tables@.len() == old(self).tables@.len(),
            forall|j: int|
                0 <= j < old(self).tables@.len() && j != t ==> final(self).tables@[j] == old(
                    self,
                ).tables@[j],
            final(self).tables@[t as int].schema == old(self).tables@[t as int].schema,
            final(self).tables@[t as int].records@ == remove_covered(
                old(self).tables@[t as int].records@,
                keys@,
            ),
            old(self).wf() ==> final(self).wf(),
    {
        let ghost pre = self.tables@;
        let mut tbl = self.tables.remove(t);
        remove_batch(&mut tbl.records, keys);
        proof {
            if old(self).wf() {
                lemma_remove_covered_wf(pre[t as int].records@, keys@);
            }
        }
        self.tables.insert(t, tbl);
        proof {
            lemma_remove_insert(pre, t as int, self.tables@[t as int]);
            assert(self.tables@ =~= pre.update(t as int, self.tables@[t as int]));
        }
    }

    /// One page of a cursor-paginated scan of table `t`, starting at
    /// position `start` and returning at most `limit` records; the
    /// cursor of the page is absent exactly when the table is
    /// exhausted.
    pub fn scan(&self, t: usize, start: usize, limit: usize) -> (page: ScanPage)
        requires
            t < self.tables@.len(),
            limit >= 1,
        ensures
            ({
                let recs = self.tables@[t as int].records@;
                let s = if start <= recs.len() {
                    start as int
                } else {
                    recs.len() as int
                };
                let e = if s + limit <= recs.len() {
                    s + limit
                } else {
                    recs.len() as int
                };
                &&& page.records@.len() == e - s
                &&& forall|i: int| 0 <= i < e - s ==> #[trigger] page.records@[i]@ == recs[s + i]@
                &&& page.next_cursor == if e < recs.len() {
                    Some(e as usize)
                } else {
                    None::<usize>
                }
            }),
    {
        let n = self.tables[t].records.len();
        let s = if start <= n {
            start
        } else {
            n
        };
        let e = if limit <= n - s {
            s + limit
        } else {
            n
        };
        let mut records: Vec<Record> = Vec::new();
        let mut i: usize = s;
        while i < e
            invariant
                s <= i <= e <= n,
                t < self.tables@.len(),
                n == self.tables@[t as int].records@.len(),
                records@.len() == i - s,
                forall|j: int|
                    0 <= j < i - s ==> #[trigger] records@[j]@ == self.tables@[t as int].records@[s
                        + j]@,
            decreases e - i,
        {
            records.push(self.tables[t].records[i].clone());
            i = i + 1;
        }
        let next_cursor = if e < n {
            Some(e)
        } else {
            None
        };
        ScanPage { records, next_cursor }
    }

    /// Counts the records of table `t` by walking the scan cursor to
    /// the end, `limit` records a page.
    pub fn scan_count(&self, t: usize, limit: usize) -> (n: usize)
        requires
            t < self.tables@.len(),
            limit >= 1,
        ensures
            n == self.tables@[t as int].records@.len(),
    {
        let table_total: usize = self.table_len(t);
        let ghost total_len = self.tables@[t as int].records@.len();
        let mut total: usize = 0;
        let mut cursor: Option<usize> = None;
        loop
            invariant_except_break
                t < self.tables@.len(),
                limit >= 1,
                total_len == self.tables@[t as int].records@.len(),
                table_total == total_len,
                match cursor {
                    None => total == 0,
                    Some(c) => c == total && 0 < total < total_len,
                },
            ensures
                total == total_len,
            decreases
                    total_len - total + if cursor is None {
                        1int
                    } else {
                        0int
                    },
        {
            let start = match cursor {
                Some(c) => c,
                None => 0,
            };
            let page = self.scan(t, start, limit);
            proof {
                assert(total + page.records@.len() <= total_len);
            }
            total = total + page.records.len();
            match page.next_cursor {
                Some(c) => {
                    cursor = Some(c);
                },
                None => {
                    break ;
                },
            }
        }
        total
    }
}

/// Deleting by keys preserves key distinctness and keyedness.
pub proof fn lemma_remove_covered_wf(recs: Seq<Record>, keys: Seq<RecordKey>)
    requires
        distinct_keys(recs),
        all_have_pk(recs),
    ensures
        distinct_keys(remove_covered(recs, keys)),
        all_have_pk(remove_covered(recs, keys)),
    decreases recs.len(),
{
    lemma_remove_covered(recs, keys);
    if recs.len() == 0 {
    } else {
        assert(forall|i: int|
            0 <= i < recs.drop_first().len() ==> #[trigger] recs.drop_first()[i] == recs[i + 1]);
        lemma_remove_covered_wf(recs.drop_first(), keys);
        let rest = remove_covered(recs.drop_first(), keys);
        if spec_covered(recs.first(), keys) {
        } else {
            let res = seq![recs.first()] + rest;
            assert(remove_covered(recs, keys) == res);
            lemma_remove_covered(recs.drop_first(), keys);
            assert forall|i: int, j: int| 0 <= i < j < res.len() implies !same_key(
                res[i],
                res[j],
            ) by {
                if i == 0 {
                    assert(res[j] == rest[j - 1]);
                    let m = choose|m: int|
                        0 <= m < recs.drop_first().len() && rest[j - 1] == recs.drop_first()[m];
                    assert(res[j] == recs[m + 1]);
                    assert(!same_key(recs[0], recs[m + 1]));
                } else {
                    assert(res[i] == rest[i - 1] && res[j] == rest[j - 1]);
                }
            }
            assert forall|i: int| 0 <= i < res.len() implies has_pk(#[trigger] res[i]) by {
                if i == 0 {
                    assert(res[0] == recs[0]);
                } else {
                    assert(res[i] == rest[i - 1]);
                }
            }
        }
    }
}

/// Deleting by the keys of a fully covered prefix, none of which covers
/// the rest, leaves exactly the suffix.
pub proof fn lemma_remove_covered_prefix(recs: Seq<Record>, keys: Seq<RecordKey>, c: int)
    requires
        0 <= c <= recs.len(),
        forall|i: int| 0 <= i < c ==> spec_covered(#[trigger] recs[i], keys),
        forall|i: int| c <= i < recs.len() ==> !spec_covered(#[trigger] recs[i], keys),
    ensures
        remove_covered(recs, keys) =~= recs.skip(c),
    decreases recs.len(),
{
    lemma_remove_covered(recs, keys);
    if recs.len() == 0 {
    } else if c == 0 {
        assert(remove_covered(recs, keys) =~= recs);
        assert(recs.skip(0) =~= recs);
    } else {
        assert(spec_covered(recs.first(), keys));
        assert(forall|i: int|
            0 <= i < recs.drop_first().len() ==> #[trigger] recs.drop_first()[i] == recs[i + 1]);
        lemma_remove_covered_prefix(recs.drop_first(), keys, c - 1);
        assert(remove_covered(recs, keys) =~= recs.drop_first().skip(c - 1));
        assert(recs.drop_first().skip(c - 1) =~= recs.skip(c));
    }
}

} // verus!
