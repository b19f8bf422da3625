//! The normalization pipeline: pairs the fetched key and value sequences
//! positionally, decodes every pair independently — the decode of one pair is
//! a pure function of that pair alone, so the pairs are farmed out to a
//! worker pool — and collects the successes into a record set keyed by
//! identifier. A length mismatch between the two sequences is a fatal
//! invariant violation; a pair that matches neither value shape costs one
//! diagnostic and nothing else.
use vstd::prelude::*;

use rayon::iter::IndexedParallelIterator;
use rayon::iter::IntoParallelRefIterator;
use rayon::iter::ParallelIterator;

use crate::device::DeviceInfo;
use crate::device::RecordModel;
use crate::device::StoreError;
use crate::device::opt_record_model;
use crate::resolve::resolve_record;
use crate::resolve::resolve_spec;
use crate::result_set::ResultSet;

verus! {

/// The mapping the pipeline builds from the paired inputs: one overriding
/// write per pair whose value decodes.
pub open spec fn result_map_spec(ks: Seq<Seq<char>>, vs: Seq<Seq<char>>) -> Map<
    Seq<char>,
    RecordModel,
>
    decreases ks.len(),
{
    if ks.len() == 0 {
        Map::empty()
    } else {
        let m = result_map_spec(ks.drop_last(), vs.drop_last());
        match resolve_spec(ks.last(), vs.last()) {
            Some(r) => m.insert(ks.last(), r),
            None => m,
        }
    }
}

/// The keys of the pairs whose value decodes under neither shape, in input
/// order: one diagnostic each.
pub open spec fn discarded_keys_spec(ks: Seq<Seq<char>>, vs: Seq<Seq<char>>) -> Seq<Seq<char>>
    decreases ks.len(),
{
    if ks.len() == 0 {
        Seq::empty()
    } else {
        let d = discarded_keys_spec(ks.drop_last(), vs.drop_last());
        if resolve_spec(ks.last(), vs.last()) is None {
            d.push(ks.last())
        } else {
            d
        }
    }
}

/// How often `k` occurs in a sequence of keys.
pub open spec fn count_of(s: Seq<Seq<char>>, k: Seq<char>) -> nat
    decreases s.len(),
{
    if s.len() == 0 {
        0
    } else {
        count_of(s.drop_last(), k) + if s.last() == k {
            1nat
        } else {
            0nat
        }
    }
}

/// Relies on rayon's `par_iter`, `zip`, `map` and `collect`: the closure is
/// applied to every index-aligned pair and collecting into a vector keeps the
/// input order. The closure itself only calls the resolver, whose contract
/// pins every element of the result.
#[verifier::external_body]
fn parallel_resolve(keys: &Vec<String>, values: &Vec<String>, prefer_self_identifying: bool) -> (r:
    Vec<Option<DeviceInfo>>)
    requires
        keys@.len() == values@.len(),
    ensures
        r@.len() == keys@.len(),
        forall|i: int|
            0 <= i < r@.len() ==> opt_record_model(r@[i]) == resolve_spec(
                keys@[i]@,
                values@[i]@,
            ),
{
    keys.par_iter().zip(values.par_iter()).map(
        |(k, v): (&String, &String)| resolve_record(k, v, prefer_self_identifying),
    ).collect()
}

/// Turns the paired key and value sequences into the record set and the
/// discarded-key diagnostics. Fails, and does nothing else, exactly when the
/// two sequences disagree in length; an undecodable value is discarded
/// locally and never aborts the run.
pub fn build_result_set(keys: &Vec<String>, values: &Vec<String>, prefer_self_identifying: bool)
    -> (r: Result<(ResultSet, Vec<String>), StoreError>)
    ensures
        r is Ok <==> keys@.len() == values@.len(),
        r matches Err(e) ==> e == StoreError::LengthMismatch,
        r matches Ok(p) ==> ({
            &&& p.0.wf()
            &&& p.0.map_model() == result_map_spec(keys.deep_view(), values.deep_view())
            &&& p.1.deep_view() == discarded_keys_spec(keys.deep_view(), values.deep_view())
        }),
{
    if keys.len() != values.len() {
        return Err(StoreError::LengthMismatch);
    }
    let outcomes = parallel_resolve(keys, values, prefer_self_identifying);
    let mut rs = ResultSet::new();
    let mut discarded: Vec<String> = Vec::new();
    let n = keys.len();
    let mut i: usize = 0;
    proof {
        assert(rs.map_model() =~= result_map_spec(
            keys.deep_view().take(0),
            values.deep_view().take(0),
        ));
        assert(discarded.deep_view() =~= discarded_keys_spec(
            keys.deep_view().take(0),
            values.deep_view().take(0),
        ));
    }
    while i < n
        invariant
            i <= n,
            n == keys@.len(),
            n == values@.len(),
            n == outcomes@.len(),
            forall|j: int|
                0 <= j < n ==> opt_record_model(outcomes@[j]) == resolve_spec(
                    keys@[j]@,
                    values@[j]@,
                ),
            rs.wf(),
            rs.map_model() == result_map_spec(
                keys.deep_view().take(i as int),
                values.deep_view().take(i as int),
            ),
            discarded.deep_view() == discarded_keys_spec(
                keys.deep_view().take(i as int),
                values.deep_view().take(i as int),
            ),
        decreases n - i,
    {
        let ghost kt = keys.deep_view().take(i + 1);
        let ghost vt = values.deep_view().take(i + 1);
        proof {
            assert(kt.drop_last() =~= keys.deep_view().take(i as int));
            assert(vt.drop_last() =~= values.deep_view().take(i as int));
            assert(kt.last() == keys@[i as int]@);
            assert(vt.last() == values@[i as int]@);
        }
        match &outcomes[i] {
            Some(d) => {
                rs.insert(d.clone());
            },
            None => {
                discarded.push(keys[i].clone());
                proof {
                    assert(discarded.deep_view() =~= discarded_keys_spec(kt, vt));
                }
            },
        }
        i = i + 1;
    }
    proof {
        assert(keys.deep_view().take(n as int) =~= keys.deep_view());
        assert(values.deep_view().take(n as int) =~= values.deep_view());
    }
    Ok((rs, discarded))
}

/// A key whose value decodes under some schema is in the built mapping, under
/// a record that carries that key as identifier.
pub proof fn lemma_decoded_key_present(ks: Seq<Seq<char>>, vs: Seq<Seq<char>>, i: int)
    requires
        ks.len() == vs.len(),
        0 <= i < ks.len(),
        resolve_spec(ks[i], vs[i]) is Some,
    ensures
        result_map_spec(ks, vs).contains_key(ks[i]),
        result_map_spec(ks, vs)[ks[i]].sn == ks[i],
    decreases ks.len(),
{
    if i == ks.len() - 1 {
    } else {
        assert(ks.drop_last()[i] == ks[i]);
        assert(vs.drop_last()[i] == vs[i]);
        lemma_decoded_key_present(ks.drop_last(), vs.drop_last(), i);
        match resolve_spec(ks.last(), vs.last()) {
            Some(r) => {
                assert(r.sn == ks.last());
            },
            None => {},
        }
    }
}

/// Every key of the built mapping occurs among the input keys.
pub proof fn lemma_map_keys_from_inputs(ks: Seq<Seq<char>>, vs: Seq<Seq<char>>, k: Seq<char>)
    requires
        ks.len() == vs.len(),
        result_map_spec(ks, vs).contains_key(k),
    ensures
        exists|i: int| 0 <= i < ks.len() && ks[i] == k,
    decreases ks.len(),
{
    if ks.len() > 0 {
        if ks.last() == k && resolve_spec(ks.last(), vs.last()) is Some {
            assert(ks[ks.len() - 1] == k);
        } else {
            lemma_map_keys_from_inputs(ks.drop_last(), vs.drop_last(), k);
            let i = choose|i: int| 0 <= i < ks.len() - 1 && ks.drop_last()[i] == k;
            assert(ks[i] == k);
        }
    }
}

/// A key that occurs nowhere among the inputs earns no diagnostic.
proof fn lemma_count_zero(ks: Seq<Seq<char>>, vs: Seq<Seq<char>>, k: Seq<char>)
    requires
        ks.len() == vs.len(),
        forall|j: int| 0 <= j < ks.len() ==> ks[j] != k,
    ensures
        count_of(discarded_keys_spec(ks, vs), k) == 0,
    decreases ks.len(),
{
    if ks.len() > 0 {
        assert(forall|j: int| 0 <= j < ks.len() - 1 ==> #[trigger] ks.drop_last()[j] != k);
        lemma_count_zero(ks.drop_last(), vs.drop_last(), k);
        assert(ks[ks.len() - 1] != k);
        if resolve_spec(ks.last(), vs.last()) is None {
            let d = discarded_keys_spec(ks.drop_last(), vs.drop_last());
            assert(d.push(ks.last()).drop_last() =~= d);
        }
    }
}

/// A key that occurs exactly once among the inputs, with a value that decodes
/// under neither shape, is absent from the built mapping and earns exactly
/// one diagnostic.
pub proof fn lemma_undecodable_key_discarded(ks: Seq<Seq<char>>, vs: Seq<Seq<char>>, i: int)
    requires
        ks.len() == vs.len(),
        0 <= i < ks.len(),
        resolve_spec(ks[i], vs[i]) is None,
        forall|j: int| 0 <= j < ks.len() && ks[j] == ks[i] ==> j == i,
    ensures
        !result_map_spec(ks, vs).contains_key(ks[i]),
        count_of(discarded_keys_spec(ks, vs), ks[i]) == 1,
    decreases ks.len(),
{
    if i == ks.len() - 1 {
        assert(forall|j: int| 0 <= j < ks.len() - 1 ==> #[trigger] ks.drop_last()[j] != ks[i]);
        lemma_count_zero(ks.drop_last(), vs.drop_last(), ks[i]);
        if result_map_spec(ks, vs).contains_key(ks[i]) {
            lemma_map_keys_from_inputs(ks.drop_last(), vs.drop_last(), ks[i]);
        }
        let d = discarded_keys_spec(ks.drop_last(), vs.drop_last());
        assert(d.push(ks.last()).drop_last() =~= d);
        assert(d.push(ks.last()).last() == ks[i]);
    } else {
        assert(ks.drop_last()[i] == ks[i]);
        assert(vs.drop_last()[i] == vs[i]);
        assert(forall|j: int|
            0 <= j < ks.len() - 1 && #[trigger] ks.drop_last()[j] == ks.drop_last()[i] ==> j == i);
        lemma_undecodable_key_discarded(ks.drop_last(), vs.drop_last(), i);
        assert(ks[ks.len() - 1] != ks[i]);
        if resolve_spec(ks.last(), vs.last()) is None {
            let d = discarded_keys_spec(ks.drop_last(), vs.drop_last());
            assert(d.push(ks.last()).drop_last() =~= d);
        }
    }
}

/// In a well-formed record set, a mapped key is carried by exactly one held
/// record.
pub proof fn lemma_exactly_one_record(rs: ResultSet, k: Seq<char>)
    requires
        rs.wf(),
        rs.map_model().contains_key(k),
    ensures
        exists|i: int| 0 <= i < rs@.len() && rs@[i].sn == k,
        forall|i: int, j: int|
            0 <= i < rs@.len() && 0 <= j < rs@.len() && rs@[i].sn == k && rs@[j].sn == k ==> i
                == j,
{
    crate::result_set::lemma_rec_map_key_among(rs@, k);
}

} // verus!
