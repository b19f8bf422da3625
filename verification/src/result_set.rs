//! The normalized record set: a mapping from identifier to record, built once
//! per run. Identifiers are unique; when the same identifier is written
//! twice, the last write wins. Iteration order is unspecified and never
//! carries meaning.
use vstd::prelude::*;

use crate::device::DeviceInfo;
use crate::device::RecordModel;
use crate::text::str_eq;

verus! {

/// The mapping a sequence of records denotes: later entries override earlier
/// ones with the same identifier.
pub open spec fn rec_map(s: Seq<RecordModel>) -> Map<Seq<char>, RecordModel>
    decreases s.len(),
{
    if s.len() == 0 {
        Map::empty()
    } else {
        rec_map(s.drop_last()).insert(s.last().sn, s.last())
    }
}

/// The normalized record set.
pub struct ResultSet {
    records: Vec<DeviceInfo>,
}

impl View for ResultSet {
    type V = Seq<RecordModel>;

    closed spec fn view(&self) -> Seq<RecordModel> {
        self.records@.map_values(|d: DeviceInfo| d@)
    }
}

impl ResultSet {
    /// No two held records share an identifier.
    pub open spec fn wf(self) -> bool {
        forall|i: int, j: int| 0 <= i < j < self@.len() ==> self@[i].sn != self@[j].sn
    }

    /// The mapping this set denotes.
    pub open spec fn map_model(self) -> Map<Seq<char>, RecordModel> {
        rec_map(self@)
    }

    /// The empty set.
    pub fn new() -> (r: ResultSet)
        ensures
            r@.len() == 0,
            r.wf(),
            r.map_model() == Map::<Seq<char>, RecordModel>::empty(),
    {
        let r = ResultSet { records: Vec::new() };
        proof {
            assert(r@ =~= Seq::<RecordModel>::empty());
        }
        r
    }

    /// How many records the set holds.
    pub fn len(&self) -> (n: usize)
        ensures
            n == self@.len(),
    {
        self.records.len()
    }

    /// The records, in the set's own unspecified order.
    pub fn records(&self) -> (r: &Vec<DeviceInfo>)
        ensures
            r@.len() == self@.len(),
            forall|i: int| 0 <= i < r@.len() ==> r@[i]@ == self@[i],
    {
        &self.records
    }

    /// Writes one record under its identifier; an earlier record with the
    /// same identifier is replaced.
    pub fn insert(&mut self, rec: DeviceInfo)
        requires
            old(self).wf(),
        ensures
            final(self).wf(),
            final(self).map_model() == old(self).map_model().insert(rec@.sn, rec@),
            final(self)@.len() <= old(self)@.len() + 1,
    {
        let ghost s0 = self@;
        let mut i: usize = 0;
        let n = self.records.len();
        while i < n
            invariant
                n == self@.len(),
                i <= n,
                forall|j: int| 0 <= j < i ==> self@[j].sn != rec@.sn,
                self@ == s0,
                s0 == old(self)@,
                forall|p: int, q: int| 0 <= p < q < s0.len() ==> s0[p].sn != s0[q].sn,
            decreases n - i,
        {
            if self.records[i].sn == rec.sn {
                proof {
                    assert(self@[i as int].sn == rec@.sn);
                }
                let ghost idx = i as int;
                self.records.remove(i);
                proof {
                    assert(self@ =~= s0.remove(idx));
                }
                self.records.push(rec);
                proof {
                    assert(self@ =~= s0.remove(idx).push(rec@));
                    assert(forall|p: int, q: int|
                        0 <= p < q < s0.len() ==> s0[p].sn != s0[q].sn);
                    s0.remove_ensures(idx);
                    lemma_rec_map_remove_insert(s0, idx, rec@);
                    assert(forall|p: int|
                        0 <= p < s0.len() - 1 ==> #[trigger] s0.remove(idx)[p].sn != rec@.sn);
                    assert(forall|p: int, q: int|
                        0 <= p < q < self@.len() ==> self@[p].sn != self@[q].sn) by {
                        assert(forall|p: int|
                            0 <= p < self@.len() - 1 ==> #[trigger] self@[p] == s0.remove(idx)[p]);
                        assert(self@[self@.len() - 1] == rec@);
                    }
                }
                return ;
            }
            i = i + 1;
        }
        self.records.push(rec);
        proof {
            assert(self@ =~= s0.push(rec@));
            assert(self@.drop_last() =~= s0);
            assert(self@.last() == rec@);
        }
    }

    /// Looks an identifier up.
    pub fn lookup(&self, sn: &str) -> (r: Option<&DeviceInfo>)
        requires
            self.wf(),
        ensures
            match r {
                Some(d) => self.map_model().contains_key(sn@) && d@ == self.map_model()[sn@],
                None => !self.map_model().contains_key(sn@),
            },
    {
        let n = self.records.len();
        let mut i: usize = 0;
        while i < n
            invariant
                self.wf(),
                n == self@.len(),
                i <= n,
                forall|j: int| 0 <= j < i ==> self@[j].sn != sn@,
            decreases n - i,
        {
            if str_eq(self.records[i].sn.as_str(), sn) {
                proof {
                    lemma_rec_map_last_occurrence(self@, i as int);
                }
                return Some(&self.records[i]);
            }
            i = i + 1;
        }
        proof {
            lemma_rec_map_key_among(self@, sn@);
        }
        None
    }
}

/// A key is in the mapping exactly when some held record carries it.
pub proof fn lemma_rec_map_key_among(s: Seq<RecordModel>, k: Seq<char>)
    ensures
        rec_map(s).contains_key(k) <==> exists|i: int| 0 <= i < s.len() && s[i].sn == k,
    decreases s.len(),
{
    if s.len() > 0 {
        lemma_rec_map_key_among(s.drop_last(), k);
        if s.last().sn == k {
            assert(s[s.len() - 1].sn == k);
        } else {
            if rec_map(s).contains_key(k) {
                let i = choose|i: int| 0 <= i < s.drop_last().len() && s.drop_last()[i].sn == k;
                assert(s[i].sn == k);
            }
            if exists|i: int| 0 <= i < s.len() && s[i].sn == k {
                let i = choose|i: int| 0 <= i < s.len() && s[i].sn == k;
                assert(s.drop_last()[i].sn == k);
            }
        }
    }
}

/// When index `i` is the last record carrying its identifier, the mapping
/// holds exactly that record under it.
pub proof fn lemma_rec_map_last_occurrence(s: Seq<RecordModel>, i: int)
    requires
        0 <= i < s.len(),
        forall|j: int| i < j < s.len() ==> s[j].sn != s[i].sn,
    ensures
        rec_map(s).contains_key(s[i].sn),
        rec_map(s)[s[i].sn] == s[i],
    decreases s.len(),
{
    if i == s.len() - 1 {
    } else {
        assert(s.drop_last()[i] == s[i]);
        lemma_rec_map_last_occurrence(s.drop_last(), i);
    }
}

/// Removing the only record under a key and appending a new record under
/// that key is, at the mapping, one overriding write.
proof fn lemma_rec_map_remove_insert(s: Seq<RecordModel>, i: int, r: RecordModel)
    requires
        0 <= i < s.len(),
        s[i].sn == r.sn,
        forall|p: int, q: int| 0 <= p < q < s.len() ==> s[p].sn != s[q].sn,
    ensures
        rec_map(s.remove(i).push(r)) == rec_map(s).insert(r.sn, r),
    decreases s.len(),
{
    let t = s.remove(i);
    assert(rec_map(t.push(r)) == rec_map(t).insert(r.sn, r)) by {
        assert(t.push(r).drop_last() =~= t);
        assert(t.push(r).last() == r);
    }
    lemma_rec_map_remove(s, i);
    assert(rec_map(s).remove(s[i].sn).insert(r.sn, r) =~= rec_map(s).insert(r.sn, r));
}

/// Removing the only record under a key removes exactly that key from the
/// mapping.
proof fn lemma_rec_map_remove(s: Seq<RecordModel>, i: int)
    requires
        0 <= i < s.len(),
        forall|p: int, q: int| 0 <= p < q < s.len() ==> s[p].sn != s[q].sn,
    ensures
        rec_map(s.remove(i)) == rec_map(s).remove(s[i].sn),
    decreases s.len(),
{
    s.remove_ensures(i);
    if i == s.len() - 1 {
        assert(s.remove(i) =~= s.drop_last());
        assert(!rec_map(s.drop_last()).contains_key(s[i].sn)) by {
            lemma_rec_map_key_among(s.drop_last(), s[i].sn);
            assert(forall|j: int| 0 <= j < s.len() - 1 ==> #[trigger] s.drop_last()[j].sn == s[j].sn);
        }
        assert(rec_map(s.drop_last()) =~= rec_map(s).remove(s[i].sn));
    } else {
        let d = s.drop_last();
        assert(forall|p: int, q: int| 0 <= p < q < d.len() ==> #[trigger] d[p].sn != #[trigger] d[q].sn);
        assert(d[i] == s[i]);
        lemma_rec_map_remove(d, i);
        d.remove_ensures(i);
        assert(s.remove(i).drop_last() =~= d.remove(i));
        assert(s.remove(i).last() == s.last());
        assert(rec_map(s.remove(i)) == rec_map(d.remove(i)).insert(s.last().sn, s.last()));
        assert(s.last().sn != s[i].sn);
        assert(rec_map(d).remove(s[i].sn).insert(s.last().sn, s.last()) =~= rec_map(d).insert(
            s.last().sn,
            s.last(),
        ).remove(s[i].sn));
    }
}

} // verus!
