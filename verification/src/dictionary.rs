//! Dictionary tracking: which dictionary ids have been committed to the
//! stream, under which fingerprint of their values, and whether a later
//! emission under the same id is a no-op, an allowed replacement, or a
//! forbidden silent change.

use vstd::prelude::*;

use vstd::hash_map::HashMapWithView;
use vstd::utf8::encode_utf8;

use crate::error::Error;

verus! {

broadcast use vstd::std_specs::hash::group_hash_axioms;

/// One accumulation step of the rolling fingerprint; the accumulator stays
/// below 2^32 so the next step cannot overflow 64-bit arithmetic.
pub open spec fn fp_step(acc: u64, b: u8) -> u64 {
    (((acc as int) * 131 + b as int) % 0x1_0000_0000) as u64
}

/// Fingerprint of a byte sequence, folded left to right onto `acc`.
pub open spec fn fp_bytes(acc: u64, s: Seq<u8>) -> u64
    decreases s.len(),
{
    if s.len() == 0 {
        acc
    } else {
        fp_step(fp_bytes(acc, s.drop_last()), s.last())
    }
}

/// Fingerprint contribution of one text value: a separator byte that no
/// UTF-8 encoding contains, then the value's UTF-8 bytes.
pub open spec fn fp_string(acc: u64, s: Seq<char>) -> u64 {
    fp_bytes(fp_step(acc, 0xff), encode_utf8(s))
}

/// A comparable digest of a dictionary's values, used to detect changes
/// without storing the full value set twice.
pub open spec fn dict_fingerprint(vals: Seq<Seq<char>>) -> u64
    decreases vals.len(),
{
    if vals.len() == 0 {
        0x1505
    } else {
        fp_string(dict_fingerprint(vals.drop_last()), vals.last())
    }
}

fn fp_step_exec(acc: u64, b: u8) -> (r: u64)
    requires
        acc < 0x1_0000_0000,
    ensures
        r == fp_step(acc, b),
        r < 0x1_0000_0000,
{
    (acc * 131 + (b as u64)) % 0x1_0000_0000
}

proof fn lemma_fp_bytes_bound(acc: u64, s: Seq<u8>)
    requires
        acc < 0x1_0000_0000,
    ensures
        fp_bytes(acc, s) < 0x1_0000_0000,
    decreases s.len(),
{
    if s.len() != 0 {
        lemma_fp_bytes_bound(acc, s.drop_last());
    }
}

proof fn lemma_dict_fingerprint_bound(vals: Seq<Seq<char>>)
    ensures
        dict_fingerprint(vals) < 0x1_0000_0000,
    decreases vals.len(),
{
    if vals.len() != 0 {
        lemma_dict_fingerprint_bound(vals.drop_last());
        lemma_fp_bytes_bound(fp_step(dict_fingerprint(vals.drop_last()), 0xff), encode_utf8(vals.last()));
    }
}

fn fp_string_exec(acc: u64, s: &String) -> (r: u64)
    requires
        acc < 0x1_0000_0000,
    ensures
        r == fp_string(acc, s@),
        r < 0x1_0000_0000,
{
    let mut a = fp_step_exec(acc, 0xff);
    let bs = vstd::slice::slice_to_vec(s.as_str().as_bytes());
    assert(bs@ == encode_utf8(s@));
    let n = bs.len();
    for j in 0..n
        invariant
            n == bs@.len(),
            a == fp_bytes(fp_step(acc, 0xff), bs@.subrange(0, j as int)),
            a < 0x1_0000_0000,
    {
        let ghost pre = bs@.subrange(0, j as int);
        a = fp_step_exec(a, bs[j]);
        proof {
            let cur = bs@.subrange(0, j + 1);
            assert(cur.drop_last() =~= pre);
            assert(cur.last() == bs@[j as int]);
        }
    }
    assert(bs@.subrange(0, n as int) =~= bs@);
    a
}

/// Computes the fingerprint of a dictionary's values.
pub fn fingerprint_values(vals: &Vec<String>) -> (r: u64)
    ensures
        r == dict_fingerprint(vals.deep_view()),
{
    let mut acc: u64 = 0x1505;
    let n = vals.len();
    for i in 0..n
        invariant
            n == vals@.len(),
            vals.deep_view().len() == n,
            acc == dict_fingerprint(vals.deep_view().subrange(0, i as int)),
            acc < 0x1_0000_0000,
    {
        let ghost pre = vals.deep_view().subrange(0, i as int);
        assert(vals.deep_view()[i as int] == vals@[i as int]@);
        acc = fp_string_exec(acc, &vals[i]);
        proof {
            let cur = vals.deep_view().subrange(0, i + 1);
            assert(cur.drop_last() =~= pre);
            assert(cur.last() == vals.deep_view()[i as int]);
        }
    }
    assert(vals.deep_view().subrange(0, n as int) =~= vals.deep_view());
    acc
}

/// What the writer must do with a dictionary before writing the record batch
/// that references it.
#[derive(Clone, Copy, Debug, PartialEq, Eq, Structural)]
pub enum DictAction {
    /// The identical dictionary was already written: emit nothing.
    Skip,
    /// First sighting of this id: emit a dictionary message.
    WriteNew,
    /// Same id, changed values, and the policy allows re-emission.
    WriteReplacement,
}

/// Tracks, per dictionary id, the fingerprint of the last-written values.
///
/// Policy is fixed at construction: when `error_on_replacement` is set, a
/// changed dictionary under a reused id is a `DictionaryMismatch` error;
/// otherwise it is re-emitted as a replacement. A change is never silently
/// ignored.
pub struct DictionaryTracker {
    pub written: HashMapWithView<i64, u64>,
    pub error_on_replacement: bool,
}

impl DictionaryTracker {
    /// The action `decide` returns for the given id and fingerprint against
    /// the map `m`, when no error applies.
    pub open spec fn spec_decide(m: Map<i64, u64>, id: i64, fp: u64) -> DictAction {
        if m.contains_key(id) {
            if m[id] == fp {
                DictAction::Skip
            } else {
                DictAction::WriteReplacement
            }
        } else {
            DictAction::WriteNew
        }
    }

    /// The given id/fingerprint pair conflicts with the recorded state under
    /// a policy that forbids replacement.
    pub open spec fn spec_mismatch(&self, id: i64, fp: u64) -> bool {
        self.error_on_replacement && self.written@.contains_key(id) && self.written@[id] != fp
    }

    pub fn new(error_on_replacement: bool) -> (r: Self)
        ensures
            r.written@ == Map::<i64, u64>::empty(),
            r.error_on_replacement == error_on_replacement,
    {
        DictionaryTracker { written: HashMapWithView::new(), error_on_replacement }
    }

    /// Classifies an emission without recording anything.
    pub fn decide(&self, id: i64, fingerprint: u64) -> (r: Result<DictAction, Error>)
        ensures
            match r {
                Ok(a) => !self.spec_mismatch(id, fingerprint) && a == Self::spec_decide(
                    self.written@,
                    id,
                    fingerprint,
                ),
                Err(e) => e == Error::DictionaryMismatch && self.spec_mismatch(id, fingerprint),
            },
    {
        match self.written.get(&id) {
            Some(prev) => {
                if *prev == fingerprint {
                    Ok(DictAction::Skip)
                } else if self.error_on_replacement {
                    Err(Error::DictionaryMismatch)
                } else {
                    Ok(DictAction::WriteReplacement)
                }
            },
            None => Ok(DictAction::WriteNew),
        }
    }

    /// Records the fingerprint now committed for an id.
    pub fn record(&mut self, id: i64, fingerprint: u64)
        ensures
            final(self).written@ == old(self).written@.insert(id, fingerprint),
            final(self).error_on_replacement == old(self).error_on_replacement,
    {
        self.written.insert(id, fingerprint);
    }

    /// Classifies an emission of `values` under `id` and, when the values
    /// must be written (new or replacement), records their fingerprint.
    pub fn should_write(&mut self, id: i64, values: &Vec<String>) -> (r: Result<DictAction, Error>)
        ensures
            ({
                let fp = dict_fingerprint(values.deep_view());
                let m0 = old(self).written@;
                match r {
                    Ok(DictAction::Skip) => {
                        &&& m0.contains_key(id)
                        &&& m0[id] == fp
                        &&& *final(self) == *old(self)
                    },
                    Ok(DictAction::WriteNew) => {
                        &&& !m0.contains_key(id)
                        &&& final(self).written@ == m0.insert(id, fp)
                    },
                    Ok(DictAction::WriteReplacement) => {
                        &&& !old(self).error_on_replacement
                        &&& m0.contains_key(id)
                        &&& m0[id] != fp
                        &&& final(self).written@ == m0.insert(id, fp)
                    },
                    Err(e) => {
                        &&& e == Error::DictionaryMismatch
                        &&& old(self).spec_mismatch(id, fp)
                        &&& *final(self) == *old(self)
                    },
                }
            }),
            final(self).error_on_replacement == old(self).error_on_replacement,
    {
        let fp = fingerprint_values(values);
        let action = self.decide(id, fp)?;
        match action {
            DictAction::Skip => Ok(DictAction::Skip),
            _ => {
                self.record(id, fp);
                Ok(action)
            },
        }
    }
}

} // verus!
