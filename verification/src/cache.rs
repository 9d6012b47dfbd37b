//! Content-addressed cache of expensive, reasoning-backed computations.
//! A fingerprint names one computation: the agent's identity, the serialized
//! resolved input bundle, and the prompt template version. The cache is
//! addressed by the full fingerprint content, so a hit is returned only when
//! all three parts are identical to the stored computation — drift in any
//! part misses and forces recomputation, and a false hit is impossible.

use vstd::map::*;
use vstd::prelude::*;

use crate::scan::str_eq;

verus! {

/// Mathematical model of a [`Fingerprint`].
#[verifier::ext_equal]
pub struct FingerprintModel {
    pub agent: Seq<char>,
    pub inputs: Seq<(Seq<char>, Seq<char>)>,
    pub template_version: Seq<char>,
}

/// The identity of one cached computation: the agent's name, its resolved
/// input bundle as labelled values, and the prompt template version.
/// Deliberately the full content of the three inputs rather than a digest
/// of them: equality of fingerprints is then exactly equality of the
/// inputs, so a stale-but-plausible hit cannot exist.
pub struct Fingerprint {
    pub agent: String,
    pub inputs: Vec<(String, String)>,
    pub template_version: String,
}

/// The view of a labelled-value list.
pub open spec fn pairs_view(v: Seq<(String, String)>) -> Seq<(Seq<char>, Seq<char>)> {
    v.map_values(|p: (String, String)| (p.0@, p.1@))
}

impl View for Fingerprint {
    type V = FingerprintModel;

    open spec fn view(&self) -> FingerprintModel {
        FingerprintModel {
            agent: self.agent@,
            inputs: pairs_view(self.inputs@),
            template_version: self.template_version@,
        }
    }
}

impl Fingerprint {
    /// The fingerprint of an agent identity, a resolved input bundle, and
    /// a template version. Deterministic by construction: identical inputs
    /// give equal fingerprints.
    pub fn of(agent: &str, inputs: Vec<(String, String)>, template_version: &str) -> (r:
        Fingerprint)
        ensures
            r@.agent == agent@,
            r@.inputs == pairs_view(inputs@),
            r@.template_version == template_version@,
    {
        Fingerprint {
            agent: String::from_str(agent),
            inputs,
            template_version: String::from_str(template_version),
        }
    }

    fn matches(&self, other: &Fingerprint) -> (r: bool)
        ensures
            r == (self@ == other@),
    {
        if !str_eq(self.agent.as_str(), other.agent.as_str()) {
            return false;
        }
        if !str_eq(self.template_version.as_str(), other.template_version.as_str()) {
            return false;
        }
        if self.inputs.len() != other.inputs.len() {
            proof {
                assert(self@.inputs.len() != other@.inputs.len());
            }
            return false;
        }
        let m = self.inputs.len();
        let mut k: usize = 0;
        while k < m
            invariant
                0 <= k <= m,
                m == self.inputs@.len(),
                m == other.inputs@.len(),
                forall|t: int| 0 <= t < k ==> self@.inputs[t] == other@.inputs[t],
        decreases m - k,
        {
            let sp = &self.inputs[k];
            let op = &other.inputs[k];
            if !(str_eq(sp.0.as_str(), op.0.as_str()) && str_eq(sp.1.as_str(), op.1.as_str())) {
                proof {
                    assert(self@.inputs[k as int] != other@.inputs[k as int]);
                }
                return false;
            }
            k = k + 1;
        }
        proof {
            assert(self@.inputs =~= other@.inputs);
            assert(self@ =~~= other@);
        }
        true
    }
}

struct CacheEntry {
    fp: Fingerprint,
    result: String,
}

/// The cache, modelled as a map from fingerprint to the stored result (see
/// [`CacheManager::view`]).
pub struct CacheManager {
    entries: Vec<CacheEntry>,
}

spec fn cache_map(es: Seq<CacheEntry>) -> Map<FingerprintModel, Seq<char>>
    decreases es.len(),
{
    if es.len() == 0 {
        Map::empty()
    } else {
        cache_map(es.drop_last()).insert(es.last().fp@, es.last().result@)
    }
}

impl CacheManager {
    /// Internal well-formedness: at most one entry per fingerprint.
    pub closed spec fn wf(self) -> bool {
        forall|i: int, j: int|
            0 <= i < j < self.entries.len() ==> self.entries[i].fp@ != self.entries[j].fp@
    }

    /// The cached results by fingerprint.
    pub closed spec fn view(self) -> Map<FingerprintModel, Seq<char>> {
        cache_map(self.entries@)
    }

    /// An empty cache, as on a first run with no persisted entries.
    pub fn new() -> (r: CacheManager)
        ensures
            r.wf(),
            r@ == Map::<FingerprintModel, Seq<char>>::empty(),
    {
        let r = CacheManager { entries: Vec::new() };
        proof {
            assert(r@ =~= Map::<FingerprintModel, Seq<char>>::empty());
        }
        r
    }

    fn find_entry(&self, fp: &Fingerprint) -> (r: Option<usize>)
        ensures
            match r {
                Some(i) => i < self.entries@.len() && self.entries@[i as int].fp@ == fp@,
                None => forall|t: int|
                    0 <= t < self.entries@.len() ==> self.entries@[t].fp@ != fp@,
            },
    {
        let mut i: usize = 0;
        while i < self.entries.len()
            invariant
                0 <= i <= self.entries.len(),
                forall|t: int| 0 <= t < i ==> self.entries@[t].fp@ != fp@,
            decreases self.entries.len() - i,
        {
            if self.entries[i].fp.matches(fp) {
                return Some(i);
            }
            i = i + 1;
        }
        None
    }

    proof fn lemma_cache_map_at(es: Seq<CacheEntry>, i: int)
        requires
            0 <= i < es.len(),
            forall|a: int, b: int| 0 <= a < b < es.len() ==> es[a].fp@ != es[b].fp@,
        ensures
            cache_map(es).contains_key(es[i].fp@),
            cache_map(es)[es[i].fp@] == es[i].result@,
        decreases es.len(),
    {
        if i < es.len() - 1 {
            Self::lemma_cache_map_at(es.drop_last(), i);
        }
    }

    proof fn lemma_cache_map_absent(es: Seq<CacheEntry>, fp: FingerprintModel)
        requires
            forall|t: int| 0 <= t < es.len() ==> es[t].fp@ != fp,
        ensures
            !cache_map(es).contains_key(fp),
        decreases es.len(),
    {
        if es.len() > 0 {
            Self::lemma_cache_map_absent(es.drop_last(), fp);
        }
    }

    /// A cached result for exactly this fingerprint, if one is stored.
    /// Returns `Some` if and only if the fingerprint was stored and not
    /// invalidated since.
    pub fn lookup(&self, fp: &Fingerprint) -> (r: Option<String>)
        requires
            self.wf(),
        ensures
            match r {
                Some(v) => self@.contains_key(fp@) && v@ == self@[fp@],
                None => !self@.contains_key(fp@),
            },
    {
        match self.find_entry(fp) {
            Some(i) => {
                proof {
                    Self::lemma_cache_map_at(self.entries@, i as int);
                }
                Some(String::from_str(self.entries[i].result.as_str()))
            },
            None => {
                proof {
                    Self::lemma_cache_map_absent(self.entries@, fp@);
                }
                None
            },
        }
    }

    /// Store `result` under `fp`, replacing any previous result for the
    /// same fingerprint. A repeated store of the same computation is
    /// idempotent in the map: the last writer's result stands.
    pub fn store(&mut self, fp: Fingerprint, result: String)
        requires
            old(self).wf(),
        ensures
            final(self).wf(),
            final(self)@ =~= old(self)@.insert(fp@, result@),
    {
        let found = self.find_entry(&fp);
        let ghost old_entries = self.entries@;
        match found {
            Some(i) => {
                self.entries[i] = CacheEntry { fp, result };
                proof {
                    Self::lemma_cache_map_update(old_entries, i as int, self.entries@);
                }
            },
            None => {
                self.entries.push(CacheEntry { fp, result });
                proof {
                    assert(self.entries@.drop_last() =~= old_entries);
                }
            },
        }
    }

    /// Drop any entry stored under `fp`.
    pub fn invalidate(&mut self, fp: &Fingerprint)
        requires
            old(self).wf(),
        ensures
            final(self).wf(),
            final(self)@ =~= old(self)@.remove(fp@),
    {
        let found = self.find_entry(&fp);
        let ghost old_entries = self.entries@;
        match found {
            Some(i) => {
                self.entries.remove(i);
                proof {
                    Self::lemma_cache_map_remove(old_entries, i as int, self.entries@);
                }
            },
            None => {
                proof {
                    Self::lemma_cache_map_absent(self.entries@, fp@);
                    assert(self@ =~= self@.remove(fp@));
                }
            },
        }
    }

    proof fn lemma_cache_map_update(old_es: Seq<CacheEntry>, h: int, new_es: Seq<CacheEntry>)
        requires
            0 <= h < old_es.len(),
            new_es.len() == old_es.len(),
            forall|t: int| 0 <= t < old_es.len() && t != h ==> new_es[t] == old_es[t],
            new_es[h].fp@ == old_es[h].fp@,
            forall|a: int, b: int| 0 <= a < b < old_es.len() ==> old_es[a].fp@ != old_es[b].fp@,
        ensures
            cache_map(new_es) =~= cache_map(old_es).insert(new_es[h].fp@, new_es[h].result@),
        decreases old_es.len(),
    {
        if old_es.len() > 0 {
            if h == old_es.len() - 1 {
                assert(new_es.drop_last() =~= old_es.drop_last());
            } else {
                Self::lemma_cache_map_update(old_es.drop_last(), h, new_es.drop_last());
                Self::lemma_cache_map_absent(old_es.drop_last(), old_es.last().fp@);
            }
        }
    }

    proof fn lemma_cache_map_remove(old_es: Seq<CacheEntry>, h: int, new_es: Seq<CacheEntry>)
        requires
            0 <= h < old_es.len(),
            new_es =~= old_es.remove(h),
            forall|a: int, b: int| 0 <= a < b < old_es.len() ==> old_es[a].fp@ != old_es[b].fp@,
        ensures
            cache_map(new_es) =~= cache_map(old_es).remove(old_es[h].fp@),
        decreases old_es.len(),
    {
        if old_es.len() > 0 {
            if h == old_es.len() - 1 {
                assert(new_es =~= old_es.drop_last());
                Self::lemma_cache_map_absent(old_es.drop_last(), old_es.last().fp@);
            } else {
                Self::lemma_cache_map_remove(old_es.drop_last(), h, new_es.drop_last());
                assert(new_es.last() == old_es.last());
            }
        }
    }
}

/// Cache determinism: two runs that resolve byte-identical input bundles
/// for the same agent under the same template version build equal
/// fingerprints, so what the first run stored, the second run's lookup
/// returns — a hit, with the first run's result, and no second computation.
pub proof fn lemma_identical_inputs_hit(
    stored: Map<FingerprintModel, Seq<char>>,
    fp1: FingerprintModel,
    fp2: FingerprintModel,
    result: Seq<char>,
)
    requires
        fp1.agent == fp2.agent,
        fp1.inputs == fp2.inputs,
        fp1.template_version == fp2.template_version,
    ensures
        stored.insert(fp1, result).contains_key(fp2),
        stored.insert(fp1, result)[fp2] == result,
{
    assert(fp1 == fp2);
}

/// No false hit: a lookup under a fingerprint that differs in any part from
/// everything stored misses.
pub proof fn lemma_distinct_inputs_miss(
    stored: Map<FingerprintModel, Seq<char>>,
    fp1: FingerprintModel,
    fp2: FingerprintModel,
    result: Seq<char>,
)
    requires
        !stored.contains_key(fp2),
        fp1 != fp2,
    ensures
        !stored.insert(fp1, result).contains_key(fp2),
{
}

} // verus!
