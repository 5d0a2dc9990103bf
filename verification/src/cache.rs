use vstd::prelude::*;
use vstd::string::StringExecFns;
use crate::text::{str_eq, dec_digits, u64_to_string};
use crate::types::{ModuleIR, ModuleIRV};

verus! {

/// The lowercase hexadecimal BLAKE3 digest of a text's UTF-8 encoding. The
/// digest depends on the text alone.
pub uninterp spec fn blake3_hex_of(s: Seq<char>) -> Seq<char>;

/// Relies on blake3::hash and blake3::Hash::to_hex: hashes the text's UTF-8
/// bytes and renders the 32-byte digest as 64 lowercase hex characters.
#[verifier::external_body]
fn blake3_hex(s: &str) -> (r: String)
    ensures
        r@ == blake3_hex_of(s@),
        r@.len() == 64,
{
    blake3::hash(s.as_bytes()).to_hex().as_str().to_string()
}

/// Content identity of one file: its path, byte size and modification time
/// (seconds since the epoch). Two files with the same identity are assumed
/// unchanged.
#[derive(Clone, Debug)]
pub struct FileHash {
    pub path: String,
    pub size: u64,
    pub mtime: u64,
}

/// The canonical cache-key text of a file identity:
/// `<path>:<size>:<mtime>`.
pub open spec fn spec_cache_key(path: Seq<char>, size: u64, mtime: u64) -> Seq<char> {
    path + ":"@ + dec_digits(size as int) + ":"@ + dec_digits(mtime as int)
}

impl FileHash {
    /// A file identity from its three components.
    pub fn new(path: String, size: u64, mtime: u64) -> (r: FileHash)
        ensures
            r.path == path && r.size == size && r.mtime == mtime,
    {
        FileHash { path, size, mtime }
    }

    /// The cache key of this identity: the BLAKE3 digest of its canonical
    /// key text, in hexadecimal.
    pub fn compute_hash(&self) -> (r: String)
        ensures
            r@ == blake3_hex_of(spec_cache_key(self.path@, self.size, self.mtime)),
            r@.len() == 64,
    {
        proof {
            reveal_strlit(":");
        }
        let mut key = self.path.clone();
        key.append(":");
        key.append(u64_to_string(self.size).as_str());
        key.append(":");
        key.append(u64_to_string(self.mtime).as_str());
        proof {
            assert(key@ =~= spec_cache_key(self.path@, self.size, self.mtime));
        }
        blake3_hex(key.as_str())
    }
}

/// The module cached under a key, if any; a later entry shadows an earlier
/// one with the same key.
pub open spec fn spec_cache_find(
    entries: Seq<(String, ModuleIR)>,
    key: Seq<char>,
) -> Option<ModuleIRV>
    decreases entries.len(),
{
    if entries.len() == 0 {
        None
    } else if entries.last().0@ == key {
        Some(entries.last().1@)
    } else {
        spec_cache_find(entries.drop_last(), key)
    }
}

/// No two entries share a key.
pub open spec fn spec_cache_unique(entries: Seq<(String, ModuleIR)>) -> bool {
    forall|i: int, j: int|
        0 <= i < j < entries.len() ==> (#[trigger] entries[i]).0@ != (
        #[trigger] entries[j]).0@
}

/// Removing an entry under a different key leaves a lookup unchanged.
proof fn lemma_cache_find_remove(entries: Seq<(String, ModuleIR)>, i: int, key: Seq<char>)
    requires
        0 <= i < entries.len(),
        entries[i].0@ != key,
    ensures
        spec_cache_find(entries.remove(i), key) == spec_cache_find(entries, key),
    decreases entries.len(),
{
    if i == entries.len() - 1 {
        assert(entries.remove(i) =~= entries.drop_last());
    } else {
        assert(entries.remove(i).last() == entries.last());
        assert(entries.remove(i).drop_last() =~= entries.drop_last().remove(i));
        lemma_cache_find_remove(entries.drop_last(), i, key);
    }
}

/// A lookup finds nothing when no entry carries the key.
proof fn lemma_cache_find_absent(entries: Seq<(String, ModuleIR)>, key: Seq<char>)
    requires
        forall|i: int| 0 <= i < entries.len() ==> (#[trigger] entries[i]).0@ != key,
    ensures
        spec_cache_find(entries, key) is None,
    decreases entries.len(),
{
    if entries.len() > 0 {
        lemma_cache_find_absent(entries.drop_last(), key);
    }
}

/// An in-memory result cache keyed by the hex cache key: a parsed module is
/// stored under its file identity's key and handed back unchanged while the
/// identity holds.
pub struct AnalysisCache {
    entries: Vec<(String, ModuleIR)>,
}

impl AnalysisCache {
    /// Whether the cache's entries carry pairwise distinct keys.
    pub closed spec fn wf(&self) -> bool {
        spec_cache_unique(self.entries@)
    }

    /// The module cached under a key, if any.
    pub closed spec fn spec_get(&self, key: Seq<char>) -> Option<ModuleIRV> {
        spec_cache_find(self.entries@, key)
    }

    /// An empty cache.
    pub fn new() -> (r: AnalysisCache)
        ensures
            r.wf(),
            forall|k: Seq<char>| r.spec_get(k) is None,
    {
        let r = AnalysisCache { entries: Vec::new() };
        proof {
            assert(forall|k: Seq<char>| r.spec_get(k) is None);
        }
        r
    }

    /// Look up the module cached under a key.
    pub fn get(&self, hash: &str) -> (r: Option<&ModuleIR>)
        requires
            self.wf(),
        ensures
            r matches Some(m) ==> self.spec_get(hash@) == Some(m@),
            r is None ==> self.spec_get(hash@) is None,
    {
        let mut i: usize = 0;
        while i < self.entries.len()
            invariant
                0 <= i <= self.entries@.len(),
                self.wf(),
                forall|k: int| 0 <= k < i ==> (#[trigger] self.entries@[k]).0@ != hash@,
            decreases self.entries@.len() - i,
        {
            let key_eq = str_eq(self.entries[i].0.as_str(), hash);
            if key_eq {
                proof {
                    lemma_cache_find_present(self.entries@, i as int, hash@);
                }
                return Some(&self.entries[i].1);
            }
            i = i + 1;
        }
        proof {
            lemma_cache_find_absent(self.entries@, hash@);
        }
        None
    }

    /// Whether a module is cached under a key.
    pub fn contains(&self, hash: &str) -> (r: bool)
        requires
            self.wf(),
        ensures
            r == (self.spec_get(hash@) is Some),
    {
        match self.get(hash) {
            Some(_) => true,
            None => false,
        }
    }

    /// Cache a module under a key, replacing what the key held before.
    pub fn insert(&mut self, hash: String, module: ModuleIR)
        requires
            old(self).wf(),
        ensures
            final(self).wf(),
            final(self).spec_get(hash@) == Some(module@),
            forall|k: Seq<char>|
                k != hash@ ==> #[trigger] final(self).spec_get(k) == old(self).spec_get(k),
    {
        let ghost before = self.entries@;
        let mut i: usize = 0;
        let mut found: Option<usize> = None;
        while i < self.entries.len()
            invariant
                0 <= i <= self.entries@.len(),
                self.entries@ == before,
                match found {
                    Some(fi) => fi < self.entries@.len() && self.entries@[fi as int].0@
                        == hash@,
                    None => forall|k: int|
                        0 <= k < i ==> (#[trigger] self.entries@[k]).0@ != hash@,
                },
            decreases self.entries@.len() - i,
        {
            if found.is_none() {
                let key_eq = str_eq(self.entries[i].0.as_str(), hash.as_str());
                if key_eq {
                    found = Some(i);
                }
            }
            i = i + 1;
        }
        match found {
            Some(fi) => {
                self.entries.remove(fi);
                proof {
                    let removed = before.remove(fi as int);
                    assert(self.entries@ == removed);
                    assert forall|a: int, b: int|
                        0 <= a < b < removed.len() implies (#[trigger] removed[a]).0@ != (
                    #[trigger] removed[b]).0@ by {
                        assert(removed[a] == if a < fi {
                            before[a]
                        } else {
                            before[a + 1]
                        });
                        assert(removed[b] == if b < fi {
                            before[b]
                        } else {
                            before[b + 1]
                        });
                    }
                    assert forall|a: int|
                        0 <= a < removed.len() implies (#[trigger] removed[a]).0@ != hash@ by {
                        assert(removed[a] == if a < fi {
                            before[a]
                        } else {
                            before[a + 1]
                        });
                    }
                }
            },
            None => {
                proof {
                    assert(forall|k: int|
                        0 <= k < before.len() ==> (#[trigger] before[k]).0@ != hash@);
                }
            },
        }
        let ghost mid = self.entries@;
        self.entries.push((hash, module));
        proof {
            assert(self.entries@ =~= mid.push((hash, module)));
            assert(self.entries@.drop_last() =~= mid);
            assert forall|k: Seq<char>| k != hash@ implies #[trigger] self.spec_get(k)
                == spec_cache_find(before, k) by {
            match found {
                Some(fi) => {
                    lemma_cache_find_remove(before, fi as int, k);
                },
                None => {},
            }
            }
            match found {
                Some(fi) => {
                    assert forall|a: int, b: int|
                        0 <= a < b < self.entries@.len() implies (
                    #[trigger] self.entries@[a]).0@ != (#[trigger] self.entries@[b]).0@ by {
                        if b < self.entries@.len() - 1 {
                            assert(self.entries@[a] == mid[a] && self.entries@[b] == mid[b]);
                        } else {
                            assert(self.entries@[a] == mid[a]);
                        }
                    }
                },
                None => {
                    assert forall|a: int, b: int|
                        0 <= a < b < self.entries@.len() implies (
                    #[trigger] self.entries@[a]).0@ != (#[trigger] self.entries@[b]).0@ by {
                        if b < self.entries@.len() - 1 {
                            assert(self.entries@[a] == before[a] && self.entries@[b]
                                == before[b]);
                        } else {
                            assert(self.entries@[a] == before[a]);
                        }
                    }
                },
            }
        }
    }

    /// Drop every cached module.
    pub fn clear(&mut self)
        ensures
            final(self).wf(),
            forall|k: Seq<char>| final(self).spec_get(k) is None,
    {
        self.entries.clear();
        proof {
            assert(forall|k: Seq<char>| self.spec_get(k) is None);
        }
    }
}

/// A lookup at a present key finds it when no earlier scan found the key and
/// the entry at `i` carries it — keys being unique, the last entry with the
/// key is entry `i`.
proof fn lemma_cache_find_present(entries: Seq<(String, ModuleIR)>, i: int, key: Seq<char>)
    requires
        spec_cache_unique(entries),
        0 <= i < entries.len(),
        entries[i].0@ == key,
    ensures
        spec_cache_find(entries, key) == Some(entries[i].1@),
    decreases entries.len(),
{
    if i == entries.len() - 1 {
    } else {
        assert(entries.last().0@ != key);
        assert(entries.drop_last()[i] == entries[i]);
        lemma_cache_find_present(entries.drop_last(), i, key);
    }
}

impl Default for AnalysisCache {
    /// An empty cache.
    fn default() -> (r: AnalysisCache)
        ensures
            r.wf(),
            forall|k: Seq<char>| r.spec_get(k) is None,
    {
        AnalysisCache::new()
    }
}

} // verus!
