use vstd::prelude::*;
use crate::types::{Digest, Generation};

verus! {

/// The key a chunk is addressed by: its generation and its digest. This is
/// the model of the deterministic path a resolver would derive from the pair.
pub open spec fn chunk_key(g: Generation, d: Digest) -> (u64, u64) {
    (g.0, d.0)
}

/// The observable effect of an idempotent write: a chunk appears where none
/// was; a present chunk (identical content, by content addressing) is left
/// alone. No error either way.
pub open spec fn write_model(
    m: Map<(u64, u64), Seq<u8>>,
    k: (u64, u64),
    content: Seq<u8>,
) -> Map<(u64, u64), Seq<u8>> {
    if m.contains_key(k) {
        m
    } else {
        m.insert(k, content)
    }
}

/// Idempotent write: issuing the same `(key, content)` write twice leaves the
/// store exactly as one write does (and, like every write, surfaces no
/// error).
pub proof fn lemma_write_idempotent(m: Map<(u64, u64), Seq<u8>>, k: (u64, u64), content: Seq<u8>)
    ensures
        write_model(write_model(m, k, content), k, content) == write_model(m, k, content),
{
}

/// Renaming a chunk's source key went wrong.
#[derive(Clone, Copy, PartialEq, Eq, Structural, Debug)]
pub enum StoreError {
    /// The source chunk is gone (typically: another worker moved it first).
    SourceMissing,
}

/// One stored chunk.
#[derive(Clone, PartialEq, Eq, Debug)]
struct Entry {
    gen: u64,
    digest: u64,
    content: Vec<u8>,
}

spec fn entry_key(e: Entry) -> (u64, u64) {
    (e.gen, e.digest)
}

spec fn map_of(s: Seq<Entry>) -> Map<(u64, u64), Seq<u8>>
    decreases s.len(),
{
    if s.len() == 0 {
        Map::empty()
    } else {
        map_of(s.drop_last()).insert(entry_key(s.last()), s.last().content@)
    }
}

spec fn distinct_keys(s: Seq<Entry>) -> bool {
    forall|i: int, j: int| 0 <= i < j < s.len() ==> entry_key(s[i]) != entry_key(s[j])
}

proof fn lemma_map_of_contains(s: Seq<Entry>)
    ensures
        forall|k: (u64, u64)|
            #[trigger] map_of(s).contains_key(k) <==> exists|i: int|
                0 <= i < s.len() && entry_key(s[i]) == k,
    decreases s.len(),
{
    if s.len() > 0 {
        lemma_map_of_contains(s.drop_last());
        assert forall|k: (u64, u64)| #[trigger]
            map_of(s).contains_key(k) implies exists|i: int|
            0 <= i < s.len() && entry_key(s[i]) == k by {
            if k == entry_key(s.last()) {
                assert(entry_key(s[s.len() - 1]) == k);
            } else {
                assert(map_of(s.drop_last()).contains_key(k));
                let i = choose|i: int|
                    0 <= i < s.drop_last().len() && entry_key(s.drop_last()[i]) == k;
                assert(s.drop_last()[i] == s[i]);
                assert(entry_key(s[i]) == k);
            }
        }
        assert forall|k: (u64, u64)|
            (exists|i: int| 0 <= i < s.len() && entry_key(s[i]) == k) implies #[trigger]
            map_of(s).contains_key(k) by {
            let i = choose|i: int| 0 <= i < s.len() && entry_key(s[i]) == k;
            if i < s.len() - 1 {
                assert(s.drop_last()[i] == s[i]);
                assert(entry_key(s.drop_last()[i]) == k);
                assert(map_of(s.drop_last()).contains_key(k));
            }
        }
    }
}

proof fn lemma_map_of_index(s: Seq<Entry>, i: int)
    requires
        distinct_keys(s),
        0 <= i < s.len(),
    ensures
        map_of(s).contains_key(entry_key(s[i])),
        map_of(s)[entry_key(s[i])] == s[i].content@,
    decreases s.len(),
{
    if i < s.len() - 1 {
        assert(distinct_keys(s.drop_last())) by {
            assert forall|a: int, b: int|
                0 <= a < b < s.drop_last().len() implies entry_key(s.drop_last()[a])
                != entry_key(s.drop_last()[b]) by {
                assert(s.drop_last()[a] == s[a] && s.drop_last()[b] == s[b]);
            }
        }
        lemma_map_of_index(s.drop_last(), i);
        assert(s.drop_last()[i] == s[i]);
        assert(entry_key(s.last()) != entry_key(s[i]));
    }
}

proof fn lemma_distinct_drop(s: Seq<Entry>)
    requires
        distinct_keys(s),
        s.len() > 0,
    ensures
        distinct_keys(s.drop_last()),
{
    assert forall|a: int, b: int|
        0 <= a < b < s.drop_last().len() implies entry_key(s.drop_last()[a]) != entry_key(
        s.drop_last()[b],
    ) by {
        assert(s.drop_last()[a] == s[a] && s.drop_last()[b] == s[b]);
    }
}

proof fn lemma_distinct_remove(s: Seq<Entry>, i: int)
    requires
        distinct_keys(s),
        0 <= i < s.len(),
    ensures
        distinct_keys(s.remove(i)),
{
    assert forall|a: int, b: int|
        0 <= a < b < s.remove(i).len() implies entry_key(s.remove(i)[a]) != entry_key(
        s.remove(i)[b],
    ) by {
        let a0 = if a < i { a } else { a + 1 };
        let b0 = if b < i { b } else { b + 1 };
        assert(s.remove(i)[a] == s[a0] && s.remove(i)[b] == s[b0]);
    }
}

proof fn lemma_map_of_remove(s: Seq<Entry>, i: int)
    requires
        distinct_keys(s),
        0 <= i < s.len(),
    ensures
        map_of(s.remove(i)) == map_of(s).remove(entry_key(s[i])),
    decreases s.len(),
{
    lemma_map_of_contains(s);
    lemma_distinct_drop(s);
    if i == s.len() - 1 {
        assert(s.remove(i) =~= s.drop_last());
        lemma_map_of_contains(s.drop_last());
        assert(!map_of(s.drop_last()).contains_key(entry_key(s.last())));
        assert(map_of(s.remove(i)) =~= map_of(s).remove(entry_key(s[i])));
    } else {
        let dl = s.drop_last();
        assert(s.remove(i).last() == s.last());
        assert(s.remove(i).drop_last() =~= dl.remove(i));
        lemma_map_of_remove(dl, i);
        assert(dl[i] == s[i]);
        assert(map_of(s.remove(i)) == map_of(dl.remove(i)).insert(
            entry_key(s.last()),
            s.last().content@,
        ));
        assert(entry_key(s[i]) != entry_key(s.last()));
        assert(map_of(dl).remove(entry_key(s[i])).insert(entry_key(s.last()), s.last().content@)
            =~= map_of(dl).insert(entry_key(s.last()), s.last().content@).remove(entry_key(s[i])));
        assert(map_of(s.remove(i)) =~= map_of(s).remove(entry_key(s[i])));
    }
}

proof fn lemma_map_of_len(s: Seq<Entry>)
    requires
        distinct_keys(s),
    ensures
        map_of(s).len() == s.len(),
        map_of(s).dom().finite(),
    decreases s.len(),
{
    if s.len() == 0 {
        assert(map_of(s).dom() =~= Set::<(u64, u64)>::empty());
    } else {
        lemma_distinct_drop(s);
        lemma_map_of_len(s.drop_last());
        lemma_map_of_contains(s.drop_last());
        assert(!map_of(s.drop_last()).contains_key(entry_key(s.last())));
        vstd::set_lib::lemma_len_union::<(u64, u64)>(
            map_of(s.drop_last()).dom(),
            set![entry_key(s.last())],
        );
        assert(map_of(s).dom() =~= map_of(s.drop_last()).dom().union(set![entry_key(s.last())]));
    }
}

/// In-memory model of the path-addressed chunk store: the set of stored
/// chunks, viewed as a map from `(generation, digest)` to the chunk's bytes.
/// Its on-"disk" existence is the sole source of truth for "already stored":
/// there is no separate index.
#[derive(Clone, PartialEq, Eq, Debug)]
pub struct Store {
    entries: Vec<Entry>,
}

impl View for Store {
    type V = Map<(u64, u64), Seq<u8>>;

    closed spec fn view(&self) -> Self::V {
        map_of(self.entries@)
    }
}

impl Store {
    /// Each `(generation, digest)` pair names at most one chunk.
    pub closed spec fn inv(&self) -> bool {
        distinct_keys(self.entries@)
    }

    pub fn new() -> (r: Store)
        ensures
            r.inv(),
            r@ == Map::<(u64, u64), Seq<u8>>::empty(),
    {
        Store { entries: Vec::new() }
    }

    fn find_idx(&self, g: Generation, d: Digest) -> (r: Option<usize>)
        requires
            self.inv(),
        ensures
            match r {
                Some(i) => i < self.entries@.len() && entry_key(self.entries@[i as int])
                    == chunk_key(g, d) && self@.contains_key(chunk_key(g, d)) && self@[chunk_key(
                    g,
                    d,
                )] == self.entries@[i as int].content@,
                None => !self@.contains_key(chunk_key(g, d)),
            },
    {
        let mut j: usize = 0;
        while j < self.entries.len()
            invariant
                self.inv(),
                j <= self.entries@.len(),
                forall|m: int| 0 <= m < j ==> entry_key(self.entries@[m]) != chunk_key(g, d),
            decreases self.entries@.len() - j,
        {
            if self.entries[j].gen == g.0 && self.entries[j].digest == d.0 {
                proof {
                    lemma_map_of_index(self.entries@, j as int);
                }
                return Some(j);
            }
            j = j + 1;
        }
        proof {
            lemma_map_of_contains(self.entries@);
        }
        None
    }

    /// The existence check: is a chunk stored under `(g, d)`?
    pub fn has_chunk(&self, g: Generation, d: Digest) -> (r: bool)
        requires
            self.inv(),
        ensures
            r == self@.contains_key(chunk_key(g, d)),
    {
        self.find_idx(g, d).is_some()
    }

    /// Read a stored chunk's bytes back, if the chunk is there.
    pub fn get_content(&self, g: Generation, d: Digest) -> (r: Option<Vec<u8>>)
        requires
            self.inv(),
        ensures
            match r {
                Some(c) => self@.contains_key(chunk_key(g, d)) && c@ == self@[chunk_key(g, d)],
                None => !self@.contains_key(chunk_key(g, d)),
            },
    {
        match self.find_idx(g, d) {
            Some(i) => {
                let src = &self.entries[i].content;
                let mut out: Vec<u8> = Vec::new();
                let mut j: usize = 0;
                while j < src.len()
                    invariant
                        j <= src@.len(),
                        out@ == src@.take(j as int),
                    decreases src@.len() - j,
                {
                    out.push(src[j]);
                    proof {
                        assert(out@ =~= src@.take(j + 1));
                    }
                    j = j + 1;
                }
                proof {
                    assert(src@.take(src@.len() as int) =~= src@);
                }
                Some(out)
            },
            None => None,
        }
    }

    /// How many chunks the store holds in all.
    pub fn chunk_count(&self) -> (r: usize)
        requires
            self.inv(),
        ensures
            r == self@.len(),
    {
        proof {
            lemma_map_of_len(self.entries@);
        }
        self.entries.len()
    }

    /// The idempotent write primitive: safe to issue even if the destination
    /// already holds (identical, by content addressing) content. Never errors.
    pub fn write_idempotent(&mut self, g: Generation, d: Digest, content: Vec<u8>)
        requires
            old(self).inv(),
        ensures
            final(self).inv(),
            final(self)@ == write_model(old(self)@, chunk_key(g, d), content@),
    {
        match self.find_idx(g, d) {
            Some(_) => {},
            None => {
                self.push_fresh(g, d, content);
            },
        }
    }

    /// The atomic rename: move the chunk stored under `(src, d)` to
    /// `(dst, d)`, replacing whatever the destination held. Fails exactly
    /// when the source chunk is absent, and then changes nothing.
    pub fn rename(&mut self, src: Generation, d: Digest, dst: Generation) -> (r: Result<
        (),
        StoreError,
    >)
        requires
            old(self).inv(),
            src.0 != dst.0,
        ensures
            final(self).inv(),
            ({
                let k_src = chunk_key(src, d);
                let k_dst = chunk_key(dst, d);
                if old(self)@.contains_key(k_src) {
                    &&& r == Ok::<(), StoreError>(())
                    &&& final(self)@ == old(self)@.remove(k_src).insert(k_dst, old(self)@[k_src])
                } else {
                    &&& r == Err::<(), StoreError>(StoreError::SourceMissing)
                    &&& final(self)@ == old(self)@
                }
            }),
    {
        match self.find_idx(src, d) {
            None => Err(StoreError::SourceMissing),
            Some(i) => {
                proof {
                    lemma_map_of_remove(self.entries@, i as int);
                    lemma_distinct_remove(self.entries@, i as int);
                }
                let e = self.entries.remove(i);
                let ghost m1 = self@;
                match self.find_idx(dst, d) {
                    Some(j) => {
                        proof {
                            lemma_map_of_remove(self.entries@, j as int);
                            lemma_distinct_remove(self.entries@, j as int);
                        }
                        self.entries.remove(j);
                        self.push_fresh(dst, d, e.content);
                        proof {
                            assert(self@ =~= old(self)@.remove(chunk_key(src, d)).insert(
                                chunk_key(dst, d),
                                old(self)@[chunk_key(src, d)],
                            ));
                        }
                    },
                    None => {
                        self.push_fresh(dst, d, e.content);
                        proof {
                            assert(self@ =~= old(self)@.remove(chunk_key(src, d)).insert(
                                chunk_key(dst, d),
                                old(self)@[chunk_key(src, d)],
                            ));
                        }
                    },
                }
                Ok(())
            },
        }
    }

    fn push_fresh(&mut self, g: Generation, d: Digest, content: Vec<u8>)
        requires
            old(self).inv(),
            !old(self)@.contains_key(chunk_key(g, d)),
        ensures
            final(self).inv(),
            final(self)@ == old(self)@.insert(chunk_key(g, d), content@),
    {
        proof {
            lemma_map_of_contains(self.entries@);
        }
        let ghost s0 = self.entries@;
        self.entries.push(Entry { gen: g.0, digest: d.0, content });
        proof {
            assert(self.entries@.drop_last() =~= s0);
            assert forall|a: int, b: int|
                0 <= a < b < self.entries@.len() implies entry_key(self.entries@[a]) != entry_key(
                self.entries@[b],
            ) by {
                if b < self.entries@.len() - 1 {
                    assert(self.entries@[a] == s0[a] && self.entries@[b] == s0[b]);
                } else {
                    assert(self.entries@[a] == s0[a]);
                    assert(entry_key(self.entries@[b]) == chunk_key(g, d));
                }
            }
        }
    }
}

} // verus!
