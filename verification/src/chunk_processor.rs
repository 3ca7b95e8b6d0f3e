use vstd::prelude::*;
use crate::buffer::sg_to_bytes;
use crate::channel::send_response;
use crate::compression::Compressor;
use crate::encryption::Encrypter;
use crate::hashing::Hasher;
use crate::store::{chunk_key, Store};
use crate::types::{DataType, Digest, Generation, ProcessError};

verus! {

/// One chunk-processing request: a sequence id to disambiguate out-of-order
/// completions, the payload as a scatter-gather buffer, the tag deciding the
/// transforms, and the channel the `(sequence_id, digest)` answer goes to.
pub struct Message {
    pub data: (u64, sgdata::SGData),
    pub data_type: DataType,
    pub response_tx: std::sync::mpsc::Sender<(u64, Digest)>,
}

/// Relies on two_lock_queue::Receiver::recv: blocks until a message arrives
/// (`Some`), or until every sender is gone and the queue is drained (`None`).
/// Which message arrives is the queue's choice, so nothing more is stated.
#[verifier::external_body]
fn recv_message(rx: &two_lock_queue::Receiver<Message>) -> (r: Option<Message>) {
    match rx.recv() {
        Ok(m) => Some(m),
        Err(_) => None,
    }
}

/// A well-formed generation list: non-empty and strictly ordered, oldest
/// first; the last element is the current generation. Epochs are distinct
/// namespaces, so their identifiers are strictly increasing.
pub open spec fn generations_wf(gens: Seq<Generation>) -> bool {
    &&& gens.len() >= 1
    &&& forall|i: int, j: int| 0 <= i < j < gens.len() ==> gens[i].0 < gens[j].0
}

/// The dedup search, resolved against one store state: the generation index
/// the scan finds a chunk with digest `d` in, probing newest to oldest.
pub open spec fn scan_from(
    m: Map<(u64, u64), Seq<u8>>,
    gens: Seq<Generation>,
    d: Digest,
    top: int,
) -> Option<int>
    decreases top + 1,
{
    if top < 0 {
        None
    } else if m.contains_key(chunk_key(gens[top], d)) {
        Some(top)
    } else {
        scan_from(m, gens, d, top - 1)
    }
}

/// The whole scan: newest generation first, then each older one in turn.
/// (The worker re-probes the current generation once more at the end; against
/// one store state that re-probe cannot find anything new, so the model needs
/// no extra case for it.)
pub open spec fn scan(m: Map<(u64, u64), Seq<u8>>, gens: Seq<Generation>, d: Digest) -> Option<
    int,
> {
    scan_from(m, gens, d, gens.len() - 1)
}

pub proof fn lemma_scan_from_some(
    m: Map<(u64, u64), Seq<u8>>,
    gens: Seq<Generation>,
    d: Digest,
    top: int,
    k: int,
)
    requires
        0 <= k <= top < gens.len(),
        m.contains_key(chunk_key(gens[k], d)),
        forall|j: int| k < j <= top ==> !m.contains_key(chunk_key(gens[j], d)),
    ensures
        scan_from(m, gens, d, top) == Some(k),
    decreases top,
{
    if top > k {
        lemma_scan_from_some(m, gens, d, top - 1, k);
    }
}

pub proof fn lemma_scan_from_none(
    m: Map<(u64, u64), Seq<u8>>,
    gens: Seq<Generation>,
    d: Digest,
    top: int,
)
    requires
        top < gens.len(),
        forall|j: int| 0 <= j <= top ==> !m.contains_key(chunk_key(gens[j], d)),
    ensures
        scan_from(m, gens, d, top) == None::<int>,
    decreases top + 1,
{
    if top >= 0 {
        lemma_scan_from_none(m, gens, d, top - 1);
    }
}

/// What a scan result means: a hit is a real hit, and the newest one.
pub proof fn lemma_scan_from_found(
    m: Map<(u64, u64), Seq<u8>>,
    gens: Seq<Generation>,
    d: Digest,
    top: int,
)
    requires
        top < gens.len(),
    ensures
        scan_from(m, gens, d, top) matches Some(i) ==> 0 <= i <= top && m.contains_key(
            chunk_key(gens[i], d),
        ) && forall|j: int| i < j <= top ==> !m.contains_key(chunk_key(gens[j], d)),
        scan_from(m, gens, d, top) is None ==> forall|j: int|
            0 <= j <= top ==> !m.contains_key(chunk_key(gens[j], d)),
    decreases top + 1,
{
    if top >= 0 {
        lemma_scan_from_found(m, gens, d, top - 1);
    }
}

/// What one request does to the store, as a function of the store the scan
/// ran against: a duplicate in the current generation changes nothing; one in
/// an older generation is renamed forward; a chunk found nowhere is written,
/// as `stored` (the transformed payload), into the current generation.
pub open spec fn process_model(
    m: Map<(u64, u64), Seq<u8>>,
    gens: Seq<Generation>,
    d: Digest,
    stored: Seq<u8>,
) -> Map<(u64, u64), Seq<u8>> {
    let cur = gens[gens.len() - 1];
    match scan(m, gens, d) {
        Some(i) => if i == gens.len() - 1 {
            m
        } else {
            m.remove(chunk_key(gens[i], d)).insert(chunk_key(cur, d), m[chunk_key(gens[i], d)])
        },
        None => m.insert(chunk_key(cur, d), stored),
    }
}

/// One migration step, with the benign-race recovery: try the atomic rename;
/// if it fails because the source is gone, re-check the destination — if the
/// chunk is there, another worker won the race and all is well; if it is
/// absent too, the storage is faulty and the worker must stop.
pub fn migrate_chunk(store: &mut Store, src: Generation, dst: Generation, d: Digest) -> (r: Result<
    (),
    ProcessError,
>)
    requires
        old(store).inv(),
        src.0 != dst.0,
    ensures
        final(store).inv(),
        ({
            let k_src = chunk_key(src, d);
            let k_dst = chunk_key(dst, d);
            if old(store)@.contains_key(k_src) {
                &&& r == Ok::<(), ProcessError>(())
                &&& final(store)@ == old(store)@.remove(k_src).insert(k_dst, old(store)@[k_src])
            } else if old(store)@.contains_key(k_dst) {
                &&& r == Ok::<(), ProcessError>(())
                &&& final(store)@ == old(store)@
            } else {
                &&& r == Err::<(), ProcessError>(ProcessError::StorageFault)
                &&& final(store)@ == old(store)@
            }
        }),
{
    match store.rename(src, d, dst) {
        Ok(_) => Ok(()),
        Err(_) => {
            if store.has_chunk(dst, d) {
                Ok(())
            } else {
                Err(ProcessError::StorageFault)
            }
        },
    }
}

/// One worker of the chunk-processing pool: pulls requests off the shared
/// queue, deduplicates each against the generations, migrates or writes as
/// needed, and answers on the request's response channel.
pub struct ChunkProcessor<H: Hasher, C: Compressor, E: Encrypter> {
    rx: two_lock_queue::Receiver<Message>,
    encrypter: E,
    compressor: C,
    hasher: H,
    generations: Vec<Generation>,
}

impl<H: Hasher, C: Compressor, E: Encrypter> ChunkProcessor<H, C, E> {
    pub closed spec fn spec_hasher(&self) -> H {
        self.hasher
    }

    pub closed spec fn spec_compressor(&self) -> C {
        self.compressor
    }

    pub closed spec fn spec_encrypter(&self) -> E {
        self.encrypter
    }

    pub closed spec fn spec_generations(&self) -> Seq<Generation> {
        self.generations@
    }

    pub open spec fn wf(&self) -> bool {
        generations_wf(self.spec_generations())
    }

    /// The bytes a request's chunk is written as: the payload, compressed iff
    /// the tag says so, then encrypted (keyed by the digest) iff the tag says
    /// so.
    pub open spec fn stored_bytes(&self, payload: Seq<u8>, d: Digest, dt: DataType) -> Seq<u8> {
        let c = if dt.spec_should_compress() {
            self.spec_compressor().compressed(payload)
        } else {
            payload
        };
        if dt.spec_should_encrypt() {
            self.spec_encrypter().encrypted(c, d)
        } else {
            c
        }
    }

    /// Whether both transforms the tag calls for accept the payload.
    pub open spec fn transforms_accept(&self, payload: Seq<u8>, d: Digest, dt: DataType) -> bool {
        let c = if dt.spec_should_compress() {
            self.spec_compressor().compressed(payload)
        } else {
            payload
        };
        &&& (dt.spec_should_compress() ==> self.spec_compressor().accepts(payload))
        &&& (dt.spec_should_encrypt() ==> self.spec_encrypter().accepts(c, d))
    }

    /// A processor for one worker thread. The generation list is the caller's
    /// configuration; handing in an empty or unordered one is a programming
    /// error, not a runtime condition.
    pub fn new(
        rx: two_lock_queue::Receiver<Message>,
        encrypter: E,
        compressor: C,
        hasher: H,
        generations: Vec<Generation>,
    ) -> (r: Self)
        requires
            generations_wf(generations@),
        ensures
            r.wf(),
            r.spec_generations() == generations@,
            r.spec_hasher() == hasher,
            r.spec_compressor() == compressor,
            r.spec_encrypter() == encrypter,
    {
        ChunkProcessor { rx, encrypter, compressor, hasher, generations }
    }

    /// Process one request against the store: hash, scan newest-to-oldest
    /// (with the trailing re-check of the current generation), then migrate,
    /// write, or do nothing, exactly as `process_model` says. Returns the
    /// response owed to the producer; fails only when a transform the tag
    /// calls for refuses the payload, and then leaves the store untouched.
    pub fn process_one(
        &self,
        store: &mut Store,
        sequence_id: u64,
        payload: Vec<u8>,
        data_type: DataType,
    ) -> (r: Result<(u64, Digest), ProcessError>)
        requires
            self.wf(),
            old(store).inv(),
        ensures
            final(store).inv(),
            ({
                let d = Digest(self.spec_hasher().digest_of(payload@));
                let gens = self.spec_generations();
                let stored = self.stored_bytes(payload@, d, data_type);
                if scan(old(store)@, gens, d) is Some || self.transforms_accept(
                    payload@,
                    d,
                    data_type,
                ) {
                    &&& r == Ok::<(u64, Digest), ProcessError>((sequence_id, d))
                    &&& final(store)@ == process_model(old(store)@, gens, d, stored)
                } else {
                    &&& final(store)@ == old(store)@
                    &&& if data_type.spec_should_compress() && !self.spec_compressor().accepts(
                        payload@,
                    ) {
                        r == Err::<(u64, Digest), ProcessError>(ProcessError::Compression)
                    } else {
                        r == Err::<(u64, Digest), ProcessError>(ProcessError::Encryption)
                    }
                }
            }),
    {
        let digest = self.hasher.calculate_digest(&payload);
        let n = self.generations.len();

        // Dedup search: probe newest to oldest; remember the newest hit.
        let mut found: Option<usize> = None;
        let mut i: usize = n;
        while i > 0
            invariant
                self.wf(),
                store.inv(),
                store@ == old(store)@,
                i <= n,
                n == self.spec_generations().len(),
                digest.0 == self.spec_hasher().digest_of(payload@),
                found is None ==> forall|j: int|
                    i <= j < n ==> !store@.contains_key(
                        chunk_key(self.spec_generations()[j], digest),
                    ),
                found matches Some(k) ==> 0 <= k < n && store@.contains_key(
                    chunk_key(self.spec_generations()[k as int], digest),
                ) && forall|j: int|
                    k < j < n ==> !store@.contains_key(
                        chunk_key(self.spec_generations()[j], digest),
                    ),
            decreases i,
        {
            let g = self.generations[i - 1];
            if found.is_none() && store.has_chunk(g, digest) {
                found = Some(i - 1);
            }
            i = i - 1;
        }
        // Trailing re-check of the current generation: another worker or
        // process may have just migrated the chunk into it. (Against this
        // store handle nothing can have changed since the scan, so the proof
        // knows the probe finds nothing new; the probe itself is required
        // behavior.)
        if found.is_none() {
            let cur = self.generations[n - 1];
            if store.has_chunk(cur, digest) {
                found = Some(n - 1);
            }
        }
        proof {
            if found is Some {
                lemma_scan_from_some(
                    store@,
                    self.spec_generations(),
                    digest,
                    n as int - 1,
                    found->Some_0 as int,
                );
            } else {
                lemma_scan_from_none(store@, self.spec_generations(), digest, n as int - 1);
            }
        }
        match found {
            Some(k) => {
                if k + 1 < n {
                    // Found in an older generation: migrate it forward.
                    let src = self.generations[k];
                    let cur = self.generations[n - 1];
                    proof {
                        assert(self.spec_generations()[k as int].0 < self.spec_generations()[
                            n as int - 1].0);
                    }
                    match migrate_chunk(store, src, cur, digest) {
                        Ok(_) => {},
                        Err(e) => {
                            return Err(e);
                        },
                    }
                }
                Ok((sequence_id, digest))
            },
            None => {
                // New chunk: transform as the tag demands, then write it,
                // idempotently, into the current generation.
                let data = if data_type.should_compress() {
                    match self.compressor.compress(payload) {
                        Ok(c) => c,
                        Err(_) => {
                            return Err(ProcessError::Compression);
                        },
                    }
                } else {
                    payload
                };
                let data = if data_type.should_encrypt() {
                    match self.encrypter.encrypt(data, digest) {
                        Ok(c) => c,
                        Err(_) => {
                            return Err(ProcessError::Encryption);
                        },
                    }
                } else {
                    data
                };
                let cur = self.generations[n - 1];
                store.write_idempotent(cur, digest, data);
                Ok((sequence_id, digest))
            },
        }
    }

    /// One turn of the worker loop: block for the next request, process it
    /// against the store, and answer on its response channel. `Ok(false)`
    /// means the queue is closed and drained — the worker stops cleanly;
    /// `Ok(true)` reports one handled request. A refused transform or a
    /// closed response channel aborts with the error, since swallowing
    /// either could lose a chunk silently. The enclosing thread loop — repeat
    /// until `Ok(false)` or an error — stands with the thread pool, outside
    /// the verified core, because it need not terminate.
    pub fn run_once(&self, store: &mut Store) -> (r: Result<bool, ProcessError>)
        requires
            self.wf(),
            old(store).inv(),
        ensures
            final(store).inv(),
    {
        match recv_message(&self.rx) {
            Some(input) => {
                let Message { data, data_type, response_tx } = input;
                let (sequence_id, sg) = data;
                let payload = sg_to_bytes(&sg);
                match self.process_one(store, sequence_id, payload, data_type) {
                    Ok(resp) => {
                        if send_response(&response_tx, resp.0, resp.1) {
                            Ok(true)
                        } else {
                            Err(ProcessError::ResponseChannelClosed)
                        }
                    },
                    Err(e) => Err(e),
                }
            },
            None => Ok(false),
        }
    }
}

/// Dedup correctness: after a request with digest `d` is processed, a chunk
/// with that digest sits in the current generation, and processing a second
/// request with the same digest — as a second byte-identical payload has, the
/// digest being a function of the bytes — changes nothing further: exactly
/// one physical chunk results, whatever either request would have written.
pub proof fn lemma_dedup_correct(
    m: Map<(u64, u64), Seq<u8>>,
    gens: Seq<Generation>,
    d: Digest,
    stored_first: Seq<u8>,
    stored_second: Seq<u8>,
)
    requires
        generations_wf(gens),
    ensures
        ({
            let m1 = process_model(m, gens, d, stored_first);
            let m2 = process_model(m1, gens, d, stored_second);
            &&& m1.contains_key(chunk_key(gens[gens.len() - 1], d))
            &&& m2 == m1
        }),
{
    let cur = gens[gens.len() - 1];
    let m1 = process_model(m, gens, d, stored_first);
    lemma_scan_from_found(m, gens, d, gens.len() - 1);
    assert(m1.contains_key(chunk_key(cur, d)));
    assert(scan_from(m1, gens, d, gens.len() - 1) == Some(gens.len() - 1));
}

/// Migration correctness: if a chunk with digest `d` exists only in an older
/// generation, processing a request with matching content leaves the chunk in
/// the current generation, with the same bytes, and no longer in the older
/// one: exactly one copy survives, in the newest location.
pub proof fn lemma_migration_correct(
    m: Map<(u64, u64), Seq<u8>>,
    gens: Seq<Generation>,
    d: Digest,
    stored: Seq<u8>,
    i: int,
)
    requires
        generations_wf(gens),
        0 <= i < gens.len() - 1,
        m.contains_key(chunk_key(gens[i], d)),
        forall|j: int| 0 <= j < gens.len() && j != i ==> !m.contains_key(chunk_key(gens[j], d)),
    ensures
        ({
            let m1 = process_model(m, gens, d, stored);
            &&& m1.contains_key(chunk_key(gens[gens.len() - 1], d))
            &&& m1[chunk_key(gens[gens.len() - 1], d)] == m[chunk_key(gens[i], d)]
            &&& !m1.contains_key(chunk_key(gens[i], d))
        }),
{
    lemma_scan_from_some(m, gens, d, gens.len() - 1, i);
    assert(gens[i].0 < gens[gens.len() - 1].0);
}



/// Exactly one physical chunk: the store keeps each digest in at most one
/// generation (renames move, writes only fill a hole), and processing a
/// request leaves its digest's chunk in the current generation alone.
pub proof fn lemma_single_copy(
    m: Map<(u64, u64), Seq<u8>>,
    gens: Seq<Generation>,
    d: Digest,
    stored: Seq<u8>,
)
    requires
        generations_wf(gens),
        forall|i: int, j: int|
            0 <= i < j < gens.len() ==> !(m.contains_key(chunk_key(gens[i], d))
                && m.contains_key(chunk_key(gens[j], d))),
    ensures
        ({
            let m1 = process_model(m, gens, d, stored);
            &&& m1.contains_key(chunk_key(gens[gens.len() - 1], d))
            &&& forall|i: int| 0 <= i < gens.len() - 1 ==> !m1.contains_key(chunk_key(gens[i], d))
        }),
{
    let n = gens.len() as int;
    let m1 = process_model(m, gens, d, stored);
    lemma_scan_from_found(m, gens, d, n - 1);
    assert forall|i: int| 0 <= i < n - 1 implies !m1.contains_key(chunk_key(gens[i], d)) by {
        assert(gens[i].0 < gens[n - 1].0);
        if scan(m, gens, d) is Some {
            let h = scan(m, gens, d)->Some_0;
            if h < n - 1 && i != h {
                assert(!(m.contains_key(chunk_key(gens[i], d)) && m.contains_key(
                    chunk_key(gens[h], d),
                )));
            }
        }
    }
}

/// Scans for a digest read only that digest's keys: two stores that agree on
/// them are scanned alike.
proof fn lemma_scan_from_frame(
    m1: Map<(u64, u64), Seq<u8>>,
    m2: Map<(u64, u64), Seq<u8>>,
    gens: Seq<Generation>,
    d: Digest,
    top: int,
)
    requires
        top < gens.len(),
        forall|g: u64| #![auto] m1.contains_key((g, d.0)) <==> m2.contains_key((g, d.0)),
    ensures
        scan_from(m1, gens, d, top) == scan_from(m2, gens, d, top),
    decreases top + 1,
{
    if top >= 0 {
        assert(m1.contains_key((gens[top].0, d.0)) <==> m2.contains_key((gens[top].0, d.0)));
        lemma_scan_from_frame(m1, m2, gens, d, top - 1);
    }
}

/// Processing a request touches only its own digest's keys: every other key
/// keeps its presence and its bytes.
proof fn lemma_process_frame(
    m: Map<(u64, u64), Seq<u8>>,
    gens: Seq<Generation>,
    d: Digest,
    stored: Seq<u8>,
)
    requires
        generations_wf(gens),
    ensures
        forall|k: (u64, u64)| #![auto]
            k.1 != d.0 ==> (process_model(m, gens, d, stored).contains_key(k) <==> m.contains_key(
                k,
            )),
        forall|k: (u64, u64)| #![auto]
            k.1 != d.0 && m.contains_key(k) ==> process_model(m, gens, d, stored)[k] == m[k],
{
    lemma_scan_from_found(m, gens, d, gens.len() - 1);
}

/// Unrelated requests commute: two chunks with different digests, processed
/// concurrently by different workers, leave the same store whichever worker
/// goes first — so nothing about the store orders their completions.
pub proof fn lemma_unrelated_commute(
    m: Map<(u64, u64), Seq<u8>>,
    gens: Seq<Generation>,
    d1: Digest,
    stored1: Seq<u8>,
    d2: Digest,
    stored2: Seq<u8>,
)
    requires
        generations_wf(gens),
        d1.0 != d2.0,
    ensures
        process_model(process_model(m, gens, d1, stored1), gens, d2, stored2) == process_model(
            process_model(m, gens, d2, stored2),
            gens,
            d1,
            stored1,
        ),
{
    let cur = gens[gens.len() - 1];
    let ma = process_model(m, gens, d1, stored1);
    let mb = process_model(ma, gens, d2, stored2);
    let mc = process_model(m, gens, d2, stored2);
    let md = process_model(mc, gens, d1, stored1);
    lemma_process_frame(m, gens, d1, stored1);
    lemma_process_frame(m, gens, d2, stored2);
    lemma_scan_from_frame(ma, m, gens, d2, gens.len() - 1);
    lemma_scan_from_frame(mc, m, gens, d1, gens.len() - 1);
    lemma_scan_from_found(m, gens, d1, gens.len() - 1);
    lemma_scan_from_found(m, gens, d2, gens.len() - 1);
    assert(scan(ma, gens, d2) == scan(m, gens, d2));
    assert(scan(mc, gens, d1) == scan(m, gens, d1));
    assert(mb =~= md);
}

} // verus!
