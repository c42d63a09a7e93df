//! The embeddings that are kept, and the rounds in which the missing ones are asked for.
use crate::embeddings;
use crate::embeddings::EmbeddingError;
use crate::memory;
use crate::memory::{ChunkModel, MemoryChunk};
use crate::memory_rank;
use crate::settings::{BackendSettings, SettingsModel};
use crate::table::Table;
use crate::text;
use vstd::prelude::*;

verus! {

/// Embeddings under the keys of the chunks that they belong to. They are of use for the service
/// and the model that the scope stands for.
pub struct EmbeddingCache {
    pub version: u8,
    pub scope: String,
    pub embeddings: Table<Vec<u32>>,
}

#[verifier::ext_equal]
pub struct CacheModel {
    pub version: u8,
    pub scope: Seq<char>,
    pub embeddings: Map<Seq<char>, Seq<u32>>,
}

impl View for EmbeddingCache {
    type V = CacheModel;

    open spec fn view(&self) -> CacheModel {
        CacheModel {
            version: self.version,
            scope: self.scope@,
            embeddings: self.embeddings@.map_values(|v: Vec<u32>| v@),
        }
    }
}

/// What stands for a service and a model: the digest of the address and the model's name.
pub open spec fn scope_of(settings: SettingsModel) -> Seq<char> {
    memory::hex(
        memory::sha256_digest(
            vstd::utf8::encode_utf8(
                settings.codex_app_memory_embedding_base_url + seq!['\0'] + text::trimmed(
                    settings.codex_app_memory_embedding_model,
                ),
            ),
        ),
    )
}

/// The cache as far as it is of use: an empty one where it was made for something else.
pub open spec fn fitting_cache(cache: CacheModel, scope: Seq<char>) -> CacheModel {
    if cache.version == embeddings::CACHE_VERSION && cache.scope == scope {
        cache
    } else {
        CacheModel { version: embeddings::CACHE_VERSION, scope, embeddings: Map::empty() }
    }
}

pub fn embedding_scope(settings: &BackendSettings) -> (r: String)
    ensures
        r@ == scope_of(settings@),
{
    let model = text::text_of(
        text::trim(
            text::chars_of(settings.codex_app_memory_embedding_model.as_str()).as_slice(),
        ).as_slice(),
    );
    let mut named = settings.codex_app_memory_embedding_base_url.clone();
    named.push('\0');
    let named = named.concat(model.as_str());
    assert(named@ =~= settings@.codex_app_memory_embedding_base_url + seq!['\0'] + text::trimmed(
        settings@.codex_app_memory_embedding_model,
    ));
    memory::sha256_hex(named.as_str().as_bytes())
}

impl EmbeddingCache {
    pub open spec fn wf(self) -> bool {
        self.embeddings.wf()
    }

    /// An empty cache.
    pub fn empty(version: u8, scope: String) -> (r: EmbeddingCache)
        ensures
            r.wf(),
            r@ == (CacheModel { version, scope: scope@, embeddings: Map::empty() }),
    {
        let r = EmbeddingCache { version, scope, embeddings: Table::new() };
        assert(r@.embeddings =~= Map::<Seq<char>, Seq<u32>>::empty());
        r
    }

    /// The cache as far as it is of use for a scope.
    pub fn fitting(self, scope: String) -> (r: EmbeddingCache)
        requires
            self.wf(),
        ensures
            r.wf(),
            r@ == fitting_cache(self@, scope@),
    {
        if self.version == embeddings::CACHE_VERSION && self.scope == scope {
            self
        } else {
            EmbeddingCache::empty(embeddings::CACHE_VERSION, scope)
        }
    }

    /// Puts an embedding under a key.
    pub fn insert(&mut self, key: String, embedding: Vec<u32>)
        requires
            old(self).wf(),
        ensures
            final(self).wf(),
            final(self)@ == (CacheModel {
                embeddings: old(self)@.embeddings.insert(key@, embedding@),
                ..old(self)@
            }),
    {
        self.embeddings.insert(key, embedding);
        assert(self@.embeddings =~= old(self)@.embeddings.insert(key@, embedding@));
    }

    /// The embedding of a chunk.
    pub fn vector(&self, chunk: &MemoryChunk) -> (r: Option<&Vec<u32>>)
        requires
            self.wf(),
        ensures
            match r {
                Some(v) => self@.embeddings.contains_key(chunk@.cache_key)
                    && self@.embeddings[chunk@.cache_key] == v@,
                None => !self@.embeddings.contains_key(chunk@.cache_key),
            },
    {
        self.embeddings.get(&chunk.cache_key)
    }
}

// ---------------------------------------------------------------------------------------
// Filling the cache
// ---------------------------------------------------------------------------------------

/// The keys of chunks.
pub open spec fn keys(chunks: Seq<ChunkModel>) -> Seq<Seq<char>> {
    chunks.map_values(|c: ChunkModel| c.cache_key)
}

/// The positions of the chunks that the cache has no embedding for.
pub open spec fn missing_of(chunks: Seq<ChunkModel>, cache: CacheModel) -> Seq<usize>
    decreases chunks.len(),
{
    if chunks.len() == 0 {
        Seq::empty()
    } else {
        let before = missing_of(chunks.drop_last(), cache);
        if cache.embeddings.contains_key(chunks.last().cache_key) {
            before
        } else {
            before.push((chunks.len() - 1) as usize)
        }
    }
}

/// The cache with embeddings for the chunks at positions.
pub open spec fn stored(
    cache: CacheModel,
    chunks: Seq<ChunkModel>,
    positions: Seq<usize>,
    embeddings: Seq<Seq<u32>>,
) -> CacheModel
    decreases positions.len(),
{
    if positions.len() == 0 || embeddings.len() == 0 {
        cache
    } else {
        let before = stored(cache, chunks, positions.drop_last(), embeddings.drop_last());
        CacheModel {
            embeddings: before.embeddings.insert(
                chunks[positions.last() as int].cache_key,
                embeddings.last(),
            ),
            ..before
        }
    }
}

/// The cache while it is filled for some chunks.
pub struct EmbeddingRun {
    pub cache: EmbeddingCache,
    pub missing: Vec<usize>,
    pub done: usize,
}

impl EmbeddingRun {
    /// Every chunk has its embedding in the cache, or its position is still to be asked for.
    pub open spec fn wf(self, chunks: Seq<ChunkModel>) -> bool {
        &&& self.cache.wf()
        &&& self.done <= self.missing@.len()
        &&& forall|i: int|
            0 <= i < self.missing@.len() ==> (#[trigger] self.missing@[i]) < chunks.len()
        &&& forall|k: int|
            0 <= k < chunks.len() ==> self.cache@.embeddings.contains_key(
                (#[trigger] chunks[k]).cache_key,
            ) || self.missing@.skip(self.done as int).contains(k as usize)
    }

    /// The positions that are asked for next.
    pub open spec fn batch(self) -> Seq<usize> {
        let end = if self.missing@.len() - self.done > embeddings::EMBEDDING_BATCH_SIZE {
            self.done + embeddings::EMBEDDING_BATCH_SIZE
        } else {
            self.missing@.len() as int
        };
        self.missing@.subrange(self.done as int, end)
    }

    /// Starts with the chunks that the cache has no embedding for.
    pub fn new(cache: EmbeddingCache, chunks: &Vec<MemoryChunk>) -> (r: EmbeddingRun)
        requires
            cache.wf(),
        ensures
            r.wf(memory::chunk_models(chunks@)),
            r.cache@ == cache@,
            r.missing@ == missing_of(memory::chunk_models(chunks@), cache@),
            r.done == 0,
    {
        let ghost all = memory::chunk_models(chunks@);
        let mut missing: Vec<usize> = Vec::new();
        for i in 0..chunks.len()
            invariant
                cache.wf(),
                all == memory::chunk_models(chunks@),
                missing@ == missing_of(all.take(i as int), cache@),
                forall|j: int| 0 <= j < missing@.len() ==> (#[trigger] missing@[j]) < i,
                forall|k: int|
                    0 <= k < i ==> cache@.embeddings.contains_key((#[trigger] all[k]).cache_key)
                        || missing@.contains(k as usize),
        {
            assert(all.take(i + 1).drop_last() =~= all.take(i as int));
            assert(all[i as int] == chunks@[i as int]@);
            let ghost before = missing@;
            if !cache.embeddings.contains(&chunks[i].cache_key) {
                missing.push(i);
                proof {
                    assert(missing@[before.len() as int] == i);
                    assert forall|k: int| 0 <= k < i + 1 implies cache@.embeddings.contains_key(
                        (#[trigger] all[k]).cache_key,
                    ) || missing@.contains(k as usize) by {
                        if k < i && before.contains(k as usize) {
                            let j = before.index_of(k as usize);
                            assert(missing@[j] == k as usize);
                        }
                    }
                }
            }
        }
        assert(all.take(chunks@.len() as int) =~= all);
        assert(missing@.skip(0) =~= missing@);
        EmbeddingRun { cache, missing, done: 0 }
    }

    /// The positions to ask for next; none are left where there are none.
    pub fn next_batch(&self) -> (r: Vec<usize>)
        requires
            self.done <= self.missing@.len(),
        ensures
            r@ == self.batch(),
            r@.len() == 0 <==> self.done == self.missing@.len(),
    {
        let end: usize = if self.missing.len() - self.done > embeddings::EMBEDDING_BATCH_SIZE {
            self.done + embeddings::EMBEDDING_BATCH_SIZE
        } else {
            self.missing.len()
        };
        let mut r: Vec<usize> = Vec::new();
        for i in self.done..end
            invariant
                self.done <= end <= self.missing@.len(),
                r@ == self.missing@.subrange(self.done as int, i as int),
        {
            r.push(self.missing[i]);
        }
        r
    }

    /// Takes in the embeddings for the positions that were asked for, of which there must be as many.
    pub fn store(&mut self, chunks: &Vec<MemoryChunk>, embeddings: Vec<Vec<u32>>) -> (r: Result<
        (),
        EmbeddingError,
    >)
        requires
            old(self).wf(memory::chunk_models(chunks@)),
        ensures
            final(self).wf(memory::chunk_models(chunks@)),
            match r {
                Ok(_) => {
                    &&& embeddings@.len() == old(self).batch().len()
                    &&& final(self).missing@ == old(self).missing@
                    &&& final(self).done == old(self).done + embeddings@.len()
                    &&& final(self).cache@ == stored(
                        old(self).cache@,
                        memory::chunk_models(chunks@),
                        old(self).batch(),
                        embeddings::vectors(embeddings@),
                    )
                },
                Err(e) => embeddings@.len() != old(self).batch().len() && e
                    == EmbeddingError::CountMismatch && *final(self) == *old(self),
            },
    {
        let batch = self.next_batch();
        if embeddings.len() != batch.len() {
            return Err(EmbeddingError::CountMismatch);
        }
        let ghost all = memory::chunk_models(chunks@);
        let ghost given = embeddings::vectors(embeddings@);
        let ghost start = self.cache@;
        let ghost first = self.done;
        let total = chunks.len();
        let count = self.missing.len();
        for i in 0..batch.len()
            invariant
                all == memory::chunk_models(chunks@),
                all.len() == total,
                self.missing@.len() == count,
                given == embeddings::vectors(embeddings@),
                embeddings@.len() == batch@.len(),
                batch@ == old(self).batch(),
                start == old(self).cache@,
                first == old(self).done,
                first + batch@.len() <= self.missing@.len(),
                self.missing@ == old(self).missing@,
                self.done == first,
                self.cache.wf(),
                forall|j: int|
                    0 <= j < self.missing@.len() ==> (#[trigger] self.missing@[j]) < all.len(),
                self.cache@ == stored(start, all, batch@.take(i as int), given.take(i as int)),
                forall|k: int|
                    0 <= k < all.len() ==> self.cache@.embeddings.contains_key(
                        (#[trigger] all[k]).cache_key,
                    ) || self.missing@.skip(first + i).contains(k as usize),
        {
            let ghost before = self.cache@;
            let position = batch[i];
            proof {
                assert(batch@[i as int] == self.missing@[first + i]);
                assert(batch@.take(i + 1).drop_last() =~= batch@.take(i as int));
                assert(given.take(i + 1).drop_last() =~= given.take(i as int));
                assert(given[i as int] == embeddings@[i as int]@);
                assert(all[position as int] == chunks@[position as int]@);
            }
            let vector = copy_of(&embeddings[i]);
            self.cache.insert(chunks[position].cache_key.clone(), vector);
            proof {
                assert forall|k: int| 0 <= k < all.len() implies self.cache@.embeddings.contains_key(
                    (#[trigger] all[k]).cache_key,
                ) || self.missing@.skip(first + i + 1).contains(k as usize) by {
                    if !before.embeddings.contains_key(all[k].cache_key) {
                        let rest = self.missing@.skip(first + i);
                        let j = rest.index_of(k as usize);
                        if j == 0 {
                            assert(k == position);
                        } else {
                            assert(self.missing@.skip(first + i + 1)[j - 1] == k as usize);
                        }
                    }
                }
            }
        }
        proof {
            assert(batch@.take(batch@.len() as int) =~= batch@);
            assert(given.take(batch@.len() as int) =~= given);
        }
        self.done = self.done + batch.len();
        Ok(())
    }

    /// The cache without the embeddings of chunks that are not there any more.
    pub fn finish(self, chunks: &Vec<MemoryChunk>) -> (r: EmbeddingCache)
        requires
            self.wf(memory::chunk_models(chunks@)),
        ensures
            r.wf(),
            r@.version == self.cache@.version,
            r@.scope == self.cache@.scope,
            forall|k: Seq<char>| #[trigger]
                r@.embeddings.contains_key(k) <==> self.cache@.embeddings.contains_key(k) && keys(
                    memory::chunk_models(chunks@),
                ).contains(k),
            forall|k: Seq<char>| #[trigger]
                r@.embeddings.contains_key(k) ==> r@.embeddings[k] == self.cache@.embeddings[k],
            self.done == self.missing@.len() ==> forall|k: Seq<char>| #[trigger]
                r@.embeddings.contains_key(k) <==> keys(memory::chunk_models(chunks@)).contains(k),
    {
        let ghost all = memory::chunk_models(chunks@);
        let mut active: Vec<String> = Vec::new();
        for i in 0..chunks.len()
            invariant
                all == memory::chunk_models(chunks@),
                text::strings(active@) == keys(all).take(i as int),
        {
            let ghost before = active@;
            let key = chunks[i].cache_key.clone();
            assert(keys(all)[i as int] == key@);
            active.push(key);
            assert(text::strings(active@) =~= text::strings(before).push(key@));
            assert(text::strings(active@) =~= keys(all).take(i + 1));
        }
        assert(keys(all).take(chunks@.len() as int) =~= keys(all));
        let mut cache = self.cache;
        cache.embeddings.retain(&active);
        proof {
            if self.done == self.missing@.len() {
                assert forall|k: Seq<char>| keys(all).contains(k) implies #[trigger]
                    cache@.embeddings.contains_key(k) by {
                    let i = keys(all).index_of(k);
                    assert(all[i].cache_key == k);
                    assert(self.missing@.skip(self.done as int).len() == 0);
                    assert(self.cache@.embeddings.contains_key(all[i].cache_key));
                    assert(self.cache.embeddings@.contains_key(k));
                }
            }
            assert forall|k: Seq<char>| #[trigger] cache@.embeddings.contains_key(
                k,
            ) implies cache@.embeddings[k] == self.cache@.embeddings[k] by {
                assert(cache.embeddings@.contains_key(k));
            }
            assert forall|k: Seq<char>| #[trigger] cache@.embeddings.contains_key(k)
                <==> self.cache@.embeddings.contains_key(k) && keys(all).contains(k) by {
                assert(cache.embeddings@.contains_key(k) <==> self.cache.embeddings@.contains_key(k)
                    && text::strings(active@).contains(k));
            }
        }
        cache
    }
}

// ---------------------------------------------------------------------------------------
// Ranking
// ---------------------------------------------------------------------------------------

/// Whether `similarity` can give the chunk these bits: those of what it finds between the query
/// and the embedding of the chunk, and zero where it finds nothing or there is no embedding.
pub open spec fn has_similarity<F: Fn(&Vec<u32>, &Vec<u32>) -> Option<u32>>(
    similarity: F,
    query: Vec<u32>,
    cache: CacheModel,
    chunk: ChunkModel,
    bits: u32,
) -> bool {
    if cache.embeddings.contains_key(chunk.cache_key) {
        exists|v: Vec<u32>, found: Option<u32>|
            v@ == cache.embeddings[chunk.cache_key] && #[trigger] call_ensures(
                similarity,
                (&query, &v),
                found,
            ) && bits == (match found {
                Some(b) => b,
                None => 0,
            })
    } else {
        bits == 0
    }
}

/// Whether these are the bits of the chunks.
pub open spec fn similar<F: Fn(&Vec<u32>, &Vec<u32>) -> Option<u32>>(
    similarity: F,
    query: Vec<u32>,
    cache: CacheModel,
    chunks: Seq<ChunkModel>,
    scores: Seq<u32>,
) -> bool {
    &&& scores.len() == chunks.len()
    &&& forall|i: int|
        0 <= i < chunks.len() ==> has_similarity(
            similarity,
            query,
            cache,
            chunks[i],
            #[trigger] scores[i],
        )
}

/// Ranks the chunks by how similar their embeddings are to that of the query.
pub fn rank_with_embeddings<F: Fn(&Vec<u32>, &Vec<u32>) -> Option<u32>>(
    query: &Vec<u32>,
    cache: &EmbeddingCache,
    chunks: &Vec<MemoryChunk>,
    similarity: F,
) -> (r: Vec<(usize, u32)>)
    requires
        cache.wf(),
        forall|a: &Vec<u32>, b: &Vec<u32>| call_requires(similarity, (a, b)),
    ensures
        exists|scores: Seq<u32>| #[trigger]
            similar(similarity, *query, cache@, memory::chunk_models(chunks@), scores) && r@
                == memory_rank::best(scores),
{
    let ghost all = memory::chunk_models(chunks@);
    let mut scores: Vec<u32> = Vec::new();
    for i in 0..chunks.len()
        invariant
            cache.wf(),
            forall|a: &Vec<u32>, b: &Vec<u32>| call_requires(similarity, (a, b)),
            all == memory::chunk_models(chunks@),
            scores@.len() == i,
            forall|j: int|
                0 <= j < i ==> has_similarity(
                    similarity,
                    *query,
                    cache@,
                    all[j],
                    #[trigger] scores@[j],
                ),
    {
        assert(all[i as int] == chunks@[i as int]@);
        let bits: u32 = match cache.vector(&chunks[i]) {
            Some(v) => {
                let found = similarity(query, v);
                assert(call_ensures(similarity, (query, v), found));
                match found {
                    Some(b) => b,
                    None => 0,
                }
            },
            None => 0,
        };
        assert(has_similarity(similarity, *query, cache@, all[i as int], bits));
        scores.push(bits);
    }
    assert(similar(similarity, *query, cache@, all, scores@));
    memory_rank::rank_scores(&scores)
}

fn copy_of(list: &Vec<u32>) -> (r: Vec<u32>)
    ensures
        r@ == list@,
{
    let mut r: Vec<u32> = Vec::new();
    for i in 0..list.len()
        invariant
            r@ == list@.take(i as int),
    {
        r.push(list[i]);
    }
    assert(list@.take(list@.len() as int) =~= list@);
    r
}

// ---------------------------------------------------------------------------------------
// What the cache is for
// ---------------------------------------------------------------------------------------

/// Whether no later one of some positions is that of a chunk with the same key.
pub open spec fn is_last_of_its_key(
    chunks: Seq<ChunkModel>,
    positions: Seq<usize>,
    i: int,
) -> bool {
    forall|j: int|
        i < j < positions.len() ==> chunks[(#[trigger] positions[j]) as int].cache_key
            != chunks[positions[i] as int].cache_key
}

/// Whether none of some positions is that of a chunk with this key.
pub open spec fn is_no_key_of(
    chunks: Seq<ChunkModel>,
    positions: Seq<usize>,
    key: Seq<char>,
) -> bool {
    forall|i: int|
        0 <= i < positions.len() ==> chunks[(#[trigger] positions[i]) as int].cache_key != key
}

/// Once the embeddings of a batch have been taken in, each chunk of the batch has its own: the
/// one that was given in its place, and of several for the same key the last. Nothing else in the
/// cache is touched.
#[verifier::spinoff_prover]
pub proof fn law_each_chunk_gets_its_embedding(
    cache: CacheModel,
    chunks: Seq<ChunkModel>,
    positions: Seq<usize>,
    embeddings: Seq<Seq<u32>>,
)
    requires
        positions.len() == embeddings.len(),
    ensures
        ({
            let after = stored(cache, chunks, positions, embeddings);
            &&& forall|i: int|
                0 <= i < positions.len() && #[trigger] is_last_of_its_key(chunks, positions, i)
                    ==> after.embeddings.contains_key(chunks[positions[i] as int].cache_key)
                    && after.embeddings[chunks[positions[i] as int].cache_key] == embeddings[i]
            &&& forall|key: Seq<char>| #[trigger]
                is_no_key_of(chunks, positions, key) ==> after.embeddings.contains_key(key)
                    == cache.embeddings.contains_key(key) && after.embeddings[key]
                    == cache.embeddings[key]
            &&& after.version == cache.version
            &&& after.scope == cache.scope
        }),
    decreases positions.len(),
{
    if positions.len() > 0 {
        let front = positions.drop_last();
        let given = embeddings.drop_last();
        law_each_chunk_gets_its_embedding(cache, chunks, front, given);
        let before = stored(cache, chunks, front, given);
        let after = stored(cache, chunks, positions, embeddings);
        let n = positions.len() - 1;
        let last = chunks[positions[n] as int].cache_key;
        assert(after.embeddings == before.embeddings.insert(last, embeddings[n]));
        assert forall|i: int|
            0 <= i < positions.len() && #[trigger] is_last_of_its_key(
                chunks,
                positions,
                i,
            ) implies after.embeddings.contains_key(chunks[positions[i] as int].cache_key)
            && after.embeddings[chunks[positions[i] as int].cache_key] == embeddings[i] by {
            if i < n {
                assert(front[i] == positions[i]);
                assert(last != chunks[positions[i] as int].cache_key);
                assert(is_last_of_its_key(chunks, front, i)) by {
                    assert forall|j: int| i < j < front.len() implies chunks[(
                    #[trigger] front[j]) as int].cache_key != chunks[front[i] as int].cache_key by {
                        assert(front[j] == positions[j]);
                    }
                }
            }
        }
        assert forall|key: Seq<char>| #[trigger]
            is_no_key_of(chunks, positions, key) implies after.embeddings.contains_key(key)
            == cache.embeddings.contains_key(key) && after.embeddings[key]
            == cache.embeddings[key] by {
            assert(last != key);
            assert(is_no_key_of(chunks, front, key)) by {
                assert forall|i: int| 0 <= i < front.len() implies chunks[(
                #[trigger] front[i]) as int].cache_key != key by {
                    assert(front[i] == positions[i]);
                }
            }
        }
    }
}

/// What is asked for are the chunks that the cache has no embedding for, all of them, each once
/// and in their order.
pub proof fn law_missing_chunks_are_asked_for(chunks: Seq<ChunkModel>, cache: CacheModel)
    requires
        chunks.len() <= usize::MAX,
    ensures
        forall|k: int|
            0 <= k < chunks.len() ==> (!cache.embeddings.contains_key(
                (#[trigger] chunks[k]).cache_key,
            ) <==> missing_of(chunks, cache).contains(k as usize)),
        forall|i: int|
            0 <= i < missing_of(chunks, cache).len() ==> (#[trigger] missing_of(chunks, cache)[i])
                < chunks.len(),
        forall|i: int, j: int|
            0 <= i < j < missing_of(chunks, cache).len() ==> (#[trigger] missing_of(
                chunks,
                cache,
            )[i]) < (#[trigger] missing_of(chunks, cache)[j]),
    decreases chunks.len(),
{
    if chunks.len() > 0 {
        let front = chunks.drop_last();
        law_missing_chunks_are_asked_for(front, cache);
        let before = missing_of(front, cache);
        let all = missing_of(chunks, cache);
        let n = chunks.len() - 1;
        assert forall|i: int| 0 <= i < all.len() implies (#[trigger] all[i]) < chunks.len() by {
            if i < before.len() {
                assert(all[i] == before[i]);
            }
        }
        assert forall|i: int, j: int| 0 <= i < j < all.len() implies (#[trigger] all[i]) < (
        #[trigger] all[j]) by {
            assert(all[i] == before[i]);
            if j < before.len() {
                assert(all[j] == before[j]);
            }
        }
        assert forall|k: int| 0 <= k < chunks.len() implies (!cache.embeddings.contains_key(
            (#[trigger] chunks[k]).cache_key,
        ) <==> all.contains(k as usize)) by {
            if k < n {
                assert(front[k] == chunks[k]);
                if before.contains(k as usize) {
                    let i = before.index_of(k as usize);
                    assert(all[i] == k as usize);
                }
                if all.contains(k as usize) {
                    let i = all.index_of(k as usize);
                    if i < before.len() {
                        assert(before[i] == k as usize);
                    }
                }
            } else {
                if !cache.embeddings.contains_key(chunks[k].cache_key) {
                    assert(all[before.len() as int] == k as usize);
                }
                if all.contains(k as usize) {
                    let i = all.index_of(k as usize);
                    if i < before.len() {
                        assert(before[i] == all[i]);
                        assert(before[i] < front.len());
                    }
                }
            }
        }
    }
}

/// A batch is what comes next of the positions that are left: thirty-two of them, or all where
/// there are fewer.
pub proof fn law_batch_is_what_comes_next(run: EmbeddingRun)
    requires
        run.done <= run.missing@.len(),
    ensures
        run.batch().len() == (if run.missing@.len() - run.done < 32 {
            run.missing@.len() - run.done
        } else {
            32
        }),
        forall|i: int|
            0 <= i < run.batch().len() ==> (#[trigger] run.batch()[i]) == run.missing@[run.done + i],
{
}

/// A cache is used for the service and the model that it was made for and no others: where its
/// version is the first and its scope is the one that is asked for, nothing in it is touched, and
/// else nothing of it is used. What comes out is of that version and scope.
pub proof fn law_cache_serves_its_scope(cache: CacheModel, scope: Seq<char>)
    ensures
        fitting_cache(cache, scope).version == 1,
        fitting_cache(cache, scope).scope == scope,
        cache.version == 1 && cache.scope == scope ==> fitting_cache(cache, scope).embeddings
            == cache.embeddings,
        cache.version != 1 || cache.scope != scope ==> forall|key: Seq<char>|
            !(#[trigger] fitting_cache(cache, scope).embeddings.contains_key(key)),
{
}

/// The scope is told by the address and the model, apart from white space around the model, and
/// by nothing else: it is the digest of the address, a NUL and the model.
pub proof fn law_scope_is_of_address_and_model(a: SettingsModel, b: SettingsModel)
    ensures
        scope_of(a) == memory::hex(
            memory::sha256_digest(
                vstd::utf8::encode_utf8(
                    a.codex_app_memory_embedding_base_url.push('\0') + text::trimmed(
                        a.codex_app_memory_embedding_model,
                    ),
                ),
            ),
        ),
        a.codex_app_memory_embedding_base_url == b.codex_app_memory_embedding_base_url
            && text::trimmed(a.codex_app_memory_embedding_model) == text::trimmed(
            b.codex_app_memory_embedding_model,
        ) ==> scope_of(a) == scope_of(b),
{
    assert(a.codex_app_memory_embedding_base_url.push('\0') + text::trimmed(
        a.codex_app_memory_embedding_model,
    ) =~= a.codex_app_memory_embedding_base_url + seq!['\0'] + text::trimmed(
        a.codex_app_memory_embedding_model,
    ));
}

/// Where the similarity of two embeddings is a function `f` of them, the score of each chunk is
/// that of the query and the chunk's own embedding, in this order, and zero where there is none;
/// and a chunk that is ranked has an embedding.
pub proof fn law_chunks_are_scored_by_their_own_embedding<
    F: Fn(&Vec<u32>, &Vec<u32>) -> Option<u32>,
>(
    similarity: F,
    f: spec_fn(Seq<u32>, Seq<u32>) -> Option<u32>,
    query: Vec<u32>,
    cache: CacheModel,
    chunks: Seq<ChunkModel>,
    scores: Seq<u32>,
)
    requires
        chunks.len() <= usize::MAX,
        similar(similarity, query, cache, chunks, scores),
        forall|a: &Vec<u32>, b: &Vec<u32>, found: Option<u32>| #[trigger]
            call_ensures(similarity, (a, b), found) ==> found == f(a@, b@),
    ensures
        scores.len() == chunks.len(),
        forall|i: int|
            0 <= i < chunks.len() ==> (#[trigger] scores[i]) == (
            if cache.embeddings.contains_key(chunks[i].cache_key) {
                match f(query@, cache.embeddings[chunks[i].cache_key]) {
                    Some(bits) => bits,
                    None => 0,
                }
            } else {
                0
            }),
        forall|i: int|
            0 <= i < memory_rank::best(scores).len() ==> (#[trigger] memory_rank::best(scores)[i]).0
                < chunks.len() && cache.embeddings.contains_key(
                chunks[memory_rank::best(scores)[i].0 as int].cache_key,
            ),
{
    assert forall|i: int| 0 <= i < chunks.len() implies (#[trigger] scores[i]) == (
    if cache.embeddings.contains_key(chunks[i].cache_key) {
        match f(query@, cache.embeddings[chunks[i].cache_key]) {
            Some(bits) => bits,
            None => 0,
        }
    } else {
        0
    }) by {
        assert(has_similarity(similarity, query, cache, chunks[i], scores[i]));
    }
    memory_rank::law_best_come_first(scores);
    assert forall|i: int| 0 <= i < memory_rank::best(scores).len() implies (
    #[trigger] memory_rank::best(scores)[i]).0 < chunks.len() && cache.embeddings.contains_key(
        chunks[memory_rank::best(scores)[i].0 as int].cache_key,
    ) by {
        let k = memory_rank::best(scores)[i].0 as int;
        assert(has_similarity(similarity, query, cache, chunks[k], scores[k]));
    }
}

/// What is read of a cache is what its fields hold, and under each key the numbers of the
/// embedding there.
pub proof fn law_cache_is_read_by_its_fields(cache: EmbeddingCache, key: Seq<char>)
    ensures
        cache@.version == cache.version,
        cache@.scope == cache.scope@,
        cache@.embeddings.contains_key(key) <==> cache.embeddings@.contains_key(key),
        cache.embeddings@.contains_key(key) ==> cache@.embeddings[key] == cache.embeddings@[key]@,
{
}

/// Whether a chunk is ranked by how similar its own embedding in the cache is to that of the query.
pub open spec fn is_ranked_by<F: Fn(&Vec<u32>, &Vec<u32>) -> Option<u32>>(
    similarity: F,
    query: Vec<u32>,
    cache: CacheModel,
    chunks: Seq<ChunkModel>,
    place: (usize, u32),
) -> bool {
    &&& place.0 < chunks.len()
    &&& 0 < place.1 < 0x7f80_0000
    &&& cache.embeddings.contains_key(chunks[place.0 as int].cache_key)
    &&& exists|v: Vec<u32>|
        #![trigger call_ensures(similarity, (&query, &v), Some(place.1))]
        v@ == cache.embeddings[chunks[place.0 as int].cache_key] && call_ensures(
            similarity,
            (&query, &v),
            Some(place.1),
        )
}

/// By embeddings at most five chunks are ranked, the more similar first. Each of them has an
/// embedding, and stands there by how similar that is to the one of the query.
pub proof fn law_chunks_are_ranked_by_similarity<F: Fn(&Vec<u32>, &Vec<u32>) -> Option<u32>>(
    query: Vec<u32>,
    cache: EmbeddingCache,
    chunks: Vec<MemoryChunk>,
    similarity: F,
    r: Vec<(usize, u32)>,
)
    requires
        call_ensures(rank_with_embeddings::<F>, (&query, &cache, &chunks, similarity), r),
    ensures
        r@.len() <= 5,
        forall|i: int|
            0 <= i < r@.len() ==> is_ranked_by(
                similarity,
                query,
                cache@,
                memory::chunk_models(chunks@),
                #[trigger] r@[i],
            ),
        forall|i: int, j: int|
            0 <= i < j < r@.len() ==> (#[trigger] r@[i]).1 > (#[trigger] r@[j]).1 || (r@[i].1
                == r@[j].1 && r@[i].0 < r@[j].0),
{
    let all = memory::chunk_models(chunks@);
    assert(chunks.len() == chunks@.len());
    let scores = choose|scores: Seq<u32>| #[trigger]
        similar(similarity, query, cache@, all, scores) && r@ == memory_rank::best(scores);
    memory_rank::law_best_come_first(scores);
    let b = memory_rank::best(scores);
    assert forall|i: int| 0 <= i < r@.len() implies is_ranked_by(
        similarity,
        query,
        cache@,
        all,
        #[trigger] r@[i],
    ) by {
        let k = b[i].0 as int;
        assert(memory_rank::counts(b[i].1));
        assert(has_similarity(similarity, query, cache@, all[k], scores[k]));
        let (v, found) = choose|v: Vec<u32>, found: Option<u32>|
            v@ == cache@.embeddings[all[k].cache_key] && #[trigger] call_ensures(
                similarity,
                (&query, &v),
                found,
            ) && scores[k] == (match found {
                Some(b) => b,
                None => 0,
            });
        assert(found == Some(b[i].1));
        assert(call_ensures(similarity, (&query, &v), Some(r@[i].1)));
    }
    assert forall|i: int, j: int| 0 <= i < j < r@.len() implies (#[trigger] r@[i]).1 > (
    #[trigger] r@[j]).1 || (r@[i].1 == r@[j].1 && r@[i].0 < r@[j].0) by {
        assert(memory_rank::stands_before(b[i], b[j]));
    }
}

/// Once the embeddings of a batch have been taken in, each chunk of the batch has the one that
/// stands in its place, unless a later chunk of the batch has the same key; and the next batch
/// begins behind this one. Too few or too many embeddings change nothing.
pub proof fn law_batch_is_stored_in_its_places(
    run: &mut EmbeddingRun,
    chunks: Vec<MemoryChunk>,
    embeddings: Vec<Vec<u32>>,
    r: Result<(), EmbeddingError>,
)
    requires
        call_ensures(EmbeddingRun::store, (run, &chunks, embeddings), r),
    ensures
        r is Ok <==> embeddings@.len() == old(run).batch().len(),
        r is Err ==> r->Err_0 == EmbeddingError::CountMismatch && *final(run) == *old(run),
        r is Ok ==> final(run).missing@ == old(run).missing@ && final(run).done == old(run).done
            + old(run).batch().len(),
        r is Ok ==> forall|i: int|
            0 <= i < embeddings@.len() && #[trigger] is_last_of_its_key(
                memory::chunk_models(chunks@),
                old(run).batch(),
                i,
            ) ==> ({
                let key = memory::chunk_models(chunks@)[old(run).batch()[i] as int].cache_key;
                &&& final(run).cache@.embeddings.contains_key(key)
                &&& final(run).cache@.embeddings[key] == embeddings@[i]@
            }),
{
    if r is Ok {
        let given = embeddings::vectors(embeddings@);
        let all = memory::chunk_models(chunks@);
        let batch = old(run).batch();
        law_each_chunk_gets_its_embedding(old(run).cache@, all, batch, given);
        assert forall|i: int|
            0 <= i < embeddings@.len() && #[trigger] is_last_of_its_key(all, batch, i) implies ({
            let key = all[batch[i] as int].cache_key;
            &&& final(run).cache@.embeddings.contains_key(key)
            &&& final(run).cache@.embeddings[key] == embeddings@[i]@
        }) by {
            assert(given[i] == embeddings@[i]@);
        }
    }
}

/// An embedding that is put under a key is there, and no other is touched.
pub proof fn law_put_embedding_is_there(
    cache: &mut EmbeddingCache,
    key: String,
    embedding: Vec<u32>,
    other: Seq<char>,
)
    requires
        call_ensures(EmbeddingCache::insert, (cache, key, embedding), ()),
    ensures
        final(cache)@.embeddings.contains_key(key@),
        final(cache)@.embeddings[key@] == embedding@,
        final(cache)@.version == old(cache)@.version,
        final(cache)@.scope == old(cache)@.scope,
        other != key@ ==> final(cache)@.embeddings.contains_key(other)
            == old(cache)@.embeddings.contains_key(other) && final(cache)@.embeddings[other]
            == old(cache)@.embeddings[other],
{
}

/// What is kept of a cache in the end are the embeddings of the chunks that there are, as they
/// were, and no others.
pub proof fn law_cache_is_kept_for_the_chunks(
    run: EmbeddingRun,
    chunks: Vec<MemoryChunk>,
    r: EmbeddingCache,
    key: Seq<char>,
)
    requires
        call_ensures(EmbeddingRun::finish, (run, &chunks), r),
    ensures
        r@.version == run.cache@.version,
        r@.scope == run.cache@.scope,
        r@.embeddings.contains_key(key) ==> r@.embeddings[key] == run.cache@.embeddings[key],
        r@.embeddings.contains_key(key) <==> run.cache@.embeddings.contains_key(key) && exists|i: int|
            0 <= i < chunks@.len() && (#[trigger] chunks@[i]).cache_key@ == key,
{
    let all = memory::chunk_models(chunks@);
    assert forall|i: int| 0 <= i < chunks@.len() implies (#[trigger] chunks@[i]).cache_key@ == keys(
        all,
    )[i] by {
        assert(all[i] == chunks@[i]@);
    }
    if keys(all).contains(key) {
        let i = keys(all).index_of(key);
        assert(chunks@[i].cache_key@ == key);
    }
    if exists|i: int| 0 <= i < chunks@.len() && (#[trigger] chunks@[i]).cache_key@ == key {
        let i = choose|i: int| 0 <= i < chunks@.len() && (#[trigger] chunks@[i]).cache_key@ == key;
        assert(keys(all)[i] == key);
    }
}

} // verus!
