//! Ranking memory chunks against a query.
use crate::memory;
use crate::memory::{ChunkModel, MemoryChunk};
use crate::memory_text;
use crate::text;
use vstd::prelude::*;

verus! {

// ---------------------------------------------------------------------------------------
// Scores
// ---------------------------------------------------------------------------------------

/// Whether the bits of a number in single precision are those of a finite number above zero. Such
/// numbers are ordered as their bits are.
pub open spec fn counts(bits: u32) -> bool {
    0 < bits < 0x7f80_0000
}

/// The order of a ranking: the higher score first, and of equal scores the lower index.
pub open spec fn stands_before(a: (usize, u32), b: (usize, u32)) -> bool {
    a.1 > b.1 || (a.1 == b.1 && a.0 <= b.0)
}

pub open spec fn ranking(scores: Seq<(usize, u32)>) -> Seq<(usize, u32)> {
    scores.sort_by(|a: (usize, u32), b: (usize, u32)| stands_before(a, b))
}

/// Each index with its score, of the scores that count.
pub open spec fn candidates(scores: Seq<u32>) -> Seq<(usize, u32)>
    decreases scores.len(),
{
    if scores.len() == 0 {
        Seq::empty()
    } else {
        let before = candidates(scores.drop_last());
        if counts(scores.last()) {
            before.push(((scores.len() - 1) as usize, scores.last()))
        } else {
            before
        }
    }
}

/// The first places of the ranking of the scores that count.
pub open spec fn best(scores: Seq<u32>) -> Seq<(usize, u32)> {
    let all = ranking(candidates(scores));
    if all.len() > memory::MAX_RANKED_CHUNKS {
        all.take(memory::MAX_RANKED_CHUNKS as int)
    } else {
        all
    }
}

proof fn lemma_order()
    ensures
        vstd::relations::total_ordering(|a: (usize, u32), b: (usize, u32)| stands_before(a, b)),
{
}

proof fn lemma_ranking_is(scores: Seq<(usize, u32)>, r: Seq<(usize, u32)>)
    requires
        r.to_multiset() == scores.to_multiset(),
        vstd::relations::sorted_by(r, |a: (usize, u32), b: (usize, u32)| stands_before(a, b)),
    ensures
        r == ranking(scores),
{
    let order = |a: (usize, u32), b: (usize, u32)| stands_before(a, b);
    lemma_order();
    scores.lemma_sort_by_ensures(order);
    vstd::seq_lib::lemma_sorted_unique(r, scores.sort_by(order), order);
}

/// Sorts scored indices: the higher score first, and of equal scores the lower index.
pub fn sort_ranked(ranked: &mut Vec<(usize, u32)>)
    ensures
        final(ranked)@ == ranking(old(ranked)@),
{
    let ghost order = |a: (usize, u32), b: (usize, u32)| stands_before(a, b);
    let mut sorted: Vec<(usize, u32)> = Vec::new();
    assert(sorted@ =~= ranked@.take(0));
    for i in 0..ranked.len()
        invariant
            order == (|a: (usize, u32), b: (usize, u32)| stands_before(a, b)),
            vstd::relations::sorted_by(sorted@, order),
            ranked@ == old(ranked)@,
            sorted@.to_multiset() == ranked@.take(i as int).to_multiset(),
            sorted@.len() == i,
    {
        let item = ranked[i];
        let mut k: usize = sorted.len();
        while k > 0 && !(sorted[k - 1].1 > item.1 || (sorted[k - 1].1 == item.1 && sorted[k - 1].0
            <= item.0))
            invariant
                k <= sorted@.len(),
                forall|j: int| k <= j < sorted@.len() ==> !stands_before(#[trigger] sorted@[j], item),
            decreases k,
        {
            k = k - 1;
        }
        let ghost before = sorted@;
        sorted.insert(k, item);
        proof {
            vstd::seq_lib::to_multiset_insert(before, k as int, item);
            vstd::seq_lib::to_multiset_build(ranked@.take(i as int), item);
            assert(ranked@.take(i + 1) =~= ranked@.take(i as int).push(item));
            assert forall|a: int, b: int| 0 <= a < b < sorted@.len() implies order(
                #[trigger] sorted@[a],
                #[trigger] sorted@[b],
            ) by {
                if a < k && b == k {
                    if a < k - 1 {
                        assert(order(before[a], before[k - 1]));
                    }
                } else if a == k {
                    assert(!stands_before(before[b - 1], item));
                } else if a < k && b > k {
                    assert(order(before[a], before[b - 1]));
                } else if b < k {
                    assert(order(before[a], before[b]));
                } else {
                    assert(order(before[a - 1], before[b - 1]));
                }
            }
        }
    }
    proof {
        assert(ranked@.take(ranked@.len() as int) =~= ranked@);
        lemma_ranking_is(ranked@, sorted@);
    }
    *ranked = sorted;
}

/// The first places of the ranking of scores, each given by the bits of a number in single
/// precision; a score that is not finite or not above zero has no place.
pub fn rank_scores(scores: &Vec<u32>) -> (r: Vec<(usize, u32)>)
    ensures
        r@ == best(scores@),
{
    let mut ranked: Vec<(usize, u32)> = Vec::new();
    for i in 0..scores.len()
        invariant
            ranked@ == candidates(scores@.take(i as int)),
    {
        assert(scores@.take(i + 1).drop_last() =~= scores@.take(i as int));
        if 0 < scores[i] && scores[i] < 0x7f80_0000 {
            ranked.push((i, scores[i]));
        }
    }
    assert(scores@.take(scores@.len() as int) =~= scores@);
    sort_ranked(&mut ranked);
    if ranked.len() > memory::MAX_RANKED_CHUNKS {
        ranked.truncate(memory::MAX_RANKED_CHUNKS);
        assert(ranked@ =~= best(scores@));
    }
    ranked
}

proof fn lemma_candidates(scores: Seq<u32>)
    requires
        scores.len() <= usize::MAX,
    ensures
        forall|i: int|
            0 <= i < candidates(scores).len() ==> (#[trigger] candidates(scores)[i]).0 < scores.len()
                && candidates(scores)[i].1 == scores[candidates(scores)[i].0 as int] && counts(
                candidates(scores)[i].1,
            ),
        forall|k: int|
            0 <= k < scores.len() && counts(scores[k]) ==> candidates(scores).contains(
                (k as usize, #[trigger] scores[k]),
            ),
        candidates(scores).no_duplicates(),
    decreases scores.len(),
{
    if scores.len() > 0 {
        let front = scores.drop_last();
        lemma_candidates(front);
        let before = candidates(front);
        let all = candidates(scores);
        assert forall|i: int| 0 <= i < all.len() implies (#[trigger] all[i]).0 < scores.len()
            && all[i].1 == scores[all[i].0 as int] && counts(all[i].1) by {
            if i < before.len() {
                assert(all[i] == before[i]);
            }
        }
        assert forall|k: int| 0 <= k < scores.len() && counts(scores[k]) implies all.contains(
            (k as usize, #[trigger] scores[k]),
        ) by {
            if k < front.len() {
                assert(front[k] == scores[k]);
                let i = before.index_of((k as usize, front[k]));
                assert(all[i] == before[i]);
            } else {
                assert(all[before.len() as int] == (k as usize, scores[k]));
            }
        }
    }
}

/// The first places of a ranking are in order, each holds another index with its score, and no
/// other score that counts would stand before one of them.
pub proof fn law_best_come_first(scores: Seq<u32>)
    requires
        scores.len() <= usize::MAX,
    ensures
        best(scores).len() <= memory::MAX_RANKED_CHUNKS,
        forall|i: int, j: int|
            0 <= i < j < best(scores).len() ==> stands_before(
                #[trigger] best(scores)[i],
                #[trigger] best(scores)[j],
            ),
        forall|i: int, j: int|
            0 <= i < j < best(scores).len() ==> (#[trigger] best(scores)[i]).0 != (
            #[trigger] best(scores)[j]).0,
        forall|i: int|
            0 <= i < best(scores).len() ==> (#[trigger] best(scores)[i]).0 < scores.len() && best(
                scores,
            )[i].1 == scores[best(scores)[i].0 as int] && counts(best(scores)[i].1),
        forall|k: int|
            0 <= k < scores.len() && counts(#[trigger] scores[k]) && !best(scores).contains(
                (k as usize, scores[k]),
            ) ==> best(scores).len() == memory::MAX_RANKED_CHUNKS && forall|i: int|
                0 <= i < best(scores).len() ==> stands_before(
                    #[trigger] best(scores)[i],
                    (k as usize, scores[k]),
                ),
{
    let order = |a: (usize, u32), b: (usize, u32)| stands_before(a, b);
    let found = candidates(scores);
    let all = ranking(found);
    let r = best(scores);
    lemma_order();
    lemma_candidates(scores);
    found.lemma_sort_by_ensures(order);
    assert forall|i: int, j: int| 0 <= i < j < all.len() implies stands_before(
        #[trigger] all[i],
        #[trigger] all[j],
    ) by {
        assert(order(all[i], all[j]));
    }
    assert forall|i: int| 0 <= i < r.len() implies (#[trigger] r[i]).0 < scores.len() && r[i].1
        == scores[r[i].0 as int] && counts(r[i].1) by {
        assert(r[i] == all[i]);
        assert(all.contains(all[i]));
        let k = found.index_of(all[i]);
        assert(found.contains(all[i]));
        assert(found[k] == all[i]);
    }
    found.lemma_multiset_has_no_duplicates();
    all.lemma_multiset_has_no_duplicates_conv();
    assert forall|i: int, j: int| 0 <= i < j < r.len() implies (#[trigger] r[i]).0 != (
    #[trigger] r[j]).0 by {
        assert(r[i] == all[i] && r[j] == all[j]);
    }
    assert forall|k: int|
        0 <= k < scores.len() && counts(#[trigger] scores[k]) && !r.contains(
            (k as usize, scores[k]),
        ) implies r.len() == memory::MAX_RANKED_CHUNKS && forall|i: int|
        0 <= i < r.len() ==> stands_before(#[trigger] r[i], (k as usize, scores[k])) by {
        let item = (k as usize, scores[k]);
        assert(found.contains(item));
        vstd::seq_lib::to_multiset_contains(found, item);
        vstd::seq_lib::to_multiset_contains(all, item);
        assert(all.contains(item));
        let m = all.index_of(item);
        assert(all[m] == item);
        if m < r.len() {
            assert(r[m] == item);
        }
    }
}

// ---------------------------------------------------------------------------------------
// Statistics
// ---------------------------------------------------------------------------------------

/// The terms, each once, in the order in which they first stand.
pub open spec fn distinct(terms: Seq<Seq<char>>) -> Seq<Seq<char>>
    decreases terms.len(),
{
    if terms.len() == 0 {
        terms
    } else {
        let before = distinct(terms.drop_last());
        if before.contains(terms.last()) {
            before
        } else {
            before.push(terms.last())
        }
    }
}

/// How often a term stands among terms.
pub open spec fn frequency(terms: Seq<Seq<char>>, term: Seq<char>) -> nat
    decreases terms.len(),
{
    if terms.len() == 0 {
        0
    } else {
        frequency(terms.drop_last(), term) + (if terms.last() == term {
            1nat
        } else {
            0
        })
    }
}

/// In how many chunks a term stands.
pub open spec fn document_frequency(chunks: Seq<ChunkModel>, term: Seq<char>) -> nat
    decreases chunks.len(),
{
    if chunks.len() == 0 {
        0
    } else {
        document_frequency(chunks.drop_last(), term) + (if frequency(chunks.last().tokens, term)
            > 0 {
            1nat
        } else {
            0
        })
    }
}

/// How many terms the chunks have together.
pub open spec fn total_length(chunks: Seq<ChunkModel>) -> nat
    decreases chunks.len(),
{
    if chunks.len() == 0 {
        0
    } else {
        total_length(chunks.drop_last()) + chunks.last().tokens.len()
    }
}

/// The search terms of a query, each once; what stands behind the limit of a query does not count.
pub open spec fn query_terms(query: Seq<char>) -> Seq<Seq<char>> {
    distinct(memory_text::terms_of(text::clipped(query, memory::MAX_QUERY_CHARS as nat)))
}

/// How often a term of the query stands in a chunk, and in how many chunks it stands.
#[derive(Clone, Copy, Debug, PartialEq, Eq, Structural)]
pub struct TermStatistics {
    pub term_frequency: usize,
    pub document_frequency: usize,
}

/// What the score of a chunk is computed from.
pub struct ChunkStatistics {
    /// Of each term of the query that stands in the chunk.
    pub terms: Vec<TermStatistics>,
    /// How many terms the chunk has.
    pub length: usize,
    /// How many terms all chunks have.
    pub total_length: u128,
    /// How many chunks there are.
    pub chunks: usize,
}

/// The statistics of the query's terms that stand in a chunk.
pub open spec fn term_statistics(
    terms: Seq<Seq<char>>,
    chunk: ChunkModel,
    chunks: Seq<ChunkModel>,
) -> Seq<TermStatistics>
    decreases terms.len(),
{
    if terms.len() == 0 {
        Seq::empty()
    } else {
        let before = term_statistics(terms.drop_last(), chunk, chunks);
        let n = frequency(chunk.tokens, terms.last());
        if n == 0 {
            before
        } else {
            before.push(
                TermStatistics {
                    term_frequency: n as usize,
                    document_frequency: document_frequency(chunks, terms.last()) as usize,
                },
            )
        }
    }
}

impl ChunkStatistics {
    /// Whether these are the statistics of a chunk against the terms of a query.
    pub open spec fn are_of(
        self,
        terms: Seq<Seq<char>>,
        chunk: ChunkModel,
        chunks: Seq<ChunkModel>,
    ) -> bool {
        &&& self.terms@ == term_statistics(terms, chunk, chunks)
        &&& self.length == chunk.tokens.len()
        &&& self.total_length == total_length(chunks)
        &&& self.chunks == chunks.len()
    }
}

fn count_term(tokens: &Vec<String>, term: &String) -> (r: usize)
    ensures
        r == frequency(text::strings(tokens@), term@),
{
    let ghost model = text::strings(tokens@);
    let mut n: usize = 0;
    for i in 0..tokens.len()
        invariant
            model == text::strings(tokens@),
            n == frequency(model.take(i as int), term@),
            n <= i,
    {
        assert(model.take(i + 1).drop_last() =~= model.take(i as int));
        assert(model[i as int] == tokens@[i as int]@);
        if tokens[i] == *term {
            n = n + 1;
        }
    }
    assert(model.take(tokens@.len() as int) =~= model);
    n
}

fn count_documents(chunks: &Vec<MemoryChunk>, term: &String) -> (r: usize)
    ensures
        r == document_frequency(memory::chunk_models(chunks@), term@),
{
    let ghost model = memory::chunk_models(chunks@);
    let mut n: usize = 0;
    for i in 0..chunks.len()
        invariant
            model == memory::chunk_models(chunks@),
            n == document_frequency(model.take(i as int), term@),
            n <= i,
    {
        assert(model.take(i + 1).drop_last() =~= model.take(i as int));
        assert(model[i as int] == chunks@[i as int]@);
        if count_term(&chunks[i].tokens, term) > 0 {
            n = n + 1;
        }
    }
    assert(model.take(chunks@.len() as int) =~= model);
    n
}

fn sum_lengths(chunks: &Vec<MemoryChunk>) -> (r: u128)
    ensures
        r == total_length(memory::chunk_models(chunks@)),
{
    let ghost model = memory::chunk_models(chunks@);
    let mut n: u128 = 0;
    for i in 0..chunks.len()
        invariant
            model == memory::chunk_models(chunks@),
            n == total_length(model.take(i as int)),
            n <= i * u64::MAX,
    {
        assert(model.take(i + 1).drop_last() =~= model.take(i as int));
        assert(model[i as int] == chunks@[i as int]@);
        assert((i + 1) * u64::MAX == i * u64::MAX + u64::MAX) by (nonlinear_arith);
        assert((i + 1) * u64::MAX <= u128::MAX) by (nonlinear_arith)
            requires
                i < usize::MAX,
        ;
        n = n + chunks[i].tokens.len() as u128;
    }
    assert(model.take(chunks@.len() as int) =~= model);
    n
}

/// The search terms of a query, each once.
pub fn search_terms(query: &str) -> (r: Vec<String>)
    ensures
        text::strings(r@) == query_terms(query@),
{
    let clipped = text::truncate_chars(query, memory::MAX_QUERY_CHARS);
    let all = memory_text::tokenize(clipped.as_str());
    let ghost model = text::strings(all@);
    let mut r: Vec<String> = Vec::new();
    assert(text::strings(r@) =~= distinct(model.take(0)));
    for i in 0..all.len()
        invariant
            model == text::strings(all@),
            text::strings(r@) == distinct(model.take(i as int)),
    {
        assert(model.take(i + 1).drop_last() =~= model.take(i as int));
        assert(model[i as int] == all@[i as int]@);
        if !text::lists(&r, &all[i]) {
            let ghost before = r@;
            let term = all[i].clone();
            r.push(term);
            assert(text::strings(r@) =~= text::strings(before).push(term@));
        }
    }
    assert(model.take(all@.len() as int) =~= model);
    r
}

/// In how many chunks each term stands.
fn document_frequencies(terms: &Vec<String>, chunks: &Vec<MemoryChunk>) -> (r: Vec<usize>)
    ensures
        r@.len() == terms@.len(),
        forall|i: int|
            0 <= i < terms@.len() ==> #[trigger] r@[i] == document_frequency(
                memory::chunk_models(chunks@),
                terms@[i]@,
            ),
{
    let mut r: Vec<usize> = Vec::new();
    for i in 0..terms.len()
        invariant
            r@.len() == i,
            forall|j: int|
                0 <= j < i ==> #[trigger] r@[j] == document_frequency(
                    memory::chunk_models(chunks@),
                    terms@[j]@,
                ),
    {
        r.push(count_documents(chunks, &terms[i]));
    }
    r
}

/// The statistics of a chunk against the terms of a query.
fn chunk_statistics(
    terms: &Vec<String>,
    documents: &Vec<usize>,
    total: u128,
    chunks: &Vec<MemoryChunk>,
    index: usize,
) -> (r: ChunkStatistics)
    requires
        index < chunks@.len(),
        documents@.len() == terms@.len(),
        forall|i: int|
            0 <= i < terms@.len() ==> #[trigger] documents@[i] == document_frequency(
                memory::chunk_models(chunks@),
                terms@[i]@,
            ),
        total == total_length(memory::chunk_models(chunks@)),
    ensures
        r.are_of(
            text::strings(terms@),
            chunks@[index as int]@,
            memory::chunk_models(chunks@),
        ),
{
    let ghost model = text::strings(terms@);
    let ghost all = memory::chunk_models(chunks@);
    let chunk = &chunks[index];
    let mut list: Vec<TermStatistics> = Vec::new();
    for i in 0..terms.len()
        invariant
            model == text::strings(terms@),
            all == memory::chunk_models(chunks@),
            list@ == term_statistics(model.take(i as int), chunk@, all),
            documents@.len() == terms@.len(),
            forall|j: int|
                0 <= j < terms@.len() ==> #[trigger] documents@[j] == document_frequency(
                    all,
                    terms@[j]@,
                ),
    {
        assert(model.take(i + 1).drop_last() =~= model.take(i as int));
        assert(model[i as int] == terms@[i as int]@);
        let n = count_term(&chunk.tokens, &terms[i]);
        if n > 0 {
            list.push(TermStatistics { term_frequency: n, document_frequency: documents[i] });
        }
    }
    assert(model.take(terms@.len() as int) =~= model);
    ChunkStatistics {
        terms: list,
        length: chunk.tokens.len(),
        total_length: total,
        chunks: chunks.len(),
    }
}

/// Whether a chunk can have these bits as its score for the terms of a query: one that holds none of
/// the terms has zero, any other what `score` gives for its statistics.
pub open spec fn has_score<F: Fn(&ChunkStatistics) -> u32>(
    score: F,
    terms: Seq<Seq<char>>,
    chunk: ChunkModel,
    chunks: Seq<ChunkModel>,
    bits: u32,
) -> bool {
    if term_statistics(terms, chunk, chunks).len() == 0 {
        bits == 0
    } else {
        exists|s: ChunkStatistics|
            s.are_of(terms, chunk, chunks) && #[trigger] call_ensures(score, (&s,), bits)
    }
}

/// Whether these are scores that the chunks have for the terms of a query.
pub open spec fn scored<F: Fn(&ChunkStatistics) -> u32>(
    score: F,
    terms: Seq<Seq<char>>,
    chunks: Seq<ChunkModel>,
    scores: Seq<u32>,
) -> bool {
    &&& scores.len() == chunks.len()
    &&& forall|i: int|
        0 <= i < chunks.len() ==> has_score(score, terms, chunks[i], chunks, #[trigger] scores[i])
}

/// Whether a chunk holds one of the terms.
pub open spec fn shares_term(terms: Seq<Seq<char>>, chunk: ChunkModel) -> bool {
    exists|k: int| 0 <= k < terms.len() && chunk.tokens.contains(#[trigger] terms[k])
}

proof fn lemma_frequent_term_stands(terms: Seq<Seq<char>>, term: Seq<char>)
    ensures
        (frequency(terms, term) > 0) == terms.contains(term),
    decreases terms.len(),
{
    if terms.len() > 0 {
        let front = terms.drop_last();
        lemma_frequent_term_stands(front, term);
        if front.contains(term) {
            let i = front.index_of(term);
            assert(terms[i] == term);
        }
        if terms.last() == term {
            assert(terms[terms.len() - 1] == term);
        }
        if terms.contains(term) && terms.last() != term {
            let i = terms.index_of(term);
            assert(front[i] == term);
        }
    }
}

/// There are statistics of a chunk exactly where it holds one of the terms.
proof fn lemma_statistics_of_shared_terms(
    terms: Seq<Seq<char>>,
    chunk: ChunkModel,
    chunks: Seq<ChunkModel>,
)
    ensures
        (term_statistics(terms, chunk, chunks).len() > 0) == shares_term(terms, chunk),
    decreases terms.len(),
{
    if terms.len() > 0 {
        let front = terms.drop_last();
        lemma_statistics_of_shared_terms(front, chunk, chunks);
        lemma_frequent_term_stands(chunk.tokens, terms.last());
        if shares_term(front, chunk) {
            let k = choose|k: int| 0 <= k < front.len() && chunk.tokens.contains(#[trigger] front[k]);
            assert(terms[k] == front[k]);
        }
        if chunk.tokens.contains(terms.last()) {
            assert(chunk.tokens.contains(terms[terms.len() - 1]));
        }
        if shares_term(terms, chunk) && !chunk.tokens.contains(terms.last()) {
            let k = choose|k: int| 0 <= k < terms.len() && chunk.tokens.contains(#[trigger] terms[k]);
            assert(front[k] == terms[k]);
        }
    }
}

/// A chunk that is ranked for a query holds one of the terms of the query, whatever the score is.
pub proof fn law_ranked_chunks_share_a_term<F: Fn(&ChunkStatistics) -> u32>(
    score: F,
    terms: Seq<Seq<char>>,
    chunks: Seq<ChunkModel>,
    scores: Seq<u32>,
)
    requires
        chunks.len() <= usize::MAX,
        scored(score, terms, chunks, scores),
    ensures
        forall|i: int|
            0 <= i < best(scores).len() ==> (#[trigger] best(scores)[i]).0 < chunks.len()
                && shares_term(terms, chunks[best(scores)[i].0 as int]),
{
    law_best_come_first(scores);
    assert forall|i: int| 0 <= i < best(scores).len() implies (#[trigger] best(scores)[i]).0
        < chunks.len() && shares_term(terms, chunks[best(scores)[i].0 as int]) by {
        let k = best(scores)[i].0 as int;
        assert(has_score(score, terms, chunks[k], chunks, scores[k]));
        lemma_statistics_of_shared_terms(terms, chunks[k], chunks);
    }
}

/// Ranks the chunks by the score that each has for the terms of a query. A query without terms ranks
/// none, and a chunk without any of the terms is not ranked.
pub fn rank_bm25<F: Fn(&ChunkStatistics) -> u32>(
    query: &str,
    chunks: &Vec<MemoryChunk>,
    score: F,
) -> (r: Vec<(usize, u32)>)
    requires
        forall|s: &ChunkStatistics| call_requires(score, (s,)),
    ensures
        query_terms(query@).len() == 0 ==> r@.len() == 0,
        query_terms(query@).len() > 0 ==> exists|scores: Seq<u32>|
            #[trigger] scored(
                score,
                query_terms(query@),
                memory::chunk_models(chunks@),
                scores,
            ) && r@ == best(scores),
        forall|i: int|
            0 <= i < r@.len() ==> (#[trigger] r@[i]).0 < chunks@.len() && shares_term(
                query_terms(query@),
                chunks@[r@[i].0 as int]@,
            ),
{
    let terms = search_terms(query);
    if terms.len() == 0 {
        return Vec::new();
    }
    let ghost model = query_terms(query@);
    let ghost all = memory::chunk_models(chunks@);
    let documents = document_frequencies(&terms, chunks);
    let total = sum_lengths(chunks);
    let mut scores: Vec<u32> = Vec::new();
    for i in 0..chunks.len()
        invariant
            forall|s: &ChunkStatistics| call_requires(score, (s,)),
            model == text::strings(terms@),
            all == memory::chunk_models(chunks@),
            documents@.len() == terms@.len(),
            forall|j: int|
                0 <= j < terms@.len() ==> #[trigger] documents@[j] == document_frequency(
                    all,
                    terms@[j]@,
                ),
            total == total_length(all),
            scores@.len() == i,
            forall|j: int|
                0 <= j < i ==> has_score(score, model, all[j], all, #[trigger] scores@[j]),
    {
        let statistics = chunk_statistics(&terms, &documents, total, chunks, i);
        let given: u32 = score(&statistics);
        assert(all[i as int] == chunks@[i as int]@);
        assert(call_ensures(score, (&statistics,), given));
        let bits: u32 = if statistics.terms.len() == 0 {
            0
        } else {
            given
        };
        assert(has_score(score, model, all[i as int], all, bits));
        scores.push(bits);
    }
    assert(scored(score, model, all, scores@));
    proof {
        law_ranked_chunks_share_a_term(score, model, all, scores@);
    }
    rank_scores(&scores)
}

// ---------------------------------------------------------------------------------------
// What rankings and statistics are
// ---------------------------------------------------------------------------------------

/// At most five places are given. A place goes to an index with its score, which is finite and
/// above zero; a higher score comes first, and of equal scores the one that comes first in the
/// list. Whatever has such a score and no place comes after all that have one, and then all five
/// are taken.
pub proof fn law_highest_scores_are_ranked(scores: Vec<u32>, r: Vec<(usize, u32)>)
    requires
        call_ensures(rank_scores, (&scores,), r),
    ensures
        r@.len() <= 5,
        forall|i: int|
            0 <= i < r@.len() ==> (#[trigger] r@[i]).0 < scores@.len() && scores@[r@[i].0 as int]
                == r@[i].1 && 0 < r@[i].1 < 0x7f80_0000,
        forall|i: int, j: int|
            0 <= i < j < r@.len() ==> (#[trigger] r@[i]).1 > (#[trigger] r@[j]).1 || (r@[i].1
                == r@[j].1 && r@[i].0 < r@[j].0),
        forall|k: int|
            0 <= k < scores@.len() && 0 < #[trigger] scores@[k] < 0x7f80_0000 && !r@.contains(
                (k as usize, scores@[k]),
            ) ==> r@.len() == 5 && forall|i: int|
                0 <= i < r@.len() ==> (#[trigger] r@[i]).1 > scores@[k] || (r@[i].1 == scores@[k]
                    && r@[i].0 < k),
{
    assert(scores.len() == scores@.len());
    law_best_come_first(scores@);
    let b = best(scores@);
    assert forall|i: int, j: int| 0 <= i < j < r@.len() implies (#[trigger] r@[i]).1 > (
    #[trigger] r@[j]).1 || (r@[i].1 == r@[j].1 && r@[i].0 < r@[j].0) by {
        assert(stands_before(b[i], b[j]));
    }
    assert forall|k: int|
        0 <= k < scores@.len() && 0 < #[trigger] scores@[k] < 0x7f80_0000 && !r@.contains(
            (k as usize, scores@[k]),
        ) implies r@.len() == 5 && forall|i: int|
        0 <= i < r@.len() ==> (#[trigger] r@[i]).1 > scores@[k] || (r@[i].1 == scores@[k] && r@[i].0
            < k) by {
        assert(counts(scores@[k]));
        assert forall|i: int| 0 <= i < r@.len() implies (#[trigger] r@[i]).1 > scores@[k] || (
        r@[i].1 == scores@[k] && r@[i].0 < k) by {
            assert(stands_before(b[i], (k as usize, scores@[k])));
            if r@[i].0 == k {
                assert(r@.contains(r@[i]));
            }
        }
    }
}

/// A ranking has what is ranked, each as often as it was there, the higher score first and of
/// equal scores the lower index.
pub proof fn law_ranking_is_in_order(scores: Seq<(usize, u32)>)
    ensures
        ranking(scores).to_multiset() == scores.to_multiset(),
        forall|i: int, j: int|
            0 <= i < j < ranking(scores).len() ==> (#[trigger] ranking(scores)[i]).1 > (
            #[trigger] ranking(scores)[j]).1 || (ranking(scores)[i].1 == ranking(scores)[j].1
                && ranking(scores)[i].0 <= ranking(scores)[j].0),
{
    let order = |a: (usize, u32), b: (usize, u32)| stands_before(a, b);
    lemma_order();
    scores.lemma_sort_by_ensures(order);
    let r = ranking(scores);
    assert forall|i: int, j: int| 0 <= i < j < r.len() implies (#[trigger] r[i]).1 > (
    #[trigger] r[j]).1 || (r[i].1 == r[j].1 && r[i].0 <= r[j].0) by {
        assert(order(r[i], r[j]));
    }
}

/// How often a term stands in two lists is how often it stands in each; and it stands once in a
/// list of itself alone.
pub proof fn law_terms_are_counted(
    a: Seq<Seq<char>>,
    b: Seq<Seq<char>>,
    term: Seq<char>,
    other: Seq<char>,
)
    ensures
        frequency(Seq::empty(), term) == 0,
        frequency(a + b, term) == frequency(a, term) + frequency(b, term),
        frequency(seq![other], term) == (if other == term {
            1nat
        } else {
            0
        }),
    decreases b.len(),
{
    assert(seq![other].drop_last() =~= Seq::<Seq<char>>::empty());
    assert(frequency(seq![other].drop_last(), term) == 0);
    assert(seq![other].last() == other);
    if b.len() == 0 {
        assert(a + b =~= a);
    } else {
        law_terms_are_counted(a, b.drop_last(), term, other);
        assert((a + b).drop_last() =~= a + b.drop_last());
        assert((a + b).last() == b.last());
    }
}

/// A chunk counts once for a term that stands in it, however often, and all its terms count for
/// the length.
pub proof fn law_chunks_are_counted(
    a: Seq<ChunkModel>,
    b: Seq<ChunkModel>,
    chunk: ChunkModel,
    term: Seq<char>,
)
    ensures
        document_frequency(a + b, term) == document_frequency(a, term) + document_frequency(b, term),
        document_frequency(seq![chunk], term) == (if chunk.tokens.contains(term) {
            1nat
        } else {
            0
        }),
        total_length(a + b) == total_length(a) + total_length(b),
        total_length(seq![chunk]) == chunk.tokens.len(),
    decreases b.len(),
{
    lemma_frequent_term_stands(chunk.tokens, term);
    assert(seq![chunk].drop_last() =~= Seq::<ChunkModel>::empty());
    assert(document_frequency(seq![chunk].drop_last(), term) == 0);
    assert(total_length(seq![chunk].drop_last()) == 0);
    assert(seq![chunk].last() == chunk);
    if b.len() == 0 {
        assert(a + b =~= a);
    } else {
        law_chunks_are_counted(a, b.drop_last(), chunk, term);
        assert((a + b).drop_last() =~= a + b.drop_last());
        assert((a + b).last() == b.last());
    }
}

proof fn lemma_distinct(terms: Seq<Seq<char>>)
    ensures
        distinct(terms).no_duplicates(),
        forall|t: Seq<char>| #[trigger] distinct(terms).contains(t) <==> terms.contains(t),
    decreases terms.len(),
{
    if terms.len() > 0 {
        let front = terms.drop_last();
        lemma_distinct(front);
        let before = distinct(front);
        let after = distinct(terms);
        assert forall|t: Seq<char>| #[trigger] after.contains(t) <==> terms.contains(t) by {
            if terms.contains(t) {
                let i = terms.index_of(t);
                if i < front.len() {
                    assert(front[i] == t);
                    assert(before.contains(t));
                    let k = before.index_of(t);
                    assert(after[k] == t);
                } else if !before.contains(t) {
                    assert(after[before.len() as int] == t);
                }
            }
            if after.contains(t) {
                let k = after.index_of(t);
                if k < before.len() {
                    assert(before[k] == t);
                    assert(before.contains(t));
                    let i = front.index_of(t);
                    assert(terms[i] == t);
                } else {
                    assert(terms[terms.len() - 1] == t);
                }
            }
        }
    } else {
        assert forall|t: Seq<char>| #[trigger] distinct(terms).contains(t) <==> terms.contains(t) by {}
    }
}

/// What is searched for are the terms of the first 4000 characters of the query, each once.
pub proof fn law_query_is_searched_by_its_terms(query: &str, r: Vec<String>)
    requires
        call_ensures(search_terms, (query,), r),
    ensures
        ({
            let head = if query@.len() <= 4000 {
                query@
            } else {
                query@.take(4000)
            };
            &&& forall|i: int, j: int|
                0 <= i < j < r@.len() ==> (#[trigger] r@[i])@ != (#[trigger] r@[j])@
            &&& forall|t: Seq<char>| #[trigger]
                text::strings(r@).contains(t) <==> memory_text::terms_of(head).contains(t)
        }),
{
    let head = if query@.len() <= 4000 {
        query@
    } else {
        query@.take(4000)
    };
    assert(text::clipped(query@, 4000) =~= head);
    lemma_distinct(memory_text::terms_of(head));
    let terms = text::strings(r@);
    assert forall|i: int, j: int| 0 <= i < j < r@.len() implies (#[trigger] r@[i])@ != (
    #[trigger] r@[j])@ by {
        assert(terms[i] == r@[i]@ && terms[j] == r@[j]@);
    }
}

/// Terms keep the order in which they first stand: a term that is new comes behind the others,
/// and one that is not changes nothing.
pub proof fn law_terms_keep_their_order(terms: Seq<Seq<char>>, term: Seq<char>)
    ensures
        distinct(terms.push(term)) == (if terms.contains(term) {
            distinct(terms)
        } else {
            distinct(terms).push(term)
        }),
{
    lemma_distinct(terms);
    assert(terms.push(term).drop_last() =~= terms);
}

/// The statistics of a chunk are those of the terms one by one: a term that does not stand in it
/// has none, and any other has how often it stands there and in how many chunks it stands.
pub proof fn law_statistics_are_of_each_term(
    a: Seq<Seq<char>>,
    b: Seq<Seq<char>>,
    term: Seq<char>,
    chunk: ChunkModel,
    chunks: Seq<ChunkModel>,
)
    ensures
        term_statistics(a + b, chunk, chunks) == term_statistics(a, chunk, chunks)
            + term_statistics(b, chunk, chunks),
        !chunk.tokens.contains(term) ==> term_statistics(seq![term], chunk, chunks).len() == 0,
        chunk.tokens.contains(term) ==> {
            let s = term_statistics(seq![term], chunk, chunks);
            &&& s.len() == 1
            &&& s[0].term_frequency == frequency(chunk.tokens, term) as usize
            &&& s[0].document_frequency == document_frequency(chunks, term) as usize
        },
    decreases b.len(),
{
    lemma_frequent_term_stands(chunk.tokens, term);
    assert(seq![term].drop_last() =~= Seq::<Seq<char>>::empty());
    assert(term_statistics(seq![term].drop_last(), chunk, chunks) =~= Seq::<
        TermStatistics,
    >::empty());
    assert(seq![term].last() == term);
    if b.len() == 0 {
        assert(a + b =~= a);
        assert(term_statistics(a, chunk, chunks) + term_statistics(b, chunk, chunks)
            =~= term_statistics(a, chunk, chunks));
    } else {
        law_statistics_are_of_each_term(a, b.drop_last(), term, chunk, chunks);
        assert((a + b).drop_last() =~= a + b.drop_last());
        assert((a + b).last() == b.last());
        assert(term_statistics(a + b, chunk, chunks) =~= term_statistics(a, chunk, chunks)
            + term_statistics(b, chunk, chunks));
    }
}

/// Each chunk has a score of its own. One that holds none of the terms has zero, and any other
/// what is given for the statistics of its own terms, its own length, the length of all and the
/// number of chunks.
pub proof fn law_each_chunk_is_scored_by_itself<F: Fn(&ChunkStatistics) -> u32>(
    score: F,
    terms: Seq<Seq<char>>,
    chunks: Seq<ChunkModel>,
    scores: Seq<u32>,
    i: int,
)
    requires
        scored(score, terms, chunks, scores),
        0 <= i < chunks.len(),
    ensures
        scores.len() == chunks.len(),
        (forall|k: int| 0 <= k < terms.len() ==> !chunks[i].tokens.contains(#[trigger] terms[k]))
            ==> scores[i] == 0,
        (exists|k: int| 0 <= k < terms.len() && chunks[i].tokens.contains(#[trigger] terms[k]))
            ==> exists|s: ChunkStatistics|
            #![trigger call_ensures(score, (&s,), scores[i])]
            call_ensures(score, (&s,), scores[i]) && s.terms@ == term_statistics(
                terms,
                chunks[i],
                chunks,
            ) && s.length == chunks[i].tokens.len() && s.total_length == total_length(chunks)
                && s.chunks == chunks.len(),
{
    assert(has_score(score, terms, chunks[i], chunks, scores[i]));
    lemma_statistics_of_shared_terms(terms, chunks[i], chunks);
    assert(shares_term(terms, chunks[i]) <==> exists|k: int|
        0 <= k < terms.len() && chunks[i].tokens.contains(#[trigger] terms[k]));
}

/// Whether a chunk is ranked for what it holds: a term of the query, and the score that was given
/// for its statistics.
pub open spec fn is_ranked_for<F: Fn(&ChunkStatistics) -> u32>(
    score: F,
    terms: Seq<Seq<char>>,
    chunks: Seq<ChunkModel>,
    place: (usize, u32),
) -> bool {
    &&& place.0 < chunks.len()
    &&& 0 < place.1 < 0x7f80_0000
    &&& exists|t: Seq<char>|
        terms.contains(t) && #[trigger] chunks[place.0 as int].tokens.contains(t)
    &&& exists|s: ChunkStatistics|
        #![trigger call_ensures(score, (&s,), place.1)]
        call_ensures(score, (&s,), place.1) && s.terms@ == term_statistics(
            terms,
            chunks[place.0 as int],
            chunks,
        ) && s.length == chunks[place.0 as int].tokens.len() && s.chunks == chunks.len()
}

/// For a query at most five chunks are ranked, the higher score first. Each of them holds a term
/// of the query and stands there by the score that was given for its own statistics.
pub proof fn law_query_ranks_chunks_by_their_terms<F: Fn(&ChunkStatistics) -> u32>(
    query: &str,
    chunks: Vec<MemoryChunk>,
    score: F,
    r: Vec<(usize, u32)>,
)
    requires
        call_ensures(rank_bm25::<F>, (query, &chunks, score), r),
    ensures
        r@.len() <= 5,
        query_terms(query@).len() == 0 ==> r@.len() == 0,
        forall|i: int|
            0 <= i < r@.len() ==> is_ranked_for(
                score,
                query_terms(query@),
                memory::chunk_models(chunks@),
                #[trigger] r@[i],
            ),
        forall|i: int, j: int|
            0 <= i < j < r@.len() ==> (#[trigger] r@[i]).1 > (#[trigger] r@[j]).1 || (r@[i].1
                == r@[j].1 && r@[i].0 < r@[j].0),
{
    let terms = query_terms(query@);
    let all = memory::chunk_models(chunks@);
    assert(chunks.len() == chunks@.len());
    if terms.len() > 0 {
        let scores = choose|scores: Seq<u32>|
            #[trigger] scored(score, terms, all, scores) && r@ == best(scores);
        law_best_come_first(scores);
        law_ranked_chunks_share_a_term(score, terms, all, scores);
        assert forall|i: int| 0 <= i < r@.len() implies is_ranked_for(
            score,
            terms,
            all,
            #[trigger] r@[i],
        ) by {
            let place = best(scores)[i];
            let k = place.0 as int;
            law_each_chunk_is_scored_by_itself(score, terms, all, scores, k);
            assert(shares_term(terms, all[k]));
            let m = choose|m: int| 0 <= m < terms.len() && all[k].tokens.contains(#[trigger] terms[m]);
            assert(terms.contains(terms[m]));
            assert(scores[k] == place.1);
        }
        assert forall|i: int, j: int| 0 <= i < j < r@.len() implies (#[trigger] r@[i]).1 > (
        #[trigger] r@[j]).1 || (r@[i].1 == r@[j].1 && r@[i].0 < r@[j].0) by {
            assert(stands_before(best(scores)[i], best(scores)[j]));
        }
    }
}

/// Sorting keeps what is ranked, each as often as it was there, and puts the higher score first,
/// and of equal scores the lower index.
pub proof fn law_sorting_puts_higher_scores_first(ranked: &mut Vec<(usize, u32)>)
    requires
        call_ensures(sort_ranked, (ranked,), ()),
    ensures
        final(ranked)@.to_multiset() == old(ranked)@.to_multiset(),
        forall|i: int, j: int|
            0 <= i < j < final(ranked)@.len() ==> (#[trigger] final(ranked)@[i]).1 > (
            #[trigger] final(ranked)@[j]).1 || (final(ranked)@[i].1 == final(ranked)@[j].1
                && final(ranked)@[i].0 <= final(ranked)@[j].0),
{
    law_ranking_is_in_order(old(ranked)@);
}

} // verus!
