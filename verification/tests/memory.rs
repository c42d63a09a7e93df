use codex_plus_core::embedding_cache::{
    embedding_scope, rank_with_embeddings, EmbeddingCache, EmbeddingRun,
};
use codex_plus_core::embeddings::{
    check_status, embeddings_endpoint, embeddings_path, make_embedding_request, order_embeddings,
    EmbeddingDatum, EmbeddingError, EMBEDDING_BATCH_SIZE, MAX_EMBEDDING_DIMENSIONS,
};
use codex_plus_core::json::{compact_json, parse_json};
use codex_plus_core::memory::{
    is_memory_text_file, memory_chunk as chunk_of, memory_entry_action, searches_depth, sha256_hex,
    EntryAction, EntryKind, MemoryChunk, MemoryCollector, MAX_CONTEXT_CHARS, MAX_MEMORY_CHUNKS,
    MAX_MEMORY_FILE_BYTES,
};
use codex_plus_core::memory_context::{memory_hook_output, memory_prompt, render_memory_context};
use codex_plus_core::memory_rank::{
    rank_bm25 as rank_bm25_with, rank_scores, search_terms, sort_ranked, ChunkStatistics,
};
use codex_plus_core::memory_text::{
    chunk_memory_text, is_cjk, split_at_char_limit, tokenize, MAX_MEMORY_CHUNK_CHARS,
};
use codex_plus_core::settings::{embedding_settings_complete, BackendSettings};
use codex_plus_core::ai_shell::CodexAiShell;

fn memory_chunk(path: &str, text: &str) -> MemoryChunk {
    chunk_of(path, text.to_string())
}

fn score(statistics: &ChunkStatistics) -> u32 {
    let average_length = statistics.total_length as f32 / statistics.chunks as f32;
    let mut score = 0.0f32;
    for term in &statistics.terms {
        let term_frequency = term.term_frequency as f32;
        let frequency = term.document_frequency as f32;
        let inverse =
            ((statistics.chunks as f32 - frequency + 0.5) / (frequency + 0.5) + 1.0).ln();
        let ratio = if average_length > 0.0 {
            statistics.length as f32 / average_length
        } else {
            1.0
        };
        score += inverse * term_frequency * 2.5
            / (term_frequency + 1.5 * (1.0 - 0.75 + 0.75 * ratio));
    }
    score.to_bits()
}

fn rank_bm25(query: &str, chunks: &Vec<MemoryChunk>) -> Vec<(usize, u32)> {
    rank_bm25_with(query, chunks, score)
}

#[test]
fn bm25_matches_english_and_chinese_memory_terms() {
    let chunks = vec![
        memory_chunk(
            "api.md",
            "Use the provider API fallback when OAuth is unavailable.",
        ),
        memory_chunk("release.md", "发布版本必须使用 GitHub Actions 构建。"),
        memory_chunk("other.md", "Unrelated desktop preferences."),
    ];

    let english = rank_bm25("provider API", &chunks);
    let chinese = rank_bm25("发布版本构建", &chunks);

    assert_eq!(english.first().map(|item| item.0), Some(0));
    assert_eq!(chinese.first().map(|item| item.0), Some(1));
}

#[test]
fn memory_context_is_bounded_and_labels_retrieval_mode() {
    let chunks = (0..5)
        .map(|index| {
            memory_chunk(
                &format!("memory-{index}.md"),
                &"a".repeat(MAX_MEMORY_CHUNK_CHARS),
            )
        })
        .collect::<Vec<_>>();
    let ranked = (0..chunks.len())
        .map(|index| (index, 1.0f32.to_bits()))
        .collect::<Vec<_>>();
    let context = render_memory_context(&chunks, &ranked, "bm25").unwrap();

    assert!(context.contains("mode=\"bm25\""));
    assert!(context.chars().count() <= MAX_CONTEXT_CHARS);
    assert_eq!(context.matches("\n[").count(), 4);
}

#[test]
fn embeddings_endpoint_appends_standard_path_once() {
    assert_eq!(
        embeddings_endpoint("https://example.test/v1").unwrap().as_str(),
        "https://example.test/v1/embeddings"
    );
    assert_eq!(
        embeddings_endpoint("https://example.test/v1/embeddings").unwrap().as_str(),
        "https://example.test/v1/embeddings"
    );
}

#[test]
fn the_endpoint_of_an_endpoint_is_itself() {
    for base in [
        " https://Example.test:443/v1// ",
        "http://user:pa ss@h/ü/a%20b?x=1#y",
        "http://[::1]:8080",
        "https://bücher.example/..//a/./b/",
        "http://h\\a\\b",
    ] {
        let endpoint = embeddings_endpoint(base).unwrap();
        assert!(!endpoint.chars().any(char::is_whitespace));
        assert_eq!(embeddings_endpoint(&endpoint).unwrap(), endpoint);
    }
    assert_eq!(
        embeddings_endpoint(" https://Example.test:443/v1// ").unwrap(),
        "https://example.test/v1/embeddings"
    );
    assert_eq!(
        embeddings_endpoint("https://h/embeddings/").unwrap(),
        "https://h/embeddings/"
    );
    assert_eq!(
        embeddings_endpoint("https://h/v1?key=1").unwrap(),
        "https://h/v1/embeddings?key=1"
    );
    for base in ["HTTP://A.b-c_d:80/x//y", "https:h.example:8443", "http://0x7f.1/../v1/./"] {
        let endpoint = embeddings_endpoint(base).unwrap();
        assert_eq!(embeddings_endpoint(&endpoint).unwrap(), endpoint);
    }
    assert_eq!(
        embeddings_endpoint("http://0x7f.1/../v1/./").unwrap(),
        "http://127.0.0.1/v1/embeddings"
    );
    assert_eq!(embeddings_endpoint("").unwrap_err(), EmbeddingError::InvalidBaseUrl);
    assert_eq!(
        embeddings_endpoint("ftp://h/v1").unwrap_err(),
        EmbeddingError::UnsupportedScheme
    );
}

#[test]
fn the_path_of_the_service_is_extended_once() {
    assert_eq!(embeddings_path("http", "/").unwrap().unwrap(), "/embeddings");
    assert_eq!(embeddings_path("https", "/v1/").unwrap().unwrap(), "/v1/embeddings");
    assert_eq!(embeddings_path("https", "/v1/embeddings//").unwrap(), None);
    assert_eq!(
        embeddings_path("https", "/v1embeddings").unwrap().unwrap(),
        "/v1embeddings/embeddings"
    );
    assert!(embeddings_path("file", "/").is_err());
}

#[test]
fn texts_are_cut_into_chunks_at_empty_lines() {
    assert_eq!(chunk_memory_text(" a \n\n\n\n b\nc \n\n"), vec!["a\n\nb\nc"]);
    assert!(chunk_memory_text(" \n\n ").is_empty());
    let long = "x".repeat(1000);
    let two = chunk_memory_text(&format!("{long}\n\n{long}"));
    assert_eq!(two, vec![long.clone(), long.clone()]);
    let fits = format!("{}\n\n{}", "x".repeat(1000), "y".repeat(398));
    assert_eq!(chunk_memory_text(&fits), vec![fits.clone()]);
    let over = format!("{}\n\n{}", "x".repeat(1000), "y".repeat(399));
    assert_eq!(chunk_memory_text(&over).len(), 2);
    let huge = "é".repeat(3000);
    let parts = chunk_memory_text(&format!("head\n\n{huge}\n\ntail"));
    assert_eq!(
        parts.iter().map(|part| part.chars().count()).collect::<Vec<_>>(),
        vec![4, 1400, 1400, 200, 4]
    );
    let solid = |text: &str| text.chars().filter(|c| !c.is_whitespace()).collect::<String>();
    assert_eq!(solid(&parts.concat()), solid(&format!("head{huge}tail")));
}

#[test]
fn limited_parts_are_trimmed() {
    assert_eq!(split_at_char_limit("ab  cd e", 3), vec!["ab", "cd", "e"]);
    assert_eq!(split_at_char_limit("a   b", 1), vec!["a", "b"]);
    assert!(split_at_char_limit("", 3).is_empty());
}

#[test]
fn terms_are_words_and_ideographs() {
    assert_eq!(
        tokenize("Use_API2, 发布版x本!"),
        vec!["use_api2", "发", "布", "版", "发布", "布版", "x", "本"]
    );
    assert_eq!(tokenize("GitHub"), tokenize("github"));
    assert!(tokenize(" ,.é").is_empty());
    for (a, b) in [("Use API", "发布"), ("", "x"), ("发,", " 布版"), ("a_", ""), (" ", "-")] {
        let mut terms = tokenize(a);
        terms.extend(tokenize(b));
        assert_eq!(tokenize(&format!("{a} {b}")), terms);
        assert_eq!(tokenize(&format!("{a}é{b}")), terms);
    }
    assert!(is_cjk('\u{3400}') && is_cjk('\u{9fff}') && is_cjk('\u{2fa1f}') && is_cjk('\u{f900}'));
    assert!(!is_cjk('\u{33ff}') && !is_cjk('\u{4dc0}') && !is_cjk('\u{a000}') && !is_cjk('a'));
}

#[test]
fn the_terms_of_a_query_are_taken_once_and_up_to_a_limit() {
    assert_eq!(search_terms("b a B c a"), vec!["b", "a", "c"]);
    let long = format!("{} tail", "x".repeat(3999));
    assert_eq!(search_terms(&long), vec!["x".repeat(3999)]);
}

#[test]
fn scores_are_ranked_and_cut() {
    let bits = |values: &[f32]| values.iter().map(|v| v.to_bits()).collect::<Vec<_>>();
    let scores = bits(&[0.5, 2.0, -1.0, 0.0, 2.0, f32::NAN, f32::INFINITY, 0.25, 1.0, 0.75]);
    let ranked = rank_scores(&scores);
    assert_eq!(
        ranked.iter().map(|item| item.0).collect::<Vec<_>>(),
        vec![1, 4, 8, 9, 0]
    );
    assert_eq!(ranked[0].1, 2.0f32.to_bits());
    let tied = rank_scores(&bits(&[1.0; 12]));
    assert_eq!(
        tied.iter().map(|item| item.0).collect::<Vec<_>>(),
        (0..tied.len()).collect::<Vec<_>>()
    );
    let mut pairs = vec![(3, 1), (1, 5), (2, 5), (0, 1)];
    sort_ranked(&mut pairs);
    assert_eq!(pairs, vec![(1, 5), (2, 5), (0, 1), (3, 1)]);
}

#[test]
fn statistics_count_terms_and_chunks() {
    let chunks = vec![
        memory_chunk("a", "x x y"),
        memory_chunk("b", "y z"),
        memory_chunk("c", "w"),
    ];
    let seen = std::cell::RefCell::new(Vec::new());
    let ranked = rank_bm25_with("y x q", &chunks, |s: &ChunkStatistics| {
        seen.borrow_mut().push((
            s.terms
                .iter()
                .map(|t| (t.term_frequency, t.document_frequency))
                .collect::<Vec<_>>(),
            s.length,
            s.total_length,
            s.chunks,
        ));
        s.terms.len() as u32
    });
    assert_eq!(
        seen.into_inner(),
        vec![
            (vec![(1, 2), (2, 1)], 3, 6, 3),
            (vec![(1, 2)], 2, 6, 3),
            (vec![], 1, 6, 3)
        ]
    );
    assert_eq!(ranked, vec![(0, 2), (1, 1)]);
    let level = rank_bm25_with("y x q", &chunks, |_: &ChunkStatistics| 1);
    assert_eq!(level, vec![(0, 1), (1, 1)]);
    assert!(rank_bm25_with("q", &chunks, |_: &ChunkStatistics| 1).is_empty());
    assert!(rank_bm25_with("y", &Vec::new(), |_: &ChunkStatistics| 1).is_empty());
    assert!(rank_bm25_with("?", &chunks, |_: &ChunkStatistics| 1).is_empty());
}

#[test]
fn digests_are_written_in_hexadecimal() {
    assert_eq!(
        sha256_hex(b"abc"),
        "ba7816bf8f01cfea414140de5dae2223b00361a396177a9cb410ff61f20015ad"
    );
    let chunk = memory_chunk("p", "abc");
    assert_eq!(chunk.cache_key, sha256_hex(b"abc"));
    assert_eq!(chunk.tokens, vec!["abc"]);
}

#[test]
fn entries_are_searched_taken_or_skipped() {
    assert_eq!(memory_entry_action("a.MD", EntryKind::File), EntryAction::Take);
    assert_eq!(memory_entry_action("a.rst", EntryKind::File), EntryAction::Take);
    assert_eq!(memory_entry_action("a.rs", EntryKind::File), EntryAction::Skip);
    assert_eq!(memory_entry_action(".a.md", EntryKind::File), EntryAction::Skip);
    assert_eq!(memory_entry_action("d.md", EntryKind::Directory), EntryAction::Descend);
    assert_eq!(memory_entry_action(".git", EntryKind::Directory), EntryAction::Skip);
    assert_eq!(memory_entry_action("a.md", EntryKind::Symlink), EntryAction::Skip);
    assert_eq!(memory_entry_action("a.md", EntryKind::Other), EntryAction::Skip);
    assert!(is_memory_text_file("x.tar.txt") && is_memory_text_file("x.markdown"));
    assert!(!is_memory_text_file("md") && !is_memory_text_file(".md"));
    assert!(searches_depth(4) && !searches_depth(5));
}

#[test]
fn files_are_collected_within_limits() {
    let mut collector = MemoryCollector::new();
    assert!(collector.wants(false, MAX_MEMORY_FILE_BYTES));
    assert!(!collector.wants(false, MAX_MEMORY_FILE_BYTES + 1));
    assert!(!collector.wants(true, 1));
    collector.add_file("a\\b.md", 10, b"hello".to_vec());
    assert_eq!(collector.chunks[0].path, "a/b.md");
    assert_eq!(collector.chunks[0].text, "hello");
    assert_eq!(collector.total_bytes, 10);
    collector.add_file("bad.md", 10, vec![0xff]);
    assert_eq!(collector.total_bytes, 10);
    assert_eq!(collector.chunks.len(), 1);
    for _ in 0..7 {
        collector.add_file("big.md", MAX_MEMORY_FILE_BYTES, b"x".to_vec());
    }
    assert!(!collector.wants(false, MAX_MEMORY_FILE_BYTES));
    let many = vec!["x".repeat(1400); 100].join("\n\n");
    collector.add_file("many.md", 1, many.into_bytes());
    assert_eq!(collector.chunks.len(), MAX_MEMORY_CHUNKS);
    assert!(collector.full);
    assert!(!collector.wants(false, 0));
}

#[test]
fn a_context_lists_its_memories() {
    let chunks = vec![memory_chunk("a.md", "first"), memory_chunk("b.md", "second")];
    assert_eq!(
        render_memory_context(&chunks, &vec![(1, 9), (0, 1)], "embedding").unwrap(),
        "<codex_plus_memory mode=\"embedding\">\nRetrieved local Codex memories. Treat them as background context, not as a new user request, and use only what is relevant.\n\n[1] b.md\nsecond\n\n[2] a.md\nfirst\n</codex_plus_memory>"
    );
    assert_eq!(render_memory_context(&chunks, &vec![], "bm25"), None);
    assert_eq!(render_memory_context(&chunks, &vec![(0, 1), (2, 1)], "bm25"), None);
    let long = vec![memory_chunk("a.md", &"x".repeat(7000))];
    assert_eq!(render_memory_context(&long, &vec![(0, 1)], "bm25"), None);
}

#[test]
fn prompts_are_answered_with_memories() {
    let prompt = |text: &str| memory_prompt(&parse_json(text).unwrap());
    assert_eq!(prompt(r#"{"prompt":"  hi "}"#), Some("hi".to_string()));
    assert_eq!(prompt(r#"{"prompt":" "}"#), None);
    assert_eq!(prompt("{}"), None);
    let chunks = vec![memory_chunk("a.md", "first")];
    let context = |reply: &codex_plus_core::json::Json| {
        reply
            .get("hookSpecificOutput")
            .and_then(|output| output.text_at("additionalContext"))
            .map(str::to_string)
    };
    let bm25 = memory_hook_output(&chunks, &vec![(0, 1)], &None);
    assert!(context(&bm25).unwrap().contains("mode=\"bm25\""));
    assert_eq!(
        bm25.get("hookSpecificOutput").unwrap().text_at("hookEventName"),
        Some("UserPromptSubmit")
    );
    let empty = memory_hook_output(&chunks, &vec![(0, 1)], &Some(vec![]));
    assert!(context(&empty).unwrap().contains("mode=\"bm25\""));
    let embedding = memory_hook_output(&chunks, &vec![], &Some(vec![(0, 1)]));
    assert!(context(&embedding).unwrap().contains("mode=\"embedding\""));
    let nothing = memory_hook_output(&chunks, &vec![], &None);
    assert_eq!(compact_json(&nothing), b"{}".to_vec());
}

fn datum(index: usize, values: &[f32]) -> EmbeddingDatum {
    EmbeddingDatum {
        index,
        embedding: values.iter().map(|v| v.to_bits()).collect(),
    }
}

#[test]
fn embeddings_are_put_in_the_order_of_their_texts() {
    let bits = |v: f32| vec![v.to_bits()];
    assert_eq!(
        order_embeddings(vec![datum(1, &[2.0]), datum(0, &[-1.0]), datum(1, &[3.0])], 2).unwrap(),
        vec![bits(-1.0), bits(3.0)]
    );
    assert_eq!(order_embeddings(vec![], 0).unwrap(), Vec::<Vec<u32>>::new());
    let error = |data: Vec<EmbeddingDatum>, count: usize| order_embeddings(data, count).unwrap_err();
    assert_eq!(error(vec![datum(0, &[1.0])], 2), EmbeddingError::MissingVector);
    assert_eq!(error(vec![datum(2, &[1.0])], 2), EmbeddingError::InvalidVector);
    assert_eq!(error(vec![datum(0, &[])], 1), EmbeddingError::InvalidVector);
    assert_eq!(error(vec![datum(0, &[f32::NAN])], 1), EmbeddingError::InvalidVector);
    assert_eq!(
        error(vec![datum(0, &[1.0, f32::NEG_INFINITY])], 1),
        EmbeddingError::InvalidVector
    );
    let long = vec![1.0; MAX_EMBEDDING_DIMENSIONS + 1];
    assert_eq!(error(vec![datum(0, &long)], 1), EmbeddingError::InvalidVector);
    assert!(order_embeddings(vec![datum(0, &long[1..])], 1).is_ok());
    assert_eq!(error(vec![datum(0, &[f32::MAX]), datum(5, &[])], 2), EmbeddingError::InvalidVector);
}

#[test]
fn embedding_errors_have_words() {
    assert!(check_status(200).is_ok() && check_status(299).is_ok());
    assert_eq!(
        check_status(404).unwrap_err().message(),
        "嵌入接口返回 HTTP 404"
    );
    assert!(check_status(199).is_err() && check_status(300).is_err());
    assert_eq!(EmbeddingError::InvalidBaseUrl.message(), "记忆嵌入 Base URL 无效");
    assert_eq!(
        EmbeddingError::UnsupportedScheme.message(),
        "记忆嵌入 Base URL 只支持 HTTP 或 HTTPS"
    );
    assert_eq!(EmbeddingError::InvalidVector.message(), "嵌入接口返回了无效向量");
    assert_eq!(EmbeddingError::MissingVector.message(), "嵌入接口缺少向量");
    assert_eq!(
        EmbeddingError::CountMismatch.message(),
        "嵌入接口返回的文档向量数量不匹配"
    );
    assert_eq!(EmbeddingError::NoQueryVector.message(), "嵌入接口未返回查询向量");
}

#[test]
fn embeddings_are_asked_for_with_model_and_texts() {
    let request = make_embedding_request("m", &vec!["a".to_string(), "b".to_string()]);
    assert_eq!(
        String::from_utf8(compact_json(&request)).unwrap(),
        r#"{"input":["a","b"],"model":"m"}"#
    );
}

fn settings(enabled: bool, base_url: &str, model: &str) -> BackendSettings {
    BackendSettings {
        enhancements_enabled: true,
        codex_app_disable_auto_update: false,
        codex_app_ai_shell: CodexAiShell::PowerShell,
        codex_app_memory_embedding_enabled: enabled,
        codex_app_memory_embedding_base_url: base_url.to_string(),
        codex_app_memory_embedding_model: model.to_string(),
        codex_app_memory_embedding_api_key: String::new(),
        active_relay_id: String::new(),
        relay_profiles: Vec::new(),
        relay_common_config_contents: String::new(),
        relay_context_config_contents: String::new(),
        computer_use_guard_enabled: false,
    }
}

#[test]
fn embeddings_need_an_address_and_a_model() {
    assert!(embedding_settings_complete(&settings(true, "http://h", "m")));
    assert!(!embedding_settings_complete(&settings(false, "http://h", "m")));
    assert!(!embedding_settings_complete(&settings(true, " ", "m")));
    assert!(!embedding_settings_complete(&settings(true, "http://h", "\n")));
}

#[test]
fn caches_serve_one_address_and_model() {
    let scope = embedding_scope(&settings(true, " u", " m "));
    assert_eq!(scope, sha256_hex(b" u\0m"));
    let mut cache = EmbeddingCache::empty(1, scope.clone());
    let chunk = memory_chunk("a", "text");
    cache.insert(chunk.cache_key.clone(), vec![7]);
    let kept = cache.fitting(scope.clone());
    assert_eq!(kept.vector(&chunk), Some(&vec![7]));
    let other = kept.fitting("else".to_string());
    assert_eq!(other.vector(&chunk), None);
    assert_eq!(other.scope, "else");
    let mut old = EmbeddingCache::empty(0, scope.clone());
    old.insert(chunk.cache_key.clone(), vec![7]);
    assert_eq!(old.fitting(scope).vector(&chunk), None);
}

#[test]
fn missing_embeddings_are_asked_for_in_batches() {
    let chunks = (0..70)
        .map(|i| memory_chunk("p", &format!("text {i}")))
        .collect::<Vec<_>>();
    let mut cache = EmbeddingCache::empty(1, "s".to_string());
    cache.insert(chunks[1].cache_key.clone(), vec![1]);
    cache.insert("gone".to_string(), vec![2]);
    let mut run = EmbeddingRun::new(cache, &chunks);
    let mut sizes = Vec::new();
    loop {
        let batch = run.next_batch();
        if batch.is_empty() {
            break;
        }
        sizes.push(batch.len());
        assert_eq!(
            run.store(&chunks, vec![]).unwrap_err(),
            EmbeddingError::CountMismatch
        );
        let vectors = batch.iter().map(|i| vec![*i as u32]).collect::<Vec<_>>();
        run.store(&chunks, vectors).unwrap();
    }
    assert_eq!(sizes, vec![EMBEDDING_BATCH_SIZE, EMBEDDING_BATCH_SIZE, 5]);
    let cache = run.finish(&chunks);
    assert_eq!(cache.embeddings.entries().len(), 70);
    assert_eq!(cache.vector(&chunks[1]), Some(&vec![1]));
    assert_eq!(cache.vector(&chunks[69]), Some(&vec![69]));
    assert!(cache.embeddings.get(&"gone".to_string()).is_none());
}

#[test]
fn chunks_are_ranked_by_their_embeddings() {
    let chunks = ["a", "b", "c", "d"].map(|text| memory_chunk("p", text)).into_iter().collect::<Vec<_>>();
    let mut cache = EmbeddingCache::empty(1, "s".to_string());
    cache.insert(chunks[0].cache_key.clone(), vec![1.0f32.to_bits()]);
    cache.insert(chunks[2].cache_key.clone(), vec![3.0f32.to_bits()]);
    cache.insert(chunks[3].cache_key.clone(), vec![]);
    let ranked = rank_with_embeddings(&vec![2.0f32.to_bits()], &cache, &chunks, |a, b| {
        let product = f32::from_bits(*a.first()?) * f32::from_bits(*b.first()?);
        Some(product.to_bits())
    });
    assert_eq!(ranked, vec![(2, 6.0f32.to_bits()), (0, 2.0f32.to_bits())]);
}
