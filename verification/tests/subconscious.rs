use foundation_ai::subconscious::{
    any_term_matches, derive_query_terms, extract_chunk_query, extract_content_text, format_context,
    normalize_for_match, predicate_label, select_property_hits, split_into_chunks, truncate,
    PropertyCandidate, PropertyHit, SubconsciousEntity, MAX_PROPERTY_HITS_PER_ENTITY,
};

#[test]
fn test_split_into_chunks_sentence_boundaries() {
    let chunks = split_into_chunks("Hello world. How are you? Fine!");
    assert_eq!(chunks, vec!["Hello world", "How are you", "Fine"]);
}

#[test]
fn test_split_into_chunks_comma_separated() {
    let chunks = split_into_chunks("falei com a Mariana, ela vai me passar algumas coisas");
    assert_eq!(chunks, vec!["falei com a Mariana", "ela vai me passar algumas coisas"]);
}

#[test]
fn test_split_into_chunks_newlines() {
    let chunks = split_into_chunks("first line\nsecond line\nthird");
    assert_eq!(chunks, vec!["first line", "second line", "third"]);
}

#[test]
fn test_extract_chunk_query_filters_short_words() {
    let q = extract_chunk_query("falei com a Mariana ela vai passar");
    assert_eq!(q, "falei Mariana passar");
}

#[test]
fn test_extract_chunk_query_keeps_short_meaningful_words() {
    let q = extract_chunk_query("quando minha mãe precisa me pagar");
    assert!(q.contains("mãe"), "should keep 'mãe' (3 chars, not a stopword)");
    assert!(!q.contains(" me ") && !q.ends_with(" me"), "should filter 'me' (2 chars)");
}

#[test]
fn test_extract_chunk_query_keeps_digits() {
    let q = extract_chunk_query("transferir os 26k de uma vez");
    assert!(q.contains("26k"), "should keep '26k' even though it's 3 chars");
    assert!(!q.contains(" os "), "should drop 'os'");
    assert!(!q.contains(" de "), "should drop 'de'");
}

#[test]
fn test_extract_chunk_query_strips_punctuation() {
    let q = extract_chunk_query("Mariana, Terra.");
    assert_eq!(q, "Mariana Terra");
}

#[test]
fn test_chunked_approach_finds_entity_late_in_message() {
    let long_msg = "I did shopping today, talked to family, had lunch, went for a walk, and by the way the Mariana debt needs attention";
    let chunks = split_into_chunks(long_msg);
    let last_chunk_query = extract_chunk_query(chunks.last().unwrap());
    assert!(last_chunk_query.contains("Mariana"), "should find Mariana even at the end of a long message");
}

#[test]
fn test_normalize_for_match_strips_punctuation_and_lowercases() {
    assert_eq!(normalize_for_match("Mariana!"), "mariana");
    assert_eq!(normalize_for_match("São Paulo"), "saopaulo");
    assert_eq!(normalize_for_match("R$ 1.500"), "r1500");
}

#[test]
fn test_any_term_matches_substring() {
    let terms: Vec<String> = vec!["mariana".to_string(), "debt".to_string()];
    assert!(any_term_matches(&terms, "Mariana Terra"), "should match 'Mariana' via substring");
    assert!(any_term_matches(&terms, "Has debt"));
    assert!(!any_term_matches(&terms, "Andrea Silva"));
}

#[test]
fn test_derive_query_terms_deduplicates() {
    let terms = derive_query_terms("Mariana, Mariana precisa pagar");
    assert_eq!(
        terms.iter().filter(|t| t.as_str() == "mariana").count(),
        1,
        "Mariana should appear only once in the term set"
    );
}

fn entity(hits: Vec<PropertyHit>) -> SubconsciousEntity {
    SubconsciousEntity {
        iri: "foundation:Person_1".to_string(),
        label: "Andrea Terra".to_string(),
        type_iri: "foundation:Person".to_string(),
        type_label: "Person".to_string(),
        icon: None,
        score_bits: 0.9f32.to_bits(),
        property_hits: hits,
        is_open_loop: None,
    }
}

#[test]
fn test_format_context_anchor_line_for_no_hits() {
    let ctx = format_context(&[entity(vec![])]).unwrap();
    assert!(ctx.contains("entity_label=\"Andrea Terra\""), "should include entity_label");
    assert!(ctx.contains("entity_iri=foundation:Person_1"), "should include entity_iri");
    assert!(ctx.contains("type=foundation:Person"), "should include type");
    assert!(!ctx.contains("prop_label"), "anchor line must not contain prop_label");
}

#[test]
fn test_format_context_flat_lines_per_hit() {
    let e = entity(vec![
        PropertyHit {
            prop_label: "Debt".to_string(),
            prop_iri: "foundation:hasDebt".to_string(),
            value: "R$ 500".to_string(),
        },
        PropertyHit {
            prop_label: "Phone".to_string(),
            prop_iri: "foundation:phone".to_string(),
            value: "11 9999-0000".to_string(),
        },
    ]);
    let ctx = format_context(&[e]).unwrap();
    let lines: Vec<&str> = ctx.lines().collect();
    assert_eq!(lines.len(), 3, "should have header + one line per hit");
    for line in &lines[1..] {
        assert!(line.contains("entity_label=\"Andrea Terra\""), "each hit line must repeat entity_label");
        assert!(line.contains("entity_iri=foundation:Person_1"), "each hit line must repeat entity_iri");
        assert!(line.contains("prop_iri="), "each hit line must have prop_iri");
        assert!(line.contains("prop_label="), "each hit line must have prop_label");
        assert!(line.contains("value="), "each hit line must have value");
    }
}

#[test]
fn test_max_property_hits_per_entity_constant() {
    let hits: Vec<PropertyHit> = (0..MAX_PROPERTY_HITS_PER_ENTITY)
        .map(|i| PropertyHit {
            prop_label: format!("Prop {i}"),
            prop_iri: format!("foundation:prop{i}"),
            value: format!("val{i}"),
        })
        .collect();
    let e = SubconsciousEntity {
        iri: "foundation:E_1".to_string(),
        label: "Entity".to_string(),
        type_iri: "foundation:T".to_string(),
        type_label: "T".to_string(),
        icon: None,
        score_bits: 1.0f32.to_bits(),
        property_hits: hits,
        is_open_loop: None,
    };
    let ctx = format_context(&[e]).unwrap();
    assert_eq!(
        ctx.lines().count(),
        1 + MAX_PROPERTY_HITS_PER_ENTITY,
        "format_context must emit exactly one line per hit when at the cap"
    );
}

#[test]
fn format_context_empty_is_none_and_exact_lines() {
    assert!(format_context(&[]).is_none());
    let ctx = format_context(&[entity(vec![PropertyHit {
        prop_label: "Debt".to_string(),
        prop_iri: "foundation:hasDebt".to_string(),
        value: "R$ 500".to_string(),
    }])])
    .unwrap();
    assert_eq!(
        ctx,
        "## Memory Context — Relevant entities from your knowledge graph (ranked by relevance):\n- entity_label=\"Andrea Terra\" entity_iri=foundation:Person_1 prop_label=\"Debt\" prop_iri=foundation:hasDebt value=\"R$ 500\""
    );
}

#[test]
fn extract_chunk_query_keeps_uppercase_stopwords_and_drops_lowercase_ones() {
    assert_eq!(extract_chunk_query("THE the Big"), "THE Big");
    assert_eq!(extract_chunk_query("... !!! ,,,"), "");
}

#[test]
fn derive_query_terms_covers_every_chunk() {
    let mut terms = derive_query_terms("Mariana pagou. Dívida quitada!");
    terms.sort();
    assert_eq!(terms, vec!["divida", "mariana", "pagou", "quitada"]);
}

#[test]
fn truncate_collapses_whitespace_and_cuts_long_values() {
    assert_eq!(truncate("a\nb\r\n  c"), "a b c");
    let long = "x".repeat(300);
    let t = truncate(&long);
    assert_eq!(t, format!("{}...[truncated content]", "x".repeat(255)));
    assert_eq!(truncate(&"y".repeat(255)), "y".repeat(255));
}

#[test]
fn predicate_label_falls_back_to_local_name() {
    assert_eq!(predicate_label(None, "foundation:hasDebt"), "hasDebt");
    assert_eq!(predicate_label(None, "plain"), "plain");
    assert_eq!(predicate_label(Some("Debt".to_string()), "foundation:hasDebt"), "Debt");
}

#[test]
fn select_property_hits_filters_matches_and_caps() {
    let terms = vec!["mariana".to_string()];
    let mut cands = vec![
        PropertyCandidate {
            prop_iri: "rdfs:label".to_string(),
            prop_label: "Label".to_string(),
            raw_value: Some("Mariana".to_string()),
        },
        PropertyCandidate {
            prop_iri: "foundation:friend".to_string(),
            prop_label: "Friend".to_string(),
            raw_value: Some("Mariana Terra".to_string()),
        },
        PropertyCandidate {
            prop_iri: "foundation:city".to_string(),
            prop_label: "City".to_string(),
            raw_value: Some("Recife".to_string()),
        },
        PropertyCandidate {
            prop_iri: "foundation:blob".to_string(),
            prop_label: "Mariana blob".to_string(),
            raw_value: None,
        },
    ];
    let hits = select_property_hits(&cands, &terms);
    assert_eq!(hits.len(), 1);
    assert_eq!(hits[0].prop_iri, "foundation:friend");
    assert_eq!(hits[0].value, "Mariana Terra");
    for i in 0..10 {
        cands.push(PropertyCandidate {
            prop_iri: format!("foundation:p{i}"),
            prop_label: "Mariana".to_string(),
            raw_value: Some(format!("v{i}")),
        });
    }
    assert_eq!(select_property_hits(&cands, &terms).len(), MAX_PROPERTY_HITS_PER_ENTITY);
}

#[test]
fn extract_content_text_reads_blocks_strings_and_raw() {
    assert_eq!(extract_content_text(r#"[{"type":"text","text":"a"},{"type":"image"},{"text":"b"}]"#), "a b");
    assert_eq!(extract_content_text(r#""hello""#), "hello");
    assert_eq!(extract_content_text("not json"), "not json");
    assert_eq!(extract_content_text("[]"), "[]");
}
