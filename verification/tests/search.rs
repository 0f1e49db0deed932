use annessaia::entry::App;
use annessaia::order::{comes_before, ordering};
use annessaia::search::{
    best_chunk, chunks, finds_in, hit_count, query_words, read_query, sanitize_doc_snippet, score_fields, stopword,
    text_score, word_hit, CHUNK_SEP, MAX_CHUNKS, MAX_CHUNK_CHARS,
};
use annessaia::vectors::{
    cosine_i8, dequantize, embed_input, embed_query, encode_vector, needs_embedding, semantic_score,
    vector_of, EXPECTED_DIMS,
};

fn app(name: &str, desc: &str, tags: &str) -> App {
    App {
        name: name.to_string(),
        desc: desc.to_string(),
        url: "http://u".to_string(),
        author: "ann".to_string(),
        tags: tags.to_string(),
        doc_snippet: String::new(),
        vec: String::new(),
        doc_vec: String::new(),
    }
}

#[test]
fn words_worth_looking_for() {
    assert!(stopword("how") && !stopword("paint"));
    assert_eq!(query_words("how to use a paint brush"), vec!["paint".to_string(), "brush".to_string()]);
    assert!(word_hit("pixel box", "boxes"));
    assert!(word_hit("a button", "buttons"));
    assert!(!word_hit("ga", "gas"));
    assert_eq!(hit_count("red green", &vec!["red".to_string(), "blue".to_string()]), 1);
    assert!(finds_in("how to draw", "how to"));
    assert!(!finds_in("drawing", "how to paint"));
}

#[test]
fn case_does_not_matter() {
    assert_eq!(read_query("  Füße ÄÖ\n"), "füße äö");
    assert!(app("PAINT", "", "").matches("paint"));
    assert!(app("Füße ÄÖ", "", "").matches("ÄÖ"));
    assert!(!app("paint", "", "").matches("music"));
}

#[test]
fn points_for_a_query() {
    let s = score_fields("paint", "paint things", "art, paint", "ann", "paint");
    assert_eq!(s.points, 12 + 4 + 1);
    assert_eq!(s.word_hits, 0);
    let s = score_fields("paint", "big things", "art", "ann", "paint big zebra");
    assert_eq!(s.points, 0);
    assert_eq!(s.word_hits, 2);
    let s = score_fields("painter", "", "", "paint", "paint");
    assert_eq!(s.points, 8 + 1);
    let s = score_fields("xpaint", "", "finepaint", "", "paint");
    assert_eq!(s.points, 5 + 2);
    assert_eq!(score_fields("a", "b", "c", "d", "").points, 1);
    assert_eq!(score_fields("a", "b", "c", "d", "zz").points, 0);
    let a = app("Paint", "Things", "Art");
    assert_eq!(text_score(&a, "paint").points, 12);
}

#[test]
fn previews_are_bounded_and_the_best_chunk_is_shown() {
    let sep = CHUNK_SEP.to_string();
    let raw = vec!["one red", "", "two blue\ngreen", "three red blue"].join(&sep);
    let kept = sanitize_doc_snippet(&raw);
    assert_eq!(chunks(&kept), vec!["one red".to_string(), "two bluegreen".to_string(), "three red blue".to_string()]);
    assert_eq!(sanitize_doc_snippet(&kept), kept);
    assert_eq!(best_chunk(&kept, "red blue"), "three red blue");
    assert_eq!(best_chunk(&kept, "nothing"), "one red");
    assert_eq!(best_chunk("", "red"), "");
    let many = vec!["c".repeat(900); 100].join(&sep);
    let kept = chunks(&sanitize_doc_snippet(&many));
    assert_eq!(kept.len(), MAX_CHUNKS);
    assert!(kept.iter().all(|c| c.chars().count() == MAX_CHUNK_CHARS));
}

#[test]
fn vectors_travel_as_text() {
    assert_eq!(encode_vector(&vec![0, 1, 2, -1]), "AAEC/w==");
    assert_eq!(dequantize("AAEC/w==").unwrap(), vec![0, 1, 2, -1]);
    assert_eq!(vector_of(&vec![0, 127, 128, 255]), vec![0, 127, -128, -1]);
    assert!(dequantize("not base64!").is_none());
    assert!(needs_embedding(""));
    assert!(needs_embedding("AAEC"));
    assert!(!needs_embedding(&encode_vector(&vec![1i8; EXPECTED_DIMS])));
}

#[test]
fn closeness_of_vectors() {
    let c = cosine_i8(&vec![1, 2, -3], &vec![4, -5, 6]).unwrap();
    assert_eq!((c.dot, c.norm_a, c.norm_b), (4 - 10 - 18, 14, 77));
    assert!(cosine_i8(&vec![1], &vec![1, 2]).is_none());
    let q = vec![1i8; EXPECTED_DIMS];
    let stored = encode_vector(&q);
    let s = semantic_score(&Some(q), &stored).unwrap();
    assert_eq!(s.dot, EXPECTED_DIMS as i64);
    assert!(semantic_score(&None, &stored).is_none());
}

#[test]
fn texts_that_are_embedded() {
    assert_eq!(embed_input("N", "t", "d"), "title: none | text: N. t. d");
    assert_eq!(embed_input("N", "t", &"d".repeat(2000)).chars().count(), 1000);
    assert!(embed_query("red paint").ends_with("red paint"));
}

#[test]
fn greater_keys_come_first_then_names() {
    let names = vec!["b".to_string(), "a".to_string(), "c".to_string()];
    assert_eq!(ordering(&vec![5, 5, 9], &names), vec![2, 1, 0]);
    for (x, y) in [("a", "b"), ("a", "ab"), ("Z", "a"), ("é", "z"), ("\u{ffff}", "\u{10000}")] {
        assert_eq!(comes_before(x, y), x < y);
        assert_eq!(comes_before(y, x), y < x);
    }
}
