use agent_book_translate::db::checkpoint::{
    completed_chunk_map, has_wrapper_marker, normalize_translation, ChunkProgress, CompletedChunkMap,
};
use agent_book_translate::db::series::SeriesEntity;
use agent_book_translate::pipeline::migration::{
    plan_checkpoint_repairs, MigrationResult, StoredTranslation,
};

fn row(chapter: &str, index: i64, translated: Option<&str>) -> ChunkProgress {
    ChunkProgress {
        chapter_id: chapter.to_string(),
        chunk_index: index,
        original_text: "original".to_string(),
        translated_text: translated.map(|t| t.to_string()),
        state: "completed".to_string(),
    }
}

#[test]
fn checkpoint_reuse_skips_api_call() {
    let map = completed_chunk_map(vec![row("chapter_1.xhtml", 0, Some("已存储的翻译"))]);
    let key = ("chapter_1.xhtml".to_string(), 0i64);
    let found = map.get(&key).unwrap();

    assert_eq!(found.translated_text.as_deref(), Some("已存储的翻译"));
    assert_eq!(map.len(), 1);
}

#[test]
fn checkpoint_stored_wrapper_is_normalized_on_read() {
    let map = completed_chunk_map(vec![row("ch.xhtml", 0, Some(r#"{"translation":"归还的宝剑"}"#))]);
    let found = map.get(&("ch.xhtml".to_string(), 0)).unwrap();

    assert_eq!(
        found.translated_text.as_deref(),
        Some("归还的宝剑"),
        "read-time normalization must unwrap the JSON wrapper"
    );
}

#[test]
fn later_rows_replace_earlier_ones_and_keys_are_distinct() {
    let map = completed_chunk_map(vec![
        row("a", 0, Some("one")),
        row("a", 1, None),
        row("a", 0, Some("two")),
        row("b", 0, Some("three")),
    ]);
    assert_eq!(map.len(), 3);
    assert_eq!(map.get(&("a".to_string(), 0)).unwrap().translated_text.as_deref(), Some("two"));
    assert_eq!(map.get(&("a".to_string(), 1)).unwrap().translated_text, None);
    assert!(map.get(&("c".to_string(), 0)).is_none());
}

#[test]
fn inserted_chunk_is_read_back() {
    let mut map = CompletedChunkMap::new();
    assert_eq!(map.len(), 0);
    map.insert(row("x", 4, Some("四")));
    map.insert(row("x", 4, Some("肆")));
    assert_eq!(map.len(), 1);
    assert_eq!(map.get(&("x".to_string(), 4)).unwrap().translated_text.as_deref(), Some("肆"));
}

#[test]
fn stored_text_that_is_json_without_translation_is_kept() {
    assert_eq!(normalize_translation(r#"{"status": 1}"#), r#"{"status": 1}"#);
    assert_eq!(normalize_translation("  平文  "), "  平文  ");
    assert_eq!(normalize_translation("\"引号\""), "\"引号\"");
    assert_eq!(normalize_translation("```json\n{\"translation\": \"剑\"}\n```"), "剑");
}

#[test]
fn test_migrate_checkpoint_db_repairs_wrappers() {
    let rows = vec![StoredTranslation {
        chapter_id: "intro.xhtml".to_string(),
        chunk_index: 0,
        translated_text: Some(r#"{"translation": "已修好的译文"}"#.to_string()),
    }];
    let (res, repairs) = plan_checkpoint_repairs(&rows);
    assert_eq!(res.scanned, 1);
    assert_eq!(res.repaired, 1);
    assert_eq!(repairs[0].normalized, "已修好的译文");
    assert_eq!(repairs[0].chapter_id, "intro.xhtml");
}

#[test]
fn clean_rows_need_no_repair() {
    let rows = vec![
        StoredTranslation {
            chapter_id: "a".to_string(),
            chunk_index: 0,
            translated_text: Some("干净".to_string()),
        },
        StoredTranslation { chapter_id: "a".to_string(), chunk_index: 1, translated_text: None },
    ];
    let (res, repairs) = plan_checkpoint_repairs(&rows);
    assert_eq!(res, MigrationResult { scanned: 2, repaired: 0 });
    assert!(repairs.is_empty());
}

#[test]
fn series_entities_compare_by_value() {
    let e = SeriesEntity {
        id: 1,
        original_name: "Jon Snow".to_string(),
        translated_name: "琼恩·雪诺".to_string(),
        category: "Character".to_string(),
        profile: "Bastard of Winterfell".to_string(),
    };
    assert_eq!(e.clone(), e);
}

#[test]
fn wrapper_fragments_are_recognised() {
    assert!(has_wrapper_marker(r#"前文 {"translation": "剑"}"#));
    assert!(has_wrapper_marker("see refined_translation"));
    assert!(!has_wrapper_marker(r#"{ "translation": "剑" }"#));
    assert!(!has_wrapper_marker("归还的宝剑"));
}
