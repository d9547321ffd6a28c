use agent_book_translate::pipeline::parser::{
    escape_text, extract_and_flatten_text, extract_text_chunks,
    render_bilingual_node, render_file_checked, render_file_from_chunks, render_translation_node,
    RenderedChunk, TextChunk,
};

#[test]
fn ruby_text_flattening() {
    let raw_xhtml = r#"<div class="chapter"><p>これは<ruby>漢<rt>かん</rt>字<rt>じ</rt></ruby>です。</p></div>"#;
    assert_eq!(extract_and_flatten_text(raw_xhtml), "これは漢字です。");
}

#[test]
fn bypass_images_extraction() {
    let raw_xhtml = r#"<p>Text before <img src="image.jpg" id="fig1"/> text after.</p>"#;
    let text_chunks = extract_text_chunks(raw_xhtml);
    assert_eq!(text_chunks.len(), 1);
    assert_eq!(text_chunks[0].text, "Text before  text after.");
}

#[test]
fn bilingual_injection_preserves_images() {
    let original_html =
        r#"<p id="p1">Text before <img src="image.jpg" id="fig1"/> text after.</p>"#;
    let output = render_bilingual_node(original_html, "翻译");
    assert!(output.contains(r#"<img src="image.jpg" id="fig1""#));
    assert!(output.contains(r#"class="translation""#));
}

#[test]
fn drop_cap_splicing() {
    let raw_xhtml = r#"<p><span class="dropcap">O</span>nce upon a time...</p>"#;
    assert_eq!(extract_and_flatten_text(raw_xhtml), "Once upon a time...");
}

#[test]
fn chunks_carry_block_name_and_position() {
    let raw = "<h1>Title</h1><p>  </p><li>Item</li><p>Body</p>";
    let chunks = extract_text_chunks(raw);
    assert_eq!(chunks.len(), 3);
    assert_eq!(chunks[0].node_id.as_deref(), Some("h1-0"));
    assert_eq!(chunks[0].text, "Title");
    assert_eq!(chunks[1].node_id.as_deref(), Some("li-2"));
    assert_eq!(chunks[2].node_id.as_deref(), Some("p-3"));
    assert_eq!(chunks[2].source_path, "");
    let moved = chunks[2].clone().with_source_path("OEBPS/ch.xhtml".to_string());
    assert_eq!(moved.source_path, "OEBPS/ch.xhtml");
    assert_eq!(moved.text, "Body");
    let texts: Vec<String> = chunks.iter().map(|c| c.text.clone()).collect();
    assert_eq!(texts, vec!["Title", "Item", "Body"]);
    assert_eq!(extract_and_flatten_text(raw), "TitleItemBody");
}

#[test]
fn blank_translation_leaves_bilingual_block_alone() {
    assert_eq!(render_bilingual_node("<p>a</p>", "  "), "<p>a</p>");
    assert_eq!(
        render_bilingual_node("<p>a</p>", "乙"),
        "<p>a</p><p class=\"translation\">乙</p>"
    );
}

#[test]
fn translation_replaces_block_content_escaped() {
    assert_eq!(render_translation_node("<p class=\"x\">Hello</p>", "你 & 我"), "<p class=\"x\">你 &amp; 我</p>");
    assert_eq!(render_translation_node("plain", "<b>"), "&lt;b&gt;");
    assert_eq!(render_translation_node("<p>x</p>", " "), "");
    assert_eq!(escape_text("a<b>&c"), "a&lt;b&gt;&amp;c");
}

#[test]
fn chunks_are_rendered_into_their_blocks() {
    let html = "<html><body><p>One</p><div>skip</div><p>Two</p></body></html>";
    let chunks = vec![
        RenderedChunk {
            file_name: "ch.xhtml".to_string(),
            chunk_index: 0,
            original: "One".to_string(),
            translated: "一".to_string(),
        },
        RenderedChunk {
            file_name: "ch.xhtml".to_string(),
            chunk_index: 1,
            original: "Two".to_string(),
            translated: "二 <".to_string(),
        },
    ];
    let rendered = render_file_from_chunks(html, &chunks);
    assert_eq!(rendered, "<html><body><p>一</p><div>skip</div><p>二 &lt;</p></body></html>");
    assert_eq!(render_file_checked(html, &chunks), Some(rendered));
}

#[test]
fn repeated_text_is_replaced_at_its_position() {
    let html = "<section>Repeat me. Repeat me.</section>";
    let chunks = vec![
        RenderedChunk {
            file_name: "chapter.xhtml".to_string(),
            chunk_index: 0,
            original: "Repeat me.".to_string(),
            translated: "重复我".to_string(),
        },
        RenderedChunk {
            file_name: "chapter.xhtml".to_string(),
            chunk_index: 1,
            original: "Repeat me.".to_string(),
            translated: "再重复我".to_string(),
        },
    ];
    assert_eq!(
        render_file_from_chunks(html, &chunks),
        "<section>重复我 再重复我</section>"
    );
}

#[test]
fn text_chunk_values_compare_by_fields() {
    let a = TextChunk { source_path: "x".to_string(), node_id: None, text: "t".to_string() };
    assert_eq!(a.clone(), a);
}

#[test]
fn book_is_written_with_mimetype_first_and_rendered_html() {
    use_book_entries();
}

fn use_book_entries() {
    use_entries(&[
        ("mimetype", b"application/epub+zip".to_vec(), false),
        ("OEBPS/ch1.xhtml", b"<p>Hi</p>".to_vec(), true),
        ("OEBPS/cover.jpg", vec![1, 2, 3], false),
    ]);
}

fn use_entries(specs: &[(&str, Vec<u8>, bool)]) {
    let files: Vec<agent_book_translate::pipeline::parser::EpubEntry> = specs
        .iter()
        .map(|(name, data, is_text)| agent_book_translate::pipeline::parser::EpubEntry {
            name: name.to_string(),
            data: data.clone(),
            is_text: *is_text,
        })
        .collect();
    let rendered = vec![("OEBPS/ch1.xhtml".to_string(), "<p>你好</p>".to_string())];
    let entries = agent_book_translate::pipeline::parser::book_entries(&files, &rendered);
    let view: Vec<(String, Vec<u8>, bool)> =
        entries.into_iter().map(|e| (e.name, e.data, e.stored)).collect();
    assert_eq!(
        view,
        vec![
            ("mimetype".to_string(), b"application/epub+zip".to_vec(), true),
            ("OEBPS/ch1.xhtml".to_string(), "<p>你好</p>".as_bytes().to_vec(), false),
            ("OEBPS/cover.jpg".to_string(), vec![1, 2, 3], false),
        ]
    );
}

#[test]
fn duplicate_source_chunks_keep_stable_identity() {
    let chunks = extract_text_chunks("<div><p>Repeat me.</p><p>Repeat me.</p></div>");
    assert_eq!(
        chunks,
        vec![
            TextChunk {
                source_path: "".into(),
                node_id: Some("p-0".into()),
                text: "Repeat me.".into(),
            },
            TextChunk {
                source_path: "".into(),
                node_id: Some("p-1".into()),
                text: "Repeat me.".into(),
            },
        ]
    );
}
