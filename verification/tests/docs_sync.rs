use archlens::docs::{DocContent, DocFileType, LocalDocMetadata, LocalDocsProcessor};
use archlens::knowledge::{KnowledgeSyncer, LocalDocsConfig};

fn config(enabled: bool, watch: bool) -> LocalDocsConfig {
    LocalDocsConfig {
        enabled,
        watch_for_changes: watch,
        cache_dir: None,
        pdf_paths: vec!["a.pdf".to_string()],
        markdown_paths: vec!["b.md".to_string()],
        text_paths: vec!["c.txt".to_string()],
    }
}

fn doc(path: &str, kind: DocFileType, content: &str) -> LocalDocMetadata {
    LocalDocMetadata {
        file_path: path.to_string(),
        file_type: kind,
        last_modified: "2024-01-01".to_string(),
        processed_content: content.to_string(),
    }
}

#[test]
fn should_sync_when_a_source_is_newer_than_last_sync() {
    let syncer = KnowledgeSyncer::new(Some(config(true, true)), "C#".to_string()).unwrap();
    let meta = KnowledgeSyncer::build_metadata(vec![doc("a.md", DocFileType::Markdown, "x")], 100);
    // One source file modified after the recorded sync time.
    assert!(syncer.should_sync(Some(&meta), &vec![Some(101)]));
    // Every source at or before the sync time: no sync.
    assert!(!syncer.should_sync(Some(&meta), &vec![Some(100)]));
    assert!(!syncer.should_sync(Some(&meta), &vec![Some(40)]));
    // A vanished source file does not force a sync.
    assert!(!syncer.should_sync(Some(&meta), &vec![None]));
}

#[test]
fn should_sync_edge_cases() {
    let meta = KnowledgeSyncer::build_metadata(vec![], 100);
    // No readable record: sync.
    let watching = KnowledgeSyncer::new(Some(config(true, true)), "C#".to_string()).unwrap();
    assert!(watching.should_sync(None, &vec![]));
    // Not watching for changes: a record is enough.
    let lazy = KnowledgeSyncer::new(Some(config(true, false)), "C#".to_string()).unwrap();
    assert!(!lazy.should_sync(Some(&meta), &vec![]));
    // Disabled or unconfigured: never.
    let disabled = KnowledgeSyncer::new(Some(config(false, true)), "C#".to_string()).unwrap();
    assert!(!disabled.should_sync(None, &vec![]));
    let unconfigured = KnowledgeSyncer::new(None, "C#".to_string()).unwrap();
    assert!(!unconfigured.should_sync(None, &vec![]));
}

#[test]
fn sync_plan_lists_all_configured_paths_in_order() {
    let syncer = KnowledgeSyncer::new(Some(config(true, true)), "C#".to_string()).unwrap();
    let plan = syncer.sync_plan().unwrap();
    assert_eq!(plan, vec!["a.pdf", "b.md", "c.txt"]);
    let disabled = KnowledgeSyncer::new(Some(config(false, true)), "C#".to_string()).unwrap();
    assert!(disabled.sync_plan().is_none());
}

#[test]
fn cached_knowledge_is_rendered_with_sync_time_and_documents() {
    let syncer = KnowledgeSyncer::new(Some(config(true, true)), "C#".to_string()).unwrap();
    let meta = KnowledgeSyncer::build_metadata(
        vec![doc("docs/guide.md", DocFileType::Markdown, "Body text.")],
        0,
    );
    let text = syncer.load_cached_knowledge(Some(&meta)).unwrap();
    assert!(text.starts_with(
        "# Local Documentation (C#)\n\nLast processed: 1970-01-01 00:00:00 UTC\nTotal documents: 1\n\n"
    ));
    assert!(text.contains("\n---\n\n# docs/guide.md\n\nType: Markdown\nLast Modified: 2024-01-01\n\nBody text.\n\n"));
}

#[test]
fn cached_knowledge_absent_without_documents_or_record() {
    let syncer = KnowledgeSyncer::new(Some(config(true, true)), "C#".to_string()).unwrap();
    assert!(syncer.load_cached_knowledge(None).is_none());
    let empty = KnowledgeSyncer::build_metadata(vec![], 0);
    assert!(syncer.load_cached_knowledge(Some(&empty)).is_none());
    let disabled = KnowledgeSyncer::new(Some(config(false, true)), "C#".to_string()).unwrap();
    let meta = KnowledgeSyncer::build_metadata(vec![doc("a.md", DocFileType::Markdown, "x")], 0);
    assert!(disabled.load_cached_knowledge(Some(&meta)).is_none());
}

#[test]
fn format_for_llm_numbers_documents_from_one() {
    let docs = vec![
        doc("docs/alpha.md", DocFileType::Markdown, "First."),
        doc("beta.txt", DocFileType::Text, "Second."),
    ];
    let text = LocalDocsProcessor::format_for_llm(&docs);
    assert!(text.starts_with("# Local Technical Documentation\n\n"));
    assert!(text.contains("\n---\n\n## Document 1 - alpha.md\n\n**Source:** docs/alpha.md\n**Type:** Markdown\n"));
    assert!(text.contains("\n---\n\n## Document 2 - beta.txt\n\n"));
    assert!(text.contains("**Content:**\n\nFirst.\n\n"));
}

#[test]
fn process_file_reads_markdown_and_text_bytes() {
    let m = LocalDocsProcessor::process_file(
        "notes/readme.md",
        DocContent::Raw(b"# Title\nbody".to_vec()),
        "t1".to_string(),
    )
    .unwrap();
    assert_eq!(m.file_type, DocFileType::Markdown);
    assert_eq!(m.processed_content, "# Title\nbody");
    assert_eq!(m.file_path, "notes/readme.md");
    assert_eq!(m.last_modified, "t1");

    // Invalid UTF-8 in a text file is an error, not a record.
    assert!(
        LocalDocsProcessor::process_file(
            "x.txt",
            DocContent::Raw(vec![0xff, 0xfe]),
            "t".to_string()
        )
        .is_err()
    );
    // An unsupported extension is rejected up front.
    let e = LocalDocsProcessor::process_file("x.bin", DocContent::Raw(vec![]), "t".to_string())
        .unwrap_err();
    assert_eq!(e, "Unsupported file type: bin");
}

#[test]
fn process_file_takes_pdf_text_from_the_collaborator() {
    // What the PDF reader extracted becomes the record's content.
    let m = LocalDocsProcessor::process_file(
        "spec/design.pdf",
        DocContent::PdfText(Ok("Hello world".to_string())),
        "t2".to_string(),
    )
    .unwrap();
    assert_eq!(m.file_type, DocFileType::Pdf);
    assert_eq!(m.processed_content, "Hello world");

    // The reader's failure is this file's failure.
    let e = LocalDocsProcessor::process_file(
        "spec/design.pdf",
        DocContent::PdfText(Err("unreadable stream".to_string())),
        "t2".to_string(),
    )
    .unwrap_err();
    assert_eq!(e, "unreadable stream");

    // Raw bytes cannot stand in for a PDF's text, nor the reverse.
    assert!(
        LocalDocsProcessor::process_file(
            "spec/design.pdf",
            DocContent::Raw(b"%PDF-1.4".to_vec()),
            "t2".to_string()
        )
        .is_err()
    );
    assert!(
        LocalDocsProcessor::process_file(
            "readme.md",
            DocContent::PdfText(Ok("text".to_string())),
            "t2".to_string()
        )
        .is_err()
    );
}
