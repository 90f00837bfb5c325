use foundation_ai::chat_storage::ContentBlock as StoredBlock;
use foundation_ai::user_turn::{user_turn, CameraFrame, PendingAttachment};

fn attachment(iri: &str, mime: &str, has_summary: bool) -> PendingAttachment {
    PendingAttachment {
        file_iri: iri.to_string(),
        file_name: format!("{}.bin", iri),
        mime_type: mime.to_string(),
        data: "QUJD".to_string(),
        token_estimate: 7,
        has_summary,
    }
}

#[test]
fn text_only_turn_has_no_blocks() {
    let t = user_turn("oi", None, 0, None);
    assert!(t.blocks.is_none());
    assert!(t.binaries.is_empty() && t.files_needing_summary.is_empty() && t.camera_files.is_empty());
}

#[test]
fn frames_then_files_then_text() {
    let frames = vec![
        CameraFrame { file_path: "/tmp/f1.jpg".to_string(), token_estimate: 100 },
        CameraFrame { file_path: "/tmp/f2.jpg".to_string(), token_estimate: 200 },
    ];
    let atts = vec![
        attachment("foundation:File_a", "image/png", true),
        attachment("foundation:File_b", "application/zip", false),
        attachment("foundation:File_c", "text/plain", false),
    ];
    let t = user_turn("veja", Some(frames), 1000, Some(atts));
    let bs = t.blocks.unwrap();
    assert_eq!(bs.len(), 6);
    assert!(matches!(&bs[0], StoredBlock::CameraRef { file_path, token_estimate: 100 } if file_path == "/tmp/f1.jpg"));
    assert!(matches!(&bs[2], StoredBlock::FileRef { file_iri, ai_summary: None, .. } if file_iri == "foundation:File_a"));
    assert!(matches!(&bs[5], StoredBlock::Text { text } if text == "veja"));
    assert_eq!(
        t.camera_files,
        vec![
            ("foundation:File_1000".to_string(), "camera_frame_1.jpg".to_string(), "/tmp/f1.jpg".to_string()),
            ("foundation:File_1001".to_string(), "camera_frame_2.jpg".to_string(), "/tmp/f2.jpg".to_string()),
        ]
    );
    assert_eq!(
        t.files_needing_summary,
        vec![
            ("foundation:File_1000".to_string(), "camera_frame_1.jpg".to_string()),
            ("foundation:File_1001".to_string(), "camera_frame_2.jpg".to_string()),
            ("foundation:File_b".to_string(), "foundation:File_b.bin".to_string()),
            ("foundation:File_c".to_string(), "foundation:File_c.bin".to_string()),
        ]
    );
    assert_eq!(
        t.binaries,
        vec![("image/png".to_string(), "QUJD".to_string()), ("text/plain".to_string(), "QUJD".to_string())]
    );
    assert_eq!(t.existing_file_iris, vec!["foundation:File_a", "foundation:File_b", "foundation:File_c"]);
}

#[test]
fn empty_text_with_attachment_has_no_text_block() {
    let t = user_turn("", None, 0, Some(vec![attachment("x", "application/pdf", true)]));
    let bs = t.blocks.unwrap();
    assert_eq!(bs.len(), 1);
    assert_eq!(t.binaries.len(), 1);
}
