use vcp_plugins::models::{Attachment, CollaborationMode, FileType, Group};

#[test]
fn file_types_by_extension() {
    assert_eq!(Attachment::detect_file_type("photo.JPG"), FileType::Image);
    assert_eq!(Attachment::detect_file_type("notes.md"), FileType::Document);
    assert_eq!(Attachment::detect_file_type("dir.v2/report.pdf"), FileType::Pdf);
    assert_eq!(Attachment::detect_file_type("song.flac"), FileType::Audio);
    assert_eq!(Attachment::detect_file_type("clip.webm"), FileType::Video);
    assert_eq!(Attachment::detect_file_type("archive.tar.gz"), FileType::Other);
    assert_eq!(Attachment::detect_file_type(".png"), FileType::Other);
    assert_eq!(Attachment::detect_file_type("png"), FileType::Other);
    assert_eq!(Attachment::detect_file_type("a.b/png"), FileType::Other);
}

#[test]
fn group_rules() {
    let mut g = Group {
        id: "g1".to_string(),
        name: "Team".to_string(),
        avatar: "a.png".to_string(),
        agent_ids: vec!["a".to_string(), "b".to_string()],
        collaboration_mode: CollaborationMode::Sequential,
        turn_count: 3,
        speaking_rules: String::new(),
        created_at: "2024-01-01T00:00:00Z".to_string(),
    };
    assert!(g.validate().is_ok());
    g.turn_count = 11;
    assert!(g.validate().is_err());
    g.turn_count = 10;
    g.agent_ids.pop();
    assert!(g.validate().is_err());
    g.agent_ids.push("c".to_string());
    g.name = "x".repeat(51);
    assert!(g.validate().is_err());
}
