use typst_docx::Exporter;

#[test]
fn warnings_are_deduplicated_in_order() {
    let mut exporter = Exporter::new();
    exporter.warn("b".to_string());
    exporter.warn_str("a");
    exporter.warn("b".to_string());
    exporter.warn_all(vec!["c".to_string(), "a".to_string(), "c".to_string()]);
    assert_eq!(exporter.warnings(), &vec!["b".to_string(), "a".to_string(), "c".to_string()]);
}

#[test]
fn ids_and_z_order_increase() {
    let mut exporter = Exporter::new();
    assert_eq!(exporter.docpr_id(), 0);
    assert_eq!(exporter.rel_height(), 251658240);
    assert_eq!(exporter.next_docpr(), 1);
    assert_eq!(exporter.next_docpr(), 2);
    assert_eq!(exporter.next_rel_height(), 251658241);
    assert_eq!(exporter.docpr_id(), 2);
    assert_eq!(exporter.rel_height(), 251658241);
}
