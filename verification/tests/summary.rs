use rari_doc::summary::summary_line;

#[test]
fn the_summary_line_skips_blanks_templates_and_headings() {
    let content = "\n  \r\n{{CSSRef}}\n## Syntax\nThe **`color`** property sets the color.\r\nMore.\n";
    assert_eq!(
        summary_line(content).as_deref(),
        Some("The **`color`** property sets the color.")
    );
    assert_eq!(summary_line("{{a}}\n\n## b\n"), None);
    assert_eq!(summary_line("{{not closed\n").as_deref(), Some("{{not closed"));
    assert_eq!(summary_line("# Title").as_deref(), Some("# Title"));
    assert_eq!(summary_line(""), None);
}
