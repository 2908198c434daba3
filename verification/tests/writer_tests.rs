use archdoc::writer::{byte_offset, DiffAwareWriter, SectionMarker, SymbolMarker, ARCHITECTURE_TEMPLATE, SYMBOL_TEMPLATE};

const B: &str = "<!-- ARCHDOC:BEGIN section=a -->";
const E: &str = "<!-- ARCHDOC:END section=a -->";

#[test]
fn finds_section_markers_in_order() {
    let w = DiffAwareWriter::new();
    let content = format!("x{}1{}y{}22{}z", B, E, B, E);
    let ms = w.find_section_markers(&content, "a").unwrap();
    assert_eq!(ms.len(), 2);
    assert_eq!(ms[0].name, "a");
    assert_eq!(ms[0].start_pos, 1);
    assert_eq!(ms[0].end_pos, 1 + B.len() + 1 + E.len());
    assert_eq!(ms[1].start_pos, ms[0].end_pos + 1);
    assert_eq!(ms[1].end_pos, ms[1].start_pos + B.len() + 2 + E.len());
}

#[test]
fn begin_without_end_is_not_a_section() {
    let w = DiffAwareWriter::new();
    let content = format!("{}dangling", B);
    assert!(w.find_section_markers(&content, "a").unwrap().is_empty());
    assert!(w.find_section_markers("no markers here", "a").unwrap().is_empty());
}

#[test]
fn other_section_names_are_not_matched() {
    let w = DiffAwareWriter::new();
    let content = format!("{}1{}", B, E);
    assert!(w.find_section_markers(&content, "b").unwrap().is_empty());
}

#[test]
fn replace_keeps_text_around_the_section() {
    let w = DiffAwareWriter::new();
    let content = format!("manual before\n{}old{}\nmanual after", B, E);
    let ms = w.find_section_markers(&content, "a").unwrap();
    let out = w.replace_section_content(&content, &ms[0], "new").unwrap();
    assert_eq!(out, format!("manual before\n{}new{}\nmanual after", B, E));
}

#[test]
fn replacing_twice_with_same_content_changes_nothing() {
    let w = DiffAwareWriter::new();
    let content = format!("head{}old{}tail", B, E);
    let ms = w.find_section_markers(&content, "a").unwrap();
    let once = w.replace_section_content(&content, &ms[0], "body").unwrap();
    let ms2 = w.find_section_markers(&once, "a").unwrap();
    let twice = w.replace_section_content(&once, &ms2[0], "body").unwrap();
    assert_eq!(once, twice);
}

#[test]
fn positions_are_byte_offsets() {
    let w = DiffAwareWriter::new();
    let content = format!("é{}x{}ü", B, E);
    let ms = w.find_section_markers(&content, "a").unwrap();
    assert_eq!(ms[0].start_pos, 2);
    assert_eq!(&content[ms[0].start_pos..ms[0].end_pos], format!("{}x{}", B, E));
    let out = w.replace_section_content(&content, &ms[0], "y").unwrap();
    assert_eq!(out, format!("é{}y{}ü", B, E));
}

#[test]
fn replace_with_hand_made_marker() {
    let w = DiffAwareWriter::new();
    let m = SectionMarker { name: "q".to_string(), start_pos: 2, end_pos: 4 };
    let out = w.replace_section_content("abcdef", &m, "X").unwrap();
    assert_eq!(out, "ab<!-- ARCHDOC:BEGIN section=q -->X<!-- ARCHDOC:END section=q -->ef");
}

#[test]
fn symbol_markers_are_found_and_replaced() {
    let w = DiffAwareWriter::new();
    let content = "intro\n<!-- ARCHDOC:BEGIN symbol id=mod.f -->\nold\n<!-- ARCHDOC:END symbol id=mod.f -->\nend";
    let ms = w.find_symbol_markers(content, "mod.f").unwrap();
    assert_eq!(ms.len(), 1);
    assert_eq!(ms[0].symbol_id, "mod.f");
    let out = w.replace_symbol_content(content, &ms[0], "\nfresh\n").unwrap();
    assert_eq!(
        out,
        "intro\n<!-- ARCHDOC:BEGIN symbol id=mod.f -->\nfresh\n<!-- ARCHDOC:END symbol id=mod.f -->\nend"
    );
    let m = SymbolMarker { symbol_id: "s".to_string(), start_pos: 0, end_pos: 0 };
    assert_eq!(
        w.replace_symbol_content("z", &m, "").unwrap(),
        "<!-- ARCHDOC:BEGIN symbol id=s --><!-- ARCHDOC:END symbol id=s -->z"
    );
}

#[test]
fn timestamp_line_is_rewritten() {
    let w = DiffAwareWriter::new();
    let out = w
        .update_timestamp_on("# T\n- **Updated:** old\n   - **Updated:** indented\nbody\n".to_string(), "2024-01-02")
        .unwrap();
    assert_eq!(out, "# T\n- **Updated:** 2024-01-02\n- **Updated:** 2024-01-02\nbody\n");
}

#[test]
fn timestamp_rewrite_keeps_line_breaks() {
    let w = DiffAwareWriter::new();
    assert_eq!(w.update_timestamp_on("a\r\nb".to_string(), "d").unwrap(), "a\r\nb");
    assert_eq!(w.update_timestamp_on("- **Updated:** x\r\ny\n".to_string(), "d").unwrap(), "- **Updated:** d\r\ny\n");
    assert_eq!(w.update_timestamp_on("x\n".to_string(), "d").unwrap(), "x\n");
    assert_eq!(w.update_timestamp_on("a\r".to_string(), "d").unwrap(), "a\r");
    assert_eq!(w.update_timestamp_on("".to_string(), "d").unwrap(), "");
    assert_eq!(w.update_timestamp_on("\n\nx".to_string(), "d").unwrap(), "\n\nx");
    assert_eq!(w.update_timestamp_on("no stamp".to_string(), "d").unwrap(), "no stamp");
}

#[test]
fn timestamp_today_is_a_date() {
    let w = DiffAwareWriter::new();
    let out = w.update_timestamp("- **Updated:** x".to_string()).unwrap();
    assert!(out.starts_with("- **Updated:** "));
    assert_eq!(out.len(), "- **Updated:** ".len() + 10);
}

#[test]
fn templates_by_kind() {
    let w = DiffAwareWriter::new();
    assert_eq!(w.create_template_file("ARCHITECTURE.md", "architecture").unwrap(), ARCHITECTURE_TEMPLATE);
    assert_eq!(w.create_template_file("f.md", "symbol").unwrap(), SYMBOL_TEMPLATE);
    assert_eq!(w.create_template_file("f.md", "other").unwrap(), "");
}

#[test]
fn architecture_template_has_its_sections() {
    let w = DiffAwareWriter::new();
    for name in ["rails", "layout", "modules_index", "critical_points"] {
        assert_eq!(w.find_section_markers(ARCHITECTURE_TEMPLATE, name).unwrap().len(), 1, "{}", name);
    }
    for name in ["file_imports", "symbols_index"] {
        assert_eq!(w.find_section_markers(SYMBOL_TEMPLATE, name).unwrap().len(), 1, "{}", name);
    }
    assert!(ARCHITECTURE_TEMPLATE.contains("- **Updated:** <AUTO_ON_CHANGE: YYYY-MM-DD>"));
}

#[test]
fn section_update_without_section_gives_nothing() {
    let w = DiffAwareWriter::new();
    assert_eq!(w.section_update_on("plain text", "gen", "rails", "2024-01-01").unwrap(), None);
    assert_eq!(w.symbol_update_on("plain text", "gen", "f", "2024-01-01").unwrap(), None);
}

#[test]
fn section_update_rewrites_section_and_date() {
    let w = DiffAwareWriter::new();
    let doc = "- **Updated:** old\n<!-- ARCHDOC:BEGIN section=rails -->\nold\n<!-- ARCHDOC:END section=rails -->\n";
    let out = w.section_update_on(doc, "\nnew\n", "rails", "2024-05-06").unwrap().unwrap();
    assert_eq!(
        out,
        "- **Updated:** 2024-05-06\n<!-- ARCHDOC:BEGIN section=rails -->\nnew\n<!-- ARCHDOC:END section=rails -->\n"
    );
}

#[test]
fn section_update_with_same_content_keeps_document() {
    let w = DiffAwareWriter::new();
    let doc = "- **Updated:** old\n<!-- ARCHDOC:BEGIN section=rails -->\nsame\n<!-- ARCHDOC:END section=rails -->\n";
    let out = w.section_update_on(doc, "\nsame\n", "rails", "2024-05-06").unwrap().unwrap();
    assert_eq!(out, doc);
    let out2 = w.section_update(doc, "\nsame\n", "rails").unwrap().unwrap();
    assert_eq!(out2, doc);
}

#[test]
fn symbol_update_rewrites_block() {
    let w = DiffAwareWriter::new();
    let doc = "<!-- ARCHDOC:BEGIN symbol id=f -->x<!-- ARCHDOC:END symbol id=f -->";
    let out = w.symbol_update_on(doc, "y", "f", "d").unwrap().unwrap();
    assert_eq!(out, "<!-- ARCHDOC:BEGIN symbol id=f -->y<!-- ARCHDOC:END symbol id=f -->");
    assert!(w.symbol_update(doc, "y", "f").unwrap().is_some());
}

#[test]
fn template_then_update_fills_section() {
    let w = DiffAwareWriter::new();
    let doc = w.create_template_file("ARCHITECTURE.md", "architecture").unwrap();
    let out = w.section_update_on(&doc, "\nLAYOUT\n", "layout", "2030-01-01").unwrap().unwrap();
    assert!(out.contains("<!-- ARCHDOC:BEGIN section=layout -->\nLAYOUT\n<!-- ARCHDOC:END section=layout -->"));
    assert!(out.contains("- **Updated:** 2030-01-01"));
    assert!(out.contains("## Key decisions (manual)"));
}

#[test]
fn second_update_with_same_content_changes_nothing() {
    let w = DiffAwareWriter::new();
    let doc = w.create_template_file("ARCHITECTURE.md", "architecture").unwrap();
    let once = w.section_update_on(&doc, "\n| a | b |\n", "modules_index", "2024-01-01").unwrap().unwrap();
    let twice = w.section_update_on(&once, "\n| a | b |\n", "modules_index", "2025-02-02").unwrap().unwrap();
    assert_eq!(once, twice);
    assert!(once.contains("- **Updated:** 2024-01-01"));
}

#[test]
fn generated_updated_line_is_redated_every_time() {
    let w = DiffAwareWriter::new();
    let doc = "<!-- ARCHDOC:BEGIN section=s -->old<!-- ARCHDOC:END section=s -->";
    let gen = "\n- **Updated:** x\n";
    let once = w.section_update_on(doc, gen, "s", "d1").unwrap().unwrap();
    let twice = w.section_update_on(&once, gen, "s", "d2").unwrap().unwrap();
    assert_ne!(once, twice);
}

#[test]
fn marker_positions_are_byte_offsets_past_wide_characters() {
    let w = DiffAwareWriter::new();
    let content = format!("é€😀{}x{}", B, E);
    let ms = w.find_section_markers(&content, "a").unwrap();
    assert_eq!(ms[0].start_pos, 2 + 3 + 4);
    assert!(content[ms[0].start_pos..].starts_with(B));
    assert_eq!(ms[0].end_pos, content.len());
    assert_eq!(byte_offset(&content, 3), Some(2 + 3 + 4));
    assert_eq!(byte_offset(&content, 0), Some(0));
    let out = w.replace_section_content(&content, &ms[0], "y").unwrap();
    assert_eq!(out, format!("é€😀{}y{}", B, E));
}

#[test]
fn section_update_keeps_text_outside_markers() {
    let w = DiffAwareWriter::new();
    let doc = "intro\r\n<!-- ARCHDOC:BEGIN section=rails -->old<!-- ARCHDOC:END section=rails -->\r\nend\n\n";
    let out = w.section_update_on(doc, "new", "rails", "2024-05-06").unwrap().unwrap();
    assert_eq!(
        out,
        "intro\r\n<!-- ARCHDOC:BEGIN section=rails -->new<!-- ARCHDOC:END section=rails -->\r\nend\n\n"
    );
}
