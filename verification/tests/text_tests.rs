use splitype_editor::styles::{
    body_font_stack, chromium_pdf_theme_css, css_font_weight, document_layout_css, FontWeightDef,
};
use splitype_editor::text::{
    escape_html, format_update_failed_message, format_update_message, replace_all, window_title_text,
};

#[test]
fn update_message_templates_replace_versions() {
    assert_eq!(
        format_update_message("Current {current}, latest {latest}.", "0.2.1", "0.2.2"),
        "Current 0.2.1, latest 0.2.2."
    );
}

#[test]
fn update_failure_message_names_error() {
    assert_eq!(
        format_update_failed_message("Check failed: {error}", "offline"),
        "Check failed: offline"
    );
    assert_eq!(format_update_failed_message("no placeholder", "x"), "no placeholder");
}

#[test]
fn replace_all_scans_from_the_front() {
    assert_eq!(replace_all("aaa", "aa", "b"), "ba");
    assert_eq!(replace_all("xyxyx", "xy", ""), "x");
    assert_eq!(replace_all("héllo wörld", "ö", "o"), "héllo world");
    assert_eq!(replace_all("", "a", "b"), "");
    assert_eq!(replace_all("ab", "abc", "z"), "ab");
    assert_eq!(replace_all("{a}{a}", "{a}", "1"), "11");
}

#[test]
fn escape_html_escapes_markup_characters() {
    assert_eq!(escape_html("a < b && c > \"d\" 'e'"), "a &lt; b &amp;&amp; c &gt; &quot;d&quot; &#39;e&#39;");
    assert_eq!(escape_html("plain ü text"), "plain ü text");
    assert_eq!(escape_html(""), "");
}

#[test]
fn font_weights() {
    assert_eq!(css_font_weight(&FontWeightDef::Thin), 100);
    assert_eq!(css_font_weight(&FontWeightDef::Light), 300);
    assert_eq!(css_font_weight(&FontWeightDef::Normal), 400);
    assert_eq!(css_font_weight(&FontWeightDef::Medium), 500);
    assert_eq!(css_font_weight(&FontWeightDef::Semibold), 600);
    assert_eq!(css_font_weight(&FontWeightDef::Bold), 700);
    assert_eq!(css_font_weight(&FontWeightDef::Extrabold), 800);
    assert_eq!(css_font_weight(&FontWeightDef::Black), 900);
}

#[test]
fn pdf_css_replaces_screen_layout_and_appends_print_rules() {
    let screen = format!("body {{ margin: 0; }}\n{}\np {{ margin: 0; }}\n", document_layout_css());
    let pdf = chromium_pdf_theme_css(&screen);
    assert!(!pdf.contains("width: min(100% - 48px, 920px);"));
    assert!(pdf.starts_with(
        "body { margin: 0; }\n.vlt-document {\n  width: auto;\n  max-width: none;\n  margin: 0;\n  padding: 0;\n}\np { margin: 0; }\n"
    ));
    assert!(pdf.contains("@page {\n  size: A4;\n  margin: 15mm;\n}"));
    assert!(pdf.ends_with("break-inside: avoid;\n  }\n}\n"));
    assert!(body_font_stack().starts_with("system-ui"));
    assert!(body_font_stack().ends_with("sans-serif"));
}

#[test]
fn window_title_marks_unsaved_documents() {
    assert_eq!(window_title_text("notes.md", true, "●"), "● notes.md");
    assert_eq!(window_title_text("notes.md", false, "●"), "notes.md");
    assert_eq!(window_title_text("notes.md", true, ""), "notes.md");
    assert_eq!(window_title_text("", true, "●"), "");
}

#[test]
fn escaping_is_piecewise_reversible_and_keeps_plain_text() {
    let a = "x < y & \"z\"";
    let b = "'w' > v";
    assert_eq!(escape_html(&format!("{a}{b}")), format!("{}{}", escape_html(a), escape_html(b)));
    assert_eq!(escape_html("plain text, no markup"), "plain text, no markup");
    let escaped = escape_html("<a href='x'>&amp;</a>");
    let back = escaped
        .replace("&lt;", "<")
        .replace("&gt;", ">")
        .replace("&quot;", "\"")
        .replace("&#39;", "'")
        .replace("&amp;", "&");
    assert_eq!(back, "<a href='x'>&amp;</a>");
}

#[test]
fn pdf_css_keeps_no_screen_layout_rule() {
    let screen = format!("body {{ color: red; }}\n{}\n{}", document_layout_css(), document_layout_css());
    let css = chromium_pdf_theme_css(&screen);
    assert!(!css.contains(document_layout_css()));
    assert!(css.contains("@media print"));
}
