//! The fixed parts of the CSS of exported HTML and PDF documents.

use crate::text::{occurs, occurs_at, replace_all, replaced, lemma_concat_leaves_none, lemma_replaced_leaves_none};
use vstd::prelude::*;
use vstd::string::StringExecFns;

verus! {

/// Font weights a theme can give headings.
#[derive(Clone, Copy, Debug, PartialEq, Eq, Structural)]
pub enum FontWeightDef {
    Thin,
    Light,
    Normal,
    Medium,
    Semibold,
    Bold,
    Extrabold,
    Black,
}

/// The CSS numeric weight of each named weight.
pub open spec fn weight_value(weight: FontWeightDef) -> u16 {
    match weight {
        FontWeightDef::Thin => 100,
        FontWeightDef::Light => 300,
        FontWeightDef::Normal => 400,
        FontWeightDef::Medium => 500,
        FontWeightDef::Semibold => 600,
        FontWeightDef::Bold => 700,
        FontWeightDef::Extrabold => 800,
        FontWeightDef::Black => 900,
    }
}

/// The CSS `font-weight` number of a named weight.
pub fn css_font_weight(weight: &FontWeightDef) -> (w: u16)
    ensures
        w == weight_value(*weight),
{
    match weight {
        FontWeightDef::Thin => 100,
        FontWeightDef::Light => 300,
        FontWeightDef::Normal => 400,
        FontWeightDef::Medium => 500,
        FontWeightDef::Semibold => 600,
        FontWeightDef::Bold => 700,
        FontWeightDef::Extrabold => 800,
        FontWeightDef::Black => 900,
    }
}

/// The body font stack, Tibetan faces before the generic fallback.
pub open spec fn body_font_stack_text() -> Seq<char> {
    "system-ui, -apple-system, BlinkMacSystemFont, \"Segoe UI\", \"Noto Serif Tibetan\", \"Noto Sans Tibetan\", \"Microsoft Himalaya\", Kailasa, \"BabelStone Tibetan\", sans-serif"@
}

/// The font stack of exported body text.
pub fn body_font_stack() -> (r: &'static str)
    ensures
        r@ == body_font_stack_text(),
{
    "system-ui, -apple-system, BlinkMacSystemFont, \"Segoe UI\", \"Noto Serif Tibetan\", \"Noto Sans Tibetan\", \"Microsoft Himalaya\", Kailasa, \"BabelStone Tibetan\", sans-serif"
}

/// The screen layout rule of the exported document column.
pub open spec fn document_layout_text() -> Seq<char> {
    ".vlt-document {\n  width: min(100% - 48px, 920px);\n  margin: 0 auto;\n  padding: 48px 0 72px;\n}"@
}

/// The layout rule of the document column on screen.
pub fn document_layout_css() -> (r: &'static str)
    ensures
        r@ == document_layout_text(),
{
    ".vlt-document {\n  width: min(100% - 48px, 920px);\n  margin: 0 auto;\n  padding: 48px 0 72px;\n}"
}

/// The layout rule of the document column on a printed page.
pub open spec fn print_layout_text() -> Seq<char> {
    ".vlt-document {\n  width: auto;\n  max-width: none;\n  margin: 0;\n  padding: 0;\n}"@
}

/// The page and print rules appended for PDF output.
pub open spec fn print_rules_text() -> Seq<char> {
    "\n\n@page {\n  size: A4;\n  margin: 15mm;\n}\n\n@media print {\n  html,\n  body {\n    background-color: var(--vlt-bg);\n    border: 0;\n    outline: 0;\n    box-shadow: none;\n    print-color-adjust: exact;\n    -webkit-print-color-adjust: exact;\n  }\n\n  .vlt-document {\n    width: auto;\n    max-width: none;\n    margin: 0;\n    padding: 0;\n    border: 0;\n    outline: 0;\n    box-shadow: none;\n  }\n\n  pre,\n  code {\n    white-space: pre-wrap;\n    overflow-wrap: anywhere;\n  }\n\n  img,\n  svg {\n    max-width: 100%;\n    height: auto;\n    break-inside: avoid;\n  }\n\n  table,\n  blockquote,\n  pre,\n  .vlt-math,\n  .vlt-mermaid {\n    break-inside: avoid;\n  }\n}\n"@
}

/// The CSS of a PDF export, from the theme's screen CSS `theme_css`: the
/// document column loses its screen width and margins, and the page size,
/// page margins and print rules are appended.
pub fn chromium_pdf_theme_css(theme_css: &str) -> (css: String)
    ensures
        css@ == replaced(theme_css@, document_layout_text(), print_layout_text()) + print_rules_text(),
{
    proof {
        reveal_strlit(".vlt-document {\n  width: min(100% - 48px, 920px);\n  margin: 0 auto;\n  padding: 48px 0 72px;\n}");
    }
    let mut css = replace_all(
        theme_css,
        document_layout_css(),
        ".vlt-document {\n  width: auto;\n  max-width: none;\n  margin: 0;\n  padding: 0;\n}",
    );
    css.append(
        "\n\n@page {\n  size: A4;\n  margin: 15mm;\n}\n\n@media print {\n  html,\n  body {\n    background-color: var(--vlt-bg);\n    border: 0;\n    outline: 0;\n    box-shadow: none;\n    print-color-adjust: exact;\n    -webkit-print-color-adjust: exact;\n  }\n\n  .vlt-document {\n    width: auto;\n    max-width: none;\n    margin: 0;\n    padding: 0;\n    border: 0;\n    outline: 0;\n    box-shadow: none;\n  }\n\n  pre,\n  code {\n    white-space: pre-wrap;\n    overflow-wrap: anywhere;\n  }\n\n  img,\n  svg {\n    max-width: 100%;\n    height: auto;\n    break-inside: avoid;\n  }\n\n  table,\n  blockquote,\n  pre,\n  .vlt-math,\n  .vlt-mermaid {\n    break-inside: avoid;\n  }\n}\n",
    );
    css
}

/// A PDF export's CSS ends with the page and print rules: it holds an
/// `@media print` block, whatever the theme's screen CSS.
pub proof fn lemma_pdf_css_has_print_rules(theme_css: Seq<char>)
    ensures
        ({
            let css = replaced(theme_css, document_layout_text(), print_layout_text()) + print_rules_text();
            let at = css.len() - print_rules_text().len() + 41;
            &&& css.subrange(css.len() - print_rules_text().len(), css.len() as int) == print_rules_text()
            &&& css.subrange(at, at + 12) == "@media print"@
        }),
{
    reveal_strlit("\n\n@page {\n  size: A4;\n  margin: 15mm;\n}\n\n@media print {\n  html,\n  body {\n    background-color: var(--vlt-bg);\n    border: 0;\n    outline: 0;\n    box-shadow: none;\n    print-color-adjust: exact;\n    -webkit-print-color-adjust: exact;\n  }\n\n  .vlt-document {\n    width: auto;\n    max-width: none;\n    margin: 0;\n    padding: 0;\n    border: 0;\n    outline: 0;\n    box-shadow: none;\n  }\n\n  pre,\n  code {\n    white-space: pre-wrap;\n    overflow-wrap: anywhere;\n  }\n\n  img,\n  svg {\n    max-width: 100%;\n    height: auto;\n    break-inside: avoid;\n  }\n\n  table,\n  blockquote,\n  pre,\n  .vlt-math,\n  .vlt-mermaid {\n    break-inside: avoid;\n  }\n}\n");
    reveal_strlit("@media print");
    let x = replaced(theme_css, document_layout_text(), print_layout_text());
    let p = print_rules_text();
    let css = x + p;
    assert(css.subrange(x.len() as int, css.len() as int) =~= p);
    assert(css.subrange(x.len() + 41int, x.len() + 53int) =~= p.subrange(41, 53));
    assert(p.subrange(41, 53) =~= "@media print"@);
}

/// A PDF export's CSS keeps no copy of the screen layout rule: every copy
/// in the theme's CSS is replaced, the replacement and the print rules
/// bring none, and none straddles where the print rules begin.
pub proof fn lemma_pdf_css_drops_screen_layout(theme_css: Seq<char>)
    ensures
        !occurs(
            replaced(theme_css, document_layout_text(), print_layout_text()) + print_rules_text(),
            document_layout_text(),
        ),
{
    reveal_strlit(".vlt-document {\n  width: min(100% - 48px, 920px);\n  margin: 0 auto;\n  padding: 48px 0 72px;\n}");
    reveal_strlit(".vlt-document {\n  width: auto;\n  max-width: none;\n  margin: 0;\n  padding: 0;\n}");
    reveal_strlit("\n\n@page {\n  size: A4;\n  margin: 15mm;\n}\n\n@media print {\n  html,\n  body {\n    background-color: var(--vlt-bg);\n    border: 0;\n    outline: 0;\n    box-shadow: none;\n    print-color-adjust: exact;\n    -webkit-print-color-adjust: exact;\n  }\n\n  .vlt-document {\n    width: auto;\n    max-width: none;\n    margin: 0;\n    padding: 0;\n    border: 0;\n    outline: 0;\n    box-shadow: none;\n  }\n\n  pre,\n  code {\n    white-space: pre-wrap;\n    overflow-wrap: anywhere;\n  }\n\n  img,\n  svg {\n    max-width: 100%;\n    height: auto;\n    break-inside: avoid;\n  }\n\n  table,\n  blockquote,\n  pre,\n  .vlt-math,\n  .vlt-mermaid {\n    break-inside: avoid;\n  }\n}\n");
    let l = document_layout_text();
    let r = print_layout_text();
    let p = print_rules_text();
    assert(l.len() == 93);
    assert(r.len() == 78);
    assert(l[0] == '.' && r[0] == '.');
    assert forall|k: int| 1 <= k < l.len() implies #[trigger] l[k] != l[0] by {}
    assert forall|k: int| 1 <= k < r.len() implies #[trigger] r[k] != l[0] by {}
    assert(r[25] != l[25]);
    lemma_replaced_leaves_none(theme_css, l, r, 25);
    assert(l[86] == '7');
    assert(!p.contains('7'));
    assert forall|i: int| !occurs_at(p, l, i) by {
        if occurs_at(p, l, i) {
            assert(p.subrange(i, i + l.len())[86] == p[i + 86]);
            assert(p.contains(p[i + 86]));
        }
    }
    assert forall|k: int| 1 <= k < l.len() && #[trigger] l[k] == '\n' implies k + 1 < l.len() && l[k + 1] != '\n' by {}
    assert(p[0] == '\n' && p[1] == '\n');
    lemma_concat_leaves_none(replaced(theme_css, l, r), p, l);
}

} // verus!
