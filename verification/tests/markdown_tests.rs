use shuaforge_core::markdown::{
    build_remote_formula_url, escape_svg_text, latex_to_readable_text,
    latex_to_readable_text_with_mode, looks_like_svg, parse_inline_formula_segments,
    parse_latex_block, parse_markdown_table, FormulaRenderCache, FormulaRenderSettings,
    FormulaRenderState, InlineSegment, RemoteFormulaCache, RemoteFormulaCacheKey,
    RemoteFormulaState, RemoteLookup, RenderedFormula, RenderedFormulaImage,
    CODECOGS_SVG_URL_TEMPLATE,
};

use std::cell::Cell;

/// A renderer that counts its calls.
fn counting_renderer(calls: &Cell<usize>) -> impl Fn(&str, bool) -> Option<RenderedFormula> + '_ {
    move |latex: &str, display: bool| {
        calls.set(calls.get() + 1);
        Some(RenderedFormula {
            image: None,
            readable_text: format!("{}:{latex}", if display { "display" } else { "inline" }),
        })
    }
}

#[test]
fn parses_bracketed_latex_block() {
    let lines = [
        r"\[ \text{行百分比} = \frac{\text{行内单元格频数}}{\text{该行合计}} \times 100\% \]",
        "下一段",
    ];

    let (formula, consumed) = parse_latex_block(&lines).expect("latex block");

    assert_eq!(consumed, 1);
    assert!(formula.contains(r"\frac"));
}

#[test]
fn latex_fraction_is_rendered_as_readable_text() {
    let text = latex_to_readable_text(
        r"\text{行百分比} = \frac{\text{行内单元格频数}}{\text{该行合计}} \times 100\%",
    );

    assert!(text.contains("行百分比"));
    assert!(text.contains("行内单元格频数"));
    assert!(text.contains("该行合计"));
    assert!(text.contains('×'));
    assert!(text.contains("100%"));
}

#[test]
fn fraction_fallback_uses_plain_single_line_text() {
    let text = latex_to_readable_text(r"\frac{a}{b} + \frac{x_i}{n}");

    assert!(text.contains("(a)/(b)"));
    assert!(text.contains("(x_i)/(n)"));
    assert!(!text.contains('─'));
}

#[test]
fn nested_fraction_fallback_stays_single_line() {
    let text = latex_to_readable_text(r"\frac{\frac{a}{b}}{c + d}");

    assert_eq!(text, "((a)/(b))/(c + d)");
    assert!(!text.contains('\n'));
}

#[test]
fn display_fraction_no_longer_uses_multiline_bar() {
    let text = latex_to_readable_text_with_mode(r"\frac{\text{行内单元格频数}}{\text{该行合计}}", true);

    assert!(text.contains("行内单元格频数"));
    assert!(text.contains("该行合计"));
    assert!(!text.contains('─'));
    assert_eq!(text.lines().count(), 1);
}

#[test]
fn formula_svg_text_is_escaped() {
    assert_eq!(escape_svg_text("a < b && c > d"), "a &lt; b &amp;&amp; c &gt; d");
}

#[test]
fn combining_hat_is_preserved_for_font_rendering() {
    let text = latex_to_readable_text("p̂ = 0.5");

    assert_eq!(text, "p̂ = 0.5");
    assert!(text.contains('\u{0302}'));
}

#[test]
fn latex_hat_is_converted_to_combining_hat() {
    assert_eq!(latex_to_readable_text(r"\hat{p}"), "p̂");
    assert_eq!(latex_to_readable_text(r"\widehat{AB}"), "AB̂");
}

#[test]
fn remote_formula_url_replaces_latex_placeholder() {
    let url = build_remote_formula_url(CODECOGS_SVG_URL_TEMPLATE, r"H_0 \le \mu_0", false)
        .expect("remote url");

    assert_eq!(url, "https://latex.codecogs.com/svg.image?H_0%20%5Cle%20%5Cmu_0");
}

#[test]
fn remote_formula_url_adds_latex_query_when_no_placeholder() {
    let url = build_remote_formula_url("https://example.test/render", r"x^2", false)
        .expect("remote url");

    assert_eq!(url, "https://example.test/render?latex=x%5E2");
}

#[test]
fn display_remote_formula_url_adds_displaystyle() {
    let url = build_remote_formula_url("https://example.test/render?eq={latex}", r"\frac{a}{b}", true)
        .expect("remote url");

    assert_eq!(url, "https://example.test/render?eq=%5Cdisplaystyle%20%5Cfrac%7Ba%7D%7Bb%7D");
}

#[test]
fn remote_formula_url_extends_an_existing_query() {
    assert_eq!(
        build_remote_formula_url(" https://x.test/r?a=1 ", "y", false).as_deref(),
        Some("https://x.test/r?a=1&latex=y")
    );
}

#[test]
fn svg_detection_accepts_xml_preamble() {
    assert!(looks_like_svg(r#"<svg xmlns="http://www.w3.org/2000/svg"></svg>"#));
    assert!(looks_like_svg(r#"<?xml version="1.0"?><svg xmlns="http://www.w3.org/2000/svg"></svg>"#));
    assert!(!looks_like_svg("not svg"));
}

#[test]
fn common_inline_math_commands_are_readable_fallback() {
    let text = latex_to_readable_text(r"\sum (x_i - \bar{x})^2");

    assert!(text.contains('∑'));
    assert!(text.contains("x̅"));
    assert!(text.contains("x_i"));
}

#[test]
fn parses_parenthesized_inline_latex_segments() {
    let segments = parse_inline_formula_segments(r"离差平方和（\(\sum (x_i - \bar{x})^2\)）通常大于零");

    assert_eq!(
        segments,
        vec![
            InlineSegment::Text("离差平方和（".into()),
            InlineSegment::Formula { latex: r"\sum (x_i - \bar{x})^2".into(), display: false },
            InlineSegment::Text("）通常大于零".into()),
        ]
    );
}

#[test]
fn parses_inline_and_display_latex_in_one_line() {
    let segments = parse_inline_formula_segments(r"A $x_i^2$ B \[\frac{a}{b}\] C");

    assert_eq!(
        segments,
        vec![
            InlineSegment::Text("A ".into()),
            InlineSegment::Formula { latex: "x_i^2".into(), display: false },
            InlineSegment::Text(" B ".into()),
            InlineSegment::Formula { latex: r"\frac{a}{b}".into(), display: true },
            InlineSegment::Text(" C".into()),
        ]
    );
}

#[test]
fn ignores_escaped_and_non_math_dollar_text() {
    let segments = parse_inline_formula_segments(r"价格是 \$5，变量是 $x_i$，普通 $abc$ 不处理");

    assert_eq!(
        segments,
        vec![
            InlineSegment::Text(r"价格是 \$5，变量是 ".into()),
            InlineSegment::Formula { latex: "x_i".into(), display: false },
            InlineSegment::Text("，普通 $abc$ 不处理".into()),
        ]
    );
}

#[test]
fn formula_cache_reuses_same_renderer_output() {
    let mut cache = FormulaRenderCache::new();
    let calls = Cell::new(0usize);
    let renderer = counting_renderer(&calls);

    let first = cache.render_with(&renderer, r"\sum x_i", false);
    let second = cache.render_with(&renderer, r" \sum x_i ", false);
    let third = cache.render_with(&renderer, r"\sum x_i", true);

    assert_eq!(first, second);
    assert_ne!(first, third);
    assert_eq!(calls.get(), 2);
}

#[test]
fn formula_cache_falls_back_to_trimmed_source() {
    let mut cache = FormulaRenderCache::new();
    let nothing = |_: &str, _: bool| -> Option<RenderedFormula> { None };
    let rendered = cache.render_with(&nothing, "  x^2 ", false);
    assert_eq!(rendered, RenderedFormula { readable_text: "x^2".into(), image: None });
    let calls = Cell::new(0usize);
    let again = cache.render_with(&counting_renderer(&calls), "x^2", false);
    assert_eq!(again, rendered);
    assert_eq!(calls.get(), 0);
}

#[test]
fn remote_formula_cache_can_store_ready_image() {
    let mut cache = RemoteFormulaCache::new();
    let key = RemoteFormulaCacheKey {
        latex: r"x^2".to_owned(),
        display: false,
        url_template: CODECOGS_SVG_URL_TEMPLATE.to_owned(),
    };
    let image = RenderedFormulaImage { size: [1, 1], rgba: vec![255, 255, 255, 255] };

    cache.insert(key.clone(), RemoteFormulaState::Ready(Some(image.clone())));

    let stored = cache.get(&key);
    assert!(matches!(stored, Some(RemoteFormulaState::Ready(Some(value))) if value == image));
    cache.clear();
    assert!(cache.is_empty());
}

#[test]
fn disabled_remote_rendering_starts_no_work() {
    let mut state = FormulaRenderState::new();
    state.apply_formula_render_settings(FormulaRenderSettings::default());
    assert!(matches!(state.remote_formula_image("x^2", false), RemoteLookup::Disabled));
    assert!(state.remote.is_empty());
}

#[test]
fn enabled_remote_rendering_is_started_once_then_pending() {
    let mut state = FormulaRenderState::new();
    let mut settings = FormulaRenderSettings::default();
    settings.enable_remote = true;
    state.apply_formula_render_settings(settings);
    assert!(matches!(state.remote_formula_image("x^2", false), RemoteLookup::Started(_)));
    assert!(matches!(state.remote_formula_image("x^2", false), RemoteLookup::Pending));
    state.clear_formula_render_caches();
    assert!(state.remote.is_empty());
}

#[test]
fn markdown_table_rows_are_split_into_cells() {
    let lines = ["| a | b |", "|---|---|", "| 1 | 2 |", "text"];
    let (rows, consumed) = parse_markdown_table(&lines).expect("table");
    assert_eq!(consumed, 3);
    assert_eq!(rows, vec![vec!["a".to_string(), "b".to_string()], vec!["1".to_string(), "2".to_string()]]);
}
