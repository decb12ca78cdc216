//! Tests of the stylesheet tokenizer and rule parser, the style model,
//! the layout pass and the URL decomposition.

use web_browser_core::computed_style::{Color, DisplayType, FontSize};
use web_browser_core::constants::{CHAR_HEIGHT_WITH_PADDING, CONTENT_AREA_WIDTH};
use web_browser_core::css_token::{CssNumber, CssToken, CssTokenizer};
use web_browser_core::cssom::{CssParser, Selector};
use web_browser_core::dom_node::{ElementKind, NodeKind};
use web_browser_core::html_parser::HtmlParser;
use web_browser_core::html_token::HtmlTokenizer;
use web_browser_core::layout_object::LayoutObjectKind;
use web_browser_core::layout_view::LayoutView;
use web_browser_core::url::Url;

#[test]
fn test_stylesheet_one_rule() {
    let t = CssTokenizer::new("p { color: red; }".to_string());
    let mut parser = CssParser::new(t);
    let sheet = parser.parse_stylesheet();
    assert_eq!(sheet.rules.len(), 1);
    assert_eq!(
        sheet.rules[0].selector,
        Selector::TypeSelector("p".to_string())
    );
    assert_eq!(sheet.rules[0].declarations.len(), 1);
    assert_eq!(sheet.rules[0].declarations[0].property, "color".to_string());
    assert_eq!(
        sheet.rules[0].declarations[0].value,
        CssToken::Ident("red".to_string())
    );
}

#[test]
fn test_stylesheet_repeated_parse_is_deterministic() {
    let fixture = ".note { color: blue; display: inline; } #x { background-color: #FF0000; }";
    let t1 = CssTokenizer::new(fixture.to_string());
    let mut p1 = CssParser::new(t1);
    let first = p1.parse_stylesheet();
    let t2 = CssTokenizer::new(fixture.to_string());
    let mut p2 = CssParser::new(t2);
    let second = p2.parse_stylesheet();
    assert_eq!(first, second);
}

#[test]
fn test_css_tokenizer_selectors_and_strings() {
    let mut t = CssTokenizer::new("#id .c \"s\" @media x".to_string());
    assert_eq!(t.next(), Some(CssToken::HashToken("#id".to_string())));
    assert_eq!(t.next(), Some(CssToken::Delim('.')));
    assert_eq!(t.next(), Some(CssToken::Ident("c".to_string())));
    assert_eq!(t.next(), Some(CssToken::StringToken("s".to_string())));
    assert_eq!(t.next(), Some(CssToken::AtKeyword("media".to_string())));
    assert_eq!(t.next(), Some(CssToken::Ident("x".to_string())));
    assert_eq!(t.next(), None);
}

#[test]
fn test_css_tokenizer_number() {
    let mut t = CssTokenizer::new("10.25:".to_string());
    assert_eq!(
        t.next(),
        Some(CssToken::Number(CssNumber {
            int_part: 10,
            frac_part: 25,
            frac_len: 2,
        }))
    );
    assert_eq!(t.next(), Some(CssToken::Colon));
    assert_eq!(t.next(), None);
}

#[test]
fn test_at_rule_is_discarded() {
    // The at-rule is parsed and dropped. Recovery is shallow: the brace
    // closing the at-rule block is consumed as a failed selector together
    // with the following token, so the trailing rule keeps its
    // declarations under the unknown selector.
    let t = CssTokenizer::new("@media screen { p { color: red; } } a { color: blue; }".to_string());
    let mut parser = CssParser::new(t);
    let sheet = parser.parse_stylesheet();
    assert_eq!(sheet.rules.len(), 1);
    assert_eq!(sheet.rules[0].selector, Selector::UnknownSelector);
    assert_eq!(sheet.rules[0].declarations.len(), 1);
    assert_eq!(sheet.rules[0].declarations[0].property, "color".to_string());
    assert_eq!(
        sheet.rules[0].declarations[0].value,
        CssToken::Ident("blue".to_string())
    );
}

#[test]
fn test_declaration_without_colon_is_dropped() {
    let t = CssTokenizer::new("p { color red; display: none; }".to_string());
    let mut parser = CssParser::new(t);
    let sheet = parser.parse_stylesheet();
    assert_eq!(sheet.rules.len(), 1);
    assert_eq!(sheet.rules[0].declarations.len(), 1);
    assert_eq!(
        sheet.rules[0].declarations[0].property,
        "display".to_string()
    );
}

#[test]
fn test_color_from_name_and_code() {
    let red = Color::from_name("red").expect("red is a known name");
    assert_eq!(red.code(), "#FF0000".to_string());
    assert_eq!(red.name(), Some("red".to_string()));
    assert!(Color::from_name("blurple").is_err());
    let coded = Color::from_code("#123ABC").expect("a well-formed code");
    assert_eq!(coded.code(), "#123ABC".to_string());
    assert_eq!(coded.name(), None);
    assert!(Color::from_code("#12").is_err());
    assert!(Color::from_code("123ABCD").is_err());
}

#[test]
fn test_display_type_keywords() {
    assert_eq!(DisplayType::from_str("block"), Some(DisplayType::Block));
    assert_eq!(DisplayType::from_str("inline"), Some(DisplayType::Inline));
    assert_eq!(DisplayType::from_str("none"), Some(DisplayType::DisplayNone));
    assert_eq!(DisplayType::from_str("flex"), None);
}

fn layout_for(html: &str, css: &str) -> LayoutView {
    let t = HtmlTokenizer::new(html.to_string());
    let mut parser = HtmlParser::new(t);
    let window = parser.construct_tree();
    let ct = CssTokenizer::new(css.to_string());
    let mut cparser = CssParser::new(ct);
    let sheet = cparser.parse_stylesheet();
    LayoutView::new(&window, &sheet)
}

#[test]
fn test_display_none_sibling_still_reachable() {
    let view = layout_for(
        "<html><head></head><body><p class=\"hide\">x</p><a>y</a></body></html>",
        ".hide { display: none; }",
    );
    let root = view.root().expect("body box");
    let body = view.get_object(root);
    assert_eq!(body.node_kind(), NodeKind::Element(
        web_browser_core::dom_node::Element::new("body", Vec::new()),
    ));
    // The hidden paragraph contributes no box: the body's first child box
    // renders the anchor element that follows it.
    let first = body.first_child().expect("the anchor box");
    let a_box = view.get_object(first);
    match a_box.node_kind() {
        NodeKind::Element(e) => assert_eq!(e.kind(), ElementKind::A),
        other => panic!("expected an element box, got {:?}", other),
    }
    assert_eq!(a_box.kind(), LayoutObjectKind::Inline);
}

#[test]
fn test_text_wraps_to_two_lines() {
    // 80 characters at the base size are 640 pixels wide: just over one
    // content area (590), so the box wraps to exactly two lines.
    let mut text = String::new();
    for _ in 0..80 {
        text.push('a');
    }
    let html = format!("<html><head></head><body>{}</body></html>", text);
    let view = layout_for(&html, "");
    let root = view.root().expect("body box");
    let body = view.get_object(root);
    let text_id = body.first_child().expect("text box");
    let text_box = view.get_object(text_id);
    assert_eq!(text_box.kind(), LayoutObjectKind::Text);
    assert_eq!(text_box.size().width(), CONTENT_AREA_WIDTH);
    assert_eq!(text_box.size().height(), 2 * CHAR_HEIGHT_WITH_PADDING);
}

#[test]
fn test_heading_font_size_scales_text() {
    let view = layout_for("<html><head></head><body><h1>hi</h1></body></html>", "");
    let root = view.root().expect("body box");
    let body = view.get_object(root);
    let h1_id = body.first_child().expect("heading box");
    let h1_box = view.get_object(h1_id);
    assert_eq!(h1_box.style().font_size(), FontSize::XXLarge);
    let text_id = h1_box.first_child().expect("text box");
    let text_box = view.get_object(text_id);
    // Two characters at triple scale: 2 * 8 * 3 wide, one line high.
    assert_eq!(text_box.size().width(), 48);
    assert_eq!(text_box.size().height(), 3 * CHAR_HEIGHT_WITH_PADDING);
}

#[test]
fn test_block_boxes_stack_vertically() {
    let view = layout_for(
        "<html><head></head><body><p>a</p><p>b</p></body></html>",
        "",
    );
    let root = view.root().expect("body box");
    let body = view.get_object(root);
    assert_eq!(body.size().width(), CONTENT_AREA_WIDTH);
    let first = body.first_child().expect("first paragraph");
    let second = view.get_object(first).next_sibling().expect("second paragraph");
    let first_box = view.get_object(first);
    let second_box = view.get_object(second);
    assert_eq!(first_box.point().y(), 0);
    assert_eq!(second_box.point().y(), first_box.size().height());
    assert_eq!(first_box.point().x(), second_box.point().x());
}

#[test]
fn test_cascaded_color_applies() {
    let view = layout_for(
        "<html><head></head><body><p id=\"x\">t</p></body></html>",
        "#x { color: red; background-color: #00FF00; }",
    );
    let root = view.root().expect("body box");
    let body = view.get_object(root);
    let p_id = body.first_child().expect("paragraph box");
    let p_box = view.get_object(p_id);
    assert_eq!(p_box.style().color().code(), "#FF0000".to_string());
    assert_eq!(
        p_box.style().background_color().code(),
        "#00FF00".to_string()
    );
}

#[test]
fn test_url_parse_full() {
    let mut url = Url::new("http://example.com:8888/index.html?a=1".to_string());
    let parsed = url.parse().expect("an accepted scheme");
    assert_eq!(parsed.host(), "example.com".to_string());
    assert_eq!(parsed.port(), "8888".to_string());
    assert_eq!(parsed.path(), "index.html".to_string());
    assert_eq!(parsed.searchpart(), "a=1".to_string());
}

#[test]
fn test_url_parse_defaults() {
    let mut url = Url::new("http://example.com".to_string());
    let parsed = url.parse().expect("an accepted scheme");
    assert_eq!(parsed.host(), "example.com".to_string());
    assert_eq!(parsed.port(), "80".to_string());
    assert_eq!(parsed.path(), "".to_string());
    assert_eq!(parsed.searchpart(), "".to_string());
}

#[test]
fn test_url_rejects_other_schemes() {
    let mut url = Url::new("ftp://example.com".to_string());
    let r = url.parse();
    assert_eq!(r, Err("Only HTTP scheme is supported.".to_string()));
}
