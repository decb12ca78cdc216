//! Tests of the markup tokenizer and the document tree constructor.

use web_browser_core::attribute::Attribute;
use web_browser_core::dom_node::{ElementKind, NodeKind};
use web_browser_core::html_parser::HtmlParser;
use web_browser_core::html_token::{HtmlToken, HtmlTokenizer};

#[test]
fn token_test_empty() {
    let html = "".to_string();
    let mut tokenizer = HtmlTokenizer::new(html);
    assert!(tokenizer.next().is_none());
}

#[test]
fn test_start_and_end_tag() {
    let html = "<body></body>".to_string();
    let mut tokenizer = HtmlTokenizer::new(html);
    let expected = [
        HtmlToken::StartTag {
            tag: "body".to_string(),
            self_closing: false,
            attributes: Vec::new(),
        },
        HtmlToken::EndTag {
            tag: "body".to_string(),
        },
    ];
    for e in expected {
        assert_eq!(tokenizer.next(), Some(e.clone()));
    }
}

#[test]
fn test_attributes() {
    let html = "<p class=\"A\" id='B' foo=bar></p>".to_string();
    let mut tokenizer = HtmlTokenizer::new(html);
    let mut attr1 = Attribute::new();
    attr1.add_char('c', true);
    attr1.add_char('l', true);
    attr1.add_char('a', true);
    attr1.add_char('s', true);
    attr1.add_char('s', true);
    attr1.add_char('A', false);

    let mut attr2 = Attribute::new();
    attr2.add_char('i', true);
    attr2.add_char('d', true);
    attr2.add_char('B', false);

    let mut attr3 = Attribute::new();
    attr3.add_char('f', true);
    attr3.add_char('o', true);
    attr3.add_char('o', true);
    attr3.add_char('b', false);
    attr3.add_char('a', false);
    attr3.add_char('r', false);

    let expected = [
        HtmlToken::StartTag {
            tag: "p".to_string(),
            self_closing: false,
            attributes: vec![attr1, attr2, attr3],
        },
        HtmlToken::EndTag {
            tag: "p".to_string(),
        },
    ];

    for e in expected {
        assert_eq!(tokenizer.next(), Some(e));
    }
}

#[test]
fn test_self_closing_tag() {
    let html = "<img />".to_string();
    let mut tokenizer = HtmlTokenizer::new(html);
    let expected = HtmlToken::StartTag {
        tag: "img".to_string(),
        self_closing: true,
        attributes: Vec::new(),
    };
    assert_eq!(tokenizer.next(), Some(expected));
}

#[test]
fn test_script_tag() {
    let html = "<script>js code;</script>".to_string();
    let mut tokenizer = HtmlTokenizer::new(html);
    let expected = [
        HtmlToken::StartTag {
            tag: "script".to_string(),
            self_closing: false,
            attributes: Vec::new(),
        },
        HtmlToken::Char('j'),
        HtmlToken::Char('s'),
        HtmlToken::Char(' '),
        HtmlToken::Char('c'),
        HtmlToken::Char('o'),
        HtmlToken::Char('d'),
        HtmlToken::Char('e'),
        HtmlToken::Char(';'),
        HtmlToken::EndTag {
            tag: "script".to_string(),
        },
    ];
    for e in expected {
        assert_eq!(tokenizer.next(), Some(e));
    }
}

#[test]
fn parser_test_empty() {
    let html = "".to_string();
    let t = HtmlTokenizer::new(html);
    let mut parser = HtmlParser::new(t);
    let window = parser.construct_tree();
    assert_eq!(window.node_count(), 1);
    assert_eq!(window.get_node(0).kind(), NodeKind::Document);
    assert_eq!(window.get_node(0).first_child(), None);
}

#[test]
fn test_attribute_records_characters() {
    let mut attr = Attribute::new();
    attr.add_char('i', true);
    attr.add_char('d', true);
    attr.add_char('x', false);
    assert_eq!(attr.name(), "id".to_string());
    assert_eq!(attr.value(), "x".to_string());
}

#[test]
fn test_raw_text_keeps_markup_characters() {
    // Inside a script element the tokenizer is switched into raw text by
    // the tree constructor, so an embedded `<b>` stays character data.
    let html = "<html><head><script>a<b>c</script></head></html>".to_string();
    let t = HtmlTokenizer::new(html);
    let mut parser = HtmlParser::new(t);
    let window = parser.construct_tree();
    // html -> head -> script -> text "a<b>c"
    let html_id = window.get_node(0).first_child().expect("html element");
    let head_id = window
        .get_node(html_id)
        .first_child()
        .expect("head element");
    let script_id = window
        .get_node(head_id)
        .first_child()
        .expect("script element");
    assert_eq!(
        window.get_node(script_id).element_kind(),
        Some(ElementKind::Script)
    );
    let text_id = window
        .get_node(script_id)
        .first_child()
        .expect("script text");
    assert_eq!(
        window.get_node(text_id).kind(),
        NodeKind::Text("a<b>c".to_string())
    );
}

#[test]
fn test_tree_with_body_and_paragraph() {
    let html = "<html><head></head><body><p>hi</p></body></html>".to_string();
    let t = HtmlTokenizer::new(html);
    let mut parser = HtmlParser::new(t);
    let window = parser.construct_tree();
    let html_id = window.get_node(0).first_child().expect("html element");
    assert_eq!(
        window.get_node(html_id).element_kind(),
        Some(ElementKind::Html)
    );
    let head_id = window
        .get_node(html_id)
        .first_child()
        .expect("head element");
    let body_id = window
        .get_node(head_id)
        .next_sibling()
        .expect("body element");
    assert_eq!(
        window.get_node(body_id).element_kind(),
        Some(ElementKind::Body)
    );
    let p_id = window.get_node(body_id).first_child().expect("paragraph");
    assert_eq!(window.get_node(p_id).element_kind(), Some(ElementKind::P));
    let text_id = window.get_node(p_id).first_child().expect("text");
    assert_eq!(
        window.get_node(text_id).kind(),
        NodeKind::Text("hi".to_string())
    );
}

#[test]
fn test_implicit_elements_are_synthesized() {
    let html = "<p>x</p>".to_string();
    let t = HtmlTokenizer::new(html);
    let mut parser = HtmlParser::new(t);
    let window = parser.construct_tree();
    let html_id = window.get_node(0).first_child().expect("html element");
    assert_eq!(
        window.get_node(html_id).element_kind(),
        Some(ElementKind::Html)
    );
    let head_id = window
        .get_node(html_id)
        .first_child()
        .expect("head element");
    assert_eq!(
        window.get_node(head_id).element_kind(),
        Some(ElementKind::Head)
    );
    let body_id = window
        .get_node(head_id)
        .next_sibling()
        .expect("body element");
    assert_eq!(
        window.get_node(body_id).element_kind(),
        Some(ElementKind::Body)
    );
}

#[test]
fn test_unmatched_end_tag_is_ignored() {
    let html = "<html><head></head><body></p><a>x</a></body></html>".to_string();
    let t = HtmlTokenizer::new(html);
    let mut parser = HtmlParser::new(t);
    let window = parser.construct_tree();
    let html_id = window.get_node(0).first_child().expect("html element");
    let head_id = window
        .get_node(html_id)
        .first_child()
        .expect("head element");
    let body_id = window
        .get_node(head_id)
        .next_sibling()
        .expect("body element");
    let a_id = window.get_node(body_id).first_child().expect("anchor");
    assert_eq!(window.get_node(a_id).element_kind(), Some(ElementKind::A));
}
