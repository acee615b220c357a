use tiamat_core::dom::{parse_html, Node};
use tiamat_core::html::{HTMLParser, HTMLTokenizer, Token};

#[test]
fn test_basic_html_parsing() {
    let parser = HTMLParser::new();
    let result = parser.parse("<html><body><h1>Hello</h1></body></html>");
    assert!(result.is_ok());

    if let Ok(dom) = result {
        let text = parser.extract_text(&dom);
        assert_eq!(text, "Hello");
    }
}

#[test]
fn test_element_by_id() {
    let parser = HTMLParser::new();
    let html = r#"
        <html>
            <body>
                <div id="test">Content</div>
            </body>
        </html>
    "#;
    let dom = parser.parse(html).unwrap();
    let element = parser.get_element_by_id(&dom, "test");
    assert!(element.is_some());
}

#[test]
fn test_text_extraction() {
    let parser = HTMLParser::new();
    let html = "<div>Hello <b>World</b>!</div>";
    let dom = parser.parse(html).unwrap();
    assert_eq!(parser.extract_text(&dom), "Hello World!");
}

#[test]
fn test_malformed_html() {
    let parser = HTMLParser::new();
    let html = "<div>Unclosed";
    let result = parser.parse(html);
    assert!(result.is_ok(), "Parser should handle malformed HTML");
}

#[test]
fn test_dom_builder() {
    let parser = HTMLParser::new();
    let html = "<div><p>Hello</p><p>World</p></div>";
    let mut tokenizer = HTMLTokenizer::new(html);
    let dom = parser.build_dom(&mut tokenizer).unwrap();

    // The returned root is the stack-bottom synthetic element; its sole
    // element child is the div
    let div = match &dom {
        Node::Element { children, .. } => {
            assert_eq!(children.len(), 1);
            &children[0]
        }
        _ => panic!("Root is not an element"),
    };
    match div {
        Node::Element { name, children, .. } => {
            assert_eq!(name.as_str(), "div");

            // Check that there are two children (p elements)
            assert_eq!(children.len(), 2);

            // Check that the first child is a p element with text "Hello"
            let first_child = &children[0];
            match first_child {
                Node::Element { name, .. } => assert_eq!(name.as_str(), "p"),
                _ => panic!("First child is not an element"),
            }
            assert_eq!(parser.extract_text(first_child), "Hello");

            // Check that the second child is a p element with text "World"
            let second_child = &children[1];
            match second_child {
                Node::Element { name, .. } => assert_eq!(name.as_str(), "p"),
                _ => panic!("Second child is not an element"),
            }
            assert_eq!(parser.extract_text(second_child), "World");
        }
        _ => panic!("First child is not an element"),
    }
}

#[test]
fn test_parse_html_minimal() {
    let dom = parse_html("<html><body>Hello</body></html>");
    assert_eq!(dom.root.tag.as_deref(), Some("html"));
    assert!(dom.root.children.iter().any(|n| n.text.as_deref() == Some("Hello")));
}

#[test]
fn tokenizer_yields_structural_tokens() {
    let mut tokenizer = HTMLTokenizer::new("<p class='x'>hi</p>");
    assert_eq!(
        tokenizer.next_token(),
        Some(Token::StartTag(
            "p".to_string(),
            vec![("class".to_string(), "x".to_string())]
        ))
    );
    assert_eq!(tokenizer.next_token(), Some(Token::Text("hi".to_string())));
    assert_eq!(tokenizer.next_token(), Some(Token::EndTag("p".to_string())));
    assert_eq!(tokenizer.next_token(), None);
}

#[test]
fn tokenizer_comment_and_doctype() {
    let mut tokenizer = HTMLTokenizer::new("<!DOCTYPE html><!-- note -->");
    assert_eq!(
        tokenizer.next_token(),
        Some(Token::Doctype("<!DOCTYPE html>".to_string()))
    );
    assert_eq!(tokenizer.next_token(), Some(Token::Comment(" note ".to_string())));
    assert_eq!(tokenizer.next_token(), None);
}

#[test]
fn tokenizer_unterminated_comment_ends_stream() {
    // An unterminated construct fails the current token lookup, ending the
    // stream early.
    let mut tokenizer = HTMLTokenizer::new("<!-- never closed");
    assert_eq!(tokenizer.next_token(), None);
}

#[test]
fn unclosed_tags_nest_deepest() {
    // Input missing all closing tags: the open elements end up as the
    // deepest-nested children of the synthetic root, in order.
    let parser = HTMLParser::new();
    let dom = parser.parse("<a><b><c>").unwrap();
    match &dom {
        Node::Element { name, children, .. } => {
            assert_eq!(name.as_str(), "html");
            assert_eq!(children.len(), 1);
            match &children[0] {
                Node::Element { name, children, .. } => {
                    assert_eq!(name.as_str(), "a");
                    assert_eq!(children.len(), 1);
                    match &children[0] {
                        Node::Element { name, children, .. } => {
                            assert_eq!(name.as_str(), "b");
                            assert_eq!(children.len(), 1);
                            match &children[0] {
                                Node::Element { name, children, .. } => {
                                    assert_eq!(name.as_str(), "c");
                                    assert_eq!(children.len(), 0);
                                }
                                _ => panic!("deepest child is not an element"),
                            }
                        }
                        _ => panic!("nested child is not an element"),
                    }
                }
                _ => panic!("first open element is not under the root"),
            }
        }
        _ => panic!("root is not an element"),
    }
}

#[test]
fn find_by_id_returns_first_match_only() {
    let parser = HTMLParser::new();
    let dom = parser
        .parse("<div><p id=\"x\">A</p><p id=\"y\">B</p></div>")
        .unwrap();
    let found = parser.get_element_by_id(&dom, "x").expect("id x should be found");
    assert_eq!(parser.extract_text(found), "A");
    match found {
        Node::Element { name, .. } => assert_eq!(name.as_str(), "p"),
        _ => panic!("found node is not an element"),
    }
    let found_y = parser.get_element_by_id(&dom, "y").expect("id y should be found");
    assert_eq!(parser.extract_text(found_y), "B");
    assert!(parser.get_element_by_id(&dom, "z").is_none());
}

#[test]
fn queries_by_class_tag_and_data() {
    let parser = HTMLParser::new();
    let dom = parser
        .parse("<div class=\"a\" data-k=\"v\"><span class=\"a\">one</span><span class=\"b\">two</span></div>")
        .unwrap();
    assert_eq!(parser.get_elements_by_class(&dom, "a").len(), 2);
    assert_eq!(parser.get_elements_by_class(&dom, "b").len(), 1);
    assert_eq!(parser.get_elements_by_class(&dom, "c").len(), 0);
    assert_eq!(parser.get_elements_by_tag(&dom, "span").len(), 2);
    assert_eq!(parser.get_elements_by_data(&dom, "data-k", "v").len(), 1);
    assert_eq!(parser.get_elements_by_data(&dom, "data-k", "w").len(), 0);
}

#[test]
fn class_lists_split_on_any_whitespace() {
    // A class attribute separated by tabs or repeated blanks still lists
    // its classes: the value is whitespace-split.
    let parser = HTMLParser::new();
    let node = parser.create_element("div", vec![("class".to_string(), "a\tb  c".to_string())]);
    assert_eq!(parser.get_elements_by_class(&node, "a").len(), 1);
    assert_eq!(parser.get_elements_by_class(&node, "b").len(), 1);
    assert_eq!(parser.get_elements_by_class(&node, "c").len(), 1);
    assert_eq!(parser.get_elements_by_class(&node, "d").len(), 0);
}

#[test]
fn empty_input_yields_empty_root() {
    let parser = HTMLParser::new();
    let dom = parser.parse("").unwrap();
    assert_eq!(parser.extract_text(&dom), "");
    match &dom {
        Node::Element { name, children, .. } => {
            assert_eq!(name.as_str(), "html");
            assert_eq!(children.len(), 0);
        }
        _ => panic!("root is not an element"),
    }
}
