use tiamat_core::css::{prop_value, CSSError, CSSParser, Selector};
use tiamat_core::html::HTMLParser;

#[test]
fn test_basic_css_parsing() {
    let parser = CSSParser::new();
    let css = "body { color: red; }";
    let result = parser.parse(css);
    assert!(result.is_ok());

    let rules = result.unwrap();
    assert_eq!(rules.len(), 1);
    assert_eq!(
        rules[0].selectors[0],
        Selector {
            tag: Some("body".into()),
            id: None,
            classes: vec![],
            pseudo_classes: vec![],
            combinator: None,
        }
    );
}

#[test]
fn test_multiple_selectors() {
    let parser = CSSParser::new();
    let css = "h1, #main { font-size: 16px; }";
    let result = parser.parse(css);
    assert!(result.is_ok());
}

#[test]
fn test_complex_selectors() {
    let parser = CSSParser::new();
    let css = ".header #logo { width: 100px; }";
    let result = parser.parse(css);
    assert!(result.is_ok());
}

#[test]
fn test_complex_css() {
    let parser = CSSParser::new();
    let css = r#"
        .header #logo:hover {
            width: 100px !important;
            background-color: #fff;
        }
    "#;
    let result = parser.parse(css);
    assert!(result.is_ok());

    let rules = result.unwrap();
    assert_eq!(rules[0].declarations.len(), 2);
    assert!(rules[0].declarations[0].important);
}

#[test]
fn test_style_application() {
    let html_parser = HTMLParser::new();
    let css_parser = CSSParser::new();

    let html = r#"
        <html>
            <body>
                <div id="header" class="header">
                    <div id="logo">Logo</div>
                </div>
            </body>
        </html>
    "#;

    let css = r#"
        #header {
            color: blue;
        }

        .header #logo {
            color: red;
            font-size: 20px;
        }
    "#;

    let dom = html_parser.parse(html).unwrap();
    let rules = css_parser.parse(css).unwrap();

    let styles = css_parser.apply_styles(&rules, &dom);

    // Elements in document order: the synthetic root (0), html (1),
    // body (2), #header (3), #logo (4).
    // Check header style
    if let Some(header_styles) = styles.get(3) {
        assert_eq!(prop_value(header_styles, "color"), Some(&"blue".to_string()));
    }

    // Check logo style
    if let Some(logo_styles) = styles.get(4) {
        assert_eq!(prop_value(logo_styles, "color"), Some(&"red".to_string()));
        assert_eq!(prop_value(logo_styles, "font-size"), Some(&"20px".to_string()));
    }
}

#[test]
fn specificity_ordering_resolves_to_id_rule() {
    // An id rule beats a class rule beats a tag rule on the same element,
    // in either source order.
    let html_parser = HTMLParser::new();
    let css_parser = CSSParser::new();
    let dom = html_parser.parse("<div id=\"a\" class=\"b\">x</div>").unwrap();

    let css_ascending = "div{color:green} .b{color:blue} #a{color:red}";
    let rules = css_parser.parse(css_ascending).unwrap();
    let styles = css_parser.apply_styles(&rules, &dom);
    // The div is element 1: the synthetic root is element 0.
    let props = styles.get(1).expect("the element should be styled");
    assert_eq!(prop_value(props, "color"), Some(&"red".to_string()));

    let css_descending = "#a{color:red} .b{color:blue} div{color:green}";
    let rules2 = css_parser.parse(css_descending).unwrap();
    let styles2 = css_parser.apply_styles(&rules2, &dom);
    let props2 = styles2.get(1).expect("the element should be styled");
    assert_eq!(prop_value(props2, "color"), Some(&"red".to_string()));
}

#[test]
fn importance_overrides_order_and_specificity() {
    // An important declaration outranks later non-important ones.
    let html_parser = HTMLParser::new();
    let css_parser = CSSParser::new();
    let dom = html_parser.parse("<div>x</div>").unwrap();

    let css = "div{color:red} div{color:blue !important} div{color:green}";
    let rules = css_parser.parse(css).unwrap();
    let styles = css_parser.apply_styles(&rules, &dom);
    let props = styles.get(1).expect("the element should be styled");
    assert_eq!(prop_value(props, "color"), Some(&"blue".to_string()));
}

#[test]
fn later_rule_wins_at_equal_specificity() {
    let html_parser = HTMLParser::new();
    let css_parser = CSSParser::new();
    let dom = html_parser.parse("<div>x</div>").unwrap();

    let css = "div{color:red} div{color:blue}";
    let rules = css_parser.parse(css).unwrap();
    let styles = css_parser.apply_styles(&rules, &dom);
    let props = styles.get(1).expect("the element should be styled");
    assert_eq!(prop_value(props, "color"), Some(&"blue".to_string()));
}

#[test]
fn rule_without_block_is_hard_error() {
    // The failure reports the offending fragment, and the whole parse
    // yields no rules at all.
    let parser = CSSParser::new();
    let result = parser.parse("body");
    match result {
        Err(CSSError::SelectorError(m)) => assert_eq!(m, "body"),
        _ => panic!("a selector list without a block must fail the parse"),
    }
    let partial = parser.parse("a{c:d} b");
    match partial {
        Err(CSSError::SelectorError(m)) => assert_eq!(m, "b"),
        _ => panic!("a trailing blockless rule must fail the whole parse"),
    }
}

#[test]
fn empty_stylesheet_parses_to_no_rules() {
    let parser = CSSParser::new();
    let rules = parser.parse("   \n  ").unwrap();
    assert_eq!(rules.len(), 0);
}

#[test]
fn specificity_is_computed_per_selector() {
    let parser = CSSParser::new();
    let rules = parser.parse("div.a.b#x:hover{k:v}").unwrap();
    // One id, two classes and one pseudo-class, one tag.
    assert_eq!(rules[0].specificity, (1, 3, 1));

    let rules2 = parser.parse("h1, #main{k:v}").unwrap();
    // The rule's specificity is the maximum over its selector list.
    assert_eq!(rules2[0].specificity, (1, 0, 0));
}

#[test]
fn pseudo_class_matching_always_succeeds() {
    // Pseudo-classes are not evaluated against element state: a selector
    // with one matches as if the pseudo-class constraint were absent.
    let html_parser = HTMLParser::new();
    let css_parser = CSSParser::new();
    let dom = html_parser.parse("<div>x</div>").unwrap();
    let rules = css_parser.parse("div:hover{color:red}").unwrap();
    let styles = css_parser.apply_styles(&rules, &dom);
    let props = styles.get(1).expect("the pseudo-class must not block the match");
    assert_eq!(prop_value(props, "color"), Some(&"red".to_string()));
}
