use tiamat_core::html::HTMLParser;
use tiamat_core::layout::{LayoutEngine, Style};

fn zero_edges() -> (String, String, String, String) {
    ("0".to_string(), "0".to_string(), "0".to_string(), "0".to_string())
}

fn style(display: &str, width: &str, height: &str) -> Style {
    Style {
        display: display.to_string(),
        width: Some(width.to_string()),
        height: Some(height.to_string()),
        padding: zero_edges(),
        border: zero_edges(),
        margin: zero_edges(),
    }
}

#[test]
fn test_layout_engine() {
    // Create a simple HTML document
    let html = r#"
        <html>
            <body>
                <div style="display: block; width: 100px; height: 100px;">
                    <p style="display: inline; width: 50px; height: 50px;">Hello</p>
                    <p style="display: inline; width: 50px; height: 50px;">World</p>
                </div>
            </body>
        </html>
    "#;

    // Parse the HTML
    let parser = HTMLParser::new();
    let dom = parser.parse(html).unwrap();

    // Create the layout engine; nodes are addressed by child-index paths
    // from the synthetic root: html = [0], body = [0,0], div = [0,0,0],
    // the paragraphs [0,0,0,0] and [0,0,0,1].
    let mut engine = LayoutEngine::new(dom);

    // Set styles for the elements
    engine.set_style(vec![], style("block", "100%", "100%"));
    engine.set_style(vec![0], style("block", "100%", "100%"));
    engine.set_style(vec![0, 0], style("block", "100%", "100%"));
    engine.set_style(vec![0, 0, 0], style("block", "100px", "100px"));
    engine.set_style(vec![0, 0, 0, 0], style("inline", "50px", "50px"));
    engine.set_style(vec![0, 0, 0, 1], style("inline", "50px", "50px"));

    // Calculate the layout
    let root_box = engine.layout(0, 0);

    // Check the computed boxes exist for every styled node
    assert_eq!(root_box.children.len(), 1);
    let html_box = &root_box.children[0];
    assert_eq!(html_box.children.len(), 1);
    let body_box = &html_box.children[0];
    assert_eq!(body_box.children.len(), 1);
    let div_box = &body_box.children[0];
    assert_eq!(div_box.children.len(), 2);

    // Check the dimensions of the div
    assert_eq!(div_box.width, 100);
    assert_eq!(div_box.height, 100);

    // Check the dimensions of the paragraphs
    let p1_box = &div_box.children[0];
    assert_eq!(p1_box.width, 50);
    assert_eq!(p1_box.height, 50);

    let p2_box = &div_box.children[1];
    assert_eq!(p2_box.width, 50);
    assert_eq!(p2_box.height, 50);

    // Check the positions of the paragraphs: children stack top to bottom
    // (the engine's single layout mode), so the second paragraph sits
    // directly below the first.
    assert_eq!(p1_box.content.x, 0);
    assert_eq!(p1_box.content.y, 0);

    assert_eq!(p2_box.content.x, 0);
    assert_eq!(p2_box.content.y, 50);
}

#[test]
fn block_parent_stacks_inline_children_vertically() {
    // A block parent with two inline children of declared width and height
    // 50px and zero margins stacks them vertically: the second child's y
    // equals the first child's height.
    let parser = HTMLParser::new();
    let dom = parser.parse("<div><p>Hello</p><p>World</p></div>").unwrap();
    let mut engine = LayoutEngine::new(dom);
    engine.set_style(vec![0], style("block", "200px", "200px"));
    engine.set_style(vec![0, 0], style("inline", "50px", "50px"));
    engine.set_style(vec![0, 1], style("inline", "50px", "50px"));

    let root_box = engine.layout(0, 0);
    let div_box = &root_box.children[0];
    let first = &div_box.children[0];
    let second = &div_box.children[1];
    assert_eq!(first.height, 50);
    assert_eq!(first.content.x, 0);
    assert_eq!(first.content.y, 0);
    assert_eq!(second.content.x, 0);
    assert_eq!(second.content.y, first.height);
}

#[test]
fn layout_is_idempotent() {
    // Two layout runs on identical inputs yield bit-identical box trees.
    let parser = HTMLParser::new();
    let dom = parser.parse("<div><p>Hello</p><p>World</p></div>").unwrap();
    let mut engine = LayoutEngine::new(dom);
    engine.set_style(vec![0], style("block", "200px", "300px"));
    engine.set_style(vec![0, 0], style("inline", "50px", "50px"));
    engine.set_style(vec![0, 1], style("inline", "60px", "60px"));

    let first_run = engine.layout(7, 11);
    let second_run = engine.layout(7, 11);
    assert_eq!(first_run, second_run);
}

#[test]
fn inline_content_uses_text_heuristic() {
    // Without a declared size, an inline box derives its content size from
    // its text: a fixed unit of 8 per character, a line height of 16.
    let parser = HTMLParser::new();
    let dom = parser.parse("<p>Hello</p>").unwrap();
    let mut engine = LayoutEngine::new(dom);
    engine.set_style(
        vec![0],
        Style {
            display: "inline".to_string(),
            width: None,
            height: None,
            padding: zero_edges(),
            border: zero_edges(),
            margin: zero_edges(),
        },
    );
    let root_box = engine.layout(0, 0);
    let p_box = &root_box.children[0];
    assert_eq!(p_box.content.width, 40);
    assert_eq!(p_box.content.height, 16);
}

#[test]
fn block_content_derives_from_children() {
    // A block box without declared sizes takes the maximum child width and
    // the sum of child heights.
    let parser = HTMLParser::new();
    let dom = parser.parse("<div><p>a</p><p>b</p></div>").unwrap();
    let mut engine = LayoutEngine::new(dom);
    engine.set_style(
        vec![0],
        Style {
            display: "block".to_string(),
            width: None,
            height: None,
            padding: zero_edges(),
            border: zero_edges(),
            margin: zero_edges(),
        },
    );
    engine.set_style(vec![0, 0], style("inline", "30px", "20px"));
    engine.set_style(vec![0, 1], style("inline", "70px", "25px"));
    let root_box = engine.layout(0, 0);
    let div_box = &root_box.children[0];
    assert_eq!(div_box.content.width, 70);
    assert_eq!(div_box.content.height, 45);
}

#[test]
fn bad_style_values_default_to_zero() {
    // Layout never fails on unparsable numbers; they count as zero.
    let parser = HTMLParser::new();
    let dom = parser.parse("<div>x</div>").unwrap();
    let mut engine = LayoutEngine::new(dom);
    engine.set_style(
        vec![0],
        Style {
            display: "block".to_string(),
            width: Some("oops".to_string()),
            height: Some("12em".to_string()),
            padding: ("bad".to_string(), "".to_string(), "0".to_string(), "0".to_string()),
            border: zero_edges(),
            margin: zero_edges(),
        },
    );
    let root_box = engine.layout(0, 0);
    let div_box = &root_box.children[0];
    assert_eq!(div_box.content.width, 0);
    assert_eq!(div_box.content.height, 12);
    assert_eq!(div_box.padding.left, 0);
}

#[test]
fn padding_and_border_extend_the_box() {
    let parser = HTMLParser::new();
    let dom = parser.parse("<div>x</div>").unwrap();
    let mut engine = LayoutEngine::new(dom);
    engine.set_style(
        vec![0],
        Style {
            display: "block".to_string(),
            width: Some("100px".to_string()),
            height: Some("10px".to_string()),
            padding: ("1".to_string(), "2".to_string(), "3".to_string(), "4".to_string()),
            border: ("5".to_string(), "6".to_string(), "7".to_string(), "8".to_string()),
            margin: zero_edges(),
        },
    );
    let root_box = engine.layout(0, 0);
    let div_box = &root_box.children[0];
    // width = content + left/right padding + left/right border
    assert_eq!(div_box.width, 100 + 1 + 2 + 5 + 6);
    // height analogous with top/bottom
    assert_eq!(div_box.height, 10 + 3 + 4 + 7 + 8);
}

#[test]
fn unstyled_nodes_get_zero_boxes() {
    let parser = HTMLParser::new();
    let dom = parser.parse("<div><p>x</p></div>").unwrap();
    let engine = LayoutEngine::new(dom);
    let root_box = engine.layout(0, 0);
    assert_eq!(root_box.width, 0);
    assert_eq!(root_box.height, 0);
    assert_eq!(root_box.children.len(), 1);
}

#[test]
fn origin_offsets_the_whole_tree() {
    let parser = HTMLParser::new();
    let dom = parser.parse("<div><p>x</p></div>").unwrap();
    let mut engine = LayoutEngine::new(dom);
    engine.set_style(vec![], style("block", "10px", "10px"));
    engine.set_style(vec![0], style("block", "10px", "10px"));
    let root_box = engine.layout(100, 200);
    assert_eq!(root_box.content.x, 100);
    assert_eq!(root_box.content.y, 200);
    assert_eq!(root_box.children[0].content.x, 100);
    assert_eq!(root_box.children[0].content.y, 200);
}
