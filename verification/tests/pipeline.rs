//! End-to-end scenarios through the whole pipeline: style resolution, box
//! tree construction, layout, and rasterization.

use tinyrender::css::{Color, Declaration, Rule, SimpleSelector, Stylesheet, Value};
use tinyrender::dom::{ElementData, Node, NodeType};
use tinyrender::layout::{layout_tree, BoxType, Dimensions, LayoutBox, Rect};
use tinyrender::painting::{paint, Canvas};
use tinyrender::style::{style_tree, Display, StyledNode};

fn elem(tag: &str, id: Option<&str>, classes: &[&str], children: Vec<Node>) -> Node {
    Node {
        node_type: NodeType::Element(ElementData {
            tag_name: tag.to_string(),
            id: id.map(|s| s.to_string()),
            classes: classes.iter().map(|s| s.to_string()).collect(),
        }),
        children,
    }
}

fn decl(name: &str, value: Value) -> Declaration {
    Declaration { name: name.to_string(), value }
}

fn tag_sel(tag: &str) -> SimpleSelector {
    SimpleSelector { tag_name: Some(tag.to_string()), id: None, classes: Vec::new() }
}

fn class_sel(cls: &str) -> SimpleSelector {
    SimpleSelector { tag_name: None, id: None, classes: vec![cls.to_string()] }
}

fn rule(selectors: Vec<SimpleSelector>, declarations: Vec<Declaration>) -> Rule {
    Rule { selectors, declarations }
}

fn red() -> Color {
    Color { r: 255, g: 0, b: 0, a: 255 }
}

fn green() -> Color {
    Color { r: 0, g: 255, b: 0, a: 255 }
}

fn white() -> Color {
    Color { r: 255, g: 255, b: 255, a: 255 }
}

fn viewport(w: u64, h: u64) -> Dimensions {
    let mut d = Dimensions::zero();
    d.content.width = w;
    d.content.height = h;
    d
}

fn pixel(c: &Canvas, x: usize, y: usize) -> Color {
    c.pixels[y * c.width + x]
}

fn render(root: &Node, sheet: &Stylesheet, w: u64, h: u64) -> (LayoutBox, Canvas) {
    let styled: StyledNode = style_tree(root, sheet);
    assert!(styled.display != Display::DisplayNone);
    let laid = layout_tree(&styled, viewport(w, h));
    let bounds = Rect { x: 0, y: 0, width: w, height: h };
    let canvas = paint(&laid, bounds);
    (laid, canvas)
}

/// A single block with explicit width, height and background fills exactly
/// that rectangle of the canvas, top-left at the origin.
#[test]
fn single_red_block() {
    let dom = elem("div", None, &[], vec![]);
    let sheet = Stylesheet {
        rules: vec![rule(
            vec![tag_sel("div")],
            vec![
                decl("display", Value::Keyword("block".to_string())),
                decl("width", Value::Length(100)),
                decl("height", Value::Length(50)),
                decl("background", Value::ColorValue(red())),
            ],
        )],
    };
    let (laid, canvas) = render(&dom, &sheet, 800, 600);
    assert_eq!(laid.dimensions.content.width, 100);
    assert_eq!(laid.dimensions.content.height, 50);
    assert_eq!(laid.dimensions.content.x, 0);
    assert_eq!(laid.dimensions.content.y, 0);
    assert_eq!(pixel(&canvas, 0, 0), red());
    assert_eq!(pixel(&canvas, 99, 49), red());
    assert_eq!(pixel(&canvas, 100, 0), white());
    assert_eq!(pixel(&canvas, 0, 50), white());
    assert_eq!(pixel(&canvas, 400, 300), white());
}

/// Two stacked siblings of height 50 and no margins: the second box's content
/// top is the first one's plus 50.
#[test]
fn two_stacked_blocks() {
    let dom = elem(
        "main",
        None,
        &[],
        vec![elem("div", None, &[], vec![]), elem("div", None, &[], vec![])],
    );
    let sheet = Stylesheet {
        rules: vec![
            rule(
                vec![tag_sel("main")],
                vec![decl("display", Value::Keyword("block".to_string()))],
            ),
            rule(
                vec![tag_sel("div")],
                vec![
                    decl("display", Value::Keyword("block".to_string())),
                    decl("height", Value::Length(50)),
                ],
            ),
        ],
    };
    let (laid, _) = render(&dom, &sheet, 800, 600);
    assert_eq!(laid.children.len(), 2);
    let first_y = laid.children[0].dimensions.content.y;
    let second_y = laid.children[1].dimensions.content.y;
    assert_eq!(second_y, first_y + 50);
    assert_eq!(laid.dimensions.content.height, 100);
}

/// A block with an explicit width of 400 and both margins auto inside an
/// 800-wide containing block: the remaining 400 split equally, 200 each.
#[test]
fn auto_margins_split_remainder() {
    let dom = elem(
        "main",
        None,
        &[],
        vec![elem("div", None, &[], vec![])],
    );
    let sheet = Stylesheet {
        rules: vec![
            rule(
                vec![tag_sel("main")],
                vec![decl("display", Value::Keyword("block".to_string()))],
            ),
            rule(
                vec![tag_sel("div")],
                vec![
                    decl("display", Value::Keyword("block".to_string())),
                    decl("width", Value::Length(400)),
                    decl("margin", Value::Keyword("auto".to_string())),
                ],
            ),
        ],
    };
    let (laid, _) = render(&dom, &sheet, 800, 600);
    let d = &laid.children[0].dimensions;
    assert_eq!(d.content.width, 400);
    assert_eq!(d.margin.left, 200);
    assert_eq!(d.margin.right, 200);
    assert_eq!(d.content.x, 200);
}

/// Overconstrained: fixed margins plus an explicit width exceed the
/// containing block, so the width is reduced and the margins kept.
#[test]
fn overconstrained_width_yields() {
    let dom = elem("div", None, &[], vec![]);
    let sheet = Stylesheet {
        rules: vec![rule(
            vec![tag_sel("div")],
            vec![
                decl("display", Value::Keyword("block".to_string())),
                decl("width", Value::Length(700)),
                decl("margin-left", Value::Length(100)),
                decl("margin-right", Value::Length(100)),
            ],
        )],
    };
    let (laid, _) = render(&dom, &sheet, 800, 600);
    let d = &laid.dimensions;
    assert_eq!(d.margin.left, 100);
    assert_eq!(d.margin.right, 100);
    assert_eq!(d.content.width, 600);
}

/// Underconstrained with no auto at all: the remainder goes to margin-right.
#[test]
fn remainder_goes_to_margin_right() {
    let dom = elem("div", None, &[], vec![]);
    let sheet = Stylesheet {
        rules: vec![rule(
            vec![tag_sel("div")],
            vec![
                decl("display", Value::Keyword("block".to_string())),
                decl("width", Value::Length(100)),
                decl("margin-left", Value::Length(10)),
                decl("margin-right", Value::Length(10)),
            ],
        )],
    };
    let (laid, _) = render(&dom, &sheet, 800, 600);
    // The 680 of free space join the declared 10.
    assert_eq!(laid.dimensions.margin.left, 10);
    assert_eq!(laid.dimensions.margin.right, 690);
}

/// A childless block without a declared height lays out with height 0.
#[test]
fn childless_block_height_zero() {
    let dom = elem("div", None, &[], vec![]);
    let sheet = Stylesheet {
        rules: vec![rule(
            vec![tag_sel("div")],
            vec![decl("display", Value::Keyword("block".to_string()))],
        )],
    };
    let (laid, _) = render(&dom, &sheet, 800, 600);
    assert_eq!(laid.dimensions.content.height, 0);
    assert_eq!(laid.dimensions.content.width, 800);
}

/// A `display: none` node vanishes from the box tree with its whole subtree,
/// and no anonymous box stands in for it.
#[test]
fn display_none_removes_subtree() {
    let dom = elem(
        "main",
        None,
        &[],
        vec![
            elem("div", None, &["hidden"], vec![elem("p", None, &[], vec![])]),
            elem("div", None, &[], vec![]),
        ],
    );
    let sheet = Stylesheet {
        rules: vec![
            rule(
                vec![tag_sel("main"), tag_sel("div"), tag_sel("p")],
                vec![decl("display", Value::Keyword("block".to_string()))],
            ),
            rule(
                vec![class_sel("hidden")],
                vec![decl("display", Value::Keyword("none".to_string()))],
            ),
        ],
    };
    let (laid, _) = render(&dom, &sheet, 800, 600);
    assert_eq!(laid.children.len(), 1);
    assert_eq!(laid.children[0].box_type, BoxType::BlockNode);
}

/// Document order is paint order: where a later sibling overlaps an earlier
/// sibling's overflowing content, the later sibling's pixels win.
#[test]
fn later_sibling_paints_over_earlier() {
    // First child declares height 10 but contains a 50-tall green child, so
    // its content overflows; the red second sibling starts at y = 10 and
    // covers the overlap region.
    let dom = elem(
        "main",
        None,
        &[],
        vec![
            elem("div", None, &["short"], vec![elem("p", None, &[], vec![])]),
            elem("div", None, &["tall"], vec![]),
        ],
    );
    let sheet = Stylesheet {
        rules: vec![
            rule(
                vec![tag_sel("main"), tag_sel("div"), tag_sel("p")],
                vec![decl("display", Value::Keyword("block".to_string()))],
            ),
            rule(
                vec![class_sel("short")],
                vec![decl("height", Value::Length(10))],
            ),
            rule(
                vec![tag_sel("p")],
                vec![
                    decl("height", Value::Length(50)),
                    decl("background", Value::ColorValue(green())),
                ],
            ),
            rule(
                vec![class_sel("tall")],
                vec![
                    decl("height", Value::Length(50)),
                    decl("background", Value::ColorValue(red())),
                ],
            ),
        ],
    };
    let (laid, canvas) = render(&dom, &sheet, 200, 100);
    assert_eq!(laid.children[0].dimensions.content.height, 10);
    assert_eq!(laid.children[1].dimensions.content.y, 10);
    // Covered only by the green overflowing grandchild.
    assert_eq!(pixel(&canvas, 5, 5), green());
    // Covered by both: the later sibling (red) must be visible.
    assert_eq!(pixel(&canvas, 5, 30), red());
    // Below both boxes: untouched white.
    assert_eq!(pixel(&canvas, 5, 70), white());
}

/// Rectangles partly outside the canvas are clipped, never an error.
#[test]
fn painting_clips_to_canvas() {
    let dom = elem("div", None, &[], vec![]);
    let sheet = Stylesheet {
        rules: vec![rule(
            vec![tag_sel("div")],
            vec![
                decl("display", Value::Keyword("block".to_string())),
                decl("width", Value::Length(10000)),
                decl("height", Value::Length(10000)),
                decl("background", Value::ColorValue(red())),
            ],
        )],
    };
    let (_, canvas) = render(&dom, &sheet, 100, 50);
    assert_eq!(canvas.width, 100);
    assert_eq!(canvas.height, 50);
    assert_eq!(pixel(&canvas, 99, 49), red());
}

/// Border edges are painted in the border color around the content.
#[test]
fn borders_painted() {
    let dom = elem("div", None, &[], vec![]);
    let sheet = Stylesheet {
        rules: vec![rule(
            vec![tag_sel("div")],
            vec![
                decl("display", Value::Keyword("block".to_string())),
                decl("width", Value::Length(50)),
                decl("height", Value::Length(20)),
                decl("border-width", Value::Length(5)),
                decl("border-color", Value::ColorValue(green())),
                decl("background", Value::ColorValue(red())),
            ],
        )],
    };
    let (laid, canvas) = render(&dom, &sheet, 200, 100);
    // Content starts after the left/top border.
    assert_eq!(laid.dimensions.content.x, 5);
    assert_eq!(laid.dimensions.content.y, 5);
    // Border ring is green, interior red.
    assert_eq!(pixel(&canvas, 0, 0), green());
    assert_eq!(pixel(&canvas, 2, 10), green());
    assert_eq!(pixel(&canvas, 10, 2), green());
    assert_eq!(pixel(&canvas, 10, 10), red());
    // Right border: border box is 60 wide (50 + 2 * 5).
    assert_eq!(pixel(&canvas, 57, 10), green());
    assert_eq!(pixel(&canvas, 60, 10), white());
}

/// Inline children of a block parent are wrapped in one anonymous block; the
/// anonymous box is laid out like a block and stacks with block siblings.
#[test]
fn anonymous_box_wraps_inline_run() {
    let dom = elem(
        "main",
        None,
        &[],
        vec![
            elem("span", None, &[], vec![]),
            elem("span", None, &[], vec![]),
            elem("div", None, &[], vec![]),
        ],
    );
    let sheet = Stylesheet {
        rules: vec![
            rule(
                vec![tag_sel("main"), tag_sel("div")],
                vec![decl("display", Value::Keyword("block".to_string()))],
            ),
            rule(
                vec![tag_sel("span")],
                vec![decl("height", Value::Length(7))],
            ),
        ],
    };
    let (laid, _) = render(&dom, &sheet, 800, 600);
    assert_eq!(laid.children.len(), 2);
    assert_eq!(laid.children[0].box_type, BoxType::AnonymousBlock);
    assert_eq!(laid.children[0].children.len(), 2);
    assert_eq!(laid.children[0].children[0].box_type, BoxType::InlineNode);
    assert_eq!(laid.children[1].box_type, BoxType::BlockNode);
    // The two inline boxes stack inside the anonymous block (no line layout),
    // so the anonymous box is 14 tall and the block sibling starts at y = 14.
    assert_eq!(laid.children[0].dimensions.content.height, 14);
    assert_eq!(laid.children[1].dimensions.content.y, 14);
}

/// Text nodes become inline boxes carrying their text.
#[test]
fn text_becomes_inline_box() {
    let text = Node { node_type: NodeType::Text("hello".to_string()), children: vec![] };
    let dom = elem("p", None, &[], vec![text]);
    let sheet = Stylesheet {
        rules: vec![rule(
            vec![tag_sel("p")],
            vec![decl("display", Value::Keyword("block".to_string()))],
        )],
    };
    let styled = style_tree(&dom, &sheet);
    assert_eq!(styled.children.len(), 1);
    assert!(styled.children[0].display == Display::Inline);
    assert_eq!(styled.children[0].text.as_deref(), Some("hello"));
    let (laid, _) = render(&dom, &sheet, 800, 600);
    assert_eq!(laid.children.len(), 1);
    assert_eq!(laid.children[0].box_type, BoxType::AnonymousBlock);
    assert_eq!(laid.children[0].children[0].text.as_deref(), Some("hello"));
}
