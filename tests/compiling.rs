use stav::html::generate;
use stav::machine::Stack;
use stav::stav;
use stav::value::{Command, HTMLTag, Node, Text, Value};

fn body_of(html: &str) -> String {
    let start = html.find("<body>").unwrap() + "<body>".len();
    let end = html.find("</body>").unwrap();
    html[start..end].trim().to_string()
}

#[test]
fn heading_needs_an_integer_level() {
    assert!(stav("\"Hello, World\" \"h1\" heading").is_none());
    let html = stav("\"Hello, World\" 1 heading").unwrap();
    assert!(html.contains("<h1>Hello, World</h1>"));
}

#[test]
fn heading_on_empty_stack_fails() {
    assert!(stav("heading").is_none());
    assert!(stav("1 heading").is_none());
}

#[test]
fn commands_with_wrong_operands_fail() {
    assert!(stav("\"a\" link").is_none());
    assert!(stav("\"a\" \"https://x\" link").is_none());
    assert!(stav("5 list").is_none());
    assert!(stav("\"a\" 5 concat").is_none());
    assert!(stav("swap").is_none());
    assert!(stav("\"a\" swap").is_none());
    assert!(stav("pop").is_none());
    assert!(stav("dup").is_none());
    assert!(stav("\"a\" store").is_none());
    assert!(stav("@missing load").is_none());
    assert!(stav("\"t\" 3 title").is_none());
}

#[test]
fn unknown_word_fails() {
    assert!(stav("\"a\" shout").is_none());
}

#[test]
fn store_then_load_after_other_operations() {
    let html = stav("\"kept\" @x store \"a\" \"b\" swap pop dup concat pop @x load").unwrap();
    assert_eq!(body_of(&html), "<p>kept</p>");
}

#[test]
fn later_store_wins() {
    let html = stav("1 @n store 2 @n store \"v=@n\" pop \"@n\"").unwrap();
    assert_eq!(body_of(&html), "<p>2</p>");
}

#[test]
fn interpolation_sees_only_earlier_bindings() {
    assert!(stav("\"a @x b\" @x store").is_none());
    let html = stav("\"one\" @x store \"a @x b\"").unwrap();
    assert_eq!(body_of(&html), "<p>a one b</p>");
}

#[test]
fn interpolation_uses_string_forms() {
    let html = stav("7 @n store https://z @u store \"@n @u\"").unwrap();
    assert_eq!(body_of(&html), "<p>7 https://z</p>");
}

#[test]
fn interpolation_joins_tokens_with_one_space() {
    let html = stav("\"a\\tb\"").unwrap();
    assert_eq!(body_of(&html), "<p>a b</p>");
}

#[test]
fn consecutive_list_items_share_one_group() {
    let html = stav("\"a\" list \"b\" list \"c\" list").unwrap();
    assert_eq!(body_of(&html), "<ul><li>a</li>\n<li>b</li>\n<li>c</li></ul>");
}

#[test]
fn paragraph_splits_list_groups() {
    let html = stav("\"a\" list \"p\" \"b\" list").unwrap();
    assert_eq!(body_of(&html), "<ul><li>a</li></ul>\n<p>p</p>\n<ul><li>b</li></ul>");
}

#[test]
fn list_item_font_size() {
    let html = stav("\"a\" list 9 font-size").unwrap();
    assert_eq!(body_of(&html), "<ul><li style=\"font-size: 9px;\">a</li></ul>");
}

#[test]
fn quoted_url_is_no_link_for_image() {
    assert!(stav("\"pic\" \"https://x/y.png\" image").is_none());
}

#[test]
fn image_leaves_earlier_text_below() {
    let mut stack = Stack::new();
    for word in ["\"pic\"", "https://x/y.png", "image"] {
        Node::parse(word).unwrap().eval(&mut stack).unwrap();
    }
    assert_eq!(stack.data.len(), 2);
    match &stack.data[0] {
        Value::Text(t) => {
            assert_eq!(t.content, "pic");
            assert!(matches!(t.tag, HTMLTag::Paragraph));
        }
        _ => panic!("expected a text"),
    }
    match &stack.data[1] {
        Value::Text(t) => {
            assert_eq!(t.content, "");
            assert!(matches!(&t.tag, HTMLTag::Image(u) if u == "https://x/y.png"));
        }
        _ => panic!("expected a text"),
    }
    let html = generate(stack).unwrap();
    assert_eq!(body_of(&html), "<p>pic</p>\n<img src=\"https://x/y.png\" alt=\"\">");
}

#[test]
fn leftover_non_text_fails_generation() {
    assert!(stav("\"a\" 5").is_none());
    assert!(stav("https://x").is_none());
    assert!(stav("@s").is_none());
}

#[test]
fn defaults_for_title_and_theme() {
    let html = stav("\"x\"").unwrap();
    assert!(html.contains("<title>Untitled</title>"));
    assert!(html.contains("href=\"theme/none.css\""));
}

#[test]
fn title_and_theme_are_set() {
    let html = stav("\"Hello\" title \"dark\" theme \"World\"").unwrap();
    assert!(html.contains("<title>Hello</title>"));
    assert!(html.contains("href=\"theme/dark.css\""));
    assert_eq!(body_of(&html), "<p>World</p>");
}

#[test]
fn whole_document_shape() {
    let html = stav("").unwrap();
    assert_eq!(
        html,
        "\n        <html>\n            <head>\n                <meta charset=\"UTF-8\">\n                <title>Untitled</title>\n                <link rel=\"stylesheet\" href=\"theme/none.css\">\n            </head>\n            <body>\n                \n            </body>\n        </html>\n        "
    );
}

#[test]
fn each_tag_renders() {
    let html = stav(
        "\"p\" 12 font-size \"h\" 2 heading \"site\" https://a.b link \"q\" block-quote",
    )
    .unwrap();
    assert_eq!(
        body_of(&html),
        "<p style=\"font-size: 12px;\">p</p>\n<h2>h</h2>\n<a href=\"https://a.b\">site</a>\n<blockquote>q</blockquote>"
    );
}

#[test]
fn heading_keeps_font_size() {
    let html = stav("\"h\" 3 heading 20 font-size").unwrap();
    assert_eq!(body_of(&html), "<h3 style=\"font-size: 20px;\">h</h3>");
}

#[test]
fn concat_keeps_first_style() {
    let html = stav("\"ab\" 1 heading \"cd\" concat").unwrap();
    assert_eq!(body_of(&html), "<h1>abcd</h1>");
}

#[test]
fn swap_and_dup() {
    let html = stav("\"a\" \"b\" swap \"c\" dup").unwrap();
    assert_eq!(body_of(&html), "<p>b</p>\n<p>a</p>\n<p>c</p>\n<p>c</p>");
}

#[test]
fn command_eval_reports_failure() {
    let mut stack = Stack::new();
    assert!(Command::Heading.eval(&mut stack).is_none());
    let mut stack = Stack::new();
    stack.data.push(Value::Text(Text {
        content: "t".to_string(),
        font_size: None,
        tag: HTMLTag::Paragraph,
    }));
    assert!(Command::Heading.eval(&mut stack).is_none());
}

#[test]
fn generate_rejects_integers() {
    let mut stack = Stack::new();
    stack.data.push(Value::Integer(1));
    assert!(generate(stack).is_none());
}

#[test]
fn interpolation_collapses_blank_runs() {
    let html = stav("\"v\" @x store \"a  @x\"").unwrap();
    assert_eq!(body_of(&html), "<p>a v</p>");
    let html = stav("\"a   b\"").unwrap();
    assert_eq!(body_of(&html), "<p>a b</p>");
}

#[test]
fn reference_after_blank_run_is_looked_up() {
    assert!(stav("\"a  @y\"").is_none());
}

#[test]
fn failed_literal_leaves_stack_unchanged() {
    let mut stack = Stack::new();
    Node::parse("5").unwrap().eval(&mut stack).unwrap();
    let lit = Value::Text(Text {
        content: "hi @nobody".to_string(),
        font_size: None,
        tag: HTMLTag::Paragraph,
    });
    assert!(lit.eval(&mut stack).is_none());
    assert_eq!(stack.data.len(), 1);
    assert!(matches!(stack.data[0], Value::Integer(5)));
    assert!(stack.scope.is_empty());
}

#[test]
fn store_to_other_name_keeps_binding() {
    let html = stav("\"kept\" @x store \"other\" @y store @x load").unwrap();
    assert_eq!(body_of(&html), "<p>kept</p>");
}

#[test]
fn list_groups_count_runs() {
    let html = stav("\"a\" list \"b\" list \"p\" \"c\" list \"q\" \"d\" list \"e\" list").unwrap();
    assert_eq!(
        body_of(&html),
        "<ul><li>a</li>\n<li>b</li></ul>\n<p>p</p>\n<ul><li>c</li></ul>\n<p>q</p>\n<ul><li>d</li>\n<li>e</li></ul>"
    );
}
