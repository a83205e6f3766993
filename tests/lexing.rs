use stav::lexer::{text_escape, tokenize};
use stav::value::{Command, HTMLTag, Node, Value};

#[test]
fn tokenize_splits_on_whitespace() {
    let t = tokenize("a b\tc\nd").unwrap();
    assert_eq!(t, vec!["a", "b", "c", "d"]);
}

#[test]
fn tokenize_keeps_quoted_whitespace() {
    let t = tokenize("\"hello world\" 1 heading").unwrap();
    assert_eq!(t, vec!["\"hello world\"", "1", "heading"]);
}

#[test]
fn tokenize_decodes_escapes_inside_quotes() {
    let t = tokenize("\"a\\tb\\nc\\\\d\\\"e\"").unwrap();
    assert_eq!(t, vec!["\"a\\\tb\\\nc\\\\d\\\"e\""]);
}

#[test]
fn quoted_literal_round_trips() {
    let t = tokenize("\"x\\ty\\rz\\\\w\\\"v\\nu\"").unwrap();
    assert_eq!(t.len(), 1);
    let tok = &t[0];
    let inner = &tok[1..tok.len() - 1];
    assert_eq!(text_escape(inner), "x\ty\rz\\w\"v\nu");
}

#[test]
fn unterminated_quote_fails() {
    assert!(tokenize("\"abc").is_none());
    assert!(tokenize("1 2 \"abc def").is_none());
    assert!(tokenize("\"ok\" \"open").is_none());
}

#[test]
fn trailing_backslash_fails() {
    assert!(tokenize("\"abc\\").is_none());
    assert!(tokenize("pop \"x y\\").is_none());
}

#[test]
fn backslash_outside_quotes_is_plain() {
    assert_eq!(tokenize("a\\b").unwrap(), vec!["a\\b"]);
}

#[test]
fn text_escape_drops_backslashes() {
    assert_eq!(text_escape("a\\\\b\\c"), "a\\bc");
    assert_eq!(text_escape("end\\"), "end");
}

#[test]
fn parse_text_literal() {
    match Value::parse("\"  hi there \"") {
        Some(Value::Text(t)) => {
            assert_eq!(t.content, "hi there");
            assert_eq!(t.font_size, None);
            assert!(matches!(t.tag, HTMLTag::Paragraph));
        }
        _ => panic!("expected a text"),
    }
}

#[test]
fn parse_text_marks_line_breaks() {
    match Value::parse("\"a\\\nb\"") {
        Some(Value::Text(t)) => assert_eq!(t.content, "a<br>b"),
        _ => panic!("expected a text"),
    }
}

#[test]
fn parse_integers() {
    assert!(matches!(Value::parse("42"), Some(Value::Integer(42))));
    assert!(matches!(Value::parse("-7"), Some(Value::Integer(-7))));
    assert!(matches!(Value::parse("+3"), Some(Value::Integer(3))));
    assert!(matches!(Value::parse("-2147483648"), Some(Value::Integer(i32::MIN))));
    assert!(Value::parse("2147483648").is_none());
}

#[test]
fn parse_link_and_symbol() {
    match Value::parse("https://example.com/a") {
        Some(Value::Link(u)) => assert_eq!(u, "https://example.com/a"),
        _ => panic!("expected a link"),
    }
    match Value::parse("@name") {
        Some(Value::Symbol(s)) => assert_eq!(s, "name"),
        _ => panic!("expected a symbol"),
    }
    assert!(Value::parse("http://x").is_none());
    assert!(Value::parse("\"").is_none());
    assert!(Value::parse("word").is_none());
}

#[test]
fn parse_commands() {
    assert_eq!(Command::parse("heading"), Some(Command::Heading));
    assert_eq!(Command::parse("font-size"), Some(Command::FontSize));
    assert_eq!(Command::parse("block-quote"), Some(Command::BlockQuote));
    assert_eq!(Command::parse("swap"), Some(Command::Swap));
    assert_eq!(Command::parse("pop"), Some(Command::Pop));
    assert_eq!(Command::parse("Heading"), None);
    assert!(matches!(Node::parse("link"), Some(Node::Command(Command::Link))));
    assert!(matches!(Node::parse("5"), Some(Node::Literal(Value::Integer(5)))));
    assert!(Node::parse("bogus").is_none());
}

#[test]
fn value_string_forms() {
    assert_eq!(Value::Integer(-15).to_string(), "-15");
    assert_eq!(Value::Link("https://a".to_string()).to_string(), "https://a");
    assert_eq!(Value::Symbol("n".to_string()).to_string(), "n");
}
