//! Values, commands and nodes, and how a token is classified as one of them.
use vstd::prelude::*;

use crate::lexer::{text_escape, unescaped};
use crate::text::{
    chars_of, decimal_i32, decimal_string, int_decimal, parse_i32, replace_all, replaced,
    same_text, trim, trimmed,
};

verus! {

/// How a text fragment is rendered.
#[derive(Debug)]
pub enum HTMLTag {
    Heading(i32),
    Paragraph,
    Link(String),
    Image(String),
    BlockQuote,
    List,
}

/// A text fragment of the document.
#[derive(Debug)]
pub struct Text {
    pub content: String,
    pub font_size: Option<i32>,
    pub tag: HTMLTag,
}

/// A value on the machine's stack.
#[derive(Debug)]
pub enum Value {
    Text(Text),
    Integer(i32),
    Link(String),
    Symbol(String),
}

/// The fixed command set.
#[derive(Clone, Copy, Debug, PartialEq, Eq)]
pub enum Command {
    Heading,
    FontSize,
    Link,
    BlockQuote,
    Image,
    List,
    Title,
    Theme,
    Load,
    Store,
    Concat,
    Dup,
    Swap,
    Pop,
}

/// A parsed program unit.
#[derive(Debug)]
pub enum Node {
    Literal(Value),
    Command(Command),
}

pub enum TagView {
    Heading(i32),
    Paragraph,
    Link(Seq<char>),
    Image(Seq<char>),
    BlockQuote,
    List,
}

pub struct TextView {
    pub content: Seq<char>,
    pub font_size: Option<i32>,
    pub tag: TagView,
}

pub enum ValueView {
    Text(TextView),
    Integer(i32),
    Link(Seq<char>),
    Symbol(Seq<char>),
}

pub enum NodeView {
    Literal(ValueView),
    Command(Command),
}

impl View for HTMLTag {
    type V = TagView;

    open spec fn view(&self) -> TagView {
        match self {
            HTMLTag::Heading(l) => TagView::Heading(*l),
            HTMLTag::Paragraph => TagView::Paragraph,
            HTMLTag::Link(u) => TagView::Link(u@),
            HTMLTag::Image(u) => TagView::Image(u@),
            HTMLTag::BlockQuote => TagView::BlockQuote,
            HTMLTag::List => TagView::List,
        }
    }
}

impl View for Text {
    type V = TextView;

    open spec fn view(&self) -> TextView {
        TextView { content: self.content@, font_size: self.font_size, tag: self.tag@ }
    }
}

impl View for Value {
    type V = ValueView;

    open spec fn view(&self) -> ValueView {
        match self {
            Value::Text(t) => ValueView::Text(t@),
            Value::Integer(i) => ValueView::Integer(*i),
            Value::Link(u) => ValueView::Link(u@),
            Value::Symbol(n) => ValueView::Symbol(n@),
        }
    }
}

impl View for Node {
    type V = NodeView;

    open spec fn view(&self) -> NodeView {
        match self {
            Node::Literal(v) => NodeView::Literal(v@),
            Node::Command(c) => NodeView::Command(*c),
        }
    }
}

impl Clone for HTMLTag {
    fn clone(&self) -> (r: Self)
        ensures
            r == *self,
    {
        match self {
            HTMLTag::Heading(l) => HTMLTag::Heading(*l),
            HTMLTag::Paragraph => HTMLTag::Paragraph,
            HTMLTag::Link(u) => HTMLTag::Link(u.clone()),
            HTMLTag::Image(u) => HTMLTag::Image(u.clone()),
            HTMLTag::BlockQuote => HTMLTag::BlockQuote,
            HTMLTag::List => HTMLTag::List,
        }
    }
}

impl Clone for Text {
    fn clone(&self) -> (r: Self)
        ensures
            r == *self,
    {
        Text { content: self.content.clone(), font_size: self.font_size, tag: self.tag.clone() }
    }
}

impl Clone for Value {
    fn clone(&self) -> (r: Self)
        ensures
            r == *self,
    {
        match self {
            Value::Text(t) => Value::Text(t.clone()),
            Value::Integer(i) => Value::Integer(*i),
            Value::Link(u) => Value::Link(u.clone()),
            Value::Symbol(n) => Value::Symbol(n.clone()),
        }
    }
}

/// The keyword that names each command in source text.
pub open spec fn keyword(c: Command) -> Seq<char> {
    match c {
        Command::Heading => "heading"@,
        Command::FontSize => "font-size"@,
        Command::Link => "link"@,
        Command::BlockQuote => "block-quote"@,
        Command::Image => "image"@,
        Command::List => "list"@,
        Command::Title => "title"@,
        Command::Theme => "theme"@,
        Command::Load => "load"@,
        Command::Store => "store"@,
        Command::Concat => "concat"@,
        Command::Dup => "dup"@,
        Command::Swap => "swap"@,
        Command::Pop => "pop"@,
    }
}

/// A backslash that ends a line inside a literal.
pub open spec fn escaped_line_end() -> Seq<char> {
    seq!['\\', '\n']
}

/// What stands for a line break in the content of a literal.
pub open spec fn line_break_marker() -> Seq<char> {
    seq!['<', 'b', 'r', '>']
}

pub open spec fn link_prefix() -> Seq<char> {
    seq!['h', 't', 't', 'p', 's', ':', '/', '/']
}

/// Whether `s` is enclosed in a pair of double quotes.
pub open spec fn is_quoted(s: Seq<char>) -> bool {
    s.len() >= 2 && s[0] == '"' && s.last() == '"'
}

/// The content of a quoted literal `s`: quotes stripped, escaped line breaks
/// marked, white space trimmed, escapes removed.
pub open spec fn literal_content(s: Seq<char>) -> Seq<char> {
    unescaped(trimmed(replaced(s.subrange(1, s.len() - 1), escaped_line_end(), line_break_marker())))
}

/// The literal that a token writes, if any.
pub open spec fn value_of(s: Seq<char>) -> Option<ValueView> {
    if is_quoted(s) {
        Some(
            ValueView::Text(
                TextView { content: literal_content(s), font_size: None, tag: TagView::Paragraph },
            ),
        )
    } else if decimal_i32(s) is Some {
        Some(ValueView::Integer(decimal_i32(s)->0))
    } else if s.len() >= 8 && s.take(8) == link_prefix() {
        Some(ValueView::Link(s))
    } else if s.len() >= 1 && s[0] == '@' {
        Some(ValueView::Symbol(s.skip(1)))
    } else {
        None
    }
}

/// The command that a token names, if any.
pub open spec fn command_of(s: Seq<char>) -> Option<Command> {
    if s == keyword(Command::Heading) {
        Some(Command::Heading)
    } else if s == keyword(Command::FontSize) {
        Some(Command::FontSize)
    } else if s == keyword(Command::Link) {
        Some(Command::Link)
    } else if s == keyword(Command::BlockQuote) {
        Some(Command::BlockQuote)
    } else if s == keyword(Command::Image) {
        Some(Command::Image)
    } else if s == keyword(Command::List) {
        Some(Command::List)
    } else if s == keyword(Command::Title) {
        Some(Command::Title)
    } else if s == keyword(Command::Theme) {
        Some(Command::Theme)
    } else if s == keyword(Command::Load) {
        Some(Command::Load)
    } else if s == keyword(Command::Store) {
        Some(Command::Store)
    } else if s == keyword(Command::Concat) {
        Some(Command::Concat)
    } else if s == keyword(Command::Dup) {
        Some(Command::Dup)
    } else if s == keyword(Command::Swap) {
        Some(Command::Swap)
    } else if s == keyword(Command::Pop) {
        Some(Command::Pop)
    } else {
        None
    }
}

/// The node that a token stands for: a command keyword first, else a literal.
pub open spec fn node_of(s: Seq<char>) -> Option<NodeView> {
    match command_of(s) {
        Some(c) => Some(NodeView::Command(c)),
        None => match value_of(s) {
            Some(v) => Some(NodeView::Literal(v)),
            None => None,
        },
    }
}

/// The string form of a value, as interpolation writes it.
pub open spec fn display(v: ValueView) -> Seq<char> {
    match v {
        ValueView::Integer(i) => int_decimal(i as int),
        ValueView::Text(t) => t.content,
        ValueView::Link(s) => s,
        ValueView::Symbol(s) => s,
    }
}

impl Value {
    /// The string form of the value: decimal digits for an integer, the
    /// content of a text, the raw text of a link or a symbol.
    pub fn to_string(&self) -> (r: String)
        ensures
            r@ == display(self@),
    {
        match self {
            Value::Integer(i) => decimal_string(*i),
            Value::Text(t) => t.content.clone(),
            Value::Link(s) => s.clone(),
            Value::Symbol(s) => s.clone(),
        }
    }

    /// Classifies a trimmed token as a literal.
    pub fn parse(source: &str) -> (r: Option<Value>)
        ensures
            match r {
                Some(v) => value_of(source@) == Some(v@),
                None => value_of(source@) is None,
            },
    {
        let chars = chars_of(source);
        let n = chars.len();
        if n >= 2 && chars[0] == '"' && chars[n - 1] == '"' {
            let inner = source.substring_char(1, n - 1);
            proof {
                reveal_strlit("\\\n");
                reveal_strlit("<br>");
                assert("\\\n"@ =~= escaped_line_end());
                assert("<br>"@ =~= line_break_marker());
            }
            let marked = replace_all(inner, "\\\n", "<br>");
            let content = text_escape(trim(marked.as_str()));
            return Some(Value::Text(Text { content, font_size: None, tag: HTMLTag::Paragraph }));
        }
        if let Some(number) = parse_i32(source) {
            return Some(Value::Integer(number));
        }
        if n >= 8 && chars[0] == 'h' && chars[1] == 't' && chars[2] == 't' && chars[3] == 'p'
            && chars[4] == 's' && chars[5] == ':' && chars[6] == '/' && chars[7] == '/' {
            proof {
                assert(source@.take(8) =~= link_prefix());
            }
            return Some(Value::Link(source.to_owned()));
        }
        if n >= 1 && chars[0] == '@' {
            return Some(Value::Symbol(source.substring_char(1, n).to_owned()));
        }
        proof {
            if source@.len() >= 8 && source@.take(8) == link_prefix() {
                assert(source@.take(8)[0] == 'h');
                assert(source@.take(8)[1] == 't');
                assert(source@.take(8)[2] == 't');
                assert(source@.take(8)[3] == 'p');
                assert(source@.take(8)[4] == 's');
                assert(source@.take(8)[5] == ':');
                assert(source@.take(8)[6] == '/');
                assert(source@.take(8)[7] == '/');
            }
        }
        None
    }
}

/// The source text of a command.
fn keyword_text(c: Command) -> (r: &'static str)
    ensures
        r@ == keyword(c),
{
    match c {
        Command::Heading => "heading",
        Command::FontSize => "font-size",
        Command::Link => "link",
        Command::BlockQuote => "block-quote",
        Command::Image => "image",
        Command::List => "list",
        Command::Title => "title",
        Command::Theme => "theme",
        Command::Load => "load",
        Command::Store => "store",
        Command::Concat => "concat",
        Command::Dup => "dup",
        Command::Swap => "swap",
        Command::Pop => "pop",
    }
}

impl Node {
    /// Classifies a trimmed token: a command keyword first, else a literal.
    pub fn parse(source: &str) -> (r: Option<Node>)
        ensures
            match r {
                Some(n) => node_of(source@) == Some(n@),
                None => node_of(source@) is None,
            },
    {
        if let Some(c) = Command::parse(source) {
            Some(Node::Command(c))
        } else if let Some(v) = Value::parse(source) {
            Some(Node::Literal(v))
        } else {
            None
        }
    }
}

impl Command {
    /// Matches a token against the keyword table.
    pub fn parse(source: &str) -> (r: Option<Command>)
        ensures
            r == command_of(source@),
            match r {
                Some(c) => keyword(c) == source@,
                None => forall|c: Command| keyword(c) != source@,
            },
    {
        let all = [
            Command::Heading,
            Command::FontSize,
            Command::Link,
            Command::BlockQuote,
            Command::Image,
            Command::List,
            Command::Title,
            Command::Theme,
            Command::Load,
            Command::Store,
            Command::Concat,
            Command::Dup,
            Command::Swap,
            Command::Pop,
        ];
        let mut i: usize = 0;
        while i < 14
            invariant
                0 <= i <= 14,
                all@ == seq![
                    Command::Heading,
                    Command::FontSize,
                    Command::Link,
                    Command::BlockQuote,
                    Command::Image,
                    Command::List,
                    Command::Title,
                    Command::Theme,
                    Command::Load,
                    Command::Store,
                    Command::Concat,
                    Command::Dup,
                    Command::Swap,
                    Command::Pop,
                ],
                forall|j: int| 0 <= j < i ==> keyword(#[trigger] all@[j]) != source@,
            decreases 14 - i,
        {
            if same_text(source, keyword_text(all[i])) {
                proof {
                    assert(forall|j: int| 0 <= j < i ==> keyword(all@[j]) != source@);
                }
                return Some(all[i]);
            }
            i = i + 1;
        }
        proof {
            assert forall|c: Command| keyword(c) != source@ by {
                let j: int = match c {
                    Command::Heading => 0,
                    Command::FontSize => 1,
                    Command::Link => 2,
                    Command::BlockQuote => 3,
                    Command::Image => 4,
                    Command::List => 5,
                    Command::Title => 6,
                    Command::Theme => 7,
                    Command::Load => 8,
                    Command::Store => 9,
                    Command::Concat => 10,
                    Command::Dup => 11,
                    Command::Swap => 12,
                    Command::Pop => 13,
                };
                assert(all@[j] == c);
            }
        }
        None
    }
}

} // verus!
