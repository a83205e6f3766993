//! The stack machine: the state of a compilation and how each node changes it.
use vstd::prelude::*;

use crate::lexer::{string_views, tokenize, tokens_of};
use crate::text::{push_char, same_text, trim, trimmed};
use crate::value::{display, Command, HTMLTag, Node, NodeView, TagView, Text, TextView, Value, ValueView};

verus! {

/// A name bound to a value by `store`.
#[derive(Debug)]
pub struct Binding {
    pub name: String,
    pub value: Value,
}

/// The state of one compilation: the value stack, the named scope and the
/// document settings.
#[derive(Debug)]
pub struct Stack {
    pub data: Vec<Value>,
    pub scope: Vec<Binding>,
    pub title: Option<String>,
    pub theme: Option<String>,
}

pub struct StackView {
    pub data: Seq<ValueView>,
    /// Bindings in the order they were made; a later one hides an earlier one
    /// of the same name.
    pub scope: Seq<(Seq<char>, ValueView)>,
    pub title: Option<Seq<char>>,
    pub theme: Option<Seq<char>>,
}

pub open spec fn values_view(v: Seq<Value>) -> Seq<ValueView> {
    v.map_values(|x: Value| x@)
}

pub open spec fn bindings_view(v: Seq<Binding>) -> Seq<(Seq<char>, ValueView)> {
    v.map_values(|b: Binding| (b.name@, b.value@))
}

pub open spec fn opt_text(o: Option<String>) -> Option<Seq<char>> {
    match o {
        Some(s) => Some(s@),
        None => None,
    }
}

impl View for Stack {
    type V = StackView;

    open spec fn view(&self) -> StackView {
        StackView {
            data: values_view(self.data@),
            scope: bindings_view(self.scope@),
            title: opt_text(self.title),
            theme: opt_text(self.theme),
        }
    }
}

pub open spec fn empty_stack() -> StackView {
    StackView { data: seq![], scope: seq![], title: None, theme: None }
}

/// The value that `name` is bound to: the latest binding of it.
pub open spec fn lookup(scope: Seq<(Seq<char>, ValueView)>, name: Seq<char>) -> Option<ValueView>
    decreases scope.len(),
{
    if scope.len() == 0 {
        None
    } else if scope.last().0 == name {
        Some(scope.last().1)
    } else {
        lookup(scope.drop_last(), name)
    }
}

/// What a token of a text literal becomes: `@name` the string form of the
/// value bound to `name`, anything else itself.
pub open spec fn resolve_token(tok: Seq<char>, scope: Seq<(Seq<char>, ValueView)>) -> Option<Seq<char>> {
    if tok.len() > 0 && tok[0] == '@' {
        match lookup(scope, tok.skip(1)) {
            Some(v) => Some(display(v)),
            None => None,
        }
    } else {
        Some(tok)
    }
}

/// The tokens trimmed, the blank ones dropped, and each of the others resolved.
pub open spec fn resolve_all(toks: Seq<Seq<char>>, scope: Seq<(Seq<char>, ValueView)>) -> Option<Seq<Seq<char>>>
    decreases toks.len(),
{
    if toks.len() == 0 {
        Some(seq![])
    } else {
        let w = trimmed(toks.last());
        match resolve_all(toks.drop_last(), scope) {
            Some(done) => if w.len() == 0 {
                Some(done)
            } else {
                match resolve_token(w, scope) {
                    Some(t) => Some(done.push(t)),
                    None => None,
                }
            },
            None => None,
        }
    }
}

/// The parts joined with `sep` between each two.
pub open spec fn join(parts: Seq<Seq<char>>, sep: Seq<char>) -> Seq<char>
    decreases parts.len(),
{
    if parts.len() == 0 {
        seq![]
    } else if parts.len() == 1 {
        parts[0]
    } else {
        join(parts.drop_last(), sep) + sep + parts.last()
    }
}

/// The content of a text literal once it is split into tokens, each token
/// trimmed and the blank ones dropped, its `@name` tokens replaced with what
/// `scope` binds, and the tokens joined by single spaces.
pub open spec fn interpolate(content: Seq<char>, scope: Seq<(Seq<char>, ValueView)>) -> Option<Seq<char>> {
    match tokens_of(content) {
        Some(toks) => match resolve_all(toks, scope) {
            Some(parts) => Some(join(parts, seq![' '])),
            None => None,
        },
        None => None,
    }
}

pub open spec fn with_data(st: StackView, data: Seq<ValueView>) -> StackView {
    StackView { data: data, scope: st.scope, title: st.title, theme: st.theme }
}

/// Pushing a literal: a text is interpolated first, any other value is
/// pushed as it is.
pub open spec fn literal_step(v: ValueView, st: StackView) -> Option<StackView> {
    match v {
        ValueView::Text(t) => match interpolate(t.content, st.scope) {
            Some(c) => Some(
                with_data(
                    st,
                    st.data.push(ValueView::Text(TextView { content: c, font_size: t.font_size, tag: t.tag })),
                ),
            ),
            None => None,
        },
        _ => Some(with_data(st, st.data.push(v))),
    }
}

pub open spec fn retag(t: TextView, tag: TagView) -> ValueView {
    ValueView::Text(TextView { content: t.content, font_size: t.font_size, tag: tag })
}

/// One command run on `st`; `None` where its operands are missing or of the
/// wrong kind, or where `load` names nothing bound.
pub open spec fn command_step(c: Command, st: StackView) -> Option<StackView> {
    let d = st.data;
    let n = d.len();
    match c {
        Command::Heading => if n >= 2 {
            match (d[n - 1], d[n - 2]) {
                (ValueView::Integer(l), ValueView::Text(t)) => Some(
                    with_data(st, d.take(n - 2).push(retag(t, TagView::Heading(l)))),
                ),
                _ => None,
            }
        } else {
            None
        },
        Command::FontSize => if n >= 2 {
            match (d[n - 1], d[n - 2]) {
                (ValueView::Integer(size), ValueView::Text(t)) => Some(
                    with_data(
                        st,
                        d.take(n - 2).push(
                            ValueView::Text(TextView { content: t.content, font_size: Some(size), tag: t.tag }),
                        ),
                    ),
                ),
                _ => None,
            }
        } else {
            None
        },
        Command::Link => if n >= 2 {
            match (d[n - 1], d[n - 2]) {
                (ValueView::Link(url), ValueView::Text(t)) => Some(
                    with_data(st, d.take(n - 2).push(retag(t, TagView::Link(url)))),
                ),
                _ => None,
            }
        } else {
            None
        },
        Command::BlockQuote => if n >= 1 {
            match d[n - 1] {
                ValueView::Text(t) => Some(with_data(st, d.take(n - 1).push(retag(t, TagView::BlockQuote)))),
                _ => None,
            }
        } else {
            None
        },
        Command::Image => if n >= 1 {
            match d[n - 1] {
                ValueView::Link(url) => Some(
                    with_data(
                        st,
                        d.take(n - 1).push(
                            ValueView::Text(TextView { content: seq![], font_size: None, tag: TagView::Image(url) }),
                        ),
                    ),
                ),
                _ => None,
            }
        } else {
            None
        },
        Command::List => if n >= 1 {
            match d[n - 1] {
                ValueView::Text(t) => Some(with_data(st, d.take(n - 1).push(retag(t, TagView::List)))),
                _ => None,
            }
        } else {
            None
        },
        Command::Title => if n >= 1 {
            match d[n - 1] {
                ValueView::Text(t) => Some(
                    StackView { data: d.take(n - 1), scope: st.scope, title: Some(t.content), theme: st.theme },
                ),
                _ => None,
            }
        } else {
            None
        },
        Command::Theme => if n >= 1 {
            match d[n - 1] {
                ValueView::Text(t) => Some(
                    StackView { data: d.take(n - 1), scope: st.scope, title: st.title, theme: Some(t.content) },
                ),
                _ => None,
            }
        } else {
            None
        },
        Command::Load => if n >= 1 {
            match d[n - 1] {
                ValueView::Symbol(name) => match lookup(st.scope, name) {
                    Some(v) => Some(with_data(st, d.take(n - 1).push(v))),
                    None => None,
                },
                _ => None,
            }
        } else {
            None
        },
        Command::Store => if n >= 2 {
            match d[n - 1] {
                ValueView::Symbol(name) => Some(
                    StackView {
                        data: d.take(n - 2),
                        scope: st.scope.push((name, d[n - 2])),
                        title: st.title,
                        theme: st.theme,
                    },
                ),
                _ => None,
            }
        } else {
            None
        },
        Command::Concat => if n >= 2 {
            match (d[n - 1], d[n - 2]) {
                (ValueView::Text(b), ValueView::Text(a)) => Some(
                    with_data(
                        st,
                        d.take(n - 2).push(
                            ValueView::Text(TextView { content: a.content + b.content, font_size: a.font_size, tag: a.tag }),
                        ),
                    ),
                ),
                _ => None,
            }
        } else {
            None
        },
        Command::Dup => if n >= 1 {
            Some(with_data(st, d.push(d[n - 1])))
        } else {
            None
        },
        Command::Swap => if n >= 2 {
            Some(with_data(st, d.take(n - 2).push(d[n - 1]).push(d[n - 2])))
        } else {
            None
        },
        Command::Pop => if n >= 1 {
            Some(with_data(st, d.take(n - 1)))
        } else {
            None
        },
    }
}

pub open spec fn node_step(node: NodeView, st: StackView) -> Option<StackView> {
    match node {
        NodeView::Literal(v) => literal_step(v, st),
        NodeView::Command(c) => command_step(c, st),
    }
}

/// The nodes run in order from `st`, stopping at the first failure.
pub open spec fn run_nodes(st: StackView, nodes: Seq<NodeView>) -> Option<StackView>
    decreases nodes.len(),
{
    if nodes.len() == 0 {
        Some(st)
    } else {
        match run_nodes(st, nodes.drop_last()) {
            Some(s) => node_step(nodes.last(), s),
            None => None,
        }
    }
}

impl Stack {
    /// The empty state that a compilation starts from.
    pub fn new() -> (r: Stack)
        ensures
            r@ == empty_stack(),
    {
        let r = Stack { data: Vec::new(), scope: Vec::new(), title: None, theme: None };
        proof {
            assert(values_view(r.data@) =~= seq![]);
            assert(bindings_view(r.scope@) =~= seq![]);
        }
        r
    }

    /// The value bound to `name`, if any.
    pub fn find(&self, name: &str) -> (r: Option<&Value>)
        ensures
            match r {
                Some(v) => lookup(self@.scope, name@) == Some(v@),
                None => lookup(self@.scope, name@) is None,
            },
    {
        let mut i: usize = self.scope.len();
        proof {
            assert(self@.scope.take(i as int) =~= self@.scope);
        }
        while i > 0
            invariant
                i <= self.scope@.len(),
                lookup(self@.scope, name@) == lookup(self@.scope.take(i as int), name@),
            decreases i,
        {
            let ghost prefix = self@.scope.take(i as int);
            proof {
                assert(prefix.drop_last() =~= self@.scope.take(i - 1));
                assert(prefix.last() == (self.scope@[i - 1].name@, self.scope@[i - 1].value@));
            }
            if same_text(self.scope[i - 1].name.as_str(), name) {
                return Some(&self.scope[i - 1].value);
            }
            i = i - 1;
        }
        None
    }
}

fn pop_value(data: &mut Vec<Value>) -> (r: Option<Value>)
    ensures
        old(data)@.len() > 0 ==> r == Some(old(data)@.last()) && values_view(final(data)@)
            == values_view(old(data)@).drop_last(),
        old(data)@.len() == 0 ==> r is None,
{
    let r = data.pop();
    proof {
        if old(data)@.len() > 0 {
            assert(values_view(data@) =~= values_view(old(data)@).drop_last());
        }
    }
    r
}

fn push_value(data: &mut Vec<Value>, v: Value)
    ensures
        values_view(final(data)@) == values_view(old(data)@).push(v@),
{
    data.push(v);
    proof {
        assert(values_view(data@) =~= values_view(old(data)@).push(v@));
    }
}

impl Command {
    /// Runs the command on the stack; `None` where its operands are missing
    /// or of the wrong kind, or where `load` names nothing bound.
    pub fn eval(&self, stack: &mut Stack) -> (r: Option<()>)
        ensures
            match command_step(*self, old(stack)@) {
                Some(s) => r is Some && final(stack)@ == s,
                None => r is None,
            },
    {
        let ghost d = old(stack)@.data;
        let ghost n = d.len();
        proof {
            if n >= 2 {
                assert(d.drop_last().drop_last() =~= d.take(n - 2));
                assert(d.drop_last().last() == d[n - 2]);
            }
            if n >= 1 {
                assert(d.drop_last() =~= d.take(n - 1));
            }
        }
        match self {
            Command::Heading => {
                let level = match pop_value(&mut stack.data) {
                    Some(Value::Integer(l)) => l,
                    _ => return None,
                };
                let mut text = match pop_value(&mut stack.data) {
                    Some(Value::Text(t)) => t,
                    _ => return None,
                };
                text.tag = HTMLTag::Heading(level);
                push_value(&mut stack.data, Value::Text(text));
            },
            Command::FontSize => {
                let size = match pop_value(&mut stack.data) {
                    Some(Value::Integer(l)) => l,
                    _ => return None,
                };
                let mut text = match pop_value(&mut stack.data) {
                    Some(Value::Text(t)) => t,
                    _ => return None,
                };
                text.font_size = Some(size);
                push_value(&mut stack.data, Value::Text(text));
            },
            Command::Link => {
                let url = match pop_value(&mut stack.data) {
                    Some(Value::Link(u)) => u,
                    _ => return None,
                };
                let mut text = match pop_value(&mut stack.data) {
                    Some(Value::Text(t)) => t,
                    _ => return None,
                };
                text.tag = HTMLTag::Link(url);
                push_value(&mut stack.data, Value::Text(text));
            },
            Command::BlockQuote => {
                let mut text = match pop_value(&mut stack.data) {
                    Some(Value::Text(t)) => t,
                    _ => return None,
                };
                text.tag = HTMLTag::BlockQuote;
                push_value(&mut stack.data, Value::Text(text));
            },
            Command::Image => {
                let url = match pop_value(&mut stack.data) {
                    Some(Value::Link(u)) => u,
                    _ => return None,
                };
                let text = Text { content: String::new(), font_size: None, tag: HTMLTag::Image(url) };
                push_value(&mut stack.data, Value::Text(text));
            },
            Command::List => {
                let mut text = match pop_value(&mut stack.data) {
                    Some(Value::Text(t)) => t,
                    _ => return None,
                };
                text.tag = HTMLTag::List;
                push_value(&mut stack.data, Value::Text(text));
            },
            Command::Title => {
                let text = match pop_value(&mut stack.data) {
                    Some(Value::Text(t)) => t,
                    _ => return None,
                };
                stack.title = Some(text.content);
            },
            Command::Theme => {
                let text = match pop_value(&mut stack.data) {
                    Some(Value::Text(t)) => t,
                    _ => return None,
                };
                stack.theme = Some(text.content);
            },
            Command::Load => {
                let name = match pop_value(&mut stack.data) {
                    Some(Value::Symbol(s)) => s,
                    _ => return None,
                };
                let value = match stack.find(name.as_str()) {
                    Some(v) => v.clone(),
                    None => return None,
                };
                push_value(&mut stack.data, value);
            },
            Command::Store => {
                let name = match pop_value(&mut stack.data) {
                    Some(Value::Symbol(s)) => s,
                    _ => return None,
                };
                let value = match pop_value(&mut stack.data) {
                    Some(v) => v,
                    None => return None,
                };
                let ghost before = stack.scope@;
                stack.scope.push(Binding { name, value });
                proof {
                    assert(bindings_view(stack.scope@) =~= bindings_view(before).push((name@, value@)));
                }
            },
            Command::Concat => {
                let second = match pop_value(&mut stack.data) {
                    Some(Value::Text(t)) => t,
                    _ => return None,
                };
                let mut first = match pop_value(&mut stack.data) {
                    Some(Value::Text(t)) => t,
                    _ => return None,
                };
                first.content.append(second.content.as_str());
                push_value(&mut stack.data, Value::Text(first));
            },
            Command::Dup => {
                let value = match pop_value(&mut stack.data) {
                    Some(v) => v,
                    None => return None,
                };
                push_value(&mut stack.data, value.clone());
                push_value(&mut stack.data, value);
                proof {
                    assert(d.drop_last().push(d[n - 1]).push(d[n - 1]) =~= d.push(d[n - 1]));
                }
            },
            Command::Swap => {
                let top = match pop_value(&mut stack.data) {
                    Some(v) => v,
                    None => return None,
                };
                let below = match pop_value(&mut stack.data) {
                    Some(v) => v,
                    None => return None,
                };
                push_value(&mut stack.data, top);
                push_value(&mut stack.data, below);
            },
            Command::Pop => {
                match pop_value(&mut stack.data) {
                    Some(_) => {},
                    None => return None,
                }
            },
        }
        Some(())
    }
}

proof fn lemma_resolve_prefix_fails(toks: Seq<Seq<char>>, k: int, scope: Seq<(Seq<char>, ValueView)>)
    requires
        0 <= k <= toks.len(),
        resolve_all(toks.take(k), scope) is None,
    ensures
        resolve_all(toks, scope) is None,
    decreases toks.len() - k,
{
    if k < toks.len() {
        assert(toks.take(k + 1).drop_last() =~= toks.take(k));
        lemma_resolve_prefix_fails(toks, k + 1, scope);
    } else {
        assert(toks.take(k) =~= toks);
    }
}

/// The content of a text literal with its `@name` tokens replaced from the
/// stack's scope.
fn interpolate_text(stack: &Stack, content: &str) -> (r: Option<String>)
    ensures
        match r {
            Some(c) => interpolate(content@, stack@.scope) == Some(c@),
            None => interpolate(content@, stack@.scope) is None,
        },
{
    let tokens = match tokenize(content) {
        Some(t) => t,
        None => return None,
    };
    let ghost toks = string_views(tokens@);
    let ghost scope = stack@.scope;
    let ghost mut parts: Seq<Seq<char>> = seq![];
    let mut out = String::new();
    let mut first = true;
    let mut i: usize = 0;
    proof {
        assert(toks.take(0) =~= seq![]);
    }
    while i < tokens.len()
        invariant
            i <= tokens@.len(),
            toks == string_views(tokens@),
            tokens_of(content@) == Some(toks),
            scope == stack@.scope,
            resolve_all(toks.take(i as int), scope) == Some(parts),
            first == (parts.len() == 0),
            out@ == join(parts, seq![' ']),
        decreases tokens@.len() - i,
    {
        let tok = trim(tokens[i].as_str());
        proof {
            assert(toks.take(i + 1).drop_last() =~= toks.take(i as int));
            assert(toks.take(i + 1).last() == tokens@[i as int]@);
        }
        if tok.is_empty() {
            i = i + 1;
            continue;
        }
        let piece: String = if tok.get_char(0) == '@' {
            let name = tok.substring_char(1, tok.unicode_len());
            proof {
                assert(name@ =~= tok@.skip(1));
            }
            match stack.find(name) {
                Some(v) => v.to_string(),
                None => {
                    proof {
                        assert(resolve_token(tok@, scope) is None);
                        assert(resolve_all(toks.take(i + 1), scope) is None);
                        lemma_resolve_prefix_fails(toks, i + 1, scope);
                    }
                    return None;
                },
            }
        } else {
            tok.to_owned()
        };
        let ghost before = out@;
        if !first {
            push_char(&mut out, ' ');
        }
        out.append(piece.as_str());
        proof {
            let next = parts.push(piece@);
            assert(next.drop_last() =~= parts);
            if first {
                assert(out@ =~= piece@);
            } else {
                assert(out@ =~= before + seq![' '] + piece@);
            }
            parts = next;
        }
        first = false;
        i = i + 1;
    }
    proof {
        assert(toks.take(i as int) =~= toks);
    }
    Some(out)
}

impl Value {
    /// Pushes the literal: a text is interpolated against the current scope
    /// first, any other value is pushed as it is.
    pub fn eval(&self, stack: &mut Stack) -> (r: Option<()>)
        ensures
            match literal_step(self@, old(stack)@) {
                Some(s) => r is Some && final(stack)@ == s,
                None => r is None && final(stack)@ == old(stack)@,
            },
    {
        match self {
            Value::Text(text) => {
                let content = match interpolate_text(stack, text.content.as_str()) {
                    Some(c) => c,
                    None => return None,
                };
                let value = Value::Text(Text { content, font_size: text.font_size, tag: text.tag.clone() });
                push_value(&mut stack.data, value);
            },
            _ => push_value(&mut stack.data, self.clone()),
        }
        Some(())
    }
}

impl Node {
    /// Runs one node on the stack.
    pub fn eval(&self, stack: &mut Stack) -> (r: Option<()>)
        ensures
            match node_step(self@, old(stack)@) {
                Some(s) => r is Some && final(stack)@ == s,
                None => r is None,
            },
    {
        match self {
            Node::Literal(value) => value.eval(stack),
            Node::Command(command) => command.eval(stack),
        }
    }
}

/// Whether the stack holds what the command needs: enough operands, each of
/// the kind it takes, and for `load` a binding of the name.
pub open spec fn operands_fit(c: Command, st: StackView) -> bool {
    let d = st.data;
    let n = d.len();
    match c {
        Command::Heading | Command::FontSize => n >= 2 && d[n - 1] is Integer && d[n - 2] is Text,
        Command::Link => n >= 2 && d[n - 1] is Link && d[n - 2] is Text,
        Command::BlockQuote | Command::List | Command::Title | Command::Theme => n >= 1 && d[n - 1] is Text,
        Command::Image => n >= 1 && d[n - 1] is Link,
        Command::Load => n >= 1 && d[n - 1] is Symbol && lookup(st.scope, d[n - 1]->Symbol_0) is Some,
        Command::Store => n >= 2 && d[n - 1] is Symbol,
        Command::Concat => n >= 2 && d[n - 1] is Text && d[n - 2] is Text,
        Command::Dup | Command::Pop => n >= 1,
        Command::Swap => n >= 2,
    }
}

/// A command fails exactly where its operands do not fit.
pub proof fn lemma_command_fails_iff(c: Command, st: StackView)
    ensures
        command_step(c, st) is None <==> !operands_fit(c, st),
{
}

pub open spec fn symbol_node(name: Seq<char>) -> NodeView {
    NodeView::Literal(ValueView::Symbol(name))
}

pub proof fn lemma_run_append(st: StackView, a: Seq<NodeView>, b: Seq<NodeView>)
    ensures
        run_nodes(st, a + b) == match run_nodes(st, a) {
            Some(s) => run_nodes(s, b),
            None => None,
        },
    decreases b.len(),
{
    if b.len() == 0 {
        assert(a + b =~= a);
    } else {
        assert((a + b).drop_last() =~= a + b.drop_last());
        lemma_run_append(st, a, b.drop_last());
    }
}

proof fn lemma_run_two(st: StackView, x: NodeView, y: NodeView)
    ensures
        run_nodes(st, seq![x, y]) == match node_step(x, st) {
            Some(s) => node_step(y, s),
            None => None,
        },
{
    assert(seq![x, y].drop_last() =~= seq![x]);
    assert(seq![x].drop_last() =~= seq![]);
    assert(run_nodes(st, seq![]) == Some(st));
    assert(run_nodes(st, seq![x]) == node_step(x, st));
}

/// Whether `node`, run on `st`, is a `store` under `name`.
pub open spec fn stores_to(node: NodeView, st: StackView, name: Seq<char>) -> bool {
    node == NodeView::Command(Command::Store) && st.data.len() >= 1 && st.data.last()
        == ValueView::Symbol(name)
}

/// Whether no node of `nodes`, run in order from `st`, stores under `name`.
pub open spec fn never_stores_to(st: StackView, nodes: Seq<NodeView>, name: Seq<char>) -> bool {
    forall|k: int|
        0 <= k < nodes.len() && #[trigger] run_nodes(st, nodes.take(k)) is Some ==> !stores_to(
            nodes[k],
            run_nodes(st, nodes.take(k))->0,
            name,
        )
}

/// Nodes that do not store under `name` leave what `name` is bound to as it was.
proof fn lemma_run_keeps_binding(st: StackView, nodes: Seq<NodeView>, name: Seq<char>)
    requires
        never_stores_to(st, nodes, name),
        run_nodes(st, nodes) is Some,
    ensures
        lookup(run_nodes(st, nodes)->0.scope, name) == lookup(st.scope, name),
    decreases nodes.len(),
{
    if nodes.len() > 0 {
        let u = nodes.drop_last();
        assert(never_stores_to(st, u, name)) by {
            assert forall|k: int|
                0 <= k < u.len() && #[trigger] run_nodes(st, u.take(k)) is Some implies !stores_to(
                u[k],
                run_nodes(st, u.take(k))->0,
                name,
            ) by {
                assert(u.take(k) =~= nodes.take(k));
                assert(u[k] == nodes[k]);
            }
        }
        lemma_run_keeps_binding(st, u, name);
        let k = u.len() as int;
        assert(nodes.take(k) =~= u);
        assert(run_nodes(st, nodes.take(k)) is Some);
        assert(nodes.last() == nodes[k]);
        let s = run_nodes(st, u)->0;
        if nodes.last() == NodeView::Command(Command::Store) {
            let other = s.data.last()->Symbol_0;
            assert(other != name);
            let sc = s.scope.push((other, s.data[s.data.len() - 2]));
            assert(sc.drop_last() =~= s.scope);
        }
    }
}

/// A value stored under a name is what a later `load` of that name pushes,
/// whatever nodes run in between, as long as none of them stores under that
/// same name.
pub proof fn lemma_store_then_load(st: StackView, name: Seq<char>, mid: Seq<NodeView>)
    requires
        run_nodes(st, seq![symbol_node(name), NodeView::Command(Command::Store)] + mid) is Some,
        never_stores_to(
            run_nodes(st, seq![symbol_node(name), NodeView::Command(Command::Store)])->0,
            mid,
            name,
        ),
    ensures
        ({
            let all = seq![symbol_node(name), NodeView::Command(Command::Store)] + mid + seq![
                symbol_node(name),
                NodeView::Command(Command::Load),
            ];
            &&& st.data.len() >= 1
            &&& run_nodes(st, all) is Some
            &&& run_nodes(st, all)->0.data.last() == st.data.last()
        }),
{
    let head = seq![symbol_node(name), NodeView::Command(Command::Store)];
    let tail = seq![symbol_node(name), NodeView::Command(Command::Load)];
    lemma_run_two(st, symbol_node(name), NodeView::Command(Command::Store));
    lemma_run_append(st, head, mid);
    let s1 = run_nodes(st, head)->0;
    assert(s1.scope == st.scope.push((name, st.data.last())));
    lemma_run_keeps_binding(s1, mid, name);
    let s2 = run_nodes(s1, mid)->0;
    lemma_run_append(st, head + mid, tail);
    lemma_run_two(s2, symbol_node(name), NodeView::Command(Command::Load));
    assert(lookup(s2.scope, name) == Some(st.data.last()));
    let pushed = with_data(s2, s2.data.push(ValueView::Symbol(name)));
    assert(pushed.data.drop_last() =~= s2.data);
}

pub open spec fn text_node(t: TextView) -> NodeView {
    NodeView::Literal(ValueView::Text(t))
}

/// A text literal is interpolated against the scope as it stands when the
/// literal runs; bindings made by the nodes after it play no part in it.
pub proof fn lemma_interpolation_uses_current_scope(st: StackView, t: TextView, rest: Seq<NodeView>)
    ensures
        run_nodes(st, seq![text_node(t)] + rest) == match interpolate(t.content, st.scope) {
            Some(c) => run_nodes(
                with_data(
                    st,
                    st.data.push(ValueView::Text(TextView { content: c, font_size: t.font_size, tag: t.tag })),
                ),
                rest,
            ),
            None => None,
        },
{
    lemma_run_append(st, seq![text_node(t)], rest);
    assert(seq![text_node(t)].drop_last() =~= seq![]);
    assert(run_nodes(st, seq![]) == Some(st));
}

/// A text literal with a token that, trimmed, refers to a name with no
/// binding yet fails the run, whatever the nodes after it would bind.
pub proof fn lemma_unbound_reference_fails(
    st: StackView,
    t: TextView,
    rest: Seq<NodeView>,
    i: int,
    name: Seq<char>,
)
    requires
        tokens_of(t.content) is Some,
        0 <= i < tokens_of(t.content)->0.len(),
        trimmed(tokens_of(t.content)->0[i]) == seq!['@'] + name,
        lookup(st.scope, name) is None,
    ensures
        run_nodes(st, seq![text_node(t)] + rest) is None,
{
    let toks = tokens_of(t.content)->0;
    assert(toks.take(i + 1).drop_last() =~= toks.take(i));
    assert(toks.take(i + 1).last() == toks[i]);
    assert((seq!['@'] + name).skip(1) =~= name);
    assert(resolve_token(trimmed(toks[i]), st.scope) is None);
    assert(resolve_all(toks.take(i + 1), st.scope) is None);
    lemma_resolve_prefix_fails(toks, i + 1, st.scope);
    lemma_interpolation_uses_current_scope(st, t, rest);
}

} // verus!
