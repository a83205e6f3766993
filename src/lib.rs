//! A small stack language that assembles a static HTML document: source text
//! is split into tokens, classified into literals and commands, run on a stack
//! machine, and the texts left on the stack are rendered into a page.
use vstd::prelude::*;

pub mod text;
pub mod lexer;
pub mod value;
pub mod machine;
pub mod html;

use crate::html::{document, generate};
use crate::lexer::{string_views, tokenize, tokens_of};
use crate::machine::{empty_stack, lemma_command_fails_iff, operands_fit, run_nodes, Stack, StackView};
use crate::text::{trim, trimmed};
use crate::value::{node_of, Command, Node, NodeView};

verus! {

/// The nodes that the tokens stand for, blank tokens skipped; `None` where a
/// token stands for nothing.
pub open spec fn nodes_of(toks: Seq<Seq<char>>) -> Option<Seq<NodeView>>
    decreases toks.len(),
{
    if toks.len() == 0 {
        Some(seq![])
    } else {
        match nodes_of(toks.drop_last()) {
            Some(ns) => {
                let t = trimmed(toks.last());
                if t.len() == 0 {
                    Some(ns)
                } else {
                    match node_of(t) {
                        Some(n) => Some(ns.push(n)),
                        None => None,
                    }
                }
            },
            None => None,
        }
    }
}

/// The nodes of a program's source text, if it tokenizes and every token
/// classifies.
pub open spec fn program(source: Seq<char>) -> Option<Seq<NodeView>> {
    match tokens_of(source) {
        Some(toks) => nodes_of(toks),
        None => None,
    }
}

/// The document that a program's source text compiles to, if any.
pub open spec fn compile(source: Seq<char>) -> Option<Seq<char>> {
    match program(source) {
        Some(ns) => match run_nodes(empty_stack(), ns) {
            Some(st) => document(st),
            None => None,
        },
        None => None,
    }
}

pub open spec fn node_views(v: Seq<Node>) -> Seq<NodeView> {
    v.map_values(|n: Node| n@)
}

proof fn lemma_nodes_prefix_fails(toks: Seq<Seq<char>>, k: int)
    requires
        0 <= k <= toks.len(),
        nodes_of(toks.take(k)) is None,
    ensures
        nodes_of(toks) is None,
    decreases toks.len() - k,
{
    if k < toks.len() {
        assert(toks.take(k + 1).drop_last() =~= toks.take(k));
        lemma_nodes_prefix_fails(toks, k + 1);
    } else {
        assert(toks.take(k) =~= toks);
    }
}

/// A failure part way through a run is a failure of the whole run.
pub proof fn lemma_run_prefix_fails(st: StackView, nodes: Seq<NodeView>, k: int)
    requires
        0 <= k <= nodes.len(),
        run_nodes(st, nodes.take(k)) is None,
    ensures
        run_nodes(st, nodes) is None,
    decreases nodes.len() - k,
{
    if k < nodes.len() {
        assert(nodes.take(k + 1).drop_last() =~= nodes.take(k));
        lemma_run_prefix_fails(st, nodes, k + 1);
    } else {
        assert(nodes.take(k) =~= nodes);
    }
}

/// A command whose operands do not fit, in number or in kind, fails the
/// whole compilation, whatever comes before or after it.
pub proof fn lemma_unfit_command_fails(source: Seq<char>, k: int, c: Command)
    requires
        program(source) is Some,
        0 <= k < program(source)->0.len(),
        program(source)->0[k] == NodeView::Command(c),
        run_nodes(empty_stack(), program(source)->0.take(k)) is Some,
        !operands_fit(c, run_nodes(empty_stack(), program(source)->0.take(k))->0),
    ensures
        compile(source) is None,
{
    let ns = program(source)->0;
    let s = run_nodes(empty_stack(), ns.take(k))->0;
    lemma_command_fails_iff(c, s);
    assert(ns.take(k + 1).drop_last() =~= ns.take(k));
    assert(ns.take(k + 1).last() == ns[k]);
    lemma_run_prefix_fails(empty_stack(), ns, k + 1);
}

/// Compiles source text into an HTML document; `None` on any failure.
pub fn stav(source: &str) -> (r: Option<String>)
    ensures
        match r {
            Some(h) => compile(source@) == Some(h@),
            None => compile(source@) is None,
        },
{
    let tokens = match tokenize(source) {
        Some(t) => t,
        None => return None,
    };
    let ghost toks = string_views(tokens@);
    let mut nodes: Vec<Node> = Vec::new();
    let mut i: usize = 0;
    proof {
        assert(toks.take(0) =~= seq![]);
        assert(node_views(nodes@) =~= seq![]);
    }
    while i < tokens.len()
        invariant
            i <= tokens@.len(),
            toks == string_views(tokens@),
            tokens_of(source@) == Some(toks),
            nodes_of(toks.take(i as int)) == Some(node_views(nodes@)),
        decreases tokens@.len() - i,
    {
        proof {
            assert(toks.take(i + 1).drop_last() =~= toks.take(i as int));
            assert(toks.take(i + 1).last() == tokens@[i as int]@);
        }
        let token = trim(tokens[i].as_str());
        if !token.is_empty() {
            match Node::parse(token) {
                Some(node) => {
                    let ghost before = nodes@;
                    nodes.push(node);
                    proof {
                        assert(node_views(nodes@) =~= node_views(before).push(node@));
                    }
                },
                None => {
                    proof {
                        lemma_nodes_prefix_fails(toks, i + 1);
                    }
                    return None;
                },
            }
        }
        i = i + 1;
    }
    proof {
        assert(toks.take(i as int) =~= toks);
    }
    let ghost ns = node_views(nodes@);
    let mut stack = Stack::new();
    let mut j: usize = 0;
    proof {
        assert(ns.take(0) =~= seq![]);
    }
    while j < nodes.len()
        invariant
            j <= nodes@.len(),
            ns == node_views(nodes@),
            program(source@) == Some(ns),
            run_nodes(empty_stack(), ns.take(j as int)) == Some(stack@),
        decreases nodes@.len() - j,
    {
        proof {
            assert(ns.take(j + 1).drop_last() =~= ns.take(j as int));
            assert(ns.take(j + 1).last() == nodes@[j as int]@);
        }
        match nodes[j].eval(&mut stack) {
            Some(()) => {},
            None => {
                proof {
                    lemma_run_prefix_fails(empty_stack(), ns, j + 1);
                }
                return None;
            },
        }
        j = j + 1;
    }
    proof {
        assert(ns.take(j as int) =~= ns);
    }
    generate(stack)
}

} // verus!
