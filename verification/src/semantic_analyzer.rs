//! Scope resolution and HTML emission, in one depth-first walk of the tree.

use vstd::prelude::*;
use vstd::hash_map::StringHashMap;
use crate::ast::{nodes_of, Node, AST};
use crate::error::{CompileError, Fault};

verus! {

/// One block's bindings: variable name to literal text.
pub type Scope = Map<Seq<char>, Seq<char>>;

/// The value that `name` has with the given scopes open, the innermost last:
/// that of the innermost scope that binds it.
pub open spec fn resolve(scopes: Seq<Scope>, name: Seq<char>) -> Option<Seq<char>>
    decreases scopes.len(),
{
    if scopes.len() == 0 {
        None
    } else if scopes.last().contains_key(name) {
        Some(scopes.last()[name])
    } else {
        resolve(scopes.drop_last(), name)
    }
}

/// The scopes after `name` is bound to `value` in the innermost one. With no
/// scope open there is nowhere to bind, and nothing changes.
pub open spec fn bind(scopes: Seq<Scope>, name: Seq<char>, value: Seq<char>) -> Seq<Scope> {
    if scopes.len() == 0 {
        scopes
    } else {
        scopes.update(scopes.len() - 1, scopes.last().insert(name, value))
    }
}

/// The outcome of walking part of a tree.
pub struct Walk {
    /// The scopes open after the walk.
    pub scopes: Seq<Scope>,
    /// The HTML emitted: all of it, or what was emitted before the walk
    /// stopped.
    pub html: Seq<char>,
    /// The first variable used with no binding in reach, if there is one.
    /// The walk stops there.
    pub missing: Option<Seq<char>>,
}

/// A walk that emitted `html` and left the scopes as they are.
pub open spec fn emitted(scopes: Seq<Scope>, html: Seq<char>) -> Walk {
    Walk { scopes, html, missing: None }
}

/// `inner`, with `open` emitted before it and, if it did not stop, `close`
/// after it.
pub open spec fn wrapped(open: Seq<char>, inner: Walk, close: Seq<char>) -> Walk {
    Walk {
        scopes: inner.scopes,
        html: if inner.missing is None {
            open + inner.html + close
        } else {
            open + inner.html
        },
        missing: inner.missing,
    }
}

/// A block: its children are walked in a scope of their own, which is gone
/// when the block ends, whether a variable was missing or not.
pub open spec fn enclosed(scopes: Seq<Scope>, open: Seq<char>, inner: Walk, close: Seq<char>) -> Walk {
    Walk { scopes, ..wrapped(open, inner, close) }
}

/// The depth-first walk of one node: the bindings it leaves and the HTML it
/// emits. Substituted values are emitted as they were bound, unescaped.
pub open spec fn walk(node: Node, scopes: Seq<Scope>) -> Walk
    decreases node,
{
    match node {
        Node::Program(parts) => wrapped("<html>\n"@, walk_all(parts, scopes), "</html>\n"@),
        Node::Comment(text) => emitted(scopes, "<!-- "@ + text + " -->\n"@),
        Node::Head(title) => emitted(scopes, "<head>\n<title>"@ + title + "</title>\n</head>\n"@),
        Node::Paragraph(items) => enclosed(
            scopes,
            "<p>"@,
            walk_all(items, scopes.push(Map::empty())),
            "</p>\n"@,
        ),
        Node::List(items) => enclosed(
            scopes,
            "<ul>\n"@,
            walk_all(items, scopes.push(Map::empty())),
            "</ul>\n"@,
        ),
        Node::ListItem(items) => enclosed(
            scopes,
            "<li>"@,
            walk_all(items, scopes.push(Map::empty())),
            "</li>\n"@,
        ),
        Node::Bold(text) => emitted(scopes, "<b>"@ + text + "</b>"@),
        Node::Italics(text) => emitted(scopes, "<i>"@ + text + "</i>"@),
        Node::Audio(url) => emitted(
            scopes,
            "<audio controls>\n<source src=\""@ + url + "\">\n</audio>"@,
        ),
        Node::Video(url) => emitted(scopes, "<iframe src=\""@ + url + "\"></iframe>\n"@),
        Node::Newline => emitted(scopes, "<br>\n"@),
        Node::Text(word) => emitted(
            scopes,
            if word.len() == 0 {
                word
            } else {
                word + " "@
            },
        ),
        Node::VarDefine(name, value) => emitted(bind(scopes, name, value), Seq::empty()),
        Node::VarUse(name) => match resolve(scopes, name) {
            Some(value) => emitted(scopes, value),
            None => Walk { scopes, html: Seq::empty(), missing: Some(name) },
        },
    }
}

/// The walk of a run of nodes, first to last, each in the scopes that the
/// one before left. It stops at the first missing variable.
pub open spec fn walk_all(nodes: Seq<Node>, scopes: Seq<Scope>) -> Walk
    decreases nodes,
{
    if nodes.len() == 0 {
        emitted(scopes, Seq::empty())
    } else {
        let head = walk(nodes.first(), scopes);
        if head.missing is Some {
            head
        } else {
            wrapped(head.html, walk_all(nodes.drop_first(), head.scopes), Seq::empty())
        }
    }
}

/// The outcome of a whole traversal that starts with no scope open: the HTML,
/// or the first variable that no enclosing block binds.
pub open spec fn generated(root: Node, scopes: Seq<Scope>) -> Result<Seq<char>, Fault> {
    let w = walk(root, scopes.push(Map::empty()));
    match w.missing {
        Some(name) => Err(Fault::Semantic { name }),
        None => Ok(w.html),
    }
}

/// Whether a traversal's result says what the walk found: success where no
/// variable was missing, else the semantic fault that names the first one.
pub open spec fn reports<T>(result: Result<T, CompileError>, w: Walk) -> bool {
    match result {
        Ok(_) => w.missing is None,
        Err(e) => w.missing is Some && e@ == (Fault::Semantic { name: w.missing->0 }),
    }
}

/// A walk opens and closes scopes in pairs and binds in the innermost scope
/// only: as many scopes are open after it as before, and every scope but the
/// innermost is as it was.
pub proof fn lemma_walk_frame(node: Node, scopes: Seq<Scope>)
    ensures
        walk(node, scopes).scopes.len() == scopes.len(),
        scopes.len() > 0 ==> walk(node, scopes).scopes.drop_last() == scopes.drop_last(),
    decreases node,
{
    match node {
        Node::Program(parts) => {
            lemma_walk_all_frame(parts, scopes);
        },
        Node::VarDefine(name, value) => {
            if scopes.len() > 0 {
                assert(bind(scopes, name, value).drop_last() =~= scopes.drop_last());
            }
        },
        _ => {},
    }
}

/// The same of a run of nodes.
pub proof fn lemma_walk_all_frame(nodes: Seq<Node>, scopes: Seq<Scope>)
    ensures
        walk_all(nodes, scopes).scopes.len() == scopes.len(),
        scopes.len() > 0 ==> walk_all(nodes, scopes).scopes.drop_last() == scopes.drop_last(),
    decreases nodes,
{
    if nodes.len() > 0 {
        let head = walk(nodes.first(), scopes);
        lemma_walk_frame(nodes.first(), scopes);
        if head.missing is None {
            lemma_walk_all_frame(nodes.drop_first(), head.scopes);
        }
    }
}

/// A name bound in the innermost scope resolves to the value bound there,
/// whatever the scopes around it hold.
pub proof fn lemma_bound_name_resolves(scopes: Seq<Scope>, name: Seq<char>, value: Seq<char>)
    requires
        scopes.len() > 0,
    ensures
        resolve(bind(scopes, name, value), name) == Some(value),
{
}

/// A fresh scope hides nothing and adds nothing: names resolve in it as they
/// do outside.
pub proof fn lemma_fresh_scope_is_transparent(scopes: Seq<Scope>, name: Seq<char>)
    ensures
        resolve(scopes.push(Map::empty()), name) == resolve(scopes, name),
{
    assert(scopes.push(Map::empty()).drop_last() =~= scopes);
}

/// The walk of a run of one node is the walk of that node.
pub proof fn lemma_walk_single(node: Node, scopes: Seq<Scope>)
    ensures
        walk_all(seq![node], scopes).scopes == walk(node, scopes).scopes,
        walk_all(seq![node], scopes).missing == walk(node, scopes).missing,
        walk_all(seq![node], scopes).html == walk(node, scopes).html,
{
    let run = seq![node];
    assert(run.first() == node);
    assert(run.drop_first() =~= Seq::<Node>::empty());
    let head = walk(node, scopes);
    if head.missing is None {
        assert(walk_all(run.drop_first(), head.scopes) == emitted(head.scopes, Seq::empty()));
        assert(head.html + Seq::<char>::empty() + Seq::<char>::empty() =~= head.html);
    }
}

/// The walk of a node followed by a run, where the node misses no variable:
/// the run is walked in the scopes that the node left, and its HTML follows
/// the node's.
pub proof fn lemma_walk_cons(node: Node, rest: Seq<Node>, scopes: Seq<Scope>)
    requires
        walk(node, scopes).missing is None,
    ensures
        walk_all(seq![node] + rest, scopes).scopes == walk_all(
            rest,
            walk(node, scopes).scopes,
        ).scopes,
        walk_all(seq![node] + rest, scopes).missing == walk_all(
            rest,
            walk(node, scopes).scopes,
        ).missing,
        walk_all(seq![node] + rest, scopes).html == walk(node, scopes).html + walk_all(
            rest,
            walk(node, scopes).scopes,
        ).html,
{
    let run = seq![node] + rest;
    assert(run.first() == node);
    assert(run.drop_first() =~= rest);
    let head = walk(node, scopes);
    let tail = walk_all(rest, head.scopes);
    assert(head.html + tail.html + Seq::<char>::empty() =~= head.html + tail.html);
}

/// Scoping. What a block binds is gone when the block ends: after a
/// paragraph, a list or a list item, the scopes are as they were before it,
/// whatever stands in the block.
pub proof fn lemma_block_bindings_end_with_block(items: Seq<Node>, scopes: Seq<Scope>)
    ensures
        walk(Node::Paragraph(items), scopes).scopes == scopes,
        walk(Node::List(items), scopes).scopes == scopes,
        walk(Node::ListItem(items), scopes).scopes == scopes,
{
}

/// Scoping between siblings. A name that no open scope binds is missing in a
/// paragraph that uses it, whatever the paragraph before it has defined.
pub proof fn lemma_sibling_paragraph_cannot_see(
    first: Seq<Node>,
    name: Seq<char>,
    scopes: Seq<Scope>,
)
    requires
        resolve(scopes, name) is None,
        walk(Node::Paragraph(first), scopes).missing is None,
    ensures
        walk_all(
            seq![Node::Paragraph(first), Node::Paragraph(seq![Node::VarUse(name)])],
            scopes,
        ).missing == Some(name),
{
    let user = Node::Paragraph(seq![Node::VarUse(name)]);
    lemma_block_bindings_end_with_block(first, scopes);
    lemma_fresh_scope_is_transparent(scopes, name);
    lemma_walk_single(Node::VarUse(name), scopes.push(Map::empty()));
    lemma_walk_single(user, scopes);
    lemma_walk_cons(Node::Paragraph(first), seq![user], scopes);
    assert(seq![Node::Paragraph(first)] + seq![user] =~= seq![Node::Paragraph(first), user]);
}

/// Shadowing. With `name` bound to `outer`, a paragraph that binds it to
/// `inner` and uses it emits `inner`; a use after the paragraph emits
/// `outer` again.
pub proof fn lemma_inner_binding_shadows(
    scopes: Seq<Scope>,
    name: Seq<char>,
    outer: Seq<char>,
    inner: Seq<char>,
)
    requires
        scopes.len() > 0,
    ensures
        walk_all(
            seq![
                Node::VarDefine(name, outer),
                Node::Paragraph(seq![Node::VarDefine(name, inner), Node::VarUse(name)]),
                Node::VarUse(name),
            ],
            scopes,
        ).missing is None,
        walk_all(
            seq![
                Node::VarDefine(name, outer),
                Node::Paragraph(seq![Node::VarDefine(name, inner), Node::VarUse(name)]),
                Node::VarUse(name),
            ],
            scopes,
        ).html == "<p>"@ + inner + "</p>\n"@ + outer,
{
    let define_outer = Node::VarDefine(name, outer);
    let define_inner = Node::VarDefine(name, inner);
    let use_it = Node::VarUse(name);
    let block = Node::Paragraph(seq![define_inner, use_it]);
    let bound = bind(scopes, name, outer);
    let within = bound.push(Map::empty());

    // inside the paragraph
    lemma_bound_name_resolves(within, name, inner);
    lemma_walk_single(use_it, bind(within, name, inner));
    lemma_walk_cons(define_inner, seq![use_it], within);
    assert(seq![define_inner] + seq![use_it] =~= seq![define_inner, use_it]);
    assert(walk_all(seq![define_inner, use_it], within).html =~= inner);
    assert(walk(block, bound).html =~= "<p>"@ + inner + "</p>\n"@);

    // after the paragraph
    lemma_bound_name_resolves(scopes, name, outer);
    lemma_walk_single(use_it, bound);
    lemma_walk_cons(block, seq![use_it], bound);
    assert(seq![block] + seq![use_it] =~= seq![block, use_it]);
    lemma_walk_cons(define_outer, seq![block, use_it], scopes);
    assert(seq![define_outer] + seq![block, use_it] =~= seq![define_outer, block, use_it]);
    assert(walk_all(seq![define_outer, block, use_it], scopes).html =~= "<p>"@ + inner
        + "</p>\n"@ + outer);
}

/// Substitution is verbatim. With a scope open, a variable's use emits the
/// value that was bound, character for character, whatever characters it
/// holds.
pub proof fn lemma_substitution_is_verbatim(
    scopes: Seq<Scope>,
    name: Seq<char>,
    value: Seq<char>,
)
    requires
        scopes.len() > 0,
    ensures
        walk_all(seq![Node::VarDefine(name, value), Node::VarUse(name)], scopes).missing is None,
        walk_all(seq![Node::VarDefine(name, value), Node::VarUse(name)], scopes).html == value,
{
    let define = Node::VarDefine(name, value);
    let use_it = Node::VarUse(name);
    lemma_bound_name_resolves(scopes, name, value);
    lemma_walk_single(use_it, bind(scopes, name, value));
    lemma_walk_cons(define, seq![use_it], scopes);
    assert(seq![define] + seq![use_it] =~= seq![define, use_it]);
    assert(walk_all(seq![define, use_it], scopes).html =~= value);
}

/// Substitution is verbatim in a whole program, whatever scopes are open
/// when it is generated, and also when none is: the program that binds a
/// variable and uses it has the value between its tags as it was bound.
pub proof fn lemma_generated_substitution_is_verbatim(
    scopes: Seq<Scope>,
    name: Seq<char>,
    value: Seq<char>,
)
    ensures
        generated(
            Node::Program(seq![Node::VarDefine(name, value), Node::VarUse(name)]),
            scopes,
        ) == Ok::<Seq<char>, Fault>("<html>\n"@ + value + "</html>\n"@),
{
    lemma_substitution_is_verbatim(scopes.push(Map::empty()), name, value);
}

/// The bindings that one stored scope holds.
pub open spec fn scope_of(stored: StringHashMap<String>) -> Scope {
    stored@.map_values(|value: String| value@)
}

/// Resolves block-scoped variables and emits HTML, in one depth-first walk.
pub struct SemanticAnalyzer {
    scopes: Vec<StringHashMap<String>>,
}

impl View for SemanticAnalyzer {
    type V = Seq<Scope>;

    /// The scopes that are open, the innermost last.
    closed spec fn view(&self) -> Seq<Scope> {
        self.scopes@.map_values(|stored: StringHashMap<String>| scope_of(stored))
    }
}

impl SemanticAnalyzer {
    /// An analyzer with no scope open.
    pub fn new() -> (analyzer: Self)
        ensures
            analyzer@ == Seq::<Scope>::empty(),
    {
        let analyzer = SemanticAnalyzer { scopes: Vec::new() };
        assert(analyzer@ =~= Seq::<Scope>::empty());
        analyzer
    }

    /// Opens an empty scope inside the innermost one.
    pub fn push_scope(&mut self)
        ensures
            final(self)@ == old(self)@.push(Map::empty()),
    {
        let fresh: StringHashMap<String> = StringHashMap::new();
        assert(scope_of(fresh) =~= Map::empty());
        self.scopes.push(fresh);
        assert(self@ =~= old(self)@.push(Map::empty()));
    }

    /// Closes the innermost scope, if one is open.
    pub fn pop_scope(&mut self)
        ensures
            final(self)@ == if old(self)@.len() == 0 {
                old(self)@
            } else {
                old(self)@.drop_last()
            },
    {
        let _ = self.scopes.pop();
        assert(self@ =~= if old(self)@.len() == 0 {
            old(self)@
        } else {
            old(self)@.drop_last()
        });
    }

    /// Binds `name` to `value` in the innermost scope, over any binding that
    /// the name has there.
    pub fn define(&mut self, name: &str, value: &str)
        ensures
            final(self)@ == bind(old(self)@, name@, value@),
    {
        match self.scopes.pop() {
            Some(top) => {
                let mut top = top;
                let ghost before = scope_of(top);
                top.insert(String::from_str(name), String::from_str(value));
                assert(scope_of(top) =~= before.insert(name@, value@));
                self.scopes.push(top);
                assert(self@ =~= bind(old(self)@, name@, value@));
            },
            None => {
                assert(self@ =~= old(self)@);
            },
        }
    }

    /// The value bound to `name`, searched from the innermost scope outwards.
    pub fn lookup(&self, name: &str) -> (found: Option<String>)
        ensures
            match found {
                Some(value) => resolve(self@, name@) == Some(value@),
                None => resolve(self@, name@) is None,
            },
    {
        let mut depth: usize = self.scopes.len();
        assert(self@.take(depth as int) =~= self@);
        while depth > 0
            invariant
                depth <= self.scopes@.len(),
                resolve(self@, name@) == resolve(self@.take(depth as int), name@),
            decreases depth,
        {
            let ghost open = self@.take(depth as int);
            assert(open.last() == scope_of(self.scopes@[depth - 1]));
            assert(open.drop_last() =~= self@.take(depth - 1));
            match self.scopes[depth - 1].get(name) {
                Some(value) => {
                    return Some(value.clone());
                },
                None => {},
            }
            depth = depth - 1;
        }
        assert(self@.take(0).len() == 0);
        None
    }

    /// Resolves the variables of one node and of all below it, without
    /// emitting anything.
    fn visit(&mut self, node: &AST) -> (checked: Result<(), CompileError>)
        ensures
            final(self)@ == walk(node@, old(self)@).scopes,
            reports(checked, walk(node@, old(self)@)),
        decreases *node,
    {
        match node {
            AST::Program { parts } => self.visit_all(parts),
            AST::Paragraph { items } | AST::List { items } | AST::ListItem { items } => {
                self.push_scope();
                let checked = self.visit_all(items);
                self.pop_scope();
                proof {
                    lemma_walk_all_frame(nodes_of(items@), old(self)@.push(Map::empty()));
                    assert(old(self)@.push(Map::empty()).drop_last() =~= old(self)@);
                }
                checked
            },
            AST::VarDefine { name, value } => {
                self.define(name.as_str(), value.as_str());
                Ok(())
            },
            AST::VarUse(name) => match self.lookup(name.as_str()) {
                Some(_) => Ok(()),
                None => Err(CompileError::Semantic { name: name.clone() }),
            },
            _ => Ok(()),
        }
    }

    /// Resolves the variables of a run of nodes, first to last.
    fn visit_all(&mut self, nodes: &Vec<AST>) -> (checked: Result<(), CompileError>)
        ensures
            final(self)@ == walk_all(nodes_of(nodes@), old(self)@).scopes,
            reports(checked, walk_all(nodes_of(nodes@), old(self)@)),
        decreases *nodes,
    {
        let ghost all = nodes_of(nodes@);
        let mut i: usize = 0;
        assert(all.skip(0) =~= all);
        while i < nodes.len()
            invariant
                i <= nodes.len(),
                all == nodes_of(nodes@),
                walk_all(all.skip(i as int), self@).scopes == walk_all(all, old(self)@).scopes,
                walk_all(all.skip(i as int), self@).missing == walk_all(all, old(self)@).missing,
            decreases nodes.len() - i,
        {
            let ghost rest = all.skip(i as int);
            let ghost before = self@;
            assert(rest.first() == nodes[i as int]@);
            assert(rest.drop_first() =~= all.skip(i + 1));
            self.visit(&nodes[i])?;
            i = i + 1;
        }
        assert(all.skip(i as int).len() == 0);
        Ok(())
    }

    /// Emits `open`, then `text`, then `close`.
    fn emit_tagged(out: &mut String, open: &str, text: &str, close: &str)
        ensures
            final(out)@ == old(out)@ + (open@ + text@ + close@),
    {
        out.append(open);
        out.append(text);
        out.append(close);
        assert(out@ =~= old(out)@ + (open@ + text@ + close@));
    }

    /// Emits the HTML of one node and of all below it at the end of `out`,
    /// resolving variables on the way. After a fault `out` holds what was
    /// emitted before it.
    fn parse_lolcode_html(&mut self, node: &AST, out: &mut String) -> (done: Result<
        (),
        CompileError,
    >)
        ensures
            final(self)@ == walk(node@, old(self)@).scopes,
            reports(done, walk(node@, old(self)@)),
            final(out)@ == old(out)@ + walk(node@, old(self)@).html,
        decreases *node,
    {
        match node {
            AST::Program { parts } => {
                out.append("<html>\n");
                let ghost opened = out@;
                self.emit_all(parts, out)?;
                let ghost inner = walk_all(nodes_of(parts@), old(self)@).html;
                out.append("</html>\n");
                assert(out@ =~= old(out)@ + ("<html>\n"@ + inner + "</html>\n"@));
                Ok(())
            },
            AST::Comment(text) => {
                Self::emit_tagged(out, "<!-- ", text.as_str(), " -->\n");
                Ok(())
            },
            AST::Head { title } => {
                Self::emit_tagged(out, "<head>\n<title>", title.as_str(), "</title>\n</head>\n");
                Ok(())
            },
            AST::Paragraph { items } => self.emit_block(items, out, "<p>", "</p>\n"),
            AST::List { items } => self.emit_block(items, out, "<ul>\n", "</ul>\n"),
            AST::ListItem { items } => self.emit_block(items, out, "<li>", "</li>\n"),
            AST::Bold(text) => {
                Self::emit_tagged(out, "<b>", text.as_str(), "</b>");
                Ok(())
            },
            AST::Italics(text) => {
                Self::emit_tagged(out, "<i>", text.as_str(), "</i>");
                Ok(())
            },
            AST::Audio(url) => {
                Self::emit_tagged(
                    out,
                    "<audio controls>\n<source src=\"",
                    url.as_str(),
                    "\">\n</audio>",
                );
                Ok(())
            },
            AST::Video(url) => {
                Self::emit_tagged(out, "<iframe src=\"", url.as_str(), "\"></iframe>\n");
                Ok(())
            },
            AST::Newline => {
                out.append("<br>\n");
                Ok(())
            },
            AST::Text(word) => {
                out.append(word.as_str());
                if !word.as_str().is_empty() {
                    out.append(" ");
                } else {
                    assert(out@ =~= old(out)@ + word@);
                }
                Ok(())
            },
            AST::VarDefine { name, value } => {
                self.define(name.as_str(), value.as_str());
                assert(out@ =~= old(out)@ + Seq::<char>::empty());
                Ok(())
            },
            AST::VarUse(name) => match self.lookup(name.as_str()) {
                Some(value) => {
                    out.append(value.as_str());
                    Ok(())
                },
                None => Err(CompileError::Semantic { name: name.clone() }),
            },
        }
    }

    /// Emits a block: `open`, the children in a scope of their own, `close`.
    fn emit_block(&mut self, items: &Vec<AST>, out: &mut String, open: &str, close: &str) -> (done:
        Result<(), CompileError>)
        ensures
            final(self)@ == old(self)@,
            reports(done, walk_all(nodes_of(items@), old(self)@.push(Map::empty()))),
            final(out)@ == old(out)@ + wrapped(
                open@,
                walk_all(nodes_of(items@), old(self)@.push(Map::empty())),
                close@,
            ).html,
        decreases *items, 1nat,
    {
        out.append(open);
        self.push_scope();
        let done = self.emit_all(items, out);
        self.pop_scope();
        proof {
            lemma_walk_all_frame(nodes_of(items@), old(self)@.push(Map::empty()));
            assert(old(self)@.push(Map::empty()).drop_last() =~= old(self)@);
        }
        if done.is_ok() {
            let ghost inner = walk_all(nodes_of(items@), old(self)@.push(Map::empty())).html;
            out.append(close);
            assert(out@ =~= old(out)@ + (open@ + inner + close@));
        }
        done
    }

    /// Emits a run of nodes, first to last.
    fn emit_all(&mut self, nodes: &Vec<AST>, out: &mut String) -> (done: Result<(), CompileError>)
        ensures
            final(self)@ == walk_all(nodes_of(nodes@), old(self)@).scopes,
            reports(done, walk_all(nodes_of(nodes@), old(self)@)),
            final(out)@ == old(out)@ + walk_all(nodes_of(nodes@), old(self)@).html,
        decreases *nodes, 0nat,
    {
        let ghost all = nodes_of(nodes@);
        let ghost whole = walk_all(all, old(self)@);
        let ghost mut emitted_so_far: Seq<char> = Seq::empty();
        let mut i: usize = 0;
        assert(all.skip(0) =~= all);
        assert(whole.html =~= emitted_so_far + whole.html);
        assert(out@ =~= old(out)@ + emitted_so_far);
        while i < nodes.len()
            invariant
                i <= nodes.len(),
                all == nodes_of(nodes@),
                whole == walk_all(all, old(self)@),
                walk_all(all.skip(i as int), self@).scopes == whole.scopes,
                walk_all(all.skip(i as int), self@).missing == whole.missing,
                whole.html == emitted_so_far + walk_all(all.skip(i as int), self@).html,
                out@ == old(out)@ + emitted_so_far,
            decreases nodes.len() - i,
        {
            let ghost rest = all.skip(i as int);
            let ghost before = self@;
            assert(rest.first() == nodes[i as int]@);
            assert(rest.drop_first() =~= all.skip(i + 1));
            self.parse_lolcode_html(&nodes[i], out)?;
            proof {
                let head = walk(rest.first(), before);
                let tail = walk_all(rest.drop_first(), head.scopes);
                assert(walk_all(rest, before).html == head.html + tail.html + Seq::<char>::empty());
                assert(emitted_so_far + (head.html + tail.html + Seq::<char>::empty()) =~= (
                emitted_so_far + head.html) + tail.html);
                assert(out@ =~= old(out)@ + (emitted_so_far + head.html));
                emitted_so_far = emitted_so_far + head.html;
            }
            i = i + 1;
        }
        assert(all.skip(i as int).len() == 0);
        assert(out@ =~= old(out)@ + whole.html);
        Ok(())
    }

    /// Checks that every variable use has a binding in reach. The walk runs in
    /// a scope of its own, opened inside those already open and closed at the
    /// end, so the analyzer is left as it was found.
    pub fn check_program(&mut self, root: &AST) -> (checked: Result<(), CompileError>)
        ensures
            final(self)@ == old(self)@,
            match checked {
                Ok(()) => generated(root@, old(self)@) is Ok,
                Err(e) => generated(root@, old(self)@) == Err::<Seq<char>, Fault>(e@),
            },
    {
        self.push_scope();
        let checked = self.visit(root);
        self.pop_scope();
        proof {
            lemma_walk_frame(root@, old(self)@.push(Map::empty()));
            assert(old(self)@.push(Map::empty()).drop_last() =~= old(self)@);
        }
        checked
    }

    /// The HTML of a tree. The walk runs in a scope of its own, opened inside
    /// those already open and closed at the end, so the analyzer is left as it
    /// was found.
    pub fn generate(&mut self, ast: &AST) -> (html: Result<String, CompileError>)
        ensures
            final(self)@ == old(self)@,
            match html {
                Ok(text) => generated(ast@, old(self)@) == Ok::<Seq<char>, Fault>(text@),
                Err(e) => generated(ast@, old(self)@) == Err::<Seq<char>, Fault>(e@),
            },
    {
        let mut html = String::new();
        self.push_scope();
        let done = self.parse_lolcode_html(ast, &mut html);
        self.pop_scope();
        proof {
            lemma_walk_frame(ast@, old(self)@.push(Map::empty()));
            assert(old(self)@.push(Map::empty()).drop_last() =~= old(self)@);
        }
        match done {
            Ok(()) => {
                assert(html@ =~= walk(ast@, old(self)@.push(Map::empty())).html);
                Ok(html)
            },
            Err(e) => Err(e),
        }
    }
}

} // verus!
