//! Syntax trees of Kotlin files, as plain lists of nodes.
use vstd::prelude::*;
use vstd::string::*;

use crate::columns;
use crate::lists;
use crate::text;
use crate::types::Position;

verus! {

/// A node of a syntax tree. Offsets are counted in characters.
pub struct CstNode {
    /// What the grammar calls the node.
    pub kind: String,
    pub start: usize,
    pub end: usize,
    /// The line on which the node begins.
    pub row: usize,
    /// Whether the node is a rule of the grammar, and not a token of it.
    pub named: bool,
    pub parent: Option<usize>,
    pub children: Vec<usize>,
}

#[verifier::ext_equal]
pub struct NodeView {
    pub kind: Seq<char>,
    pub start: int,
    pub end: int,
    pub row: usize,
    pub named: bool,
    pub parent: Option<int>,
    pub children: Seq<int>,
}

impl DeepView for CstNode {
    type V = NodeView;

    open spec fn deep_view(&self) -> NodeView {
        NodeView {
            kind: self.kind@,
            start: self.start as int,
            end: self.end as int,
            row: self.row,
            named: self.named,
            parent: match self.parent {
                Some(p) => Some(p as int),
                None => None,
            },
            children: self.children@.map_values(|c: usize| c as int),
        }
    }
}

/// A document and its syntax tree. Every node comes after its parent.
pub struct LiveDoc {
    pub text: String,
    pub nodes: Vec<CstNode>,
}

#[verifier::ext_equal]
pub struct DocView {
    pub text: Seq<char>,
    pub nodes: Seq<NodeView>,
}

impl DeepView for LiveDoc {
    type V = DocView;

    open spec fn deep_view(&self) -> DocView {
        DocView { text: self.text@, nodes: self.nodes.deep_view() }
    }
}

impl DocView {
    /// Whether the node at `i` lies in the text, after its parent and before its children.
    pub open spec fn node_ok(self, i: int) -> bool {
        let n = self.nodes[i];
        &&& 0 <= n.start <= n.end <= self.text.len()
        &&& match n.parent {
            Some(p) => 0 <= p < i,
            None => true,
        }
        &&& forall|k: int|
            0 <= k < n.children.len() ==> i < #[trigger] n.children[k] < self.nodes.len()
    }

    /// Whether every node lies in the text, after its parent and before its children.
    pub open spec fn wf(self) -> bool {
        forall|i: int| 0 <= i < self.nodes.len() ==> #[trigger] self.node_ok(i)
    }

    pub open spec fn has(self, n: int) -> bool {
        0 <= n < self.nodes.len()
    }

    pub open spec fn kind(self, n: int) -> Seq<char> {
        self.nodes[n].kind
    }

    /// What stands between the ends of a node.
    pub open spec fn node_text(self, n: int) -> Seq<char> {
        self.text.subrange(self.nodes[n].start, self.nodes[n].end)
    }

    /// Whether a node is of the kind.
    pub open spec fn of_kind(self, kind: Seq<char>) -> spec_fn(int) -> bool {
        |c: int| self.nodes[c].kind == kind
    }

    /// Whether a node is a rule of the grammar.
    pub open spec fn is_named(self) -> spec_fn(int) -> bool {
        |c: int| self.nodes[c].named
    }

    /// The first child of a kind.
    pub open spec fn child_of(self, n: int, kind: Seq<char>) -> Option<int> {
        lists::find_where(self.nodes[n].children, self.of_kind(kind))
    }

    /// The first child that is a rule of the grammar.
    pub open spec fn first_named(self, n: int) -> Option<int> {
        lists::find_where(self.nodes[n].children, self.is_named())
    }

    /// The first child.
    pub open spec fn first_child(self, n: int) -> Option<int> {
        if self.nodes[n].children.len() > 0 {
            Some(self.nodes[n].children[0])
        } else {
            None
        }
    }

    /// The nearest node of a kind, from a node upwards; the node itself counts.
    pub open spec fn enclosing(self, n: int, kind: Seq<char>) -> Option<int>
        decreases n,
    {
        if !self.has(n) {
            None
        } else if self.nodes[n].kind == kind {
            Some(n)
        } else {
            match self.nodes[n].parent {
                Some(p) => if 0 <= p < n {
                    self.enclosing(p, kind)
                } else {
                    None
                },
                None => None,
            }
        }
    }

    /// What the first simple identifier among a node's children names.
    pub open spec fn ident_in(self, n: int) -> Option<Seq<char>> {
        match self.child_of(n, "simple_identifier"@) {
            Some(c) => Some(self.node_text(c)),
            None => None,
        }
    }

    // -----------------------------------------------------------------------
    // Calls
    // -----------------------------------------------------------------------

    /// The method that a navigation names: what follows its last dot.
    pub open spec fn nav_member(self, n: int) -> Option<Seq<char>> {
        match self.child_of(n, "navigation_suffix"@) {
            Some(s) => self.ident_in(s),
            None => None,
        }
    }

    /// The name that a call calls.
    pub open spec fn call_name(self, call: int) -> Option<Seq<char>> {
        match self.first_child(call) {
            Some(c) => if self.kind(c) == "simple_identifier"@ {
                Some(self.node_text(c))
            } else if self.kind(c) == "navigation_expression"@ {
                self.nav_member(c)
            } else {
                None
            },
            None => None,
        }
    }

    /// The name that qualifies a call: the last identifier of what it is called on.
    pub open spec fn call_qualifier(self, call: int) -> Option<Seq<char>> {
        match self.first_child(call) {
            Some(c) => if self.kind(c) == "navigation_expression"@ {
                match self.first_named(c) {
                    Some(r) => {
                        let name = text::last_ident_of(self.node_text(r));
                        if name.len() > 0 {
                            Some(name)
                        } else {
                            None
                        }
                    },
                    None => None,
                }
            } else {
                None
            },
            None => None,
        }
    }

    /// The name that labels an argument.
    pub open spec fn arg_label(self, arg: int) -> Option<Seq<char>> {
        match self.child_of(arg, "="@) {
            Some(e) => self.ident_in(arg),
            None => None,
        }
    }

    /// How many arguments of its list stand before an argument.
    pub open spec fn arg_place(self, arg: int) -> nat {
        match self.nodes[arg].parent {
            Some(p) => self.args_before(self.nodes[p].children, arg),
            None => 0,
        }
    }

    /// How many arguments stand in a list before `arg`.
    pub open spec fn args_before(self, list: Seq<int>, arg: int) -> nat
        decreases list.len(),
    {
        if list.len() == 0 || list[0] == arg {
            0
        } else if self.kind(list[0]) == "value_argument"@ {
            1 + self.args_before(list.skip(1), arg)
        } else {
            self.args_before(list.skip(1), arg)
        }
    }

    /// The expression that the first argument of a call gives. A call with both arguments and
    /// a trailing lambda holds its arguments in a call of its own.
    pub open spec fn first_arg(self, call: int) -> Option<int> {
        match self.own_first_arg(call) {
            Some(e) => Some(e),
            None => match self.first_child(call) {
                Some(c) => if self.kind(c) == "call_expression"@ {
                    self.own_first_arg(c)
                } else {
                    None
                },
                None => None,
            },
        }
    }

    /// The expression that the first argument in a call's own list gives.
    pub open spec fn own_first_arg(self, call: int) -> Option<int> {
        match self.child_of(call, "call_suffix"@) {
            Some(s) => match self.child_of(s, "value_arguments"@) {
                Some(list) => match self.child_of(list, "value_argument"@) {
                    Some(a) => self.last_named(self.nodes[a].children),
                    None => None,
                },
                None => None,
            },
            None => None,
        }
    }

    /// The last of some nodes that is a rule of the grammar.
    pub open spec fn last_named(self, list: Seq<int>) -> Option<int>
        decreases list.len(),
    {
        if list.len() == 0 {
            None
        } else if self.nodes[list.last()].named {
            Some(list.last())
        } else {
            self.last_named(list.drop_last())
        }
    }

    // -----------------------------------------------------------------------
    // Lambdas
    // -----------------------------------------------------------------------

    /// The names that variable declarations among the nodes declare.
    pub open spec fn declared_in(self, list: Seq<int>) -> Seq<Seq<char>>
        decreases list.len(),
    {
        if list.len() == 0 {
            Seq::empty()
        } else {
            let before = self.declared_in(list.drop_last());
            let c = list.last();
            if self.kind(c) == "variable_declaration"@ && self.ident_in(c) is Some {
                before.push(self.ident_in(c).unwrap())
            } else {
                before
            }
        }
    }

    /// The parameters that a lambda declares.
    pub open spec fn lambda_params(self, lambda: int) -> Seq<Seq<char>> {
        match self.child_of(lambda, "lambda_parameters"@) {
            Some(p) => self.declared_in(self.nodes[p].children),
            None => Seq::empty(),
        }
    }

    /// Whether a lambda names a parameter other than `it` and `_`.
    pub open spec fn lambda_named(self, lambda: int) -> bool {
        exists|i: int|
            0 <= i < self.lambda_params(lambda).len() && own_name(
                #[trigger] self.lambda_params(lambda)[i],
            )
    }

    /// The place of a parameter in a lambda's list.
    pub open spec fn lambda_place(self, lambda: int, name: Seq<char>) -> Option<int> {
        lists::first_where(self.lambda_params(lambda), equal_to(name))
    }

    // -----------------------------------------------------------------------
    // Places
    // -----------------------------------------------------------------------

    /// Where the line begins on which character `at` stands.
    pub open spec fn line_start(self, at: int) -> int {
        match text::rindex_of(self.text.take(at), '\n') {
            Some(i) => i + 1,
            None => 0,
        }
    }

    /// What stands before a node on the line where it begins.
    pub open spec fn before_node(self, n: int) -> Seq<char> {
        let at = self.nodes[n].start;
        self.text.subrange(self.line_start(at), at)
    }

    /// Where a node begins.
    pub open spec fn position(self, n: int) -> Position {
        Position {
            line: self.nodes[n].row as u32,
            character: columns::utf16_len(self.before_node(n)) as u32,
        }
    }
}

/// Whether a parameter bears a name of its own.
pub open spec fn own_name(name: Seq<char>) -> bool {
    name != "it"@ && name != "_"@
}

/// Whether a name is the one looked for.
pub open spec fn equal_to(name: Seq<char>) -> spec_fn(Seq<char>) -> bool {
    |n: Seq<char>| n == name
}

/// A node that is found above another one lies in the tree.
pub proof fn lemma_enclosing(d: DocView, n: int, kind: Seq<char>)
    ensures
        match d.enclosing(n, kind) {
            Some(e) => d.has(e) && e <= n && d.kind(e) == kind,
            None => true,
        },
    decreases n,
{
    if d.has(n) && d.nodes[n].kind != kind {
        match d.nodes[n].parent {
            Some(p) => {
                if 0 <= p < n {
                    lemma_enclosing(d, p, kind);
                }
            },
            None => {},
        }
    }
}

impl LiveDoc {
    pub open spec fn wf(&self) -> bool {
        self.deep_view().wf()
    }

    proof fn lemma_node(&self, n: int)
        requires
            0 <= n < self.nodes@.len(),
        ensures
            self.deep_view().nodes[n] == self.nodes@[n].deep_view(),
            self.deep_view().nodes.len() == self.nodes@.len(),
            self.wf() ==> self.deep_view().node_ok(n),
    {
    }

    /// Whether a node is of the kind.
    pub fn kind_is(&self, n: usize, kind: &str) -> (r: bool)
        requires
            n < self.nodes@.len(),
        ensures
            r == (self.deep_view().kind(n as int) == kind@),
    {
        proof {
            self.lemma_node(n as int);
        }
        text::same(self.nodes[n].kind.as_str(), kind)
    }

    /// What stands between the ends of a node.
    pub fn text_of<'a>(&'a self, n: usize) -> (r: &'a str)
        requires
            self.wf(),
            n < self.nodes@.len(),
        ensures
            r@ == self.deep_view().node_text(n as int),
    {
        proof {
            self.lemma_node(n as int);
        }
        text::slice(self.text.as_str(), self.nodes[n].start, self.nodes[n].end)
    }

    /// The first child of a kind.
    pub fn first_child_of_kind(&self, n: usize, kind: &str) -> (r: Option<usize>)
        requires
            self.wf(),
            n < self.nodes@.len(),
        ensures
            match r {
                Some(c) => self.deep_view().child_of(n as int, kind@) == Some(c as int) && n < c
                    < self.nodes@.len(),
                None => self.deep_view().child_of(n as int, kind@) is None,
            },
    {
        let ghost d = self.deep_view();
        let ghost all = d.nodes[n as int].children;
        let ghost p = d.of_kind(kind@);
        let list = &self.nodes[n].children;
        proof {
            self.lemma_node(n as int);
        }
        let mut i: usize = 0;
        while i < list.len()
            invariant
                self.wf(),
                n < self.nodes@.len(),
                d == self.deep_view(),
                d.node_ok(n as int),
                all == d.nodes[n as int].children,
                all == list@.map_values(|c: usize| c as int),
                p == d.of_kind(kind@),
                i <= list@.len(),
                forall|k: int| 0 <= k < i ==> !p(#[trigger] all[k]),
            decreases list@.len() - i,
        {
            let c: usize = list[i];
            assert(all[i as int] == c as int);
            if self.kind_is(c, kind) {
                proof {
                    lists::lemma_first(all, p, i as int);
                }
                return Some(c);
            }
            i += 1;
        }
        proof {
            lists::lemma_no_first(all, p);
        }
        None
    }

    /// The first child that is a rule of the grammar.
    pub fn first_named_child(&self, n: usize) -> (r: Option<usize>)
        requires
            self.wf(),
            n < self.nodes@.len(),
        ensures
            match r {
                Some(c) => self.deep_view().first_named(n as int) == Some(c as int) && n < c
                    < self.nodes@.len(),
                None => self.deep_view().first_named(n as int) is None,
            },
    {
        let ghost d = self.deep_view();
        let ghost all = d.nodes[n as int].children;
        let ghost p = d.is_named();
        let list = &self.nodes[n].children;
        proof {
            self.lemma_node(n as int);
        }
        let mut i: usize = 0;
        while i < list.len()
            invariant
                self.wf(),
                n < self.nodes@.len(),
                d == self.deep_view(),
                d.node_ok(n as int),
                all == d.nodes[n as int].children,
                all == list@.map_values(|c: usize| c as int),
                p == d.is_named(),
                i <= list@.len(),
                forall|k: int| 0 <= k < i ==> !p(#[trigger] all[k]),
            decreases list@.len() - i,
        {
            let c: usize = list[i];
            assert(all[i as int] == c as int);
            proof {
                self.lemma_node(c as int);
            }
            if self.nodes[c].named {
                proof {
                    lists::lemma_first(all, p, i as int);
                }
                return Some(c);
            }
            i += 1;
        }
        proof {
            lists::lemma_no_first(all, p);
        }
        None
    }

    /// The first child.
    pub fn child0(&self, n: usize) -> (r: Option<usize>)
        requires
            self.wf(),
            n < self.nodes@.len(),
        ensures
            match r {
                Some(c) => self.deep_view().first_child(n as int) == Some(c as int) && n < c
                    < self.nodes@.len(),
                None => self.deep_view().first_child(n as int) is None,
            },
    {
        proof {
            self.lemma_node(n as int);
        }
        let list = &self.nodes[n].children;
        if list.len() > 0 {
            assert(self.deep_view().nodes[n as int].children[0] == list@[0] as int);
            Some(list[0])
        } else {
            None
        }
    }

    /// The node above a node.
    pub fn parent(&self, n: usize) -> (r: Option<usize>)
        requires
            self.wf(),
            n < self.nodes@.len(),
        ensures
            match r {
                Some(p) => self.deep_view().nodes[n as int].parent == Some(p as int) && p < n,
                None => self.deep_view().nodes[n as int].parent is None,
            },
    {
        proof {
            self.lemma_node(n as int);
        }
        self.nodes[n].parent
    }

    /// The nearest node of a kind, from a node upwards; the node itself counts.
    pub fn enclosing_of_kind(&self, n: usize, kind: &str) -> (r: Option<usize>)
        requires
            self.wf(),
            n < self.nodes@.len(),
        ensures
            match r {
                Some(e) => self.deep_view().enclosing(n as int, kind@) == Some(e as int) && e <= n,
                None => self.deep_view().enclosing(n as int, kind@) is None,
            },
    {
        let ghost d = self.deep_view();
        let mut cur: usize = n;
        loop
            invariant
                self.wf(),
                d == self.deep_view(),
                cur <= n < self.nodes@.len(),
                d.enclosing(n as int, kind@) == d.enclosing(cur as int, kind@),
            decreases cur,
        {
            if self.kind_is(cur, kind) {
                return Some(cur);
            }
            match self.parent(cur) {
                Some(p) => {
                    cur = p;
                },
                None => {
                    return None;
                },
            }
        }
    }

    /// What the first simple identifier among a node's children names.
    pub fn ident_text<'a>(&'a self, n: usize) -> (r: Option<&'a str>)
        requires
            self.wf(),
            n < self.nodes@.len(),
        ensures
            r.deep_view() == self.deep_view().ident_in(n as int),
    {
        match self.first_child_of_kind(n, "simple_identifier") {
            Some(c) => Some(self.text_of(c)),
            None => None,
        }
    }

    /// The method that a navigation names.
    pub fn navigation_member<'a>(&'a self, n: usize) -> (r: Option<&'a str>)
        requires
            self.wf(),
            n < self.nodes@.len(),
        ensures
            r.deep_view() == self.deep_view().nav_member(n as int),
    {
        match self.first_child_of_kind(n, "navigation_suffix") {
            Some(s) => self.ident_text(s),
            None => None,
        }
    }

    /// The name that a call calls.
    pub fn call_fn_name<'a>(&'a self, call: usize) -> (r: Option<&'a str>)
        requires
            self.wf(),
            call < self.nodes@.len(),
        ensures
            r.deep_view() == self.deep_view().call_name(call as int),
    {
        match self.child0(call) {
            Some(c) => if self.kind_is(c, "simple_identifier") {
                Some(self.text_of(c))
            } else if self.kind_is(c, "navigation_expression") {
                self.navigation_member(c)
            } else {
                None
            },
            None => None,
        }
    }

    /// The name that qualifies a call.
    pub fn call_qualifier_name<'a>(&'a self, call: usize) -> (r: Option<&'a str>)
        requires
            self.wf(),
            call < self.nodes@.len(),
        ensures
            r.deep_view() == self.deep_view().call_qualifier(call as int),
    {
        match self.child0(call) {
            Some(c) => if self.kind_is(c, "navigation_expression") {
                match self.first_named_child(c) {
                    Some(n) => {
                        let name = text::last_ident_in(self.text_of(n));
                        if name.is_empty() {
                            None
                        } else {
                            Some(name)
                        }
                    },
                    None => None,
                }
            } else {
                None
            },
            None => None,
        }
    }

    /// The name that labels an argument.
    pub fn named_arg_label<'a>(&'a self, arg: usize) -> (r: Option<&'a str>)
        requires
            self.wf(),
            arg < self.nodes@.len(),
        ensures
            r.deep_view() == self.deep_view().arg_label(arg as int),
    {
        match self.first_child_of_kind(arg, "=") {
            Some(e) => self.ident_text(arg),
            None => None,
        }
    }

    /// How many arguments of its list stand before an argument.
    pub fn value_arg_position(&self, arg: usize) -> (r: usize)
        requires
            self.wf(),
            arg < self.nodes@.len(),
        ensures
            r == self.deep_view().arg_place(arg as int),
    {
        let p: usize = match self.parent(arg) {
            Some(p) => p,
            None => {
                return 0;
            },
        };
        let ghost d = self.deep_view();
        let ghost all = d.nodes[p as int].children;
        let list = &self.nodes[p].children;
        proof {
            self.lemma_node(p as int);
            assert(all.skip(0) =~= all);
        }
        let mut place: usize = 0;
        let mut i: usize = 0;
        while i < list.len()
            invariant
                self.wf(),
                p < self.nodes@.len(),
                d == self.deep_view(),
                d.node_ok(p as int),
                all == d.nodes[p as int].children,
                all == list@.map_values(|c: usize| c as int),
                d.nodes[arg as int].parent == Some(p as int),
                place <= i <= list@.len(),
                d.args_before(all, arg as int) == place + d.args_before(
                    all.skip(i as int),
                    arg as int,
                ),
            decreases list@.len() - i,
        {
            let c: usize = list[i];
            assert(all[i as int] == c as int);
            assert(all.skip(i as int)[0] == c as int);
            if c == arg {
                return place;
            }
            assert(all.skip(i as int).skip(1) =~= all.skip(i + 1));
            if self.kind_is(c, "value_argument") {
                place += 1;
            }
            i += 1;
        }
        assert(all.skip(i as int).len() == 0);
        place
    }

    /// The last child that is a rule of the grammar.
    fn last_named_child(&self, n: usize) -> (r: Option<usize>)
        requires
            self.wf(),
            n < self.nodes@.len(),
        ensures
            match r {
                Some(c) => self.deep_view().last_named(
                    self.deep_view().nodes[n as int].children,
                ) == Some(c as int) && n < c < self.nodes@.len(),
                None => self.deep_view().last_named(
                    self.deep_view().nodes[n as int].children,
                ) is None,
            },
    {
        let ghost d = self.deep_view();
        let ghost all = d.nodes[n as int].children;
        let list = &self.nodes[n].children;
        proof {
            self.lemma_node(n as int);
            assert(all.take(all.len() as int) =~= all);
        }
        let mut i: usize = list.len();
        while i > 0
            invariant
                self.wf(),
                n < self.nodes@.len(),
                d == self.deep_view(),
                d.node_ok(n as int),
                all == d.nodes[n as int].children,
                all == list@.map_values(|c: usize| c as int),
                i <= list@.len(),
                d.last_named(all) == d.last_named(all.take(i as int)),
            decreases i,
        {
            let c: usize = list[i - 1];
            assert(all[i - 1] == c as int);
            proof {
                self.lemma_node(c as int);
                assert(all.take(i as int).last() == c as int);
                assert(all.take(i as int).drop_last() =~= all.take(i - 1));
            }
            if self.nodes[c].named {
                return Some(c);
            }
            i -= 1;
        }
        None
    }

    /// The expression that the first argument of a call gives.
    pub fn first_value_argument_expression(&self, call: usize) -> (r: Option<usize>)
        requires
            self.wf(),
            call < self.nodes@.len(),
        ensures
            match r {
                Some(e) => self.deep_view().first_arg(call as int) == Some(e as int) && call < e
                    < self.nodes@.len(),
                None => self.deep_view().first_arg(call as int) is None,
            },
    {
        let own = self.own_argument(call);
        if own.is_some() {
            return own;
        }
        match self.child0(call) {
            Some(c) => if self.kind_is(c, "call_expression") {
                self.own_argument(c)
            } else {
                None
            },
            None => None,
        }
    }

    fn own_argument(&self, call: usize) -> (r: Option<usize>)
        requires
            self.wf(),
            call < self.nodes@.len(),
        ensures
            match r {
                Some(e) => self.deep_view().own_first_arg(call as int) == Some(e as int) && call < e
                    < self.nodes@.len(),
                None => self.deep_view().own_first_arg(call as int) is None,
            },
    {
        match self.first_child_of_kind(call, "call_suffix") {
            Some(s) => match self.first_child_of_kind(s, "value_arguments") {
                Some(list) => match self.first_child_of_kind(list, "value_argument") {
                    Some(a) => self.last_named_child(a),
                    None => None,
                },
                None => None,
            },
            None => None,
        }
    }

    /// The parameters that a lambda declares.
    pub fn lambda_param_names(&self, lambda: usize) -> (r: Vec<String>)
        requires
            self.wf(),
            lambda < self.nodes@.len(),
        ensures
            r.deep_view() == self.deep_view().lambda_params(lambda as int),
    {
        let mut out: Vec<String> = Vec::new();
        let p: usize = match self.first_child_of_kind(lambda, "lambda_parameters") {
            Some(p) => p,
            None => {
                assert(out.deep_view() =~= Seq::empty());
                return out;
            },
        };
        let ghost d = self.deep_view();
        let ghost all = d.nodes[p as int].children;
        let list = &self.nodes[p].children;
        proof {
            self.lemma_node(p as int);
            assert(out.deep_view() =~= d.declared_in(all.take(0)));
        }
        let mut i: usize = 0;
        while i < list.len()
            invariant
                self.wf(),
                p < self.nodes@.len(),
                d == self.deep_view(),
                d.node_ok(p as int),
                all == d.nodes[p as int].children,
                all == list@.map_values(|c: usize| c as int),
                i <= list@.len(),
                out.deep_view() == d.declared_in(all.take(i as int)),
            decreases list@.len() - i,
        {
            let c: usize = list[i];
            let ghost before = out.deep_view();
            proof {
                assert(all[i as int] == c as int);
                assert(all.take(i + 1).last() == c as int);
                assert(all.take(i + 1).drop_last() =~= all.take(i as int));
            }
            if self.kind_is(c, "variable_declaration") {
                if let Some(name) = self.ident_text(c) {
                    out.push(name.to_owned());
                    assert(out.deep_view() =~= before.push(name@));
                }
            }
            i += 1;
        }
        assert(all.take(all.len() as int) =~= all);
        out
    }

    /// Whether a lambda names a parameter other than `it` and `_`.
    pub fn has_lambda_named_params(&self, lambda: usize) -> (r: bool)
        requires
            self.wf(),
            lambda < self.nodes@.len(),
        ensures
            r == self.deep_view().lambda_named(lambda as int),
    {
        let names = self.lambda_param_names(lambda);
        let ghost all = names.deep_view();
        let mut i: usize = 0;
        while i < names.len()
            invariant
                i <= names@.len(),
                all == names.deep_view(),
                all == self.deep_view().lambda_params(lambda as int),
                forall|k: int| 0 <= k < i ==> !own_name(#[trigger] all[k]),
            decreases names@.len() - i,
        {
            assert(all[i as int] == names@[i as int]@);
            if !text::same(names[i].as_str(), "it") && !text::same(names[i].as_str(), "_") {
                assert(own_name(self.deep_view().lambda_params(lambda as int)[i as int]));
                return true;
            }
            i += 1;
        }
        false
    }

    /// The place of a parameter in a lambda's list.
    pub fn lambda_param_position(&self, lambda: usize, name: &str) -> (r: Option<usize>)
        requires
            self.wf(),
            lambda < self.nodes@.len(),
        ensures
            match r {
                Some(i) => self.deep_view().lambda_place(lambda as int, name@) == Some(i as int),
                None => self.deep_view().lambda_place(lambda as int, name@) is None,
            },
    {
        let names = self.lambda_param_names(lambda);
        let ghost all = names.deep_view();
        let ghost p = equal_to(name@);
        let mut i: usize = 0;
        while i < names.len()
            invariant
                i <= names@.len(),
                all == names.deep_view(),
                all == self.deep_view().lambda_params(lambda as int),
                p == equal_to(name@),
                forall|k: int| 0 <= k < i ==> !p(#[trigger] all[k]),
            decreases names@.len() - i,
        {
            assert(all[i as int] == names@[i as int]@);
            if text::same(names[i].as_str(), name) {
                proof {
                    lists::lemma_first(all, p, i as int);
                }
                return Some(i);
            }
            i += 1;
        }
        proof {
            lists::lemma_no_first(all, p);
        }
        None
    }

    /// What stands before a node on the line where it begins.
    pub fn line_before<'a>(&'a self, n: usize) -> (r: &'a str)
        requires
            self.wf(),
            n < self.nodes@.len(),
        ensures
            r@ == self.deep_view().before_node(n as int),
    {
        proof {
            self.lemma_node(n as int);
        }
        let at: usize = self.nodes[n].start;
        let head = text::take(self.text.as_str(), at);
        let from: usize = match text::rfind_char(head, '\n') {
            Some(i) => i + 1,
            None => 0,
        };
        text::slice(self.text.as_str(), from, at)
    }

    /// What stands before a lambda on the line where it begins, and that line.
    pub fn lambda_before_brace_context(&self, lambda: usize) -> (r: (String, usize))
        requires
            self.wf(),
            lambda < self.nodes@.len(),
        ensures
            r.0@ == text::trimmed_end(self.deep_view().before_node(lambda as int)),
            r.1 == self.deep_view().nodes[lambda as int].row,
    {
        proof {
            self.lemma_node(lambda as int);
        }
        (text::trim_end(self.line_before(lambda)).to_owned(), self.nodes[lambda].row)
    }

    /// Where a node begins.
    pub fn position_from_node(&self, n: usize) -> (r: Position)
        requires
            self.wf(),
            n < self.nodes@.len(),
        ensures
            r == self.deep_view().position(n as int),
    {
        proof {
            self.lemma_node(n as int);
        }
        let col: usize = columns::utf16_count(self.line_before(n));
        Position { line: self.nodes[n].row as u32, character: col as u32 }
    }
}

} // verus!
