//! The data that every stage shares: spans, tokens, the syntax tree and the
//! runtime values, each with the mathematical model that contracts speak of.
use crate::number::Number;
use vstd::prelude::*;

verus! {

/// A range of byte offsets into the source text: from `start` up to `end`.
#[derive(Clone, Copy, Debug, PartialEq, Eq, Structural)]
pub struct Span {
    pub start: usize,
    pub end: usize,
}

/// The operators of the language.
#[derive(Clone, Copy, Debug, PartialEq, Eq, Structural)]
pub enum Op {
    Error,
    Not,
    Neg,
    Add,
    Sub,
    Mul,
    Div,
    Mod,
    And,
    Or,
    Eq,
    Neq,
    Gt,
    Gte,
    Lt,
    Lte,
}

/// The reserved words.
#[derive(Clone, Copy, Debug, PartialEq, Eq, Structural)]
pub enum Keyword {
    Let,
    Fn,
    Return,
    If,
    Else,
    While,
}

/// The punctuation that is not a delimiter.
#[derive(Clone, Copy, Debug, PartialEq, Eq, Structural)]
pub enum Symbol {
    Plus,
    Minus,
    Star,
    Slash,
    Percent,
    PlusPlus,
    MinusMinus,
    Bang,
    Assign,
    EqEq,
    NotEq,
    Less,
    LessEq,
    Greater,
    GreaterEq,
    /// `&&`, or the word `and`.
    And,
    /// `||`, or the word `or`.
    Or,
    Amp,
    Pipe,
    Comma,
    Dot,
    Colon,
    Semicolon,
    Hash,
    Backslash,
    Apostrophe,
}

/// A token without its span.
#[derive(Debug, PartialEq)]
pub enum Tkn {
    Number(Number),
    Str(Vec<u8>),
    Bool(bool),
    Identifier(Vec<u8>),
    /// One of `(`, `)`, `[`, `]`, `{`, `}`.
    Delimiter(char),
    Keyword(Keyword),
    Symbol(Symbol),
    Newline,
}

/// A token and the bytes of the source that it was read from.
#[derive(Debug, PartialEq)]
pub struct Token {
    pub tkn: Tkn,
    pub span: Span,
}

/// The key of an object's entry.
#[derive(Debug, PartialEq)]
pub enum Key {
    Str(Vec<u8>),
    Num(Number),
}

/// A runtime value. A vector and an object hold the nodes they were written
/// with; a function holds the scope it was defined in.
#[derive(Debug, PartialEq)]
pub enum Value {
    Undefined,
    Num(Number),
    Str(Vec<u8>),
    Bool(bool),
    Vec(Vec<Node>),
    Obj(Vec<(Key, Node)>),
    Fn(Vec<Vec<u8>>, Box<Node>, usize),
}

/// A node of the syntax tree without its span.
#[derive(Debug, PartialEq)]
pub enum Expr {
    /// What stands for a region that could not be parsed.
    Error,
    /// An empty slot: a statement that a rewrite has taken away.
    Nl,
    Var(Vec<u8>),
    Val(Value),
    UnOp(Op, Box<Node>),
    BnOp(Box<Node>, Op, Box<Node>),
    Let(Vec<u8>, Box<Node>),
    Assign(Vec<u8>, Box<Node>),
    Block(Vec<Node>),
    Fn(Vec<u8>, Vec<Vec<u8>>, Box<Node>),
    Return(Box<Node>),
    Call(Box<Node>, Vec<Node>),
    ReservedCall(Vec<u8>, Vec<Node>),
    /// Condition, the branch taken when it holds, the branch taken otherwise.
    If(Box<Node>, Box<Node>, Box<Node>),
    /// An `else` that stands apart from its `if`.
    Else(Box<Node>),
    While(Box<Node>, Box<Node>),
}

/// A node of the syntax tree and the bytes of the source that it covers.
#[derive(Debug, PartialEq)]
pub struct Node {
    pub expr: Expr,
    pub span: Span,
}

/// The model of a token.
pub ghost enum TknV {
    Number(int),
    Str(Seq<u8>),
    Bool(bool),
    Identifier(Seq<u8>),
    Delimiter(char),
    Keyword(Keyword),
    Symbol(Symbol),
    Newline,
}

/// The model of a token with its span.
pub ghost struct TokenV {
    pub tkn: TknV,
    pub span: Span,
}

/// The model of an object's key.
pub ghost enum KeyV {
    Str(Seq<u8>),
    Num(int),
}

/// The model of a value.
pub ghost enum ValueV {
    Undefined,
    Num(int),
    Str(Seq<u8>),
    Bool(bool),
    Vec(Seq<NodeV>),
    Obj(Seq<(KeyV, NodeV)>),
    Fn(Seq<Seq<u8>>, Box<NodeV>, usize),
}

/// The model of a node without its span.
pub ghost enum ExprV {
    Error,
    Nl,
    Var(Seq<u8>),
    Val(ValueV),
    UnOp(Op, Box<NodeV>),
    BnOp(Box<NodeV>, Op, Box<NodeV>),
    Let(Seq<u8>, Box<NodeV>),
    Assign(Seq<u8>, Box<NodeV>),
    Block(Seq<NodeV>),
    Fn(Seq<u8>, Seq<Seq<u8>>, Box<NodeV>),
    Return(Box<NodeV>),
    Call(Box<NodeV>, Seq<NodeV>),
    ReservedCall(Seq<u8>, Seq<NodeV>),
    If(Box<NodeV>, Box<NodeV>, Box<NodeV>),
    Else(Box<NodeV>),
    While(Box<NodeV>, Box<NodeV>),
}

/// The model of a node.
pub ghost struct NodeV {
    pub expr: ExprV,
    pub span: Span,
}

impl View for Tkn {
    type V = TknV;

    open spec fn view(&self) -> TknV {
        match self {
            Tkn::Number(n) => TknV::Number(n@),
            Tkn::Str(s) => TknV::Str(s@),
            Tkn::Bool(b) => TknV::Bool(*b),
            Tkn::Identifier(s) => TknV::Identifier(s@),
            Tkn::Delimiter(c) => TknV::Delimiter(*c),
            Tkn::Keyword(k) => TknV::Keyword(*k),
            Tkn::Symbol(s) => TknV::Symbol(*s),
            Tkn::Newline => TknV::Newline,
        }
    }
}

impl View for Token {
    type V = TokenV;

    open spec fn view(&self) -> TokenV {
        TokenV { tkn: self.tkn@, span: self.span }
    }
}

impl View for Key {
    type V = KeyV;

    open spec fn view(&self) -> KeyV {
        match self {
            Key::Str(s) => KeyV::Str(s@),
            Key::Num(n) => KeyV::Num(n@),
        }
    }
}

/// The models of a sequence of tokens.
pub open spec fn tokens_view(s: Seq<Token>) -> Seq<TokenV> {
    Seq::new(s.len(), |i: int| s[i]@)
}

/// The models of a sequence of names.
pub open spec fn names_view(s: Seq<Vec<u8>>) -> Seq<Seq<u8>> {
    Seq::new(s.len(), |i: int| s[i]@)
}

/// The model of a value.
pub open spec fn value_view(v: &Value) -> ValueV
    decreases v,
{
    match v {
        Value::Undefined => ValueV::Undefined,
        Value::Num(n) => ValueV::Num(n@),
        Value::Str(s) => ValueV::Str(s@),
        Value::Bool(b) => ValueV::Bool(*b),
        Value::Vec(l) => ValueV::Vec(nodes_view(l@)),
        Value::Obj(l) => ValueV::Obj(entries_view(l@)),
        Value::Fn(p, b, e) => ValueV::Fn(names_view(p@), Box::new(node_view(&**b)), *e),
    }
}

/// The model of a node without its span.
pub open spec fn expr_view(e: &Expr) -> ExprV
    decreases e,
{
    match e {
        Expr::Error => ExprV::Error,
        Expr::Nl => ExprV::Nl,
        Expr::Var(n) => ExprV::Var(n@),
        Expr::Val(v) => ExprV::Val(value_view(v)),
        Expr::UnOp(op, a) => ExprV::UnOp(*op, Box::new(node_view(&**a))),
        Expr::BnOp(a, op, b) => ExprV::BnOp(
            Box::new(node_view(&**a)),
            *op,
            Box::new(node_view(&**b)),
        ),
        Expr::Let(n, a) => ExprV::Let(n@, Box::new(node_view(&**a))),
        Expr::Assign(n, a) => ExprV::Assign(n@, Box::new(node_view(&**a))),
        Expr::Block(l) => ExprV::Block(nodes_view(l@)),
        Expr::Fn(n, p, b) => ExprV::Fn(n@, names_view(p@), Box::new(node_view(&**b))),
        Expr::Return(a) => ExprV::Return(Box::new(node_view(&**a))),
        Expr::Call(f, l) => ExprV::Call(Box::new(node_view(&**f)), nodes_view(l@)),
        Expr::ReservedCall(n, l) => ExprV::ReservedCall(n@, nodes_view(l@)),
        Expr::If(c, t, e) => ExprV::If(
            Box::new(node_view(&**c)),
            Box::new(node_view(&**t)),
            Box::new(node_view(&**e)),
        ),
        Expr::Else(b) => ExprV::Else(Box::new(node_view(&**b))),
        Expr::While(c, b) => ExprV::While(Box::new(node_view(&**c)), Box::new(node_view(&**b))),
    }
}

/// The model of a node.
pub open spec fn node_view(n: &Node) -> NodeV
    decreases n,
{
    NodeV { expr: expr_view(&n.expr), span: n.span }
}

/// The models of a sequence of nodes.
pub open spec fn nodes_view(s: Seq<Node>) -> Seq<NodeV>
    decreases s,
{
    Seq::new(
        s.len(),
        |i: int|
            if 0 <= i < s.len() {
                node_view(&s[i])
            } else {
                arbitrary()
            },
    )
}

/// The models of an object's entries.
pub open spec fn entries_view(s: Seq<(Key, Node)>) -> Seq<(KeyV, NodeV)>
    decreases s,
{
    Seq::new(
        s.len(),
        |i: int|
            if 0 <= i < s.len() {
                (s[i].0@, node_view(&s[i].1))
            } else {
                arbitrary()
            },
    )
}

impl View for Value {
    type V = ValueV;

    open spec fn view(&self) -> ValueV {
        value_view(self)
    }
}

impl View for Expr {
    type V = ExprV;

    open spec fn view(&self) -> ExprV {
        expr_view(self)
    }
}

impl View for Node {
    type V = NodeV;

    open spec fn view(&self) -> NodeV {
        node_view(self)
    }
}

/// A copy of a byte string.
pub fn copy_bytes(s: &Vec<u8>) -> (r: Vec<u8>)
    ensures
        r@ == s@,
{
    let mut r: Vec<u8> = Vec::new();
    let mut i: usize = 0;
    while i < s.len()
        invariant
            i <= s.len(),
            r@ == s@.subrange(0, i as int),
        decreases s.len() - i,
    {
        r.push(s[i]);
        i = i + 1;
        assert(r@ =~= s@.subrange(0, i as int));
    }
    assert(s@.subrange(0, s.len() as int) =~= s@);
    r
}

/// Whether two byte strings hold the same bytes.
pub fn same_bytes(a: &Vec<u8>, b: &Vec<u8>) -> (r: bool)
    ensures
        r == (a@ == b@),
{
    if a.len() != b.len() {
        return false;
    }
    let mut i: usize = 0;
    while i < a.len()
        invariant
            i <= a.len(),
            a.len() == b.len(),
            a@.subrange(0, i as int) == b@.subrange(0, i as int),
        decreases a.len() - i,
    {
        if a[i] != b[i] {
            return false;
        }
        i = i + 1;
        assert(a@.subrange(0, i as int) =~= a@.subrange(0, i - 1).push(a@[i - 1]));
        assert(b@.subrange(0, i as int) =~= b@.subrange(0, i - 1).push(b@[i - 1]));
    }
    assert(a@.subrange(0, a.len() as int) =~= a@);
    assert(b@.subrange(0, b.len() as int) =~= b@);
    true
}

/// Appends a copy of `s` to `out`.
pub fn push_bytes(out: &mut Vec<u8>, s: &Vec<u8>)
    ensures
        final(out)@ == old(out)@ + s@,
{
    let mut i: usize = 0;
    while i < s.len()
        invariant
            i <= s.len(),
            out@ == old(out)@ + s@.subrange(0, i as int),
        decreases s.len() - i,
    {
        out.push(s[i]);
        i = i + 1;
        assert(out@ =~= old(out)@ + s@.subrange(0, i as int));
    }
    assert(s@.subrange(0, s.len() as int) =~= s@);
}

/// The name of the one built-in function.
pub open spec fn print_name() -> Seq<u8> {
    ascii("print"@)
}

/// The models of two sequences of nodes, one after the other.
pub proof fn lemma_nodes_view_concat(a: Seq<Node>, b: Seq<Node>)
    ensures
        nodes_view(a + b) == nodes_view(a) + nodes_view(b),
{
    assert(nodes_view(a + b) =~= nodes_view(a) + nodes_view(b));
}

/// The bytes of a text whose characters are all ASCII.
pub open spec fn ascii(s: Seq<char>) -> Seq<u8> {
    Seq::new(s.len(), |i: int| s[i] as u8)
}

/// The bytes of an ASCII text.
pub(crate) fn text(s: &str) -> (r: Vec<u8>)
    requires
        s.is_ascii(),
    ensures
        r@ == ascii(s@),
{
    broadcast use vstd::string::is_ascii_spec_bytes;

    let v = vstd::slice::slice_to_vec(s.as_bytes());
    assert(v@ =~= ascii(s@));
    v
}

/// A copy of a sequence of names.
pub fn copy_names(s: &Vec<Vec<u8>>) -> (r: Vec<Vec<u8>>)
    ensures
        names_view(r@) == names_view(s@),
{
    let mut r: Vec<Vec<u8>> = Vec::new();
    let mut i: usize = 0;
    while i < s.len()
        invariant
            i <= s.len(),
            r@.len() == i,
            forall|j: int| 0 <= j < i ==> r@[j]@ == s@[j]@,
        decreases s.len() - i,
    {
        r.push(copy_bytes(&s[i]));
        i = i + 1;
    }
    assert(names_view(r@) =~= names_view(s@));
    r
}

/// Whether two sequences of names hold the same names.
pub fn same_names(a: &Vec<Vec<u8>>, b: &Vec<Vec<u8>>) -> (r: bool)
    ensures
        r == (names_view(a@) == names_view(b@)),
{
    if a.len() != b.len() {
        assert(names_view(a@).len() != names_view(b@).len());
        return false;
    }
    let mut i: usize = 0;
    while i < a.len()
        invariant
            i <= a.len(),
            a.len() == b.len(),
            forall|j: int| 0 <= j < i ==> a@[j]@ == b@[j]@,
        decreases a.len() - i,
    {
        if !same_bytes(&a[i], &b[i]) {
            assert(names_view(a@)[i as int] != names_view(b@)[i as int]);
            return false;
        }
        i = i + 1;
    }
    assert(names_view(a@) =~= names_view(b@));
    true
}

impl Key {
    /// A copy of the key.
    pub fn copy(&self) -> (r: Key)
        ensures
            r@ == self@,
    {
        match self {
            Key::Str(s) => Key::Str(copy_bytes(s)),
            Key::Num(n) => Key::Num(*n),
        }
    }

    /// Whether two keys are the same.
    pub fn same(&self, other: &Key) -> (r: bool)
        ensures
            r == (self@ == other@),
    {
        match (self, other) {
            (Key::Str(a), Key::Str(b)) => same_bytes(a, b),
            (Key::Num(a), Key::Num(b)) => a.raw == b.raw,
            _ => false,
        }
    }
}

/// A copy of a value.
pub fn copy_value(v: &Value) -> (r: Value)
    ensures
        r@ == v@,
    decreases v,
{
    match v {
        Value::Undefined => Value::Undefined,
        Value::Num(n) => Value::Num(*n),
        Value::Str(s) => Value::Str(copy_bytes(s)),
        Value::Bool(b) => Value::Bool(*b),
        Value::Vec(l) => Value::Vec(copy_nodes(l)),
        Value::Obj(l) => Value::Obj(copy_entries(l)),
        Value::Fn(p, b, e) => Value::Fn(copy_names(p), Box::new(copy_node(b)), *e),
    }
}

/// A copy of a node without its span.
pub fn copy_expr(e: &Expr) -> (r: Expr)
    ensures
        r@ == e@,
    decreases e,
{
    match e {
        Expr::Error => Expr::Error,
        Expr::Nl => Expr::Nl,
        Expr::Var(n) => Expr::Var(copy_bytes(n)),
        Expr::Val(v) => Expr::Val(copy_value(v)),
        Expr::UnOp(op, a) => Expr::UnOp(*op, Box::new(copy_node(a))),
        Expr::BnOp(a, op, b) => Expr::BnOp(Box::new(copy_node(a)), *op, Box::new(copy_node(b))),
        Expr::Let(n, a) => Expr::Let(copy_bytes(n), Box::new(copy_node(a))),
        Expr::Assign(n, a) => Expr::Assign(copy_bytes(n), Box::new(copy_node(a))),
        Expr::Block(l) => Expr::Block(copy_nodes(l)),
        Expr::Fn(n, p, b) => Expr::Fn(copy_bytes(n), copy_names(p), Box::new(copy_node(b))),
        Expr::Return(a) => Expr::Return(Box::new(copy_node(a))),
        Expr::Call(f, l) => Expr::Call(Box::new(copy_node(f)), copy_nodes(l)),
        Expr::ReservedCall(n, l) => Expr::ReservedCall(copy_bytes(n), copy_nodes(l)),
        Expr::If(c, t, e) => Expr::If(
            Box::new(copy_node(c)),
            Box::new(copy_node(t)),
            Box::new(copy_node(e)),
        ),
        Expr::Else(b) => Expr::Else(Box::new(copy_node(b))),
        Expr::While(c, b) => Expr::While(Box::new(copy_node(c)), Box::new(copy_node(b))),
    }
}

/// A copy of a node.
pub fn copy_node(n: &Node) -> (r: Node)
    ensures
        r@ == n@,
    decreases n,
{
    Node { expr: copy_expr(&n.expr), span: n.span }
}

/// A copy of a sequence of nodes.
pub fn copy_nodes(s: &Vec<Node>) -> (r: Vec<Node>)
    ensures
        nodes_view(r@) == nodes_view(s@),
    decreases s,
{
    let mut r: Vec<Node> = Vec::new();
    let mut i: usize = 0;
    while i < s.len()
        invariant
            i <= s.len(),
            r@.len() == i,
            forall|j: int| 0 <= j < i ==> r@[j]@ == s@[j]@,
        decreases s.len() - i,
    {
        r.push(copy_node(&s[i]));
        i = i + 1;
    }
    assert(nodes_view(r@) =~= nodes_view(s@));
    r
}

/// A copy of an object's entries.
pub fn copy_entries(s: &Vec<(Key, Node)>) -> (r: Vec<(Key, Node)>)
    ensures
        entries_view(r@) == entries_view(s@),
    decreases s,
{
    let mut r: Vec<(Key, Node)> = Vec::new();
    let mut i: usize = 0;
    while i < s.len()
        invariant
            i <= s.len(),
            r@.len() == i,
            forall|j: int| 0 <= j < i ==> r@[j].0@ == s@[j].0@ && r@[j].1@ == s@[j].1@,
        decreases s.len() - i,
    {
        let k = s[i].0.copy();
        let n = copy_node(&s[i].1);
        r.push((k, n));
        i = i + 1;
    }
    assert(entries_view(r@) =~= entries_view(s@));
    r
}

/// Whether two values are the same, node for node.
pub fn same_value(a: &Value, b: &Value) -> (r: bool)
    ensures
        r == (a@ == b@),
    decreases a,
{
    match (a, b) {
        (Value::Undefined, Value::Undefined) => true,
        (Value::Num(x), Value::Num(y)) => x.raw == y.raw,
        (Value::Str(x), Value::Str(y)) => same_bytes(x, y),
        (Value::Bool(x), Value::Bool(y)) => *x == *y,
        (Value::Vec(x), Value::Vec(y)) => same_nodes(x, y),
        (Value::Obj(x), Value::Obj(y)) => same_entries(x, y),
        (Value::Fn(p, x, e), Value::Fn(q, y, f)) => same_names(p, q) && same_node(x, y) && *e
            == *f,
        _ => false,
    }
}

/// Whether two nodes without their spans are the same.
pub fn same_expr(a: &Expr, b: &Expr) -> (r: bool)
    ensures
        r == (a@ == b@),
    decreases a,
{
    match (a, b) {
        (Expr::Error, Expr::Error) => true,
        (Expr::Nl, Expr::Nl) => true,
        (Expr::Var(x), Expr::Var(y)) => same_bytes(x, y),
        (Expr::Val(x), Expr::Val(y)) => same_value(x, y),
        (Expr::UnOp(o, x), Expr::UnOp(p, y)) => *o == *p && same_node(x, y),
        (Expr::BnOp(x, o, z), Expr::BnOp(y, p, w)) => *o == *p && same_node(x, y) && same_node(
            z,
            w,
        ),
        (Expr::Let(n, x), Expr::Let(m, y)) => same_bytes(n, m) && same_node(x, y),
        (Expr::Assign(n, x), Expr::Assign(m, y)) => same_bytes(n, m) && same_node(x, y),
        (Expr::Block(x), Expr::Block(y)) => same_nodes(x, y),
        (Expr::Fn(n, p, x), Expr::Fn(m, q, y)) => same_bytes(n, m) && same_names(p, q)
            && same_node(x, y),
        (Expr::Return(x), Expr::Return(y)) => same_node(x, y),
        (Expr::Call(f, x), Expr::Call(g, y)) => same_node(f, g) && same_nodes(x, y),
        (Expr::ReservedCall(n, x), Expr::ReservedCall(m, y)) => same_bytes(n, m) && same_nodes(
            x,
            y,
        ),
        (Expr::If(c, t, e), Expr::If(d, u, f)) => same_node(c, d) && same_node(t, u)
            && same_node(e, f),
        (Expr::Else(x), Expr::Else(y)) => same_node(x, y),
        (Expr::While(c, x), Expr::While(d, y)) => same_node(c, d) && same_node(x, y),
        _ => false,
    }
}

/// Whether two nodes are the same, spans included.
pub fn same_node(a: &Node, b: &Node) -> (r: bool)
    ensures
        r == (a@ == b@),
    decreases a,
{
    a.span == b.span && same_expr(&a.expr, &b.expr)
}

/// Whether two sequences of nodes are the same.
pub fn same_nodes(a: &Vec<Node>, b: &Vec<Node>) -> (r: bool)
    ensures
        r == (nodes_view(a@) == nodes_view(b@)),
    decreases a,
{
    if a.len() != b.len() {
        assert(nodes_view(a@).len() != nodes_view(b@).len());
        return false;
    }
    let mut i: usize = 0;
    while i < a.len()
        invariant
            i <= a.len(),
            a.len() == b.len(),
            forall|j: int| 0 <= j < i ==> a@[j]@ == b@[j]@,
        decreases a.len() - i,
    {
        if !same_node(&a[i], &b[i]) {
            assert(nodes_view(a@)[i as int] != nodes_view(b@)[i as int]);
            return false;
        }
        i = i + 1;
    }
    assert(nodes_view(a@) =~= nodes_view(b@));
    true
}

/// Whether two objects hold the same entries in the same order.
pub fn same_entries(a: &Vec<(Key, Node)>, b: &Vec<(Key, Node)>) -> (r: bool)
    ensures
        r == (entries_view(a@) == entries_view(b@)),
    decreases a,
{
    if a.len() != b.len() {
        assert(entries_view(a@).len() != entries_view(b@).len());
        return false;
    }
    let mut i: usize = 0;
    while i < a.len()
        invariant
            i <= a.len(),
            a.len() == b.len(),
            forall|j: int| 0 <= j < i ==> a@[j].0@ == b@[j].0@ && a@[j].1@ == b@[j].1@,
        decreases a.len() - i,
    {
        if !a[i].0.same(&b[i].0) || !same_node(&a[i].1, &b[i].1) {
            assert(entries_view(a@)[i as int] != entries_view(b@)[i as int]);
            return false;
        }
        i = i + 1;
    }
    assert(entries_view(a@) =~= entries_view(b@));
    true
}

/// Whether a token is a literal: a number, a string or a boolean.
pub fn is_literal(tkn: &Tkn) -> (r: bool)
    ensures
        r == (tkn@ is Number || tkn@ is Str || tkn@ is Bool),
{
    match tkn {
        Tkn::Number(_) => true,
        Tkn::Str(_) => true,
        Tkn::Bool(_) => true,
        _ => false,
    }
}

impl Clone for Tkn {
    fn clone(&self) -> (r: Self)
        ensures
            r@ == self@,
    {
        match self {
            Tkn::Number(n) => Tkn::Number(*n),
            Tkn::Str(s) => Tkn::Str(copy_bytes(s)),
            Tkn::Bool(b) => Tkn::Bool(*b),
            Tkn::Identifier(s) => Tkn::Identifier(copy_bytes(s)),
            Tkn::Delimiter(c) => Tkn::Delimiter(*c),
            Tkn::Keyword(k) => Tkn::Keyword(*k),
            Tkn::Symbol(s) => Tkn::Symbol(*s),
            Tkn::Newline => Tkn::Newline,
        }
    }
}

impl Clone for Token {
    fn clone(&self) -> (r: Self)
        ensures
            r@ == self@,
    {
        Token { tkn: self.tkn.clone(), span: self.span }
    }
}

impl Clone for Key {
    fn clone(&self) -> (r: Self)
        ensures
            r@ == self@,
    {
        self.copy()
    }
}

impl Clone for Value {
    fn clone(&self) -> (r: Self)
        ensures
            r@ == self@,
    {
        copy_value(self)
    }
}

impl Clone for Expr {
    fn clone(&self) -> (r: Self)
        ensures
            r@ == self@,
    {
        copy_expr(self)
    }
}

impl Clone for Node {
    fn clone(&self) -> (r: Self)
        ensures
            r@ == self@,
    {
        copy_node(self)
    }
}

} // verus!
