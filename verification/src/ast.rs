//! The AST heap: an append-only arena of tagged nodes referenced by integer
//! handles. Map nodes store their fields as an association list with unique
//! keys; its mathematical model is a `Map` from atom handles to node handles.

use vstd::prelude::*;

use crate::atoms::AtomId;

verus! {

/// Handle of a node in a document's AST heap.
#[derive(Clone, Copy, Debug, PartialEq, Eq, Structural)]
pub struct AstId(pub usize);

impl AstId {
    pub fn new(id: usize) -> (r: Self)
        ensures
            r.0 == id,
    {
        AstId(id)
    }

    pub fn as_usize(&self) -> (r: usize)
        ensures
            r == self.0,
    {
        self.0
    }
}

/// One parsed expression. Float literals keep their exact source text; a
/// value of the host's floating-point type is only produced outside the
/// library, by parsing that text.
pub enum Ast {
    /// A 64-bit signed integer.
    Int(i64),
    /// A floating-point literal, kept as its text (digits, a dot, digits).
    Float(String),
    /// A single byte.
    Char(u8),
    /// A string, stripped of its surrounding quotes.
    Str(String),
    /// An atomic value.
    Atom(AtomId),
    /// Maps atom handles to node handles within the same document.
    MapNode(Vec<(AtomId, AstId)>),
}

/// The tag of a node, as named in error messages.
#[derive(Clone, Copy, Debug, PartialEq, Eq, Structural)]
pub enum AstKind {
    IntNode,
    FloatNode,
    CharNode,
    StrNode,
    AtomNode,
    MapNode,
}

pub open spec fn ast_kind(a: Ast) -> AstKind {
    match a {
        Ast::Int(_) => AstKind::IntNode,
        Ast::Float(_) => AstKind::FloatNode,
        Ast::Char(_) => AstKind::CharNode,
        Ast::Str(_) => AstKind::StrNode,
        Ast::Atom(_) => AstKind::AtomNode,
        Ast::MapNode(_) => AstKind::MapNode,
    }
}

pub fn kind_of_node(a: &Ast) -> (k: AstKind)
    ensures
        k == ast_kind(*a),
{
    match a {
        Ast::Int(_) => AstKind::IntNode,
        Ast::Float(_) => AstKind::FloatNode,
        Ast::Char(_) => AstKind::CharNode,
        Ast::Str(_) => AstKind::StrNode,
        Ast::Atom(_) => AstKind::AtomNode,
        Ast::MapNode(_) => AstKind::MapNode,
    }
}

/// The name of a node kind as it appears in error messages.
pub open spec fn spec_ast_kind_name(k: AstKind) -> Seq<char> {
    match k {
        AstKind::IntNode => "Int"@,
        AstKind::FloatNode => "Float"@,
        AstKind::CharNode => "Char"@,
        AstKind::StrNode => "String"@,
        AstKind::AtomNode => "Atom"@,
        AstKind::MapNode => "Map"@,
    }
}

pub fn ast_kind_name(k: AstKind) -> (r: &'static str)
    ensures
        r@ == spec_ast_kind_name(k),
{
    match k {
        AstKind::IntNode => "Int",
        AstKind::FloatNode => "Float",
        AstKind::CharNode => "Char",
        AstKind::StrNode => "String",
        AstKind::AtomNode => "Atom",
        AstKind::MapNode => "Map",
    }
}

/// No key occurs twice in an association list.
pub open spec fn unique_keys<K, V>(es: Seq<(K, V)>) -> bool {
    forall|i: int, j: int| 0 <= i < j < es.len() ==> es[i].0 != es[j].0
}

/// Every key names an atom of the table and every value a node of the heap.
pub open spec fn entries_bounded(es: Seq<(AtomId, AstId)>, heap_len: int, n_atoms: int) -> bool {
    forall|i: int|
        0 <= i < es.len() ==> (#[trigger] es[i]).0.0 < n_atoms && es[i].1.0 < heap_len
}

/// The mathematical content of an association list; a later entry for the
/// same key overrides an earlier one.
pub open spec fn entries_map<K, V>(es: Seq<(K, V)>) -> Map<K, V>
    decreases es.len(),
{
    if es.len() == 0 {
        Map::empty()
    } else {
        entries_map(es.drop_last()).insert(es.last().0, es.last().1)
    }
}

pub proof fn lemma_entries_map_contains<K, V>(es: Seq<(K, V)>, k: K)
    ensures
        entries_map(es).dom().contains(k) <==> exists|i: int|
            0 <= i < es.len() && #[trigger] es[i].0 == k,
    decreases es.len(),
{
    if es.len() > 0 {
        lemma_entries_map_contains(es.drop_last(), k);
        if es.last().0 == k {
            assert(es[es.len() - 1].0 == k);
        } else if entries_map(es).dom().contains(k) {
            let i = choose|i: int| 0 <= i < es.drop_last().len() && #[trigger] es.drop_last()[i].0
                == k;
            assert(es[i].0 == k);
        } else {
            if exists|i: int| 0 <= i < es.len() && #[trigger] es[i].0 == k {
                let i = choose|i: int| 0 <= i < es.len() && #[trigger] es[i].0 == k;
                assert(es.drop_last()[i].0 == k);
            }
        }
    }
}

pub proof fn lemma_entries_map_at<K, V>(es: Seq<(K, V)>, i: int)
    requires
        unique_keys(es),
        0 <= i < es.len(),
    ensures
        entries_map(es).dom().contains(es[i].0),
        entries_map(es)[es[i].0] == es[i].1,
    decreases es.len(),
{
    lemma_entries_map_contains(es, es[i].0);
    if i < es.len() - 1 {
        assert(es.drop_last()[i] == es[i]);
        lemma_entries_map_at(es.drop_last(), i);
        assert(es[es.len() - 1].0 != es[i].0);
    }
}

pub proof fn lemma_entries_map_update<K, V>(es: Seq<(K, V)>, i: int, v: V)
    requires
        unique_keys(es),
        0 <= i < es.len(),
    ensures
        entries_map(es.update(i, (es[i].0, v))) == entries_map(es).insert(es[i].0, v),
    decreases es.len(),
{
    let k = es[i].0;
    let es2 = es.update(i, (k, v));
    if i == es.len() - 1 {
        assert(es2.drop_last() =~= es.drop_last());
        assert(es2.last() == (k, v));
        assert(entries_map(es2) == entries_map(es.drop_last()).insert(k, v));
        assert(entries_map(es) == entries_map(es.drop_last()).insert(k, es[i].1));
        assert(entries_map(es).insert(k, v) == entries_map(es.drop_last()).insert(
            k,
            es[i].1,
        ).insert(k, v));
        assert(entries_map(es.drop_last()).insert(k, es[i].1).insert(k, v) =~= entries_map(
            es.drop_last(),
        ).insert(k, v));
    } else {
        assert(es2.drop_last() =~= es.drop_last().update(i, (k, v)));
        assert(es.drop_last()[i] == es[i]);
        lemma_entries_map_update(es.drop_last(), i, v);
        let tl = es.last();
        assert(es2.last() == tl);
        assert(entries_map(es2) == entries_map(es.drop_last()).insert(k, v).insert(tl.0, tl.1));
        assert(tl.0 != k) by {
            assert(es[es.len() - 1].0 != es[i].0);
        }
        assert(entries_map(es.drop_last()).insert(k, v).insert(tl.0, tl.1) =~= entries_map(
            es.drop_last(),
        ).insert(tl.0, tl.1).insert(k, v));
    }
}

/// Look a key up in an association list with unique keys.
pub fn entries_find(es: &Vec<(AtomId, AstId)>, k: AtomId) -> (r: Option<AstId>)
    requires
        unique_keys(es@),
    ensures
        match r {
            Some(v) => entries_map(es@).dom().contains(k) && entries_map(es@)[k] == v,
            None => !entries_map(es@).dom().contains(k),
        },
{
    let n = es.len();
    let mut i: usize = 0;
    while i < n
        invariant
            n == es@.len(),
            0 <= i <= n,
            unique_keys(es@),
            forall|j: int| 0 <= j < i ==> es@[j].0 != k,
        decreases n - i,
    {
        let (ek, ev) = es[i];
        if ek.0 == k.0 {
            proof {
                assert(ek == k);
                lemma_entries_map_at(es@, i as int);
            }
            return Some(ev);
        }
        proof {
            assert(ek.0 != k.0 ==> es@[i as int].0 != k);
        }
        i = i + 1;
    }
    proof {
        lemma_entries_map_contains(es@, k);
    }
    None
}

/// Insert a pair, overriding any earlier entry with the same key.
pub fn entries_insert(es: &mut Vec<(AtomId, AstId)>, k: AtomId, v: AstId)
    requires
        unique_keys(old(es)@),
    ensures
        unique_keys(final (es)@),
        entries_map(final (es)@) == entries_map(old(es)@).insert(k, v),
        forall|i: int|
            0 <= i < final (es)@.len() ==> (final (es)@[i] == (k, v) || old(es)@.contains(
                #[trigger] final (es)@[i],
            )),
{
    let n = es.len();
    let mut i: usize = 0;
    while i < n
        invariant
            n == es@.len(),
            0 <= i <= n,
            es@ == old(es)@,
            unique_keys(es@),
            forall|j: int| 0 <= j < i ==> es@[j].0 != k,
        decreases n - i,
    {
        let (ek, _ev) = es[i];
        if ek.0 == k.0 {
            proof {
                assert(ek == k);
                assert(es@[i as int].0 == k);
                lemma_entries_map_update(es@, i as int, v);
            }
            es[i] = (k, v);
            proof {
                let before = old(es)@;
                assert(es@ == before.update(i as int, (k, v)));
                assert forall|a: int, b: int| 0 <= a < b < es@.len() implies es@[a].0
                    != es@[b].0 by {
                    assert(es@[a].0 == before[a].0);
                    assert(es@[b].0 == before[b].0);
                }
                assert forall|j: int| 0 <= j < es@.len() implies (es@[j] == (k, v)
                    || before.contains(es@[j])) by {
                    if j != i as int {
                        assert(es@[j] == before[j]);
                        assert(before.contains(before[j]));
                    }
                }
            }
            return ;
        }
        proof {
            assert(ek.0 != k.0 ==> es@[i as int].0 != k);
        }
        i = i + 1;
    }
    proof {
        lemma_entries_map_contains(es@, k);
        assert(!entries_map(es@).dom().contains(k));
    }
    let ghost before = es@;
    es.push((k, v));
    proof {
        assert(es@.drop_last() =~= before);
        assert(es@.last() == (k, v));
        assert(entries_map(es@) == entries_map(before).insert(k, v));
        assert forall|a: int, b: int| 0 <= a < b < es@.len() implies es@[a].0 != es@[b].0 by {
            if b < before.len() {
                assert(es@[a] == before[a] && es@[b] == before[b]);
            } else {
                assert(es@[a] == before[a]);
                assert(es@[b] == (k, v));
                assert(before[a].0 != k);
            }
        }
        assert forall|j: int| 0 <= j < es@.len() implies (es@[j] == (k, v) || before.contains(
            es@[j],
        )) by {
            if j < before.len() {
                assert(es@[j] == before[j]);
                assert(before.contains(before[j]));
            }
        }
    }
}

/// A node is well formed when every handle it holds is in range.
pub open spec fn node_wf(a: Ast, heap_len: int, n_atoms: int) -> bool {
    match a {
        Ast::Atom(aid) => aid.0 < n_atoms,
        Ast::MapNode(es) => unique_keys(es@) && entries_bounded(es@, heap_len, n_atoms),
        _ => true,
    }
}

pub proof fn lemma_node_wf_monotone(a: Ast, l1: int, a1: int, l2: int, a2: int)
    requires
        node_wf(a, l1, a1),
        l1 <= l2,
        a1 <= a2,
    ensures
        node_wf(a, l2, a2),
{
    match a {
        Ast::MapNode(es) => {
            assert forall|i: int| 0 <= i < es@.len() implies (#[trigger] es@[i]).0.0 < a2
                && es@[i].1.0 < l2 by {
                assert(es@[i].0.0 < a1 && es@[i].1.0 < l1);
            }
        },
        _ => {},
    }
}

/// The mathematical content of a node: text instead of owned strings, a
/// `Map` instead of an entry list.
pub ghost enum SpecAst {
    Int(i64),
    Float(Seq<char>),
    Char(u8),
    Str(Seq<char>),
    Atom(AtomId),
    MapNode(Map<AtomId, AstId>),
}

/// Abstract one node.
pub open spec fn node_abs(a: Ast) -> SpecAst {
    match a {
        Ast::Int(v) => SpecAst::Int(v),
        Ast::Float(s) => SpecAst::Float(s@),
        Ast::Char(b) => SpecAst::Char(b),
        Ast::Str(s) => SpecAst::Str(s@),
        Ast::Atom(id) => SpecAst::Atom(id),
        Ast::MapNode(es) => SpecAst::MapNode(entries_map(es@)),
    }
}

/// Abstract a whole heap.
pub open spec fn heap_abs(h: Seq<Ast>) -> Seq<SpecAst> {
    h.map_values(|a: Ast| node_abs(a))
}

pub proof fn lemma_heap_abs_push(h: Seq<Ast>, n: Ast)
    ensures
        heap_abs(h.push(n)) == heap_abs(h).push(node_abs(n)),
{
    assert(heap_abs(h.push(n)) =~= heap_abs(h).push(node_abs(n)));
}

/// `b` extends `a`: `a` is an unchanged initial segment of `b`.
pub open spec fn seq_extends<T>(b: Seq<T>, a: Seq<T>) -> bool {
    b.len() >= a.len() && forall|i: int| 0 <= i < a.len() ==> b[i] == a[i]
}

/// Every node of `h` is well formed against `h` itself and an atom table of
/// `n_atoms` entries.
pub open spec fn heap_wf(h: Seq<Ast>, n_atoms: int) -> bool {
    forall|i: int| 0 <= i < h.len() ==> node_wf(#[trigger] h[i], h.len() as int, n_atoms)
}

/// Appending a node that is well formed against the grown heap keeps the
/// heap well formed.
pub proof fn lemma_heap_push_wf(h: Seq<Ast>, node: Ast, n_atoms: int)
    requires
        heap_wf(h, n_atoms),
        node_wf(node, h.len() as int + 1, n_atoms),
    ensures
        heap_wf(h.push(node), n_atoms),
{
    let h2 = h.push(node);
    assert forall|i: int| 0 <= i < h2.len() implies node_wf(
        #[trigger] h2[i],
        h2.len() as int,
        n_atoms,
    ) by {
        if i < h.len() {
            assert(h2[i] == h[i]);
            lemma_node_wf_monotone(h[i], h.len() as int, n_atoms, h2.len() as int, n_atoms);
        }
    }
}

/// A heap stays well formed when the atom table grows.
pub proof fn lemma_heap_wf_grow_atoms(h: Seq<Ast>, n1: int, n2: int)
    requires
        heap_wf(h, n1),
        n1 <= n2,
    ensures
        heap_wf(h, n2),
{
    assert forall|i: int| 0 <= i < h.len() implies node_wf(
        #[trigger] h[i],
        h.len() as int,
        n2,
    ) by {
        lemma_node_wf_monotone(h[i], h.len() as int, n1, h.len() as int, n2);
    }
}

/// Append-only storage of all nodes of one document.
pub struct AstHeap {
    asts: Vec<Ast>,
}

impl View for AstHeap {
    type V = Seq<Ast>;

    closed spec fn view(&self) -> Seq<Ast> {
        self.asts@
    }
}

impl AstHeap {
    /// Every node of the heap is well formed against the heap itself and an
    /// atom table of `n_atoms` entries.
    pub open spec fn wf(&self, n_atoms: int) -> bool {
        heap_wf(self@, n_atoms)
    }

    pub fn new() -> (r: Self)
        ensures
            r@ =~= Seq::<Ast>::empty(),
    {
        AstHeap { asts: Vec::new() }
    }

    pub fn len(&self) -> (n: usize)
        ensures
            n == self@.len(),
    {
        self.asts.len()
    }

    /// Insert a node, returning its fresh handle.
    pub fn insert(&mut self, ast: Ast) -> (r: AstId)
        ensures
            final (self)@ == old(self)@.push(ast),
            r.0 == old(self)@.len(),
    {
        let retval = AstId(self.asts.len());
        self.asts.push(ast);
        retval
    }

    /// Insert an integer node.
    pub fn create_int(&mut self, value: i64) -> (r: AstId)
        ensures
            final (self)@ == old(self)@.push(Ast::Int(value)),
            r.0 == old(self)@.len(),
    {
        self.insert(Ast::Int(value))
    }

    /// Insert a float node, holding the literal's text.
    pub fn create_float(&mut self, text: String) -> (r: AstId)
        ensures
            final (self)@ == old(self)@.push(Ast::Float(text)),
            r.0 == old(self)@.len(),
    {
        self.insert(Ast::Float(text))
    }

    /// Insert a char node.
    pub fn create_char(&mut self, value: u8) -> (r: AstId)
        ensures
            final (self)@ == old(self)@.push(Ast::Char(value)),
            r.0 == old(self)@.len(),
    {
        self.insert(Ast::Char(value))
    }

    /// Insert a string node.
    pub fn create_string(&mut self, value: String) -> (r: AstId)
        ensures
            final (self)@ == old(self)@.push(Ast::Str(value)),
            r.0 == old(self)@.len(),
    {
        self.insert(Ast::Str(value))
    }

    /// Insert an atom node.
    pub fn create_atom(&mut self, value: AtomId) -> (r: AstId)
        ensures
            final (self)@ == old(self)@.push(Ast::Atom(value)),
            r.0 == old(self)@.len(),
    {
        self.insert(Ast::Atom(value))
    }

    /// Insert a map node.
    pub fn create_map(&mut self, entries: Vec<(AtomId, AstId)>) -> (r: AstId)
        ensures
            final (self)@ == old(self)@.push(Ast::MapNode(entries)),
            r.0 == old(self)@.len(),
    {
        self.insert(Ast::MapNode(entries))
    }

    /// The handle of the nil atom node, placed at index zero of every
    /// document's heap before parsing starts.
    pub fn nil_atom(&self) -> (r: AstId)
        ensures
            r.0 == 0,
    {
        AstId(0)
    }

    /// The node a handle refers to, if the handle is in range.
    pub fn get(&self, ast_id: AstId) -> (r: Option<&Ast>)
        ensures
            match r {
                Some(a) => ast_id.0 < self@.len() && *a == self@[ast_id.0 as int],
                None => ast_id.0 >= self@.len(),
            },
    {
        if ast_id.0 < self.asts.len() {
            Some(&self.asts[ast_id.0])
        } else {
            None
        }
    }

    /// Insert a list cell: a map node `{head_atom: head, tail_atom: nil}`.
    pub fn make_list_node(&mut self, head_atom: AtomId, head: AstId, tail_atom: AtomId) -> (r:
        AstId)
        requires
            head_atom != tail_atom,
        ensures
            final (self)@.len() == old(self)@.len() + 1,
            forall|j: int| 0 <= j < old(self)@.len() ==> final (self)@[j] == old(self)@[j],
            r.0 == old(self)@.len(),
            final (self)@[r.0 as int] matches Ast::MapNode(fs) && fs@ == seq![
                (head_atom, head),
                (tail_atom, AstId(0)),
            ],
            ({
                let es = seq![(head_atom, head), (tail_atom, AstId(0))];
                unique_keys(es) && entries_map(es) == Map::<AtomId, AstId>::empty().insert(
                    head_atom,
                    head,
                ).insert(tail_atom, AstId(0))
            }),
    {
        let fields: Vec<(AtomId, AstId)> = vec![(head_atom, head), (tail_atom, AstId(0))];
        proof {
            let es = seq![(head_atom, head), (tail_atom, AstId(0))];
            assert(fields@ =~= es);
            assert(es.drop_last() =~= seq![(head_atom, head)]);
            assert(es.drop_last().drop_last() =~= Seq::<(AtomId, AstId)>::empty());
            assert(entries_map(es.drop_last().drop_last()) == Map::<AtomId, AstId>::empty());
            assert(entries_map(es.drop_last()) == Map::<AtomId, AstId>::empty().insert(
                head_atom,
                head,
            ));
            assert(entries_map(es) == entries_map(es.drop_last()).insert(tail_atom, AstId(0)));
            assert(es[0].0 != es[1].0);
        }
        self.create_map(fields)
    }

    /// Override one field of a map node in place; used to thread list cells
    /// together while a list literal is parsed.
    pub fn set_map_entry(&mut self, id: AstId, key: AtomId, val: AstId)
        requires
            id.0 < old(self)@.len(),
            old(self)@[id.0 as int] is MapNode,
            unique_keys(old(self)@[id.0 as int]->MapNode_0@),
        ensures
            final (self)@.len() == old(self)@.len(),
            forall|j: int|
                0 <= j < final (self)@.len() && j != id.0 as int ==> final (self)@[j] == old(
                    self,
                )@[j],
            final (self)@[id.0 as int] is MapNode,
            ({
                let es2 = final (self)@[id.0 as int]->MapNode_0@;
                let es1 = old(self)@[id.0 as int]->MapNode_0@;
                &&& unique_keys(es2)
                &&& entries_map(es2) == entries_map(es1).insert(key, val)
                &&& forall|i: int|
                    0 <= i < es2.len() ==> (es2[i] == (key, val) || es1.contains(
                        #[trigger] es2[i],
                    ))
            }),
    {
        let idx = id.as_usize();
        let mut tmp = Ast::Int(0);
        core::mem::swap(&mut self.asts[idx], &mut tmp);
        match tmp {
            Ast::MapNode(mut es) => {
                entries_insert(&mut es, key, val);
                let mut node = Ast::MapNode(es);
                core::mem::swap(&mut self.asts[idx], &mut node);
            },
            _ => {
                proof {
                    assert(false);
                }
            },
        }
    }
}

} // verus!
