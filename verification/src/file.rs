//! A parsed document: one atom table, one AST heap and the root handle of
//! the parse result. Immutable after construction.

use vstd::prelude::*;
use vstd::string::*;

use crate::ast::{heap_abs, heap_wf, seq_extends, Ast, AstHeap, AstId, SpecAst};
use crate::atoms::{
    distinct_names,
    lemma_find_absent,
    spec_intern,
    spec_intern_id,
    AtomId,
    AtomTable,
};
use crate::error::KartaError;
use crate::parser::{
    expression_cases,
    single_int_pair,
    single_int_pair_result,
    sp_expr,
    Parser,
    PState,
};
use crate::token::TokenKind;
use crate::tokenizer::spec_tokenize;

verus! {

/// The four atoms interned at document construction, in order: their handles
/// are deterministic constants of every document.
pub open spec fn builtin_atoms() -> Seq<Seq<char>> {
    seq![".nil"@, ".t"@, ".head"@, ".tail"@]
}

/// The one node every heap starts with: the nil atom, at handle zero.
pub open spec fn initial_heap() -> Seq<Ast> {
    seq![Ast::Atom(AtomId(0))]
}

/// The spec parser's starting state for a fresh document: the cursor on the
/// first token, a heap holding only the nil atom node, and the four built-in
/// atoms.
pub open spec fn init_pstate() -> PState {
    PState { cur: 0, heap: seq![SpecAst::Atom(AtomId(0))], atoms: builtin_atoms() }
}

/// Represents a source text after being parsed.
pub struct KartaFile {
    /// Maps atom texts to their handles.
    pub atoms: AtomTable,
    /// The handle of the root expression.
    pub root: AstId,
    /// Heap of all nodes, accessed by handle.
    pub ast_heap: AstHeap,
}

impl KartaFile {
    /// A well-formed document: distinct atoms starting with the four
    /// built-ins, a heap whose handles are all in range and whose first node
    /// is the nil atom, and an in-range root.
    pub open spec fn wf(&self) -> bool {
        &&& self.atoms.wf()
        &&& self.atoms@.len() >= 4
        &&& self.atoms@[0] == ".nil"@
        &&& self.atoms@[1] == ".t"@
        &&& self.atoms@[2] == ".head"@
        &&& self.atoms@[3] == ".tail"@
        &&& heap_wf(self.ast_heap@, self.atoms@.len() as int)
        &&& self.ast_heap@.len() >= 1
        &&& self.ast_heap@[0] == Ast::Atom(AtomId(0))
        &&& self.root.0 < self.ast_heap@.len()
    }

    /// The document is the parse of `text`: tokenization succeeded, the
    /// spec-level parse succeeded, and its root handle, heap (up to
    /// abstraction) and atom table are exactly this document's. The earlier
    /// clauses restate the leading-token cases and two common shapes
    /// directly, as the laws use them.
    pub open spec fn parsed_from(&self, text: Seq<char>) -> bool {
        &&& spec_tokenize(text) is Ok
        &&& expression_cases(
            spec_tokenize(text)->Ok_0[0],
            initial_heap(),
            builtin_atoms(),
            self.ast_heap@,
            self.atoms@,
            Ok(self.root),
        )
        &&& seq_extends(self.ast_heap@, initial_heap())
        &&& seq_extends(self.atoms@, builtin_atoms())
        &&& ({
            let ts = spec_tokenize(text)->Ok_0;
            (ts[0].kind == TokenKind::LeftSquare && ts.len() > 1 && ts[1].kind
                == TokenKind::RightSquare) ==> self.root == AstId(0)
        })
        &&& ({
            let ts = spec_tokenize(text)->Ok_0;
            (ts[0].kind == TokenKind::LeftBrace && single_int_pair(ts, 1))
                ==> single_int_pair_result(
                ts,
                1,
                initial_heap(),
                builtin_atoms(),
                self.ast_heap@,
                self.atoms@,
                Ok(self.root),
            )
        })
        &&& ({
            let ts = spec_tokenize(text)->Ok_0;
            sp_expr(ts, init_pstate()) matches Ok(pr) && pr.0 == self.root && pr.1.heap
                == heap_abs(self.ast_heap@) && pr.1.atoms == self.atoms@
        })
    }

    /// Create and parse a document from source text. Succeeds exactly when
    /// tokenization and the spec-level parse succeed, yielding their exact
    /// document; fails with exactly the error they give.
    pub fn new(file_contents: String) -> (r: Result<Self, KartaError>)
        requires
            file_contents@.len() < usize::MAX,
        ensures
            match r {
                Ok(f) => f.wf() && f.parsed_from(file_contents@),
                Err(e) => match spec_tokenize(file_contents@) {
                    Ok(ts) => sp_expr(ts, init_pstate()) == Err::<(AstId, PState), KartaError>(e),
                    Err(e2) => e == e2,
                },
            },
    {
        let mut atoms = AtomTable::new();
        let nil_atom_id = put_atoms_in_set(&mut atoms, String::from_str(".nil"));
        put_atoms_in_set(&mut atoms, String::from_str(".t"));
        put_atoms_in_set(&mut atoms, String::from_str(".head"));
        put_atoms_in_set(&mut atoms, String::from_str(".tail"));
        proof {
            lemma_builtin_atoms();
            assert(atoms@ =~= builtin_atoms());
            assert(nil_atom_id.0 == 0);
        }
        let mut ast_heap = AstHeap::new();
        ast_heap.create_atom(nil_atom_id);
        proof {
            assert(ast_heap@ =~= initial_heap());
            assert(heap_wf(ast_heap@, atoms@.len() as int)) by {
                assert(initial_heap()[0] == Ast::Atom(AtomId(0)));
            }
            assert(heap_abs(initial_heap()) =~= init_pstate().heap);
        }
        let mut parser = Parser::new();
        let root = match parser.parse(file_contents, &mut ast_heap, &mut atoms) {
            Ok(root) => root,
            Err(e) => {
                return Err(e);
            },
        };
        Ok(Self { ast_heap, atoms, root })
    }
}

/// Intern an atom text, returning its (possibly pre-existing) handle.
pub fn put_atoms_in_set(atoms: &mut AtomTable, atom: String) -> (r: AtomId)
    requires
        old(atoms).wf(),
    ensures
        final (atoms).wf(),
        final (atoms)@ == spec_intern(old(atoms)@, atom@),
        r.0 == spec_intern_id(old(atoms)@, atom@),
{
    atoms.intern(atom)
}

/// Interning the four built-in atoms into an empty table yields exactly
/// `builtin_atoms`, with handles zero to three.
proof fn lemma_builtin_atoms()
    ensures
        ({
            let n0 = Seq::<Seq<char>>::empty();
            let n1 = spec_intern(n0, ".nil"@);
            let n2 = spec_intern(n1, ".t"@);
            let n3 = spec_intern(n2, ".head"@);
            let n4 = spec_intern(n3, ".tail"@);
            &&& spec_intern_id(n0, ".nil"@) == 0
            &&& n4 == builtin_atoms()
        }),
{
    reveal_strlit(".nil");
    reveal_strlit(".t");
    reveal_strlit(".head");
    reveal_strlit(".tail");
    let n0 = Seq::<Seq<char>>::empty();
    let n1 = spec_intern(n0, ".nil"@);
    assert(n1 =~= seq![".nil"@]);
    assert(".nil"@.len() == 4 && ".t"@.len() == 2 && ".head"@.len() == 5 && ".tail"@.len() == 5);
    assert(".head"@[1] != ".tail"@[1]);
    lemma_find_absent(n1, ".t"@);
    let n2 = spec_intern(n1, ".t"@);
    assert(n2 =~= seq![".nil"@, ".t"@]);
    lemma_find_absent(n2, ".head"@);
    let n3 = spec_intern(n2, ".head"@);
    assert(n3 =~= seq![".nil"@, ".t"@, ".head"@]);
    lemma_find_absent(n3, ".tail"@);
    let n4 = spec_intern(n3, ".tail"@);
    assert(n4 =~= seq![".nil"@, ".t"@, ".head"@, ".tail"@]);
    assert(n4 =~= builtin_atoms());
}

} // verus!
