//! The fluent query API: an immutable, chainable cursor over a document
//! that accumulates field accesses and type coercions, short-circuiting on
//! the first failure.

use vstd::prelude::*;
use vstd::pervasive::unreached;
use vstd::string::*;

use crate::ast::{
    ast_kind,
    entries_map,
    kind_of_node,
    lemma_entries_map_at,
    lemma_entries_map_contains,
    node_wf,
    Ast,
    AstId,
};
use crate::atoms::{spec_find, AtomId};
use crate::error::{spec_dec, spec_dec_signed, push_dec, push_dec_signed, CoerceTarget, KartaError};
use crate::file::KartaFile;
use crate::numbers::{trunc_decimal, trunc_decimal_text};

verus! {

/// What `get_field` leaves the cursor at: an existing error is kept; a field
/// name never interned anywhere in the document leaves the cursor unchanged;
/// on a map node the cursor moves to the named field, or to handle zero (the
/// nil atom) when the map lacks it; on any other node the cursor becomes an
/// error naming the node's kind.
pub open spec fn spec_get_field(
    f: KartaFile,
    cur: Result<AstId, KartaError>,
    name: Seq<char>,
) -> Result<AstId, KartaError> {
    match cur {
        Err(e) => Err(e),
        Ok(id) => match spec_find(f.atoms@, name) {
            None => Ok(id),
            Some(aid) => match f.ast_heap@[id.0 as int] {
                Ast::MapNode(es) => Ok(
                    if entries_map(es@).dom().contains(AtomId(aid as usize)) {
                        entries_map(es@)[AtomId(aid as usize)]
                    } else {
                        AstId(0)
                    },
                ),
                node => Err(KartaError::CannotGet { kind: ast_kind(node) }),
            },
        },
    }
}

/// What `as_int` returns: integers themselves, chars as their code, float
/// literals truncated (saturating at the 64-bit maximum), an error naming
/// the kind otherwise; an existing error is returned unchanged.
pub open spec fn spec_as_int(f: KartaFile, cur: Result<AstId, KartaError>) -> Result<
    i64,
    KartaError,
> {
    match cur {
        Err(e) => Err(e),
        Ok(id) => match f.ast_heap@[id.0 as int] {
            Ast::Int(x) => Ok(x),
            Ast::Float(t) => Ok(trunc_decimal(t@)),
            Ast::Char(c) => Ok(c as i64),
            node => Err(
                KartaError::CannotConvert { kind: ast_kind(node), target: CoerceTarget::Int },
            ),
        },
    }
}

/// What `as_float_text` returns: the decimal text whose host-float value is
/// the coercion's result — a float literal's exact source text, an integer
/// or char rendered in decimal — or an error naming the kind.
pub open spec fn spec_as_float_text(f: KartaFile, cur: Result<AstId, KartaError>) -> Result<
    Seq<char>,
    KartaError,
> {
    match cur {
        Err(e) => Err(e),
        Ok(id) => match f.ast_heap@[id.0 as int] {
            Ast::Int(x) => Ok(spec_dec_signed(x as int)),
            Ast::Float(t) => Ok(t@),
            Ast::Char(c) => Ok(spec_dec(c as nat)),
            node => Err(
                KartaError::CannotConvert { kind: ast_kind(node), target: CoerceTarget::Float },
            ),
        },
    }
}

/// What `as_string` returns: a string node's text, an error naming the kind
/// otherwise.
pub open spec fn spec_as_string(f: KartaFile, cur: Result<AstId, KartaError>) -> Result<
    Seq<char>,
    KartaError,
> {
    match cur {
        Err(e) => Err(e),
        Ok(id) => match f.ast_heap@[id.0 as int] {
            Ast::Str(s) => Ok(s@),
            node => Err(
                KartaError::CannotConvert { kind: ast_kind(node), target: CoerceTarget::Str },
            ),
        },
    }
}

/// What `truthy` returns: an atom node is truthy unless it is the nil atom
/// (handle zero); every other node is truthy; errors propagate.
pub open spec fn spec_truthy(f: KartaFile, cur: Result<AstId, KartaError>) -> Result<
    bool,
    KartaError,
> {
    match cur {
        Err(e) => Err(e),
        Ok(id) => match f.ast_heap@[id.0 as int] {
            Ast::Atom(a) => Ok(a.0 != 0),
            _ => Ok(true),
        },
    }
}

/// A query over a document and its intermediate result.
pub struct KartaQuery<'a> {
    /// The document this query reads.
    pub file: &'a KartaFile,
    /// The current cursor: a node handle, or the first error met.
    pub current_result: Result<AstId, KartaError>,
}

impl<'a> KartaQuery<'a> {
    /// The document is well formed and an `Ok` cursor is in range.
    pub open spec fn wf(&self) -> bool {
        &&& self.file.wf()
        &&& self.current_result matches Ok(id) ==> id.0 < self.file.ast_heap@.len()
    }

    /// A query resting at the document's root.
    pub fn new(file: &'a KartaFile) -> (q: Self)
        requires
            file.wf(),
        ensures
            q.file == file,
            q.current_result == Ok::<AstId, KartaError>(file.root),
            q.wf(),
    {
        Self { file, current_result: Ok(file.root) }
    }

    /// Move the cursor to the named field of the current map node, as
    /// `spec_get_field` describes.
    pub fn get_field(self, field: &str) -> (r: Self)
        requires
            self.wf(),
        ensures
            r.wf(),
            r.file == self.file,
            r.current_result == spec_get_field(*self.file, self.current_result, field@),
    {
        let current = match self.current_result {
            Ok(x) => x,
            Err(_) => {
                return self;
            },
        };
        let root_ast = match self.file.ast_heap.get(current) {
            Some(a) => a,
            None => unreached(),
        };
        let field_atom_id = match self.file.atoms.find(field) {
            Some(x) => x,
            None => {
                return self;
            },
        };
        let new_result = match root_ast {
            Ast::MapNode(es) => {
                proof {
                    assert(node_wf(
                        self.file.ast_heap@[current.0 as int],
                        self.file.ast_heap@.len() as int,
                        self.file.atoms@.len() as int,
                    ));
                }
                let found = crate::ast::entries_find(es, field_atom_id);
                match found {
                    Some(v) => {
                        proof {
                            lemma_entries_map_contains(es@, field_atom_id);
                            let i = choose|i: int|
                                0 <= i < es@.len() && #[trigger] es@[i].0 == field_atom_id;
                            lemma_entries_map_at(es@, i);
                        }
                        Ok(v)
                    },
                    None => Ok(AstId(0)),
                }
            },
            _ => Err(KartaError::CannotGet { kind: kind_of_node(root_ast) }),
        };
        KartaQuery { file: self.file, current_result: new_result }
    }

    /// Interpret the current result as an integer, as `spec_as_int`
    /// describes.
    pub fn as_int(&self) -> (r: Result<i64, KartaError>)
        requires
            self.wf(),
        ensures
            r == spec_as_int(*self.file, self.current_result),
    {
        let current = match self.current_result {
            Ok(x) => x,
            Err(e) => {
                return Err(e);
            },
        };
        let ast = match self.file.ast_heap.get(current) {
            Some(a) => a,
            None => unreached(),
        };
        match ast {
            Ast::Int(x) => Ok(*x),
            Ast::Float(t) => Ok(trunc_decimal_text(t.as_str())),
            Ast::Char(c) => Ok(*c as i64),
            _ => Err(
                KartaError::CannotConvert { kind: kind_of_node(ast), target: CoerceTarget::Int },
            ),
        }
    }

    /// Interpret the current result as a float, rendered as decimal text;
    /// the host's float type is produced outside the library by parsing it.
    pub fn as_float_text(&self) -> (r: Result<String, KartaError>)
        requires
            self.wf(),
        ensures
            match r {
                Ok(s) => spec_as_float_text(*self.file, self.current_result) matches Ok(t) && s@
                    == t,
                Err(e) => spec_as_float_text(*self.file, self.current_result) == Err::<
                    Seq<char>,
                    KartaError,
                >(e),
            },
    {
        let current = match self.current_result {
            Ok(x) => x,
            Err(e) => {
                return Err(e);
            },
        };
        let ast = match self.file.ast_heap.get(current) {
            Some(a) => a,
            None => unreached(),
        };
        match ast {
            Ast::Int(x) => {
                let mut out = String::new();
                push_dec_signed(&mut out, *x);
                Ok(out)
            },
            Ast::Float(t) => Ok(t.clone()),
            Ast::Char(c) => {
                let mut out = String::new();
                push_dec(&mut out, *c as u64);
                Ok(out)
            },
            _ => Err(
                KartaError::CannotConvert { kind: kind_of_node(ast), target: CoerceTarget::Float },
            ),
        }
    }

    /// Interpret the current result as a string, as `spec_as_string`
    /// describes.
    pub fn as_string(&self) -> (r: Result<String, KartaError>)
        requires
            self.wf(),
        ensures
            match r {
                Ok(s) => spec_as_string(*self.file, self.current_result) matches Ok(t) && s@ == t,
                Err(e) => spec_as_string(*self.file, self.current_result) == Err::<
                    Seq<char>,
                    KartaError,
                >(e),
            },
    {
        let current = match self.current_result {
            Ok(x) => x,
            Err(e) => {
                return Err(e);
            },
        };
        let ast = match self.file.ast_heap.get(current) {
            Some(a) => a,
            None => unreached(),
        };
        match ast {
            Ast::Str(s) => Ok(s.clone()),
            _ => Err(
                KartaError::CannotConvert { kind: kind_of_node(ast), target: CoerceTarget::Str },
            ),
        }
    }

    /// Whether the current result is truthy (not the nil atom), as
    /// `spec_truthy` describes.
    pub fn truthy(&self) -> (r: Result<bool, KartaError>)
        requires
            self.wf(),
        ensures
            r == spec_truthy(*self.file, self.current_result),
    {
        let current = match self.current_result {
            Ok(x) => x,
            Err(e) => {
                return Err(e);
            },
        };
        let ast = match self.file.ast_heap.get(current) {
            Some(a) => a,
            None => unreached(),
        };
        match ast {
            Ast::Atom(x) => Ok(x.as_usize() != 0),
            _ => Ok(true),
        }
    }

    /// The negation of `truthy`, propagating errors identically.
    pub fn falsey(&self) -> (r: Result<bool, KartaError>)
        requires
            self.wf(),
        ensures
            r == match spec_truthy(*self.file, self.current_result) {
                Ok(b) => Ok::<bool, KartaError>(!b),
                Err(e) => Err::<bool, KartaError>(e),
            },
    {
        match self.truthy() {
            Ok(b) => Ok(!b),
            Err(e) => Err(e),
        }
    }
}

impl KartaFile {
    /// Begin a query of this document, starting at its root.
    pub fn query(&self) -> (q: KartaQuery)
        requires
            self.wf(),
        ensures
            q.file == self,
            q.current_result == Ok::<AstId, KartaError>(self.root),
            q.wf(),
    {
        KartaQuery::new(self)
    }
}

} // verus!
