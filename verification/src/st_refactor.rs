use vstd::prelude::*;
use crate::ann::Spanned;
use crate::data::Data;
use crate::scope::Scope;
use crate::symbol::SharedSymbol;
use crate::symbol::UniqueSymbol;

verus! {

/// A pattern of the parsed surface tree.
#[derive(Debug)]
pub enum ASTPattern {
    Symbol(SharedSymbol),
    Data(Data),
    Label(Spanned<SharedSymbol>, Box<Spanned<ASTPattern>>),
    Tuple(Vec<Spanned<ASTPattern>>),
}

/// A macro-argument pattern of the parsed surface tree.
#[derive(Debug)]
pub enum ArgPattern {
    Keyword(SharedSymbol),
    Symbol(SharedSymbol),
    Group(Vec<Spanned<ArgPattern>>),
}

/// A type annotation of the parsed surface tree.
#[derive(Debug)]
pub enum Type {
    Symbol(SharedSymbol),
    Tuple(Vec<Spanned<Type>>),
}

/// A pattern of the desugared tree.
#[derive(Debug)]
pub enum CSTPattern {
    Symbol(SharedSymbol),
    Data(Data),
    Label(SharedSymbol, Box<Spanned<CSTPattern>>),
    Tuple(Vec<Spanned<CSTPattern>>),
}

/// A pattern of the resolved tree: every binding occurrence now carries the
/// unique symbol the resolver assigned to it.
#[derive(Debug)]
pub enum SSTPattern {
    Symbol(UniqueSymbol),
    Data(Data),
    Label(UniqueSymbol, Box<Spanned<SSTPattern>>),
    Tuple(Vec<Spanned<SSTPattern>>),
}

/// The parsed surface tree: symbols are raw interned names, and the sugar
/// (records, labels, macros, type annotations) is still present.
#[derive(Debug)]
pub enum AST {
    Symbol(SharedSymbol),
    Data(Data),
    Block(Vec<Spanned<AST>>),
    Form(Vec<Spanned<AST>>),
    Group(Box<Spanned<AST>>),
    Pattern(ASTPattern),
    ArgPattern(ArgPattern),
    Label(Spanned<SharedSymbol>, Box<Spanned<AST>>),
    Tuple(Vec<Spanned<AST>>),
    Record(Vec<Spanned<AST>>),
    Is { field: Box<Spanned<AST>>, expression: Box<Spanned<AST>> },
    Assign { pattern: Box<Spanned<ASTPattern>>, expression: Box<Spanned<AST>> },
    Lambda { pattern: Box<Spanned<ASTPattern>>, expression: Box<Spanned<AST>> },
    Composition { argument: Box<Spanned<AST>>, function: Box<Spanned<AST>> },
    Syntax { arg_pat: Box<Spanned<ArgPattern>>, expression: Box<Spanned<AST>> },
    Type { label: Spanned<SharedSymbol>, type_: Box<Spanned<Type>> },
    FFI { name: String, expression: Box<Spanned<AST>> },
}

/// The desugared tree the resolver consumes: a small node set with raw
/// interned names at binding and reference sites.
#[derive(Debug)]
pub enum CST {
    Symbol(SharedSymbol),
    Data(Data),
    Block(Vec<Spanned<CST>>),
    Assign { pattern: Box<Spanned<CSTPattern>>, expression: Box<Spanned<CST>> },
    Lambda { pattern: Box<Spanned<CSTPattern>>, expression: Box<Spanned<CST>> },
    Call { fun: Box<Spanned<CST>>, arg: Box<Spanned<CST>> },
    Label(Spanned<SharedSymbol>, Box<Spanned<CST>>),
    Tuple(Vec<Spanned<CST>>),
    FFI { name: String, expression: Box<Spanned<CST>> },
}

/// The resolved tree: every name replaced by a unique symbol, and every
/// function literal carrying its finalized scope — its local-slot count and
/// its ordered capture list.
#[derive(Debug)]
pub enum SST {
    Symbol(UniqueSymbol),
    Data(Data),
    Block(Vec<Spanned<SST>>),
    Assign { pattern: Box<Spanned<SSTPattern>>, expression: Box<Spanned<SST>> },
    Lambda { pattern: Box<Spanned<SSTPattern>>, expression: Box<Spanned<SST>>, scope: Scope },
    Call { fun: Box<Spanned<SST>>, arg: Box<Spanned<SST>> },
    Label(UniqueSymbol, Box<Spanned<SST>>),
    Tuple(Vec<Spanned<SST>>),
    FFI { name: String, expression: Box<Spanned<SST>> },
}

} // verus!
