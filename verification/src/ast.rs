//! The checked syntax tree that the IR generator takes from the front
//! end.  Nothing is left to look up in it: every variable carries its
//! place in the frame or its name, every access its width, and every
//! step through an array its stride.

use vstd::prelude::*;

verus! {

/// An operation on two values.
#[derive(Clone, Copy, Debug, PartialEq, Eq, Structural)]
pub enum BinOp {
    Add,
    Sub,
    Mul,
    Div,
    Mod,
    And,
    Or,
    Xor,
    Shl,
    Shr,
    Eq,
    Ne,
    Lt,
    Le,
}

/// Something that has an address.
#[derive(Debug, PartialEq, Eq)]
pub enum Place {
    /// A local variable, by its frame offset.
    Local(usize),
    /// A global variable, by its name.
    Global(String),
    /// What a pointer points to.
    Deref(Box<Expr>),
    /// A member of a structure, by its offset in the structure.
    Member(Box<Place>, usize),
    /// An element of an array: the pointer to the first element, the
    /// index, and the size of an element.
    Element(Box<Expr>, Box<Expr>, usize),
}

/// An expression.
#[derive(Debug, PartialEq, Eq)]
pub enum Expr {
    /// A constant.
    Num(usize),
    /// The value at a place, of the given width.
    Load(Box<Place>, u8),
    /// The address of a place.
    Addr(Box<Place>),
    /// The assignment of a value of the given width to a place.
    Assign(Box<Place>, Box<Expr>, u8),
    Binary(BinOp, Box<Expr>, Box<Expr>),
    /// `&&`, which leaves its right side out where the left is zero.
    LogAnd(Box<Expr>, Box<Expr>),
    /// `||`, which leaves its right side out where the left is not zero.
    LogOr(Box<Expr>, Box<Expr>),
    /// `++` and `--`: the place, its width, the amount, whether it is
    /// taken away, and whether the value is that from before the step.
    Step(Box<Place>, u8, usize, bool, bool),
    /// A call of the function with the given name.
    Call(String, Vec<Expr>),
}

/// A statement.
#[derive(Debug, PartialEq, Eq)]
pub enum Stmt {
    If(Expr, Box<Stmt>, Option<Box<Stmt>>),
    While(Expr, Box<Stmt>),
    /// `for`: what runs first, the test, the step, and the body.
    For(Option<Expr>, Option<Expr>, Option<Expr>, Box<Stmt>),
    DoWhile(Box<Stmt>, Expr),
    Break,
    Continue,
    Return(Expr),
    Expr(Expr),
    Block(Vec<Stmt>),
}

/// A parameter of a function: the frame slot that it is kept in.
#[derive(Clone, Copy, Debug, PartialEq, Eq, Structural)]
pub struct Param {
    pub offset: usize,
    pub size: u8,
}

/// The definition of a function.
#[derive(Debug, PartialEq, Eq)]
pub struct FunctionDef {
    pub name: String,
    pub params: Vec<Param>,
    pub stacksize: usize,
    pub body: Vec<Stmt>,
}

} // verus!
