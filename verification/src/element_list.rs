//! Control operators that separate commands on a line.

use vstd::prelude::*;

verus! {

#[derive(Debug, Clone, Copy, PartialEq, Eq, Structural)]
pub enum ControlOperator {
    And,
    Or,
    Pipe,
    PipeAnd,
    Semicolon,
    SemiAnd,
    DoubleSemicolon,
    SemiSemiAnd,
    BgAnd,
    NewLine,
    LeftParen,
    RightParen,
}

} // verus!
