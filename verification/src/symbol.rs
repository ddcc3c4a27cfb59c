//! Named offsets that label declarations resolve to.

use vstd::prelude::*;

verus! {

/// What kind of symbol a name stands for.
#[derive(Debug, PartialEq, Eq, Structural, Clone, Copy)]
pub enum SymbolType {
    Label,
}

/// The model of a symbol: its name and the byte offset it resolved to.
pub struct SymbolModel {
    pub name: Seq<char>,
    pub offset: u8,
}

/// A named, resolved byte offset standing in for a label.
#[derive(Debug)]
pub struct Symbol {
    pub name: String,
    pub offset: u8,
    pub symbol_type: SymbolType,
}

impl View for Symbol {
    type V = SymbolModel;

    open spec fn view(&self) -> SymbolModel {
        SymbolModel { name: self.name@, offset: self.offset }
    }
}

impl Symbol {
    pub fn new(name: String, offset: u8, symbol_type: SymbolType) -> (r: Symbol)
        ensures
            r@ == (SymbolModel { name: name@, offset }),
    {
        Symbol { name, offset, symbol_type }
    }
}

} // verus!
