//! The symbol table: label names to resolved offsets, first definition wins.

use vstd::prelude::*;

use crate::lexer::str_eq;
use crate::symbol::Symbol;
use crate::symbol::SymbolModel;

verus! {

/// The offset of the first symbol with this name, if the table holds one.
pub open spec fn lookup(ms: Seq<SymbolModel>, name: Seq<char>) -> Option<u8>
    decreases ms.len(),
{
    if ms.len() == 0 {
        None
    } else if ms[0].name == name {
        Some(ms[0].offset)
    } else {
        lookup(ms.drop_first(), name)
    }
}

/// The symbol table of one compile pass.  Lookup finds the first symbol
/// added under a name, so an accidental second definition cannot shadow the
/// first.
#[derive(Debug)]
pub struct SymbolTable {
    symbols: Vec<Symbol>,
}

impl View for SymbolTable {
    type V = Seq<SymbolModel>;

    closed spec fn view(&self) -> Seq<SymbolModel> {
        self.symbols@.map_values(|s: Symbol| s@)
    }
}

impl SymbolTable {
    pub fn new() -> (r: SymbolTable)
        ensures
            r@ == Seq::<SymbolModel>::empty(),
    {
        let r = SymbolTable { symbols: Vec::new() };
        proof {
            assert(r@ =~= Seq::<SymbolModel>::empty());
        }
        r
    }

    pub fn add_symbol(&mut self, s: Symbol)
        ensures
            final(self)@ == old(self)@.push(s@),
    {
        let ghost m = s@;
        self.symbols.push(s);
        proof {
            assert(self@ =~= old(self)@.push(m));
        }
    }

    /// The offset of the first symbol named `s`, if any.
    pub fn get_symbol_value(&self, s: &str) -> (r: Option<u8>)
        ensures
            r == lookup(self@, s@),
    {
        let ghost ms = self@;
        let mut i: usize = 0;
        proof {
            assert(ms.skip(0) =~= ms);
        }
        while i < self.symbols.len()
            invariant
                i <= self.symbols@.len(),
                ms == self@,
                ms.len() == self.symbols@.len(),
                lookup(ms, s@) == lookup(ms.skip(i as int), s@),
                forall|k: int| 0 <= k < ms.len() ==> #[trigger] ms[k] == self.symbols@[k]@,
            decreases self.symbols@.len() - i,
        {
            if str_eq(&self.symbols[i].name, s) {
                proof {
                    assert(ms.skip(i as int)[0] == ms[i as int]);
                    assert(lookup(ms.skip(i as int), s@) == Some(ms[i as int].offset));
                }
                return Some(self.symbols[i].offset);
            }
            proof {
                assert(ms.skip(i as int)[0] == ms[i as int]);
                assert(ms.skip(i as int).drop_first() =~= ms.skip(i + 1));
            }
            i = i + 1;
        }
        proof {
            assert(ms.skip(ms.len() as int).len() == 0);
        }
        None
    }
}

} // verus!
