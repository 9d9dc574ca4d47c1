//! Configuration handed in by the caller: the symbol table and a forwarded
//! document root.

use vstd::prelude::*;
use vstd::string::StringExecFns;

verus! {

/// An abstract typographic marker, created during inline tokenization and
/// resolved to display text only at render time.
#[derive(Debug, Clone, Copy, PartialEq, Eq, Structural)]
pub enum Symbol {
    Apostrophe,
    Trademark,
    Registered,
    Copyright,
    Half,
    Quarter,
    ThreeQuarters,
    Degrees,
    PlusMinus,
    Emdash,
    Endash,
    Ellipsis,
}

/// Caller-supplied options: the symbol substitution table (later entries for
/// the same symbol overwrite earlier ones) and a document root path that the
/// core only forwards.
pub struct Options {
    pub symbols: Vec<(Symbol, String)>,
    pub document_root_directory: Option<String>,
}

/// The substitution table as a sequence of (symbol, replacement) pairs.
pub open spec fn table_view(t: Seq<(Symbol, String)>) -> Seq<(Symbol, Seq<char>)> {
    t.map_values(|p: (Symbol, String)| (p.0, p.1@))
}

/// The replacement for `sym` in `table`, if any: the last entry wins.
pub open spec fn spec_lookup(table: Seq<(Symbol, Seq<char>)>, sym: Symbol) -> Option<Seq<char>>
    decreases table.len(),
{
    if table.len() == 0 {
        None
    } else if table.last().0 == sym {
        Some(table.last().1)
    } else {
        spec_lookup(table.drop_last(), sym)
    }
}

impl Options {
    /// The canonical built-in substitution table, covering every symbol.
    pub fn canonical_symbols() -> (r: Vec<(Symbol, String)>)
        ensures
            table_view(r@) == canonical_table(),
    {
        let mut pairs: Vec<(Symbol, String)> = Vec::new();
        pairs.push((Symbol::Apostrophe, String::from_str("&#8217;")));
        pairs.push((Symbol::Trademark, String::from_str("&#8482;")));
        pairs.push((Symbol::Registered, String::from_str("&#174;")));
        pairs.push((Symbol::Copyright, String::from_str("&#169;")));
        pairs.push((Symbol::Half, String::from_str("&#189;")));
        pairs.push((Symbol::Quarter, String::from_str("&#188;")));
        pairs.push((Symbol::ThreeQuarters, String::from_str("&#190;")));
        pairs.push((Symbol::Degrees, String::from_str("&#176;")));
        pairs.push((Symbol::PlusMinus, String::from_str("&#177;")));
        pairs.push((Symbol::Emdash, String::from_str("&#8212;")));
        pairs.push((Symbol::Endash, String::from_str("&#8211;")));
        pairs.push((Symbol::Ellipsis, String::from_str("&#8230;")));
        proof {
            assert(table_view(pairs@) =~= canonical_table());
        }
        pairs
    }

    /// The replacement text for `sym`, cloned out of the table, or `None`
    /// when the table has no entry for it.
    pub fn get_symbol(&self, sym: Symbol) -> (r: Option<String>)
        ensures
            match r {
                Some(s) => spec_lookup(table_view(self.symbols@), sym) == Some(s@),
                None => spec_lookup(table_view(self.symbols@), sym) is None,
            },
    {
        let mut i: usize = self.symbols.len();
        proof {
            assert(self.symbols@.take(i as int) =~= self.symbols@);
        }
        while i > 0
            invariant
                i <= self.symbols@.len(),
                spec_lookup(table_view(self.symbols@), sym) == spec_lookup(
                    table_view(self.symbols@.take(i as int)),
                    sym,
                ),
            decreases i,
        {
            i -= 1;
            let entry = &self.symbols[i];
            proof {
                assert(table_view(self.symbols@.take(i + 1)).drop_last() =~= table_view(
                    self.symbols@.take(i as int),
                ));
                assert(table_view(self.symbols@.take(i + 1)).last() == (
                    self.symbols@[i as int].0,
                    self.symbols@[i as int].1@,
                ));
            }
            if entry.0 == sym {
                return Some(entry.1.clone());
            }
        }
        proof {
            assert(table_view(self.symbols@.take(0)) =~= Seq::<(Symbol, Seq<char>)>::empty());
        }
        None
    }

    /// Whether the table holds an entry for `sym`.
    pub fn has_symbol(&self, sym: Symbol) -> (r: bool)
        ensures
            r == (spec_lookup(table_view(self.symbols@), sym) is Some),
    {
        match self.get_symbol(sym) {
            Some(_) => true,
            None => false,
        }
    }
}

/// The canonical substitution table, symbol by symbol.
pub open spec fn canonical_table() -> Seq<(Symbol, Seq<char>)> {
    seq![
        (Symbol::Apostrophe, "&#8217;"@),
        (Symbol::Trademark, "&#8482;"@),
        (Symbol::Registered, "&#174;"@),
        (Symbol::Copyright, "&#169;"@),
        (Symbol::Half, "&#189;"@),
        (Symbol::Quarter, "&#188;"@),
        (Symbol::ThreeQuarters, "&#190;"@),
        (Symbol::Degrees, "&#176;"@),
        (Symbol::PlusMinus, "&#177;"@),
        (Symbol::Emdash, "&#8212;"@),
        (Symbol::Endash, "&#8211;"@),
        (Symbol::Ellipsis, "&#8230;"@),
    ]
}

impl Default for Options {
    /// The default configuration: the canonical symbol table and no document
    /// root.
    fn default() -> (r: Options)
        ensures
            table_view(r.symbols@) == canonical_table(),
            r.document_root_directory is None,
    {
        Options { symbols: Options::canonical_symbols(), document_root_directory: None }
    }
}

} // verus!
