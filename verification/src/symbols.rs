//! The symbol table of the assembler: a list of named symbols, each with an
//! optional resolved byte offset.  Names are byte strings (label names are
//! ASCII-alphanumeric, so the bytes are the name); lookups return the first
//! symbol carrying the name, and the table never overwrites on insert — the
//! assembler checks for duplicates and reports them as errors.

use vstd::prelude::*;

verus! {

#[derive(Debug, Clone, PartialEq, Eq, Structural, Copy)]
pub enum SymbolType {
    Label,
    IrString,
}

#[derive(Debug, Clone)]
pub struct Symbol {
    pub name: Vec<u8>,
    pub symbol_type: SymbolType,
    pub offset: Option<u32>,
}

/// The ghost mirror of [`Symbol`], with the name as a byte sequence.
pub ghost struct SpecSymbol {
    pub name: Seq<u8>,
    pub symbol_type: SymbolType,
    pub offset: Option<u32>,
}

impl View for Symbol {
    type V = SpecSymbol;

    open spec fn view(&self) -> SpecSymbol {
        SpecSymbol { name: self.name@, symbol_type: self.symbol_type, offset: self.offset }
    }
}

impl Symbol {
    pub fn new(name: Vec<u8>, symbol_type: SymbolType) -> (r: Symbol)
        ensures
            r@ == (SpecSymbol { name: name@, symbol_type, offset: None }),
    {
        Symbol { name, symbol_type, offset: None }
    }

    pub fn new_with_offset(name: Vec<u8>, symbol_type: SymbolType, offset: u32) -> (r: Symbol)
        ensures
            r@ == (SpecSymbol { name: name@, symbol_type, offset: Some(offset) }),
    {
        Symbol { name, symbol_type, offset: Some(offset) }
    }
}

/// Index of the first symbol named `name`, or -1 if there is none.
pub open spec fn sym_index(s: Seq<SpecSymbol>, name: Seq<u8>) -> int
    decreases s.len(),
{
    if s.len() == 0 {
        -1
    } else if s[0].name == name {
        0
    } else {
        let r = sym_index(s.drop_first(), name);
        if r < 0 {
            -1
        } else {
            r + 1
        }
    }
}

/// Whether the table holds a symbol named `name`.
pub open spec fn table_has(s: Seq<SpecSymbol>, name: Seq<u8>) -> bool {
    sym_index(s, name) >= 0
}

/// The offset recorded for the first symbol named `name`, if any symbol
/// carries the name and an offset has been recorded for it.
pub open spec fn table_value(s: Seq<SpecSymbol>, name: Seq<u8>) -> Option<u32> {
    if sym_index(s, name) >= 0 {
        s[sym_index(s, name)].offset
    } else {
        None
    }
}

pub proof fn lemma_sym_index_props(s: Seq<SpecSymbol>, name: Seq<u8>)
    ensures
        sym_index(s, name) >= 0 ==> sym_index(s, name) < s.len() && s[sym_index(s, name)].name
            == name,
        sym_index(s, name) >= 0 ==> forall|j: int|
            0 <= j < sym_index(s, name) ==> s[j].name != name,
        sym_index(s, name) < 0 ==> forall|j: int| 0 <= j < s.len() ==> #[trigger] s[j].name
            != name,
    decreases s.len(),
{
    if s.len() > 0 && s[0].name != name {
        lemma_sym_index_props(s.drop_first(), name);
        assert forall|j: int| 1 <= j < s.len() implies s.drop_first()[j - 1] == s[j] by {}
    }
}

/// The first index bearing `name` is `k` exactly when `k` matches and no
/// earlier index does.
pub proof fn lemma_sym_index_is_first(s: Seq<SpecSymbol>, name: Seq<u8>, k: int)
    requires
        0 <= k < s.len(),
        s[k].name == name,
        forall|j: int| 0 <= j < k ==> #[trigger] s[j].name != name,
    ensures
        sym_index(s, name) == k,
    decreases k,
{
    if k > 0 {
        assert(s.drop_first()[k - 1] == s[k]);
        assert forall|j: int| 0 <= j < k - 1 implies #[trigger] s.drop_first()[j].name != name by {
            assert(s.drop_first()[j] == s[j + 1]);
        }
        lemma_sym_index_is_first(s.drop_first(), name, k - 1);
    }
}

pub proof fn lemma_sym_index_none(s: Seq<SpecSymbol>, name: Seq<u8>)
    requires
        forall|j: int| 0 <= j < s.len() ==> #[trigger] s[j].name != name,
    ensures
        sym_index(s, name) == -1,
    decreases s.len(),
{
    if s.len() > 0 {
        assert forall|j: int| 0 <= j < s.len() - 1 implies #[trigger] s.drop_first()[j].name
            != name by {
            assert(s.drop_first()[j] == s[j + 1]);
        }
        lemma_sym_index_none(s.drop_first(), name);
    }
}

#[derive(Debug)]
pub struct SymbolTable {
    pub symbols: Vec<Symbol>,
}

impl View for SymbolTable {
    type V = Seq<SpecSymbol>;

    open spec fn view(&self) -> Seq<SpecSymbol> {
        Seq::new(self.symbols@.len(), |i: int| self.symbols@[i]@)
    }
}

impl SymbolTable {
    pub fn new() -> (r: SymbolTable)
        ensures
            r@.len() == 0,
    {
        SymbolTable { symbols: Vec::new() }
    }

    pub fn add_symbol(&mut self, s: Symbol)
        ensures
            final(self)@ == old(self)@.push(s@),
    {
        let ghost sv = s@;
        self.symbols.push(s);
        proof {
            assert(self@ =~= old(self)@.push(sv));
        }
    }

    pub fn has_symbol(&self, s: &[u8]) -> (r: bool)
        ensures
            r == table_has(self@, s@),
    {
        let n = self.symbols.len();
        let mut i: usize = 0;
        while i < n
            invariant
                i <= n,
                n == self.symbols@.len(),
                forall|j: int| 0 <= j < i ==> #[trigger] self@[j].name != s@,
            decreases n - i,
        {
            if bytes_eq(self.symbols[i].name.as_slice(), s) {
                proof {
                    lemma_sym_index_is_first(self@, s@, i as int);
                }
                return true;
            }
            i = i + 1;
        }
        proof {
            lemma_sym_index_none(self@, s@);
        }
        false
    }

    /// Records `offset` for the first symbol named `s`; returns whether a
    /// symbol carrying the name was found.
    pub fn set_symbol_offset(&mut self, s: &[u8], offset: u32) -> (r: bool)
        ensures
            r == table_has(old(self)@, s@),
            r ==> final(self)@ == old(self)@.update(
                sym_index(old(self)@, s@),
                SpecSymbol { offset: Some(offset), ..old(self)@[sym_index(old(self)@, s@)] },
            ),
            !r ==> final(self)@ == old(self)@,
    {
        let n = self.symbols.len();
        let mut i: usize = 0;
        while i < n
            invariant
                i <= n,
                n == self.symbols@.len(),
                self == old(self),
                forall|j: int| 0 <= j < i ==> #[trigger] self@[j].name != s@,
            decreases n - i,
        {
            if bytes_eq(self.symbols[i].name.as_slice(), s) {
                proof {
                    lemma_sym_index_is_first(self@, s@, i as int);
                }
                self.symbols[i].offset = Some(offset);
                proof {
                    assert(self@ =~= old(self)@.update(
                        i as int,
                        SpecSymbol { offset: Some(offset), ..old(self)@[i as int] },
                    ));
                }
                return true;
            }
            i = i + 1;
        }
        proof {
            lemma_sym_index_none(self@, s@);
            assert(self@ =~= old(self)@);
        }
        false
    }

    /// The resolved offset of the first symbol named `s`, if one was recorded.
    pub fn symbol_value(&self, s: &[u8]) -> (r: Option<u32>)
        ensures
            r == table_value(self@, s@),
    {
        let n = self.symbols.len();
        let mut i: usize = 0;
        while i < n
            invariant
                i <= n,
                n == self.symbols@.len(),
                forall|j: int| 0 <= j < i ==> #[trigger] self@[j].name != s@,
            decreases n - i,
        {
            if bytes_eq(self.symbols[i].name.as_slice(), s) {
                proof {
                    lemma_sym_index_is_first(self@, s@, i as int);
                }
                return self.symbols[i].offset;
            }
            i = i + 1;
        }
        proof {
            lemma_sym_index_none(self@, s@);
        }
        None
    }
}

/// A fresh copy of a byte string.
pub fn clone_bytes(v: &Vec<u8>) -> (r: Vec<u8>)
    ensures
        r@ == v@,
{
    vstd::slice::slice_to_vec(v.as_slice())
}

/// Byte-for-byte equality of two byte strings.
pub fn bytes_eq(a: &[u8], b: &[u8]) -> (r: bool)
    ensures
        r == (a@ == b@),
{
    if a.len() != b.len() {
        assert(a@ != b@);
        return false;
    }
    let n = a.len();
    let mut i: usize = 0;
    while i < n
        invariant
            i <= n,
            n == a@.len(),
            n == b@.len(),
            forall|j: int| 0 <= j < i ==> a@[j] == b@[j],
        decreases n - i,
    {
        if a[i] != b[i] {
            return false;
        }
        i = i + 1;
    }
    assert(a@ =~= b@);
    true
}

} // verus!
