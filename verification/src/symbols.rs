//! The symbol table: a case-sensitive mapping from symbol names to 16-bit
//! addresses, pre-loaded with the fixed predefined entries and extended by
//! the resolver.
//!
//! Every address the table holds fits the 15-bit address field of an
//! address instruction; that bound is the table's well-formedness
//! invariant.

use vstd::prelude::*;
use vstd::string::StringExecFns;
use crate::text::str_eq;

verus! {

/// Every address in the map fits the 15-bit address field.
pub open spec fn bounded_table(m: Map<Seq<char>, u16>) -> bool {
    forall|k: Seq<char>| #[trigger] m.dom().contains(k) ==> m[k] < 0x8000
}

/// The fixed entries loaded before any source is read.
pub open spec fn predefined_symbols() -> Map<Seq<char>, u16> {
    Map::empty().insert("SP"@, 0).insert("LCL"@, 1).insert("ARG"@, 2).insert("THIS"@, 3).insert(
        "THAT"@,
        4,
    ).insert("R0"@, 0).insert("R1"@, 1).insert("R2"@, 2).insert("R3"@, 3).insert("R4"@, 4).insert(
        "R5"@,
        5,
    ).insert("R6"@, 6).insert("R7"@, 7).insert("R8"@, 8).insert("R9"@, 9).insert(
        "R10"@,
        10,
    ).insert("R11"@, 11).insert("R12"@, 12).insert("R13"@, 13).insert("R14"@, 14).insert(
        "R15"@,
        15,
    ).insert("SCREEN"@, 16384).insert("KBD"@, 24576)
}

/// Name-to-address mapping; later writes of the same name win.
#[derive(Debug)]
pub struct SymbolTable {
    entries: Vec<(String, u16)>,
}

/// The map an entry list denotes: entries are read in order, later writes
/// of a name shadowing earlier ones.
pub closed spec fn entries_map(es: Seq<(String, u16)>) -> Map<Seq<char>, u16>
    decreases es.len(),
{
    if es.len() == 0 {
        Map::empty()
    } else {
        entries_map(es.drop_last()).insert(es.last().0@, es.last().1)
    }
}

impl View for SymbolTable {
    type V = Map<Seq<char>, u16>;

    closed spec fn view(&self) -> Map<Seq<char>, u16> {
        entries_map(self.entries@)
    }
}

/// Looks a name up in an entry list, later entries first.
spec fn entries_lookup(es: Seq<(String, u16)>, k: Seq<char>) -> Option<u16>
    decreases es.len(),
{
    if es.len() == 0 {
        None
    } else if es.last().0@ == k {
        Some(es.last().1)
    } else {
        entries_lookup(es.drop_last(), k)
    }
}

/// The backward scan agrees with the map an entry list denotes.
proof fn lemma_entries_lookup(es: Seq<(String, u16)>, k: Seq<char>)
    ensures
        entries_lookup(es, k) == (if entries_map(es).dom().contains(k) {
            Some(entries_map(es)[k])
        } else {
            None
        }),
    decreases es.len(),
{
    if es.len() > 0 {
        lemma_entries_lookup(es.drop_last(), k);
    }
}

impl SymbolTable {
    /// Every address the table holds fits the 15-bit address field.
    pub open spec fn wf(&self) -> bool {
        bounded_table(self@)
    }

    /// An empty table.
    pub fn new() -> (t: SymbolTable)
        ensures
            t@ == Map::<Seq<char>, u16>::empty(),
            t.wf(),
    {
        SymbolTable { entries: Vec::new() }
    }

    /// A table holding exactly the predefined symbols.
    pub fn with_defaults() -> (t: SymbolTable)
        ensures
            t@ == predefined_symbols(),
            t.wf(),
    {
        let mut t = SymbolTable::new();
        t.insert(String::from_str("SP"), 0);
        t.insert(String::from_str("LCL"), 1);
        t.insert(String::from_str("ARG"), 2);
        t.insert(String::from_str("THIS"), 3);
        t.insert(String::from_str("THAT"), 4);
        t.insert(String::from_str("R0"), 0);
        t.insert(String::from_str("R1"), 1);
        t.insert(String::from_str("R2"), 2);
        t.insert(String::from_str("R3"), 3);
        t.insert(String::from_str("R4"), 4);
        t.insert(String::from_str("R5"), 5);
        t.insert(String::from_str("R6"), 6);
        t.insert(String::from_str("R7"), 7);
        t.insert(String::from_str("R8"), 8);
        t.insert(String::from_str("R9"), 9);
        t.insert(String::from_str("R10"), 10);
        t.insert(String::from_str("R11"), 11);
        t.insert(String::from_str("R12"), 12);
        t.insert(String::from_str("R13"), 13);
        t.insert(String::from_str("R14"), 14);
        t.insert(String::from_str("R15"), 15);
        t.insert(String::from_str("SCREEN"), 16384);
        t.insert(String::from_str("KBD"), 24576);
        t
    }

    /// Binds `name` to `value`; a later write of the same name wins.
    pub fn insert(&mut self, name: String, value: u16)
        requires
            value < 0x8000,
        ensures
            final(self)@ == old(self)@.insert(name@, value),
            old(self).wf() ==> final(self).wf(),
    {
        let ghost pre = self.entries@;
        self.entries.push((name, value));
        proof {
            assert(self.entries@.drop_last() =~= pre);
        }
    }

    /// Looks `name` up.
    pub fn get(&self, name: &str) -> (r: Option<u16>)
        ensures
            match r {
                Some(v) => self@.dom().contains(name@) && self@[name@] == v && (self.wf() ==> v
                    < 0x8000),
                None => !self@.dom().contains(name@),
            },
    {
        proof {
            lemma_entries_lookup(self.entries@, name@);
            assert(self.entries@.take(self.entries@.len() as int) =~= self.entries@);
        }
        let mut i: usize = self.entries.len();
        while i > 0
            invariant
                0 <= i <= self.entries@.len(),
                entries_lookup(self.entries@, name@) == entries_lookup(
                    self.entries@.take(i as int),
                    name@,
                ),
            decreases i,
        {
            let e = &self.entries[i - 1];
            proof {
                assert(self.entries@.take(i as int).last() == self.entries@[i - 1]);
                assert(self.entries@.take(i as int).drop_last() =~= self.entries@.take(i - 1));
            }
            if str_eq(e.0.as_str(), name) {
                proof {
                    assert(entries_lookup(self.entries@.take(i as int), name@) == Some(e.1));
                    lemma_entries_lookup(self.entries@, name@);
                    assert(self@.dom().contains(name@) && self@[name@] == e.1);
                }
                return Some(e.1);
            }
            i = i - 1;
        }
        proof {
            assert(self.entries@.take(0) =~= Seq::<(String, u16)>::empty());
            lemma_entries_lookup(self.entries@, name@);
        }
        None
    }

    /// Whether `name` is bound.
    pub fn contains_key(&self, name: &str) -> (b: bool)
        ensures
            b == self@.dom().contains(name@),
    {
        self.get(name).is_some()
    }
}

} // verus!
