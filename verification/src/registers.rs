//! Registers: named lists of strings that commands copy into and paste from.

use crate::strings;
use std::collections::HashMap;
use vstd::prelude::*;

verus! {

/// The registers that hold something, by name.
pub struct Registers {
    inner: HashMap<u32, Vec<String>>,
}

/// The key under which a register is kept.
spec fn slot(name: char) -> u32 {
    name as u32
}

impl View for Registers {
    type V = Map<char, Seq<Seq<char>>>;

    closed spec fn view(&self) -> Map<char, Seq<Seq<char>>> {
        Map::new(
            |name: char| self.inner@.contains_key(slot(name)),
            |name: char| strings::string_views(self.inner@[slot(name)]@),
        )
    }
}

impl Registers {
    /// No register holds anything.
    pub fn new() -> (registers: Registers)
        ensures
            registers@ == Map::<char, Seq<Seq<char>>>::empty(),
    {
        broadcast use vstd::std_specs::hash::group_hash_axioms;

        let registers = Registers { inner: HashMap::new() };
        assert(registers@ =~= Map::<char, Seq<Seq<char>>>::empty());
        registers
    }

    /// What a register holds, or nothing where it was never written.
    pub fn read(&self, name: char) -> (values: Option<&Vec<String>>)
        ensures
            values is Some <==> self@.contains_key(name),
            values matches Some(values) ==> strings::string_views(values@) == self@[name],
    {
        broadcast use vstd::std_specs::hash::group_hash_axioms;

        self.inner.get(&(name as u32))
    }

    /// Puts `values` in place of what the register held.
    pub fn write(&mut self, name: char, values: Vec<String>)
        ensures
            final(self)@ == old(self)@.insert(name, strings::string_views(values@)),
    {
        broadcast use vstd::std_specs::hash::group_hash_axioms;

        self.inner.insert(name as u32, values);
        assert forall|other: char| #[trigger] slot(other) == slot(name) implies other == name by {
            vstd::utf8::char_u32_cast(name, slot(name));
            vstd::utf8::char_u32_cast(other, slot(name));
        }
        assert(self@ =~= old(self)@.insert(name, strings::string_views(values@)));
    }
}

} // verus!
