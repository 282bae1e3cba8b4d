//! The registry of built-in macros: names bound to handlers that emit code.
use vstd::prelude::*;
use crate::context::{entry_index, find_binding, keys_unique, lemma_store_entry_unique, store_entry};
use crate::text::str_eq;

verus! {

/// `writeLn!(a, ...)`: prints each argument followed by a newline.
#[derive(Debug, Clone, Copy, PartialEq, Eq, Structural)]
pub struct WriteLnMacro;

/// `write!(a, ...)`: prints each argument.
#[derive(Debug, Clone, Copy, PartialEq, Eq, Structural)]
pub struct WriteMacro;

/// `processExit!(code)`: ends the program with an integer status.
#[derive(Debug, Clone, Copy, PartialEq, Eq, Structural)]
pub struct ProcessExitMacro;

/// `readInput!(prompt)`: writes the prompt and reads one line.
#[derive(Debug, Clone, Copy, PartialEq, Eq, Structural)]
pub struct ReadInputMacro;

/// A macro handler.
#[derive(Debug, Clone, Copy, PartialEq, Eq, Structural)]
pub enum Macro {
    WriteLn(WriteLnMacro),
    Write(WriteMacro),
    ProcessExit(ProcessExitMacro),
    ReadInput(ReadInputMacro),
}

/// The registry of the built-in macros.
pub open spec fn builtin_macros() -> Seq<(Seq<char>, Macro)> {
    seq![
        ("writeLn"@, Macro::WriteLn(WriteLnMacro)),
        ("write"@, Macro::Write(WriteMacro)),
        ("processExit"@, Macro::ProcessExit(ProcessExitMacro)),
        ("readInput"@, Macro::ReadInput(ReadInputMacro)),
    ]
}

/// Names bound to macro handlers; a later registration of a name shadows an earlier one.
pub struct MacroManager {
    macros: Vec<(String, Macro)>,
}

impl View for MacroManager {
    type V = Seq<(Seq<char>, Macro)>;

    closed spec fn view(&self) -> Seq<(Seq<char>, Macro)> {
        self.macros@.map_values(|e: (String, Macro)| (e.0@, e.1))
    }
}

impl MacroManager {
    /// A name is bound once.
    pub open spec fn wf(&self) -> bool {
        keys_unique(self@)
    }

    /// A registry holding the four built-in macros.
    pub fn new() -> (r: MacroManager)
        ensures
            r.wf(),
            r@ == builtin_macros(),
    {
        let mut macros: Vec<(String, Macro)> = Vec::new();
        macros.push(("writeLn".to_string(), Macro::WriteLn(WriteLnMacro)));
        macros.push(("write".to_string(), Macro::Write(WriteMacro)));
        macros.push(("processExit".to_string(), Macro::ProcessExit(ProcessExitMacro)));
        macros.push(("readInput".to_string(), Macro::ReadInput(ReadInputMacro)));
        let r = MacroManager { macros };
        assert(r@ =~= builtin_macros());
        proof {
            reveal_strlit("writeLn");
            reveal_strlit("write");
            reveal_strlit("processExit");
            reveal_strlit("readInput");
            assert("writeLn"@.len() == 7 && "write"@.len() == 5);
            assert("processExit"@.len() == 11 && "readInput"@.len() == 9);
        }
        r
    }

    /// Binds `name` to a handler, replacing the handler it had.
    pub fn register(&mut self, name: String, mac: Macro)
        ensures
            final(self)@ == store_entry(old(self)@, name@, mac),
            old(self).wf() ==> final(self).wf(),
    {
        proof {
            if old(self).wf() {
                lemma_store_entry_unique(old(self)@, name@, mac);
            }
        }
        let ghost entries = self@;
        let mut i: usize = self.macros.len();
        assert(entries.subrange(0, i as int) =~= entries);
        while i > 0
            invariant
                entries == self@,
                entries == old(self)@,
                self.macros@.len() == entries.len(),
                i <= entries.len(),
                entry_index(entries, name@) == entry_index(entries.subrange(0, i as int), name@),
            decreases i,
        {
            assert(entries.subrange(0, i as int).drop_last() =~= entries.subrange(0, i - 1));
            assert(entries.subrange(0, i as int).last() == entries[i - 1]);
            if self.macros[i - 1].0 == name {
                let ghost nv = name@;
                self.macros.set(i - 1, (name, mac));
                assert(self@ =~= entries.update(i - 1, (nv, mac)));
                return ;
            }
            i = i - 1;
        }
        assert(entries.subrange(0, 0) =~= Seq::<(Seq<char>, Macro)>::empty());
        let ghost nv = name@;
        self.macros.push((name, mac));
        assert(self@ =~= entries.push((nv, mac)));
    }

    /// The handler bound to `name`.
    pub fn get_macro(&self, name: &str) -> (r: Option<Macro>)
        ensures
            r == find_binding(self@, name@),
    {
        let mut i: usize = self.macros.len();
        assert(self@.subrange(0, i as int) =~= self@);
        while i > 0
            invariant
                i <= self.macros@.len(),
                find_binding(self@, name@) == find_binding(self@.subrange(0, i as int), name@),
            decreases i,
        {
            assert(self@.subrange(0, i as int).drop_last() =~= self@.subrange(0, i - 1));
            if str_eq(self.macros[i - 1].0.as_str(), name) {
                return Some(self.macros[i - 1].1);
            }
            i = i - 1;
        }
        assert(self@.subrange(0, 0) =~= Seq::<(Seq<char>, Macro)>::empty());
        None
    }
}

} // verus!
