use vstd::prelude::*;
use crate::ast::{Statement, StmtM, names_view, stmts_view};

verus! {

/// A native routine of the host, named; the evaluator reports each call of
/// one and the host performs it.
#[derive(Debug, PartialEq)]
pub struct Proc {
    pub routine: String,
}

/// A procedure written in the language.
#[derive(Debug, PartialEq)]
pub struct Procedure {
    pub name: String,
    pub params: Vec<String>,
    pub body: Vec<Statement>,
}

/// An entry of a module.
#[derive(Debug, PartialEq)]
pub enum Item {
    Mod(Module),
    Proc(Procedure),
    InternProc(Proc, Proc),
}

/// A registry of named items, in the order in which they were first added.
#[derive(Debug, PartialEq)]
pub struct Module {
    pub items: Vec<(String, Item)>,
}

pub struct ProcM {
    pub params: Seq<Seq<char>>,
    pub body: Seq<StmtM>,
}

pub enum ItemM {
    Mod(Seq<(Seq<char>, ItemM)>),
    Proc(ProcM),
    Intern(Seq<char>, Seq<char>),
}

pub open spec fn item_view(i: Item) -> ItemM
    decreases i,
{
    match i {
        Item::Mod(m) => ItemM::Mod(entries_view(m.items@)),
        Item::Proc(p) => ItemM::Proc(ProcM { params: names_view(p.params@), body: stmts_view(p.body@) }),
        Item::InternProc(f, b) => ItemM::Intern(f.routine@, b.routine@),
    }
}

pub open spec fn entries_view(s: Seq<(String, Item)>) -> Seq<(Seq<char>, ItemM)>
    decreases s,
{
    Seq::new(
        s.len(),
        |i: int|
            if 0 <= i < s.len() {
                (s[i].0@, item_view(s[i].1))
            } else {
                (Seq::empty(), ItemM::Mod(Seq::empty()))
            },
    )
}

impl View for Item {
    type V = ItemM;

    open spec fn view(&self) -> ItemM {
        item_view(*self)
    }
}

impl View for Module {
    type V = Seq<(Seq<char>, ItemM)>;

    open spec fn view(&self) -> Seq<(Seq<char>, ItemM)> {
        entries_view(self.items@)
    }
}

/// The first entry at or after `i` that is named `name` and can be called.
pub open spec fn find_callee(items: Seq<(Seq<char>, ItemM)>, name: Seq<char>, i: int) -> Option<int>
    decreases items.len() - i,
{
    if i < 0 || i >= items.len() {
        None
    } else if items[i].0 == name && !(items[i].1 is Mod) {
        Some(i)
    } else {
        find_callee(items, name, i + 1)
    }
}

/// The first entry at or after `i` that is named `name`.
pub open spec fn find_key(items: Seq<(Seq<char>, ItemM)>, name: Seq<char>, i: int) -> Option<int>
    decreases items.len() - i,
{
    if i < 0 || i >= items.len() {
        None
    } else if items[i].0 == name {
        Some(i)
    } else {
        find_key(items, name, i + 1)
    }
}

/// The registry after `insert(name, it)`: a present entry of that name is
/// replaced in place, otherwise the new one goes last.
pub open spec fn inserted(items: Seq<(Seq<char>, ItemM)>, name: Seq<char>, it: ItemM) -> Seq<(Seq<char>, ItemM)> {
    match find_key(items, name, 0) {
        Some(k) => items.update(k, (name, it)),
        None => items.push((name, it)),
    }
}

/// The registry after `register(name, it)`: the first entry of a name
/// wins, so a present entry of that name stays and the new one is dropped;
/// otherwise the new one goes last.
pub open spec fn registered(items: Seq<(Seq<char>, ItemM)>, name: Seq<char>, it: ItemM) -> Seq<(Seq<char>, ItemM)> {
    match find_key(items, name, 0) {
        Some(_) => items,
        None => items.push((name, it)),
    }
}

/// The registry after registering each entry of `es` in turn.
pub open spec fn registered_all(items: Seq<(Seq<char>, ItemM)>, es: Seq<(Seq<char>, ItemM)>) -> Seq<(Seq<char>, ItemM)>
    decreases es.len(),
{
    if es.len() == 0 {
        items
    } else {
        registered_all(registered(items, es[0].0, es[0].1), es.subrange(1, es.len() as int))
    }
}

impl Module {
    /// A registry holding the given entries, registered in order: of two
    /// entries with one name the first is kept and the later one dropped.
    pub fn from_items(entries: Vec<(String, Item)>) -> (r: Module)
        ensures
            r@ == registered_all(Seq::empty(), entries_view(entries@)),
    {
        let ghost all = entries_view(entries@);
        let ghost n = entries@.len();
        let mut rest = entries;
        let mut m = Module::new();
        while rest.len() > 0
            invariant
                n == all.len(),
                rest@.len() <= n,
                entries_view(rest@) == all.subrange(n - rest@.len(), n as int),
                registered_all(Seq::empty(), all) == registered_all(m@, entries_view(rest@)),
            decreases rest@.len(),
        {
            let ghost before = entries_view(rest@);
            let (name, it) = rest.remove(0);
            assert(entries_view(rest@) =~= before.subrange(1, before.len() as int));
            assert(before[0] == (name@, it@));
            m.register(name, it);
        }
        m
    }

    pub fn new() -> (r: Module)
        ensures
            r@ == Seq::<(Seq<char>, ItemM)>::empty(),
    {
        let r = Module { items: Vec::new() };
        assert(r@ =~= Seq::<(Seq<char>, ItemM)>::empty());
        r
    }

    /// Registers `it` under `name` unless an entry of that name is present:
    /// the first registration of a name wins.
    pub fn register(&mut self, name: String, it: Item)
        ensures
            final(self)@ == registered(old(self)@, name@, it@),
    {
        let mut i: usize = 0;
        while i < self.items.len()
            invariant
                i <= self.items@.len(),
                self@ == old(self)@,
                find_key(self@, name@, 0) == find_key(self@, name@, i as int),
            decreases self.items@.len() - i,
        {
            if self.items[i].0 == name {
                return;
            }
            i += 1;
        }
        let ghost before = self@;
        self.items.push((name, it));
        assert(self@ =~= before.push((name@, it@)));
    }

    /// Puts `it` under `name`, replacing an entry of the same name in place;
    /// this is how an interactive session redefines an item.
    pub fn insert(&mut self, name: String, it: Item)
        ensures
            final(self)@ == inserted(old(self)@, name@, it@),
    {
        let mut i: usize = 0;
        while i < self.items.len()
            invariant
                i <= self.items@.len(),
                self@ == old(self)@,
                find_key(self@, name@, 0) == find_key(self@, name@, i as int),
            decreases self.items@.len() - i,
        {
            if self.items[i].0 == name {
                let ghost before = self@;
                self.items.set(i, (name, it));
                assert(self@ =~= before.update(i as int, (name@, it@)));
                return;
            }
            i += 1;
        }
        let ghost before = self@;
        self.items.push((name, it));
        assert(self@ =~= before.push((name@, it@)));
    }

    /// Registers a native forward/inverse pair under `name`; an entry
    /// already registered under that name is kept.
    pub fn add_internal_procedure(&mut self, name: String, fore: Proc, back: Proc)
        ensures
            final(self)@ == registered(old(self)@, name@, ItemM::Intern(fore.routine@, back.routine@)),
    {
        self.register(name, Item::InternProc(fore, back));
    }

    /// The index of the first callable entry named `name`.
    pub fn find(&self, name: &String) -> (r: Option<usize>)
        ensures
            match r {
                Some(k) => find_callee(self@, name@, 0) == Some(k as int) && k < self.items@.len()
                    && self@[k as int].1 == item_view(self.items@[k as int].1),
                None => find_callee(self@, name@, 0) == None::<int>,
            },
    {
        let mut i: usize = 0;
        while i < self.items.len()
            invariant
                i <= self.items@.len(),
                find_callee(self@, name@, 0) == find_callee(self@, name@, i as int),
            decreases self.items@.len() - i,
        {
            let is_mod = match &self.items[i].1 {
                Item::Mod(_) => true,
                _ => false,
            };
            if self.items[i].0 == *name && !is_mod {
                return Some(i);
            }
            i += 1;
        }
        None
    }
}

} // verus!
