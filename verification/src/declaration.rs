//! What the declaration parser records: module headers and variable tables.

use vstd::prelude::*;

verus! {

/// The named top-level program or unit that a source file declares.
#[derive(Debug)]
pub struct Module {
    pub is_unit: bool,
    pub name: String,
    pub used_units: Vec<String>,
}

/// What a `Module` is in contracts.
pub ghost struct ModuleView {
    pub is_unit: bool,
    pub name: Seq<char>,
    pub used_units: Seq<Seq<char>>,
}

impl View for Module {
    type V = ModuleView;

    open spec fn view(&self) -> ModuleView {
        ModuleView {
            is_unit: self.is_unit,
            name: self.name@,
            used_units: self.used_units@.map_values(|u: String| u@),
        }
    }
}

/// One declared variable: its name and the name of its type.
#[derive(Debug)]
pub struct VarDecl {
    pub name: String,
    pub var_type: String,
}

/// The mapping that a list of declarations stands for: each name maps to
/// the type of its last declaration.
pub open spec fn table_of(entries: Seq<VarDecl>) -> Map<Seq<char>, Seq<char>>
    decreases entries.len(),
{
    if entries.len() == 0 {
        Map::empty()
    } else {
        table_of(entries.drop_last()).insert(entries.last().name@, entries.last().var_type@)
    }
}

/// In a list whose entries from index `i` on do not declare `key`, the
/// first `i` entries alone decide what `key` maps to.
pub proof fn lemma_table_prefix(entries: Seq<VarDecl>, i: int, key: Seq<char>)
    requires
        0 <= i <= entries.len(),
        forall|j: int| i <= j < entries.len() ==> (#[trigger] entries[j]).name@ != key,
    ensures
        table_of(entries).contains_key(key) == table_of(entries.take(i)).contains_key(key),
        table_of(entries).contains_key(key) ==> table_of(entries)[key] == table_of(
            entries.take(i),
        )[key],
    decreases entries.len() - i,
{
    if i == entries.len() {
        assert(entries.take(i) =~= entries);
    } else {
        let shorter = entries.drop_last();
        assert(shorter.take(i) =~= entries.take(i));
        assert forall|j: int| i <= j < shorter.len() implies (#[trigger] shorter[j]).name@
            != key by {
            assert(shorter[j] == entries[j]);
        }
        lemma_table_prefix(shorter, i, key);
    }
}

/// The variables that `var` blocks declare, by name. Declaring a name again
/// replaces its type.
#[derive(Debug)]
pub struct VarTable {
    pub entries: Vec<VarDecl>,
}

impl View for VarTable {
    type V = Map<Seq<char>, Seq<char>>;

    open spec fn view(&self) -> Map<Seq<char>, Seq<char>> {
        table_of(self.entries@)
    }
}

impl VarTable {
    /// A table that declares nothing.
    pub fn new() -> (r: Self)
        ensures
            r@ == Map::<Seq<char>, Seq<char>>::empty(),
    {
        VarTable { entries: Vec::new() }
    }

    /// Declares `name` with type `var_type`, in place of any earlier
    /// declaration of that name.
    pub fn insert(&mut self, name: String, var_type: String)
        ensures
            final(self)@ == old(self)@.insert(name@, var_type@),
    {
        let ghost before = self.entries@;
        self.entries.push(VarDecl { name, var_type });
        assert(self.entries@.drop_last() =~= before);
    }

    /// The type that `name` is declared with, if it is declared.
    pub fn get(&self, name: &str) -> (r: Option<&String>)
        ensures
            r is Some == self@.contains_key(name@),
            r is Some ==> r.unwrap()@ == self@[name@],
    {
        let mut i: usize = self.entries.len();
        while i > 0
            invariant
                i <= self.entries@.len(),
                forall|j: int| i <= j < self.entries@.len() ==> (#[trigger] self.entries@[j]).name@
                    != name@,
            decreases i,
        {
            i = i - 1;
            if self.entries[i].name.as_str().eq(name) {
                proof {
                    lemma_table_prefix(self.entries@, i + 1, name@);
                    assert(self.entries@.take(i + 1).drop_last() =~= self.entries@.take(i as int));
                }
                return Some(&self.entries[i].var_type);
            }
        }
        proof {
            lemma_table_prefix(self.entries@, 0, name@);
        }
        None
    }
}

/// A top-level construct that the parser recognised.
#[derive(Debug)]
pub enum Declaration {
    /// A `program` or `unit` header.
    Module(Module),
    /// A `var` block.
    Vars(VarTable),
}

/// What a `Declaration` is in contracts.
pub ghost enum DeclarationView {
    Module(ModuleView),
    Vars(Map<Seq<char>, Seq<char>>),
}

impl View for Declaration {
    type V = DeclarationView;

    open spec fn view(&self) -> DeclarationView {
        match self {
            Declaration::Module(m) => DeclarationView::Module(m@),
            Declaration::Vars(v) => DeclarationView::Vars(v@),
        }
    }
}

} // verus!
