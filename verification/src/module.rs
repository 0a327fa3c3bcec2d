//! What is kept of a translated module: its imports, its exports and its start function.
use vstd::prelude::*;

use crate::entities::{FunctionIndex, GlobalIndex, MemoryIndex, TableIndex};

verus! {

/// Something that a module exports.
#[derive(Clone, Copy, Debug, PartialEq, Eq, Structural)]
pub enum Export {
    Function(FunctionIndex),
    Table(TableIndex),
    Memory(MemoryIndex),
    Global(GlobalIndex),
}

/// A translated module.
#[derive(Debug)]
pub struct Module {
    /// The function that is run when the module is started.
    pub start_func: Option<FunctionIndex>,
    /// The imported functions, each with the module it comes from and its name there.
    pub imported_funcs: Vec<(String, String)>,
    /// The exports, each under its name; of two with one name the later counts.
    pub exports: Vec<(String, Export)>,
}

/// A translated module as a mathematical value.
#[verifier::ext_equal]
pub struct ModuleView {
    pub start_func: Option<FunctionIndex>,
    pub imported_funcs: Seq<(Seq<char>, Seq<char>)>,
    pub exports: Map<Seq<char>, Export>,
}

/// The exports in a list, by name; of two with one name the later counts.
pub open spec fn exports_by_name(exports: Seq<(String, Export)>) -> Map<Seq<char>, Export>
    decreases exports.len(),
{
    if exports.len() == 0 {
        Map::empty()
    } else {
        exports_by_name(exports.drop_last()).insert(exports.last().0@, exports.last().1)
    }
}

impl View for Module {
    type V = ModuleView;

    open spec fn view(&self) -> ModuleView {
        ModuleView {
            start_func: self.start_func,
            imported_funcs: self.imported_funcs@.map_values(
                |import: (String, String)| (import.0@, import.1@),
            ),
            exports: exports_by_name(self.exports@),
        }
    }
}

impl ModuleView {
    /// Whether `index` is a function that the module defines, when it defines `defined` functions.
    pub open spec fn defines(self, defined: nat, index: FunctionIndex) -> bool {
        self.imported_funcs.len() <= index < self.imported_funcs.len() + defined
    }

    /// Whether the start function, if there is one, is not imported.
    pub open spec fn start_is_not_imported(self) -> bool {
        self.start_func matches Some(start) ==> self.imported_funcs.len() <= start
    }

    /// The place of the function at position `index` among the functions that the module defines.
    pub open spec fn place(self, index: FunctionIndex) -> int {
        index - self.imported_funcs.len()
    }
}

impl Module {
    /// A module without imports, exports and start function.
    pub fn new() -> (module: Module)
        ensures
            module@ == (ModuleView {
                start_func: None,
                imported_funcs: Seq::empty(),
                exports: Map::empty(),
            }),
    {
        let module = Module { start_func: None, imported_funcs: Vec::new(), exports: Vec::new() };
        assert(module@.imported_funcs =~= Seq::empty());
        module
    }

    /// Adds an imported function.
    pub fn import(&mut self, module: String, name: String)
        ensures
            final(self)@ == (ModuleView {
                imported_funcs: old(self)@.imported_funcs.push((module@, name@)),
                ..old(self)@
            }),
    {
        self.imported_funcs.push((module, name));
        assert(self@.imported_funcs =~= old(self)@.imported_funcs.push((module@, name@)));
    }

    /// Exports something under a name, in place of what may have had that name before.
    pub fn export(&mut self, name: String, export: Export)
        ensures
            final(self)@ == (ModuleView {
                exports: old(self)@.exports.insert(name@, export),
                ..old(self)@
            }),
    {
        self.exports.push((name, export));
        assert(self.exports@.drop_last() =~= old(self).exports@);
    }

    /// What the module exports under a name.
    pub fn find_export(&self, name: &str) -> (found: Option<Export>)
        ensures
            found == if self@.exports.dom().contains(name@) {
                Some(self@.exports[name@])
            } else {
                None
            },
    {
        let wanted: String = name.to_owned();
        let mut k: usize = self.exports.len();
        assert(self.exports@.take(k as int) =~= self.exports@);
        while k > 0
            invariant
                k <= self.exports@.len(),
                wanted@ == name@,
                self@.exports.dom().contains(name@) == exports_by_name(
                    self.exports@.take(k as int),
                ).dom().contains(name@),
                self@.exports.dom().contains(name@) ==> self@.exports[name@] == exports_by_name(
                    self.exports@.take(k as int),
                )[name@],
            decreases k,
        {
            assert(self.exports@.take(k as int).drop_last() =~= self.exports@.take(k - 1));
            k = k - 1;
            if self.exports[k].0 == wanted {
                return Some(self.exports[k].1);
            }
        }
        None
    }
}

/// A module is seen as it is: its start function, and as many imports, each with its two names.
pub proof fn modules_are_seen_as_they_are(module: Module, i: int)
    requires
        0 <= i < module.imported_funcs@.len(),
    ensures
        module@.start_func == module.start_func,
        module@.imported_funcs.len() == module.imported_funcs@.len(),
        module@.imported_funcs[i] == (
            module.imported_funcs@[i].0@,
            module.imported_funcs@[i].1@,
        ),
{
}

/// An export is found under its name, unless a later export in the list has the same name, and only
/// names in the list are found.
pub proof fn exports_are_found_under_their_names(exports: Seq<(String, Export)>, i: int)
    requires
        0 <= i < exports.len(),
        forall|k: int| i < k < exports.len() ==> (#[trigger] exports[k]).0@ != exports[i].0@,
    ensures
        exports_by_name(exports).dom().contains(exports[i].0@),
        exports_by_name(exports)[exports[i].0@] == exports[i].1,
    decreases exports.len(),
{
    let last = exports.len() - 1;
    if i < last {
        assert(exports[last].0@ != exports[i].0@);
        assert forall|k: int| i < k < exports.drop_last().len() implies (
        #[trigger] exports.drop_last()[k]).0@ != exports[i].0@ by {
            assert(exports.drop_last()[k] == exports[k]);
        }
        exports_are_found_under_their_names(exports.drop_last(), i);
    }
}

/// A name that no export in the list has is not found.
pub proof fn other_names_are_not_found(exports: Seq<(String, Export)>, name: Seq<char>)
    requires
        forall|k: int| 0 <= k < exports.len() ==> (#[trigger] exports[k]).0@ != name,
    ensures
        !exports_by_name(exports).dom().contains(name),
    decreases exports.len(),
{
    if exports.len() > 0 {
        assert(exports[exports.len() - 1].0@ != name);
        assert forall|k: int| 0 <= k < exports.drop_last().len() implies (
        #[trigger] exports.drop_last()[k]).0@ != name by {
            assert(exports.drop_last()[k] == exports[k]);
        }
        other_names_are_not_found(exports.drop_last(), name);
    }
}

} // verus!
