//! The runtime of a module: what the module declares, and what its instance holds.
use vstd::prelude::*;

use vstd::arithmetic::power::pow;

use crate::bytes::{
    ascii, ascii_bytes, bits32, bits64, i32_reads_back, i64_reads_back, overwrite,
    overwrite_read_back, resized, word_bytes, write_bytes, zeros,
};
use crate::entities::{
    ArgumentType, CallConv, ExtFuncData, ExtFuncView, FuncRef, FunctionIndex, Global, GlobalIndex,
    GlobalInit, Heap, Memory, MemoryIndex, SigRef, Signature, SignatureIndex, SignatureView, Table,
    TableIndex, Type, Value,
};
use crate::func_indices::{index_at, lookup_after_recording, recorded, FuncIndices};
use crate::globals::{
    allocated, can_initialize, declared_bytes, every_byte_of_a_global_is_known,
    globals_follow_one_another, globals_hold_their_initializers, globals_size, keeps_declaration,
    lemma_initialized_len, slot, slot_offset, slot_offsets, slots_tile_the_data,
    GlobalsData,
};
use crate::names::{import_name, local_name, mangle_import, mangle_local};
use crate::target::Target;

verus! {

/// How many bytes a page of linear memory has.
pub const PAGE_SIZE: usize = 65536;

/// One deviation from the code generator's default settings.
#[derive(Debug)]
pub enum FlagSetting {
    /// Switches a setting on.
    Enable(String),
    /// Gives a setting a value.
    Assign(String, String),
}

/// The code generator's settings, as deviations from the defaults, applied in order.
#[derive(Debug)]
pub struct Flags {
    pub settings: Vec<FlagSetting>,
}

/// An element of a table.
#[derive(Clone, Copy, Debug, PartialEq, Eq, Structural)]
pub enum TableElement {
    /// Calling the element traps.
    Trap,
    /// The element is a function.
    Function(FunctionIndex),
}

/// A table with its contents.
struct TableData {
    data: Vec<usize>,
    elements: Vec<TableElement>,
    info: Table,
}

/// A linear memory with its contents.
struct MemoryData {
    data: Vec<u8>,
    info: Memory,
}

/// A table as a mathematical value: the addresses and the elements, one of each per element.
#[verifier::ext_equal]
pub struct TableView {
    pub info: Table,
    pub data: Seq<usize>,
    pub elements: Seq<TableElement>,
}

/// A linear memory as a mathematical value.
#[verifier::ext_equal]
pub struct MemoryView {
    pub info: Memory,
    pub data: Seq<u8>,
}

/// What reads a global variable: an address at `offset` in the context of the running instance, and
/// the type of the variable.
#[derive(Clone, Copy, Debug, PartialEq, Eq, Structural)]
pub struct GlobalValue {
    pub offset: i32,
    pub ty: Type,
}

/// Where the base address of a heap is found.
#[derive(Clone, Copy, Debug, PartialEq, Eq, Structural)]
pub enum HeapBase {
    /// In the register that is reserved for it.
    ReservedReg,
}

/// How the size of a heap is known.
#[derive(Clone, Copy, Debug, PartialEq, Eq, Structural)]
pub enum HeapStyle {
    /// The heap never grows beyond `bound` bytes and never moves.
    Static { bound: u64 },
}

/// A heap that a function body accesses.
#[derive(Clone, Copy, Debug, PartialEq, Eq, Structural)]
pub struct HeapData {
    pub base: HeapBase,
    pub min_size: u64,
    pub guard_size: u64,
    pub style: HeapStyle,
}

/// The function that a call of a runtime helper goes to.
#[derive(Debug)]
pub enum Callee {
    /// The body has imported the helper already.
    Imported(FuncRef),
    /// The body has to import the helper first.
    Import(ExtFuncData),
}

/// A call of a runtime helper.
#[derive(Debug)]
pub struct HelperCall {
    pub callee: Callee,
    pub args: Vec<Value>,
}

/// A call through a table.
#[derive(Debug)]
pub struct IndirectCall {
    pub sig_ref: SigRef,
    pub callee: Value,
    pub args: Vec<Value>,
}

/// A callee as a mathematical value.
#[verifier::ext_equal]
pub enum CalleeView {
    Imported(FuncRef),
    Import(ExtFuncView),
}

impl View for Callee {
    type V = CalleeView;

    open spec fn view(&self) -> CalleeView {
        match self {
            Callee::Imported(func) => CalleeView::Imported(*func),
            Callee::Import(data) => CalleeView::Import(data@),
        }
    }
}

/// The signature of a native function with the given arguments and one 32-bit result.
pub open spec fn helper_signature(argument_types: Seq<ArgumentType>) -> SignatureView {
    SignatureView {
        call_conv: CallConv::Native,
        argument_bytes: Option::None,
        argument_types,
        return_types: seq![ArgumentType::normal(Type::I32)],
    }
}

/// The helper that grows the memory: it takes a number of pages and gives the old number back.
pub open spec fn grow_memory_helper() -> ExtFuncView {
    ExtFuncView {
        name: ascii("grow_memory"@),
        signature: helper_signature(seq![ArgumentType::normal(Type::I32)]),
    }
}

/// The helper that tells how many pages the memory has.
pub open spec fn current_memory_helper() -> ExtFuncView {
    ExtFuncView { name: ascii("current_memory"@), signature: helper_signature(Seq::empty()) }
}

/// Who is called for `helper` when `cached` was imported for it before.
pub open spec fn helper_callee(cached: Option<FuncRef>, helper: ExtFuncView) -> CalleeView {
    match cached {
        Option::Some(func) => CalleeView::Imported(func),
        Option::None => CalleeView::Import(helper),
    }
}

/// The lowest 32 bits of `n` as a signed number.
pub open spec fn low_i32(n: int) -> int {
    let low = n % 0x1_0000_0000;
    if low < 0x8000_0000 {
        low
    } else {
        low - 0x1_0000_0000
    }
}

/// `elements` with functions written over them from position `offset` on.
pub open spec fn with_functions(
    elements: Seq<TableElement>,
    offset: int,
    functions: Seq<FunctionIndex>,
) -> Seq<TableElement> {
    Seq::new(
        elements.len(),
        |k: int|
            if offset <= k < offset + functions.len() {
                TableElement::Function(functions[k - offset])
            } else {
                elements[k]
            },
    )
}

/// The state of a runtime as a mathematical value.
#[verifier::ext_equal]
pub struct RuntimeView {
    /// What the program was built for.
    pub target: Target,
    /// The code generator's settings.
    pub flags: Flags,
    /// The signatures, as declared.
    pub signatures: Seq<SignatureView>,
    /// For each function, imported or defined, the position of its signature.
    pub func_types: Seq<SignatureIndex>,
    /// The names of the imported functions.
    pub imported_funcs: Seq<Seq<u8>>,
    /// The global variables.
    pub globals: Seq<Global>,
    /// Where the bytes of each global variable begin; zero before translation begins.
    pub global_offsets: Seq<usize>,
    /// The bytes that hold the global variables; none before translation begins.
    pub globals_data: Seq<u8>,
    /// The tables.
    pub tables: Seq<TableView>,
    /// The linear memories.
    pub memories: Seq<MemoryView>,
    /// Whether translation has begun.
    pub instantiated: bool,
    /// The helper that tells the memory's size, where the current body has imported it.
    pub has_current_memory: Option<FuncRef>,
    /// The helper that grows the memory, where the current body has imported it.
    pub has_grow_memory: Option<FuncRef>,
    /// For each function that the current body has imported, its position in the module.
    pub func_indices: Seq<FunctionIndex>,
    /// The heap, once a body has created it.
    pub the_heap: Option<Heap>,
}

impl RuntimeView {
    /// What every operation keeps.
    pub open spec fn wf(self) -> bool {
        &&& self.imported_funcs.len() <= self.func_types.len()
        &&& self.global_offsets.len() == self.globals.len()
        &&& !self.instantiated ==> self.globals_data.len() == 0
        &&& forall|i: int|
            0 <= i < self.tables.len() ==> {
                &&& (#[trigger] self.tables[i]).elements.len() == self.tables[i].info.size
                &&& self.tables[i].data == Seq::new(
                    self.tables[i].info.size as nat,
                    |k: int| 0usize,
                )
            }
        &&& forall|i: int|
            0 <= i < self.memories.len() ==> (#[trigger] self.memories[i]).data.len()
                == self.memories[i].info.pages_count * PAGE_SIZE
    }

    /// A runtime in which nothing is declared.
    pub open spec fn empty(flags: Flags, target: Target) -> RuntimeView {
        RuntimeView {
            target,
            flags,
            signatures: Seq::empty(),
            func_types: Seq::empty(),
            imported_funcs: Seq::empty(),
            globals: Seq::empty(),
            global_offsets: Seq::empty(),
            globals_data: Seq::empty(),
            tables: Seq::empty(),
            memories: Seq::empty(),
            instantiated: false,
            has_current_memory: Option::None,
            has_grow_memory: Option::None,
            func_indices: Seq::empty(),
            the_heap: Option::None,
        }
    }

    /// The runtime after a signature was declared.
    pub open spec fn with_signature(self, sig: SignatureView) -> RuntimeView {
        RuntimeView { signatures: self.signatures.push(sig), ..self }
    }

    /// The runtime after a function was imported.
    pub open spec fn with_func_import(
        self,
        sig_index: SignatureIndex,
        module: Seq<u8>,
        field: Seq<u8>,
    ) -> RuntimeView {
        RuntimeView {
            func_types: self.func_types.push(sig_index),
            imported_funcs: self.imported_funcs.push(import_name(module, field)),
            ..self
        }
    }

    /// The runtime after the type of a function was declared.
    pub open spec fn with_func_type(self, sig_index: SignatureIndex) -> RuntimeView {
        RuntimeView { func_types: self.func_types.push(sig_index), ..self }
    }

    /// The runtime after a global was declared.
    pub open spec fn with_global(self, global: Global) -> RuntimeView {
        RuntimeView {
            globals: self.globals.push(global),
            global_offsets: self.global_offsets.push(0),
            ..self
        }
    }

    /// The runtime after a table was declared: every element traps.
    pub open spec fn with_table(self, table: Table) -> RuntimeView {
        RuntimeView {
            tables: self.tables.push(
                TableView {
                    info: table,
                    data: Seq::new(table.size as nat, |k: int| 0usize),
                    elements: Seq::new(table.size as nat, |k: int| TableElement::Trap),
                },
            ),
            ..self
        }
    }

    /// The runtime after elements of a table were declared.
    pub open spec fn with_table_elements(
        self,
        table_index: int,
        offset: int,
        functions: Seq<FunctionIndex>,
    ) -> RuntimeView {
        if functions.len() == 0 {
            self
        } else {
            let table = self.tables[table_index];
            RuntimeView {
                tables: self.tables.update(
                    table_index,
                    TableView {
                        elements: with_functions(table.elements, offset, functions),
                        ..table
                    },
                ),
                ..self
            }
        }
    }

    /// The runtime after a memory was declared: it holds zeros.
    pub open spec fn with_memory(self, memory: Memory) -> RuntimeView {
        RuntimeView {
            memories: self.memories.push(
                MemoryView {
                    info: memory,
                    data: zeros((memory.pages_count * PAGE_SIZE) as nat),
                },
            ),
            ..self
        }
    }

    /// Whether `len` bytes from `offset` on lie within the memory at `memory_index`.
    pub open spec fn data_in_bounds(self, memory_index: int, offset: int, len: nat) -> bool {
        offset + len <= self.memories[memory_index].info.pages_count * PAGE_SIZE
    }

    /// The runtime after bytes were written to a memory.
    pub open spec fn with_data(self, memory_index: int, offset: int, data: Seq<u8>) -> RuntimeView {
        let memory = self.memories[memory_index];
        RuntimeView {
            memories: self.memories.update(
                memory_index,
                MemoryView { data: overwrite(memory.data, offset, data), ..memory },
            ),
            ..self
        }
    }

    /// The runtime after translation began: the globals have their slots and hold what their
    /// initializers wrote.
    pub open spec fn begun(self) -> RuntimeView {
        RuntimeView {
            instantiated: true,
            global_offsets: slot_offsets(self.globals),
            globals_data: allocated(self.target.byte_order, self.globals, self.globals_data),
            ..self
        }
    }

    /// The runtime after the translation of the next function began.
    pub open spec fn at_next_function(self) -> RuntimeView {
        RuntimeView {
            has_current_memory: Option::None,
            has_grow_memory: Option::None,
            func_indices: Seq::empty(),
            ..self
        }
    }

    /// The bytes of a memory, `len` of them from `address` on.
    pub open spec fn memory_bytes(self, memory_index: int, address: int, len: int) -> Seq<u8> {
        self.memories[memory_index].data.subrange(address, address + len)
    }

    /// Whether the bytes of a global lie within those of all the globals.
    pub open spec fn global_in_bounds(self, global_index: int) -> bool {
        self.global_offsets[global_index] + self.globals[global_index].ty.width()
            <= self.globals_data.len()
    }

    /// The bytes of a global.
    pub open spec fn global_bytes(self, global_index: int) -> Seq<u8> {
        self.globals_data.subrange(
            self.global_offsets[global_index] as int,
            self.global_offsets[global_index] + self.globals[global_index].ty.width(),
        )
    }

    /// Whether translation has begun here as it has in `before`, and every global of `before` still
    /// has the bytes that it had there.
    pub open spec fn keeps_instance_of(self, before: RuntimeView) -> bool {
        &&& self.instantiated
        &&& forall|i: int|
            0 <= i < before.globals.len() ==> #[trigger] self.global_bytes(i)
                == before.global_bytes(i)
    }

    /// Whether translation has begun and memory and heap are those that are supported.
    pub open spec fn helpers_available(self, index: MemoryIndex, heap: Heap) -> bool {
        self.instantiated && index == 0 && self.the_heap == Some(heap)
    }

    /// The name of a function: imported functions have the name of their import, the others one
    /// that is made from their position.
    pub open spec fn func_name(self, index: int) -> Seq<u8> {
        if index < self.imported_funcs.len() {
            self.imported_funcs[index]
        } else {
            local_name(index as nat)
        }
    }
}

/// The signature of a native function with the given arguments and one 32-bit result.
fn native_signature(argument_types: Vec<ArgumentType>) -> (sig: Signature)
    ensures
        sig@ == helper_signature(argument_types@),
{
    let mut return_types: Vec<ArgumentType> = Vec::new();
    return_types.push(ArgumentType::new(Type::I32));
    let sig = Signature {
        call_conv: CallConv::Native,
        argument_bytes: None,
        argument_types,
        return_types,
    };
    assert(sig@ =~= helper_signature(argument_types@));
    sig
}

/// Everything that is known of a module while it is translated, and what its instance holds.
pub struct StandaloneRuntime {
    target: Target,
    flags: Flags,
    signatures: Vec<Signature>,
    func_types: Vec<SignatureIndex>,
    imported_funcs: Vec<Vec<u8>>,
    globals: GlobalsData,
    tables: Vec<TableData>,
    memories: Vec<MemoryData>,
    instantiated: bool,
    has_current_memory: Option<FuncRef>,
    has_grow_memory: Option<FuncRef>,
    /// For each function that the current body has imported, its position in the module.
    pub func_indices: FuncIndices,
    the_heap: Option<Heap>,
}

impl View for StandaloneRuntime {
    type V = RuntimeView;

    closed spec fn view(&self) -> RuntimeView {
        RuntimeView {
            target: self.target,
            flags: self.flags,
            signatures: self.signatures@.map_values(|s: Signature| s@),
            func_types: self.func_types@,
            imported_funcs: self.imported_funcs@.map_values(|n: Vec<u8>| n@),
            globals: self.globals.globals(),
            global_offsets: self.globals.offsets(),
            globals_data: self.globals.data(),
            tables: self.tables@.map_values(|t: TableData| t.table()),
            memories: self.memories@.map_values(|m: MemoryData| m.memory()),
            instantiated: self.instantiated,
            has_current_memory: self.has_current_memory,
            has_grow_memory: self.has_grow_memory,
            func_indices: self.func_indices@,
            the_heap: self.the_heap,
        }
    }
}

impl TableData {
    spec fn table(self) -> TableView {
        TableView { info: self.info, data: self.data@, elements: self.elements@ }
    }

    /// Writes functions over the elements from position `offset` on.
    fn place(&mut self, offset: usize, functions: &[FunctionIndex])
        requires
            offset + functions@.len() <= old(self).elements@.len(),
        ensures
            final(self).table() == (TableView {
                elements: with_functions(old(self).elements@, offset as int, functions@),
                ..old(self).table()
            }),
    {
        let ghost before = self.elements@;
        let total: usize = self.elements.len();
        let mut i: usize = 0;
        assert(self.elements@ =~= with_functions(before, offset as int, functions@.take(0)));
        while i < functions.len()
            invariant
                i <= functions@.len(),
                offset + functions@.len() <= total,
                before.len() == self.elements@.len() == total,
                self.info == old(self).info,
                self.data == old(self).data,
                self.elements@ == with_functions(
                    before,
                    offset as int,
                    functions@.take(i as int),
                ),
            decreases functions@.len() - i,
        {
            self.elements.set(offset + i, TableElement::Function(functions[i]));
            i = i + 1;
            assert(self.elements@ =~= with_functions(
                before,
                offset as int,
                functions@.take(i as int),
            ));
        }
        assert(functions@.take(i as int) =~= functions@);
    }
}

impl MemoryData {
    spec fn memory(self) -> MemoryView {
        MemoryView { info: self.info, data: self.data@ }
    }
}

impl StandaloneRuntime {
    /// What every operation keeps.
    pub open spec fn wf(self) -> bool {
        self@.wf()
    }

    /// A runtime with the default settings, in which nothing is declared.
    pub fn default(target: Target) -> (runtime: StandaloneRuntime)
        ensures
            runtime.wf(),
            runtime@ == RuntimeView::empty(runtime@.flags, target),
            runtime@.flags.settings@.len() == 0,
    {
        Self::with_flags(Flags { settings: Vec::new() }, target)
    }

    /// A runtime with the given settings, in which nothing is declared.
    pub fn with_flags(flags: Flags, target: Target) -> (runtime: StandaloneRuntime)
        ensures
            runtime.wf(),
            runtime@ == RuntimeView::empty(flags, target),
    {
        let runtime = StandaloneRuntime {
            target,
            flags,
            signatures: Vec::new(),
            func_types: Vec::new(),
            imported_funcs: Vec::new(),
            globals: GlobalsData::new(),
            tables: Vec::new(),
            memories: Vec::new(),
            instantiated: false,
            has_current_memory: None,
            has_grow_memory: None,
            func_indices: FuncIndices::new(),
            the_heap: None,
        };
        assert(runtime@ =~= RuntimeView::empty(flags, target));
        runtime
    }

    /// The settings.
    pub fn flags(&self) -> (flags: &Flags)
        ensures
            *flags == self@.flags,
    {
        &self.flags
    }

    /// Gives the globals their slots and initializes them. A debug build asserts that this happens
    /// once; another build initializes the globals anew.
    pub fn begin_translation(&mut self)
        requires
            old(self).wf(),
            old(self)@.target.debug_assertions ==> !old(self)@.instantiated,
            can_initialize(old(self)@.globals),
        ensures
            final(self).wf(),
            final(self)@ == old(self)@.begun(),
    {
        self.instantiated = true;
        self.globals.allocate(self.target.byte_order);
        assert(self@ =~= old(self)@.begun());
    }

    /// Writes functions over the elements of a table, from position `offset` on. A debug build
    /// asserts that translation has not begun.
    pub fn declare_table_elements(
        &mut self,
        table_index: TableIndex,
        offset: usize,
        elements: &[FunctionIndex],
    )
        requires
            old(self).wf(),
            old(self)@.target.debug_assertions ==> !old(self)@.instantiated,
            elements@.len() > 0 ==> table_index < old(self)@.tables.len(),
            elements@.len() > 0 ==> offset + elements@.len() <= old(
                self,
            )@.tables[table_index as int].elements.len(),
        ensures
            final(self).wf(),
            final(self)@ == old(self)@.with_table_elements(
                table_index as int,
                offset as int,
                elements@,
            ),
    {
        if elements.len() > 0 {
            assert(self@.tables[table_index as int] == self.tables@[table_index as int].table());
            self.tables[table_index].place(offset, elements);
        }
        assert(self@ =~= old(self)@.with_table_elements(
            table_index as int,
            offset as int,
            elements@,
        ));
    }

    /// Writes bytes to a memory, or reports that they do not fit.
    pub fn declare_data_initialization(
        &mut self,
        memory_index: MemoryIndex,
        offset: usize,
        data: &[u8],
    ) -> (result: Result<(), String>)
        requires
            old(self).wf(),
            memory_index < old(self)@.memories.len(),
            offset + data@.len() <= usize::MAX,
        ensures
            final(self).wf(),
            result is Ok <==> offset + data@.len() <= old(
                self,
            )@.memories[memory_index as int].data.len(),
            match result {
                Ok(_) => {
                    &&& old(self)@.data_in_bounds(memory_index as int, offset as int, data@.len())
                    &&& final(self)@ == old(self)@.with_data(
                        memory_index as int,
                        offset as int,
                        data@,
                    )
                },
                Err(message) => {
                    &&& !old(self)@.data_in_bounds(memory_index as int, offset as int, data@.len())
                    &&& message@ == "initialization data out of bounds"@
                    &&& final(self)@ == old(self)@
                },
            },
    {
        assert(self@.memories[memory_index as int]
            == self.memories@[memory_index as int].memory());
        if offset + data.len() > self.memories[memory_index].data.len() {
            return Err("initialization data out of bounds".to_owned());
        }
        write_bytes(&mut self.memories[memory_index].data, offset, data);
        assert(self@ =~= old(self)@.with_data(memory_index as int, offset as int, data@));
        Ok(())
    }

    /// Declares a memory that holds zeros. A debug build asserts that translation has not begun.
    pub fn declare_memory(&mut self, memory: Memory)
        requires
            old(self).wf(),
            old(self)@.target.debug_assertions ==> !old(self)@.instantiated,
            memory.pages_count * PAGE_SIZE <= isize::MAX,
        ensures
            final(self).wf(),
            final(self)@ == old(self)@.with_memory(memory),
    {
        let size: usize = memory.pages_count * PAGE_SIZE;
        let mut data: Vec<u8> = Vec::with_capacity(size);
        data.resize(size, 0);
        assert(data@ =~= zeros(size as nat));
        self.memories.push(MemoryData { info: memory, data });
        assert(self@ =~= old(self)@.with_memory(memory));
    }

    /// Declares a table whose elements all trap. An element takes at most two machine words. A
    /// debug build asserts that translation has not begun.
    pub fn declare_table(&mut self, table: Table)
        requires
            old(self).wf(),
            old(self)@.target.debug_assertions ==> !old(self)@.instantiated,
            table.size * (usize::BITS / 4) <= isize::MAX,
        ensures
            final(self).wf(),
            final(self)@ == old(self)@.with_table(table),
    {
        let mut elements: Vec<TableElement> = Vec::with_capacity(table.size);
        elements.resize(table.size, TableElement::Trap);
        let mut data: Vec<usize> = Vec::with_capacity(table.size);
        data.resize(table.size, 0);
        assert(elements@ =~= Seq::new(table.size as nat, |k: int| TableElement::Trap));
        assert(data@ =~= Seq::new(table.size as nat, |k: int| 0usize));
        self.tables.push(TableData { info: table, data, elements });
        assert(self@ =~= old(self)@.with_table(table));
    }

    /// Declares a global variable, behind those that are there. A debug build asserts that there is
    /// none yet and that translation has not begun; another build takes as many as come, at any
    /// time.
    pub fn declare_global(&mut self, global: Global)
        requires
            old(self).wf(),
            old(self)@.target.debug_assertions ==> !old(self)@.instantiated,
            old(self)@.target.debug_assertions ==> old(self)@.globals.len() == 0,
        ensures
            final(self).wf(),
            final(self)@ == old(self)@.with_global(global),
    {
        self.globals.declare(global);
        assert(self@ =~= old(self)@.with_global(global));
    }

    /// Declares an imported function. A debug build asserts that imported functions are declared
    /// before all others.
    pub fn declare_func_import(
        &mut self,
        sig_index: SignatureIndex,
        module: &[u8],
        field: &[u8],
    )
        requires
            old(self).wf(),
            old(self)@.target.debug_assertions ==> old(self)@.func_types.len() == old(
                self,
            )@.imported_funcs.len(),
        ensures
            final(self).wf(),
            final(self)@ == old(self)@.with_func_import(sig_index, module@, field@),
    {
        self.func_types.push(sig_index);
        let name: Vec<u8> = mangle_import(module, field);
        self.imported_funcs.push(name);
        assert(self@ =~= old(self)@.with_func_import(sig_index, module@, field@));
    }

    /// Declares the type of a function that the module defines.
    pub fn declare_func_type(&mut self, sig_index: SignatureIndex)
        requires
            old(self).wf(),
        ensures
            final(self).wf(),
            final(self)@ == old(self)@.with_func_type(sig_index),
    {
        self.func_types.push(sig_index);
        assert(self@ =~= old(self)@.with_func_type(sig_index));
    }

    /// Declares a signature.
    pub fn declare_signature(&mut self, sig: &Signature)
        requires
            old(self).wf(),
        ensures
            final(self).wf(),
            final(self)@ == old(self)@.with_signature(sig@),
    {
        self.signatures.push(sig.duplicate());
        assert(self@ =~= old(self)@.with_signature(sig@));
    }

    /// Begins the translation of the next function: what the last body imported is forgotten.
    pub fn next_function(&mut self)
        requires
            old(self).wf(),
        ensures
            final(self).wf(),
            final(self)@ == old(self)@.at_next_function(),
    {
        self.has_current_memory = None;
        self.has_grow_memory = None;
        self.func_indices.clear();
        assert(self@ =~= old(self)@.at_next_function());
    }

    /// How a function body reads the global at position `index`: its place in the context is eight
    /// bytes per variable, behind the first eight.
    pub fn make_global(&self, index: GlobalIndex) -> (value: GlobalValue)
        requires
            index < self@.globals.len(),
            index * 8 <= usize::MAX,
            low_i32(index * 8) + 8 <= i32::MAX,
        ensures
            value.offset == low_i32(index * 8) + 8,
            value.ty == self@.globals[index as int].ty,
    {
        let scaled: usize = index * 8;
        let low: u64 = scaled as u64 % 0x1_0000_0000;
        let signed: i64 = if low < 0x8000_0000 {
            low as i64
        } else {
            low as i64 - 0x1_0000_0000
        };
        GlobalValue { offset: (signed + 8) as i32, ty: self.globals.get(index).ty }
    }

    /// The heap that a function body has to create for its memory. A debug build asserts that there
    /// is none yet.
    pub fn make_heap(&self, _index: MemoryIndex) -> (heap: HeapData)
        requires
            self@.target.debug_assertions ==> self@.the_heap is None,
        ensures
            heap == (HeapData {
                base: HeapBase::ReservedReg,
                min_size: 0,
                guard_size: 0x8000_0000,
                style: HeapStyle::Static { bound: 0x1_0000_0000 },
            }),
    {
        HeapData {
            base: HeapBase::ReservedReg,
            min_size: 0,
            guard_size: 0x8000_0000,
            style: HeapStyle::Static { bound: 0x1_0000_0000 },
        }
    }

    /// Takes note of the heap that was created, in place of one that may be known.
    pub fn heap_created(&mut self, heap: Heap)
        requires
            old(self).wf(),
            old(self)@.target.debug_assertions ==> old(self)@.the_heap is None,
        ensures
            final(self).wf(),
            final(self)@ == (RuntimeView { the_heap: Some(heap), ..old(self)@ }),
    {
        self.the_heap = Some(heap);
        assert(self@ =~= (RuntimeView { the_heap: Some(heap), ..old(self)@ }));
    }

    /// The signature that a function body has to import to call through a table.
    pub fn make_indirect_sig(&self, index: SignatureIndex) -> (sig: Signature)
        requires
            index < self@.signatures.len(),
        ensures
            sig@ == self@.signatures[index as int],
    {
        self.signatures[index].duplicate()
    }

    /// The name and the signature under which a function body has to import the function at
    /// position `index` to call it.
    pub fn make_direct_func(&self, index: FunctionIndex) -> (func: ExtFuncData)
        requires
            index < self@.func_types.len(),
            self@.func_types[index as int] < self@.signatures.len(),
        ensures
            func@ == (ExtFuncView {
                name: self@.func_name(index as int),
                signature: self@.signatures[self@.func_types[index as int] as int],
            }),
    {
        let sig_index: SignatureIndex = self.func_types[index];
        let signature = self.signatures[sig_index].duplicate();
        let name: Vec<u8> = if index < self.imported_funcs.len() {
            vstd::slice::slice_to_vec(self.imported_funcs[index].as_slice())
        } else {
            mangle_local(index)
        };
        ExtFuncData { name, signature }
    }

    /// Takes note of the number under which a body has imported the function at position `index`.
    pub fn direct_func_imported(&mut self, func: FuncRef, index: FunctionIndex)
        requires
            old(self).wf(),
            func.0 < u32::MAX,
        ensures
            final(self).wf(),
            final(self)@ == (RuntimeView {
                func_indices: recorded(old(self)@.func_indices, func, index),
                ..old(self)@
            }),
    {
        self.func_indices.set(func, index);
        assert(self@ =~= (RuntimeView {
            func_indices: recorded(old(self)@.func_indices, func, index),
            ..old(self)@
        }));
    }

    /// The position of the function that a body has imported; zero where none is recorded.
    pub fn func_index(&self, func: FuncRef) -> (index: FunctionIndex)
        ensures
            index == index_at(self@.func_indices, func),
    {
        self.func_indices.get(func)
    }

    /// The call that an indirect call through a table becomes. A debug build asserts that it is the
    /// default table.
    pub fn translate_call_indirect(
        &self,
        table_index: TableIndex,
        _sig_index: SignatureIndex,
        sig_ref: SigRef,
        callee: Value,
        call_args: &[Value],
    ) -> (call: IndirectCall)
        requires
            self@.target.debug_assertions ==> table_index == 0,
        ensures
            call.sig_ref == sig_ref,
            call.callee == callee,
            call.args@ == call_args@,
    {
        IndirectCall { sig_ref, callee, args: vstd::slice::slice_to_vec(call_args) }
    }

    /// The call that growing the memory by `val` pages becomes. A debug build asserts that it is
    /// the default memory, on the heap that is known, after translation began.
    pub fn translate_grow_memory(&self, index: MemoryIndex, heap: Heap, val: Value) -> (call:
        HelperCall)
        requires
            self@.target.debug_assertions ==> self@.helpers_available(index, heap),
        ensures
            call.callee@ == helper_callee(self@.has_grow_memory, grow_memory_helper()),
            call.args@ == seq![val],
    {
        let callee = match self.has_grow_memory {
            Some(func) => Callee::Imported(func),
            None => {
                proof {
                    reveal_strlit("grow_memory");
                }
                let mut argument_types: Vec<ArgumentType> = Vec::new();
                argument_types.push(ArgumentType::new(Type::I32));
                let data = ExtFuncData {
                    name: ascii_bytes("grow_memory"),
                    signature: native_signature(argument_types),
                };
                assert(data@ =~= grow_memory_helper());
                Callee::Import(data)
            },
        };
        let mut args: Vec<Value> = Vec::new();
        args.push(val);
        HelperCall { callee, args }
    }

    /// Takes note of the number under which a body has imported the helper that grows the memory.
    pub fn grow_memory_imported(&mut self, func: FuncRef)
        requires
            old(self).wf(),
        ensures
            final(self).wf(),
            final(self)@ == (RuntimeView { has_grow_memory: Some(func), ..old(self)@ }),
    {
        self.has_grow_memory = Some(func);
        assert(self@ =~= (RuntimeView { has_grow_memory: Some(func), ..old(self)@ }));
    }

    /// The call that asking for the memory's size becomes. A debug build asserts that it is the
    /// default memory, on the heap that is known, after translation began.
    pub fn translate_current_memory(&self, index: MemoryIndex, heap: Heap) -> (call: HelperCall)
        requires
            self@.target.debug_assertions ==> self@.helpers_available(index, heap),
        ensures
            call.callee@ == helper_callee(self@.has_current_memory, current_memory_helper()),
            call.args@ == Seq::<Value>::empty(),
    {
        let callee = match self.has_current_memory {
            Some(func) => Callee::Imported(func),
            None => {
                proof {
                    reveal_strlit("current_memory");
                }
                let data = ExtFuncData {
                    name: ascii_bytes("current_memory"),
                    signature: native_signature(Vec::new()),
                };
                assert(data@ =~= current_memory_helper());
                Callee::Import(data)
            },
        };
        HelperCall { callee, args: Vec::new() }
    }

    /// Takes note of the number under which a body has imported the helper that tells the memory's
    /// size.
    pub fn current_memory_imported(&mut self, func: FuncRef)
        requires
            old(self).wf(),
        ensures
            final(self).wf(),
            final(self)@ == (RuntimeView { has_current_memory: Some(func), ..old(self)@ }),
    {
        self.has_current_memory = Some(func);
        assert(self@ =~= (RuntimeView { has_current_memory: Some(func), ..old(self)@ }));
    }

    /// The contents of a memory, `len` bytes from `address` on.
    pub fn inspect_memory(&self, memory_index: usize, address: usize, len: usize) -> (bytes: &[u8])
        requires
            memory_index < self@.memories.len(),
            address + len <= self@.memories[memory_index as int].data.len(),
        ensures
            bytes@ == self@.memory_bytes(memory_index as int, address as int, len as int),
            bytes@ == self@.memories[memory_index as int].data.subrange(
                address as int,
                address + len,
            ),
    {
        assert(self@.memories[memory_index as int]
            == self.memories@[memory_index as int].memory());
        let data: &Vec<u8> = &self.memories[memory_index].data;
        let total: usize = data.len();
        assert(address + len <= total);
        vstd::slice::slice_subrange(data.as_slice(), address, address + len)
    }

    /// The bytes that hold a global.
    pub fn inspect_global(&self, global_index: usize) -> (bytes: &[u8])
        requires
            global_index < self@.globals.len(),
            self@.global_in_bounds(global_index as int),
        ensures
            bytes@ == self@.global_bytes(global_index as int),
            bytes@.len() == if self@.globals[global_index as int].ty is I64
                || self@.globals[global_index as int].ty is F64 {
                8nat
            } else {
                4nat
            },
            forall|k: int|
                0 <= k < bytes@.len() ==> #[trigger] bytes@[k]
                    == self@.globals_data[self@.global_offsets[global_index as int] + k],
    {
        self.globals.bytes_of(global_index)
    }

    /// Tells whether the globals can be laid out and initialized.
    pub fn can_begin_translation(&self) -> (yes: bool)
        ensures
            yes == can_initialize(self@.globals),
    {
        self.globals.can_allocate()
    }

    /// Tells whether there is a global at position `index` with a place in the context.
    pub fn can_make_global(&self, index: GlobalIndex) -> (yes: bool)
        ensures
            yes == (index < self@.globals.len() && index * 8 <= usize::MAX && low_i32(index * 8) + 8
                <= i32::MAX),
    {
        if index >= self.globals.len() || index > usize::MAX / 8 {
            return false;
        }
        let low: u64 = (index * 8) as u64 % 0x1_0000_0000;
        low >= 0x8000_0000 || low + 8 < 0x8000_0000
    }

    /// What the program was built for.
    pub fn target(&self) -> (target: Target)
        ensures
            target == self@.target,
    {
        self.target
    }

    /// How many globals are declared.
    pub fn global_count(&self) -> (n: usize)
        ensures
            n == self@.globals.len(),
    {
        self.globals.len()
    }

    /// How many signatures are declared.
    pub fn signature_count(&self) -> (n: usize)
        ensures
            n == self@.signatures.len(),
    {
        self.signatures.len()
    }

    /// How many functions are imported.
    pub fn import_count(&self) -> (n: usize)
        ensures
            n == self@.imported_funcs.len(),
    {
        self.imported_funcs.len()
    }

    /// How many functions there are, imported or defined.
    pub fn function_count(&self) -> (n: usize)
        ensures
            n == self@.func_types.len(),
    {
        self.func_types.len()
    }

    /// The position of the signature of a function, if there is such a function.
    pub fn function_type(&self, index: FunctionIndex) -> (sig_index: Option<SignatureIndex>)
        ensures
            sig_index == if index < self@.func_types.len() {
                Some(self@.func_types[index as int])
            } else {
                None
            },
    {
        if index < self.func_types.len() {
            Some(self.func_types[index])
        } else {
            None
        }
    }

    /// How many elements a table has, if there is such a table.
    pub fn table_size(&self, table_index: TableIndex) -> (size: Option<usize>)
        ensures
            size == if table_index < self@.tables.len() {
                Some(self@.tables[table_index as int].info.size)
            } else {
                None
            },
    {
        if table_index < self.tables.len() {
            Some(self.tables[table_index].info.size)
        } else {
            None
        }
    }

    /// An element of a table, if there is such an element.
    pub fn table_element(&self, table_index: TableIndex, k: usize) -> (element: Option<
        TableElement,
    >)
        ensures
            element == if table_index < self@.tables.len() && k
                < self@.tables[table_index as int].elements.len() {
                Some(self@.tables[table_index as int].elements[k as int])
            } else {
                None
            },
    {
        if table_index < self.tables.len() && k < self.tables[table_index].elements.len() {
            Some(self.tables[table_index].elements[k])
        } else {
            None
        }
    }

    /// How many bytes a memory has, if there is such a memory.
    pub fn memory_size(&self, memory_index: MemoryIndex) -> (size: Option<usize>)
        ensures
            match size {
                Some(n) => memory_index < self@.memories.len() && n
                    == self@.memories[memory_index as int].data.len(),
                None => memory_index >= self@.memories.len(),
            },
    {
        if memory_index < self.memories.len() {
            Some(self.memories[memory_index].data.len())
        } else {
            None
        }
    }

    /// The heap, once a body has created it.
    pub fn heap(&self) -> (heap: Option<Heap>)
        ensures
            heap == self@.the_heap,
    {
        self.the_heap
    }

    /// Whether translation has begun.
    pub fn is_instantiated(&self) -> (yes: bool)
        ensures
            yes == self@.instantiated,
    {
        self.instantiated
    }
}

/// Reading a memory where it was just initialized gives the data, and every other byte of every
/// memory is what it was.
pub proof fn data_reads_back(
    runtime: RuntimeView,
    memory_index: int,
    offset: int,
    data: Seq<u8>,
)
    requires
        runtime.wf(),
        0 <= memory_index < runtime.memories.len(),
        0 <= offset,
        runtime.data_in_bounds(memory_index, offset, data.len()),
    ensures
        ({
            let after = runtime.with_data(memory_index, offset, data);
            &&& after.memory_bytes(memory_index, offset, data.len() as int) == data
            &&& forall|other: int, address: int, len: int|
                0 <= other < runtime.memories.len() && 0 <= address && 0 <= len && address + len
                    <= runtime.memories[other].data.len() && (other != memory_index || address + len
                    <= offset || offset + data.len() <= address)
                    ==> #[trigger] after.memory_bytes(other, address, len)
                    == runtime.memory_bytes(other, address, len)
        }),
{
    let after = runtime.with_data(memory_index, offset, data);
    overwrite_read_back(runtime.memories[memory_index].data, offset, data);
    assert forall|other: int, address: int, len: int|
        0 <= other < runtime.memories.len() && 0 <= address && 0 <= len && address + len
            <= runtime.memories[other].data.len() && (other != memory_index || address + len
            <= offset || offset + data.len() <= address) implies #[trigger] after.memory_bytes(
        other,
        address,
        len,
    ) == runtime.memory_bytes(other, address, len) by {
        if other == memory_index {
            assert(overwrite(runtime.memories[other].data, offset, data).subrange(
                address,
                address + len,
            ) == runtime.memories[other].data.subrange(address, address + len));
        }
    }
}

/// A memory that was just declared has as many bytes as its pages hold, all zero.
pub proof fn new_memory_is_zero(runtime: RuntimeView, memory: Memory, address: int, len: int)
    requires
        0 <= address,
        0 <= len,
        address + len <= memory.pages_count * PAGE_SIZE,
    ensures
        runtime.with_memory(memory).memory_bytes(runtime.memories.len() as int, address, len)
            == zeros(len as nat),
{
    assert(runtime.with_memory(memory).memory_bytes(
        runtime.memories.len() as int,
        address,
        len,
    ) =~= zeros(len as nat));
}

/// The elements of a table that were declared are the functions given for them, and all others are
/// what they were; in a table that was just declared they trap.
pub proof fn table_elements_read_back(
    runtime: RuntimeView,
    table: Table,
    offset: int,
    functions: Seq<FunctionIndex>,
    k: int,
)
    requires
        0 <= offset,
        offset + functions.len() <= table.size,
        0 <= k < table.size,
    ensures
        ({
            let at = runtime.tables.len() as int;
            let after = runtime.with_table(table).with_table_elements(at, offset, functions);
            after.tables[at].elements[k] == if offset <= k < offset + functions.len() {
                TableElement::Function(functions[k - offset])
            } else {
                TableElement::Trap
            }
        }),
{
}

/// Declaring elements of one table leaves every other table alone.
pub proof fn other_tables_are_kept(
    runtime: RuntimeView,
    table_index: int,
    offset: int,
    functions: Seq<FunctionIndex>,
    other: int,
)
    requires
        0 <= table_index < runtime.tables.len(),
        0 <= other < runtime.tables.len(),
        other != table_index,
    ensures
        runtime.with_table_elements(table_index, offset, functions).tables[other]
            == runtime.tables[other],
{
}

/// Once translation has begun every global can be read, and every global whose declaration is kept
/// shows what it was declared with; one that is imported shows zeros, where there were no bytes
/// before.
pub proof fn globals_show_their_initializers(runtime: RuntimeView, i: int)
    requires
        can_initialize(runtime.globals),
        0 <= i < runtime.globals.len(),
    ensures
        ({
            let base = resized(runtime.globals_data, globals_size(runtime.globals));
            let after = runtime.begun();
            &&& after.global_in_bounds(i)
            &&& keeps_declaration(runtime.globals, i) ==> after.global_bytes(i) == declared_bytes(
                runtime.target.byte_order,
                runtime.globals,
                base,
                after.globals_data,
                i,
            )
            &&& runtime.globals_data.len() == 0 ==> slot(runtime.globals, base, i) == zeros(
                runtime.globals[i].ty.width(),
            )
        }),
{
    let base = resized(runtime.globals_data, globals_size(runtime.globals));
    let n = runtime.globals.len() as int;
    slots_tile_the_data(runtime.globals, i, n);
    lemma_initialized_len(runtime.target.byte_order, runtime.globals, base, n);
    assert(slot_offset(runtime.globals, i) <= usize::MAX);
    if keeps_declaration(runtime.globals, i) {
        globals_hold_their_initializers(runtime.target.byte_order, runtime.globals, base, i);
    }
    if runtime.globals_data.len() == 0 {
        assert(slot(runtime.globals, base, i) =~= zeros(runtime.globals[i].ty.width()));
    }
}

/// A body imports each memory helper at most once: after it has been imported, calls go to the
/// imported function, until the next body begins; that body has to import it anew.
pub proof fn helpers_are_imported_once_per_body(runtime: RuntimeView, func: FuncRef)
    ensures
        helper_callee(
            (RuntimeView { has_grow_memory: Some(func), ..runtime }).has_grow_memory,
            grow_memory_helper(),
        ) == CalleeView::Imported(func),
        helper_callee(
            (RuntimeView { has_current_memory: Some(func), ..runtime }).has_current_memory,
            current_memory_helper(),
        ) == CalleeView::Imported(func),
        helper_callee(runtime.at_next_function().has_grow_memory, grow_memory_helper())
            == CalleeView::Import(grow_memory_helper()),
        helper_callee(runtime.at_next_function().has_current_memory, current_memory_helper())
            == CalleeView::Import(current_memory_helper()),
{
}

/// The function that a body imported for position `index` is found under that position, as long as
/// no other body has begun; then nothing is found.
pub proof fn imported_functions_are_found(
    runtime: RuntimeView,
    func: FuncRef,
    index: FunctionIndex,
    other: FuncRef,
)
    ensures
        index_at(recorded(runtime.func_indices, func, index), func) == index,
        other != func ==> index_at(recorded(runtime.func_indices, func, index), other) == index_at(
            runtime.func_indices,
            other,
        ),
        index_at(runtime.at_next_function().func_indices, other) == 0,
{
    lookup_after_recording(runtime.func_indices, func, index, other);
}

/// An imported function is known by the name of its import, under the number of its import, however
/// many functions are declared after it, and a function that the module defines by its position.
pub proof fn functions_keep_their_names(
    runtime: RuntimeView,
    sig_index: SignatureIndex,
    module: Seq<u8>,
    field: Seq<u8>,
    other_sig: SignatureIndex,
    other_module: Seq<u8>,
    other_field: Seq<u8>,
)
    requires
        runtime.wf(),
    ensures
        ({
            let import = runtime.imported_funcs.len() as int;
            let position = runtime.func_types.len() as int;
            let after = runtime.with_func_import(sig_index, module, field);
            &&& after.func_name(import) == import_name(module, field)
            &&& after.with_func_import(other_sig, other_module, other_field).func_name(import)
                == import_name(module, field)
            &&& after.with_func_type(other_sig).func_name(import) == import_name(module, field)
            &&& runtime.with_func_type(sig_index).func_name(position) == local_name(position as nat)
        }),
{
}

/// Once translation has begun it stays begun, and the globals keep their bytes, whatever is
/// declared or translated after that.
pub proof fn the_instance_outlasts_later_declarations(
    runtime: RuntimeView,
    sig: SignatureView,
    sig_index: SignatureIndex,
    module: Seq<u8>,
    field: Seq<u8>,
    global: Global,
    table: Table,
    table_index: int,
    functions: Seq<FunctionIndex>,
    memory: Memory,
    memory_index: int,
    offset: int,
    data: Seq<u8>,
)
    requires
        runtime.wf(),
        runtime.instantiated,
    ensures
        runtime.with_signature(sig).keeps_instance_of(runtime),
        runtime.with_func_import(sig_index, module, field).keeps_instance_of(runtime),
        runtime.with_func_type(sig_index).keeps_instance_of(runtime),
        runtime.with_global(global).keeps_instance_of(runtime),
        runtime.with_table(table).keeps_instance_of(runtime),
        runtime.with_table_elements(table_index, offset, functions).keeps_instance_of(runtime),
        runtime.with_memory(memory).keeps_instance_of(runtime),
        runtime.with_data(memory_index, offset, data).keeps_instance_of(runtime),
        runtime.at_next_function().keeps_instance_of(runtime),
{
}

/// In a new runtime nothing is declared, nothing is imported and translation has not begun.
pub proof fn a_new_runtime_has_nothing(flags: Flags, target: Target)
    ensures
        ({
            let new = RuntimeView::empty(flags, target);
            &&& new.flags == flags
            &&& new.target == target
            &&& new.signatures.len() == 0
            &&& new.func_types.len() == 0
            &&& new.imported_funcs.len() == 0
            &&& new.globals.len() == 0
            &&& new.global_offsets.len() == 0
            &&& new.globals_data.len() == 0
            &&& new.tables.len() == 0
            &&& new.memories.len() == 0
            &&& !new.instantiated
            &&& new.has_current_memory is None
            &&& new.has_grow_memory is None
            &&& new.func_indices.len() == 0
            &&& new.the_heap is None
        }),
{
}

/// Every memory has 65536 bytes for each of its pages, and every table as many elements and as many
/// addresses, all zero, as its size says.
pub proof fn memories_and_tables_have_their_sizes(runtime: RuntimeView)
    requires
        runtime.wf(),
    ensures
        forall|m: int|
            0 <= m < runtime.memories.len() ==> (#[trigger] runtime.memories[m]).data.len()
                == runtime.memories[m].info.pages_count * 65536,
        forall|t: int|
            0 <= t < runtime.tables.len() ==> (#[trigger] runtime.tables[t]).elements.len()
                == runtime.tables[t].info.size,
        forall|t: int|
            0 <= t < runtime.tables.len() ==> (#[trigger] runtime.tables[t]).data.len()
                == runtime.tables[t].info.size,
        forall|t: int, k: int|
            0 <= t < runtime.tables.len() && 0 <= k < runtime.tables[t].data.len()
                ==> #[trigger] runtime.tables[t].data[k] == 0,
        !runtime.instantiated ==> runtime.globals_data.len() == 0,
        runtime.imported_funcs.len() <= runtime.func_types.len(),
        runtime.global_offsets.len() == runtime.globals.len(),
{
    assert forall|t: int, k: int|
        0 <= t < runtime.tables.len() && 0 <= k < runtime.tables[t].data.len() implies
        #[trigger] runtime.tables[t].data[k] == 0 by {
        assert(runtime.tables[t].data == Seq::new(
            runtime.tables[t].info.size as nat,
            |k: int| 0usize,
        ));
    }
}

/// Data fits in a memory exactly when it ends where the memory ends at the latest, however large
/// the memory is: with 65536 bytes for each page.
pub proof fn data_fits_where_the_memory_reaches(
    runtime: RuntimeView,
    memory_index: int,
    offset: int,
    len: nat,
)
    requires
        runtime.wf(),
        0 <= memory_index < runtime.memories.len(),
    ensures
        runtime.data_in_bounds(memory_index, offset, len) <==> offset + len
            <= runtime.memories[memory_index].data.len(),
        runtime.data_in_bounds(memory_index, offset, len) <==> offset + len
            <= runtime.memories[memory_index].info.pages_count * 65536,
{
}

/// Initializing a memory writes each byte of the data to its place and changes nothing else.
pub proof fn data_goes_to_its_place(
    runtime: RuntimeView,
    memory_index: int,
    offset: int,
    data: Seq<u8>,
    m: int,
    b: int,
)
    requires
        0 <= memory_index < runtime.memories.len(),
        0 <= offset,
        offset + data.len() <= runtime.memories[memory_index].data.len(),
        0 <= m < runtime.memories.len(),
        0 <= b < runtime.memories[m].data.len(),
    ensures
        ({
            let after = runtime.with_data(memory_index, offset, data);
            &&& after == (RuntimeView { memories: after.memories, ..runtime })
            &&& after.memories.len() == runtime.memories.len()
            &&& after.memories[m].info == runtime.memories[m].info
            &&& after.memories[m].data.len() == runtime.memories[m].data.len()
            &&& m == memory_index && offset <= b < offset + data.len() ==> after.memories[m].data[b]
                == data[b - offset]
            &&& !(m == memory_index && offset <= b < offset + data.len())
                ==> after.memories[m].data[b] == runtime.memories[m].data[b]
            &&& after.memory_bytes(m, b, 1)[0] == after.memories[m].data[b]
        }),
{
}

/// What is read of a memory is what stands there, byte for byte.
pub proof fn memories_are_read_as_they_are(
    runtime: RuntimeView,
    memory_index: int,
    address: int,
    len: int,
    k: int,
)
    requires
        0 <= address,
        0 <= k < len,
        address + len <= runtime.memories[memory_index].data.len(),
    ensures
        runtime.memory_bytes(memory_index, address, len).len() == len,
        runtime.memory_bytes(memory_index, address, len)[k]
            == runtime.memories[memory_index].data[address + k],
{
}

/// Declaring a memory adds one behind the others, with 65536 zero bytes for each of its pages, and
/// changes nothing else.
pub proof fn a_memory_is_added_behind_the_others(runtime: RuntimeView, memory: Memory)
    ensures
        ({
            let after = runtime.with_memory(memory);
            let new = after.memories[runtime.memories.len() as int];
            &&& after == (RuntimeView { memories: after.memories, ..runtime })
            &&& after.memories.len() == runtime.memories.len() + 1
            &&& after.memories.drop_last() == runtime.memories
            &&& new.info == memory
            &&& new.data.len() == memory.pages_count * 65536
            &&& forall|b: int| 0 <= b < new.data.len() ==> #[trigger] new.data[b] == 0
        }),
{
    assert(runtime.with_memory(memory).memories.drop_last() =~= runtime.memories);
}

/// Declaring a table adds one behind the others, all of whose elements trap, and changes nothing
/// else.
pub proof fn a_table_is_added_behind_the_others(runtime: RuntimeView, table: Table)
    ensures
        ({
            let after = runtime.with_table(table);
            let new = after.tables[runtime.tables.len() as int];
            &&& after == (RuntimeView { tables: after.tables, ..runtime })
            &&& after.tables.len() == runtime.tables.len() + 1
            &&& after.tables.drop_last() == runtime.tables
            &&& new.info == table
            &&& new.data.len() == table.size
            &&& new.elements.len() == table.size
            &&& forall|k: int| 0 <= k < table.size ==> #[trigger] new.data[k] == 0
            &&& forall|k: int| 0 <= k < table.size ==> #[trigger] new.elements[k] is Trap
        }),
{
    assert(runtime.with_table(table).tables.drop_last() =~= runtime.tables);
}

/// Declaring elements of a table, whatever the table holds already, makes exactly the elements from
/// `offset` on the functions that are given, one after the other, and leaves every other element of
/// every table, and everything else, as it was.
pub proof fn elements_go_to_their_places(
    runtime: RuntimeView,
    table_index: int,
    offset: int,
    functions: Seq<FunctionIndex>,
    t: int,
    k: int,
)
    requires
        0 <= offset,
        functions.len() > 0 ==> 0 <= table_index < runtime.tables.len(),
        functions.len() > 0 ==> offset + functions.len()
            <= runtime.tables[table_index].elements.len(),
        0 <= t < runtime.tables.len(),
        0 <= k < runtime.tables[t].elements.len(),
    ensures
        ({
            let after = runtime.with_table_elements(table_index, offset, functions);
            &&& after == (RuntimeView { tables: after.tables, ..runtime })
            &&& after.tables.len() == runtime.tables.len()
            &&& after.tables[t].info == runtime.tables[t].info
            &&& after.tables[t].data == runtime.tables[t].data
            &&& after.tables[t].elements.len() == runtime.tables[t].elements.len()
            &&& t == table_index && offset <= k < offset + functions.len()
                ==> after.tables[t].elements[k] == TableElement::Function(functions[k - offset])
            &&& t != table_index || k < offset || k >= offset + functions.len()
                ==> after.tables[t].elements[k] == runtime.tables[t].elements[k]
        }),
{
}

/// Declaring a global adds it behind the others and changes nothing else.
pub proof fn a_global_is_added_behind_the_others(runtime: RuntimeView, global: Global)
    requires
        runtime.wf(),
    ensures
        ({
            let after = runtime.with_global(global);
            let at = runtime.globals.len() as int;
            &&& after == (RuntimeView {
                globals: after.globals,
                global_offsets: after.global_offsets,
                ..runtime
            })
            &&& after.globals.len() == at + 1
            &&& after.global_offsets.len() == at + 1
            &&& after.globals[at] == global
            &&& after.global_offsets[at] == 0
            &&& after.globals.take(at) == runtime.globals
            &&& after.global_offsets.take(at) == runtime.global_offsets
        }),
{
    let at = runtime.globals.len() as int;
    assert(runtime.with_global(global).globals.take(at) =~= runtime.globals);
    assert(runtime.with_global(global).global_offsets.take(at) =~= runtime.global_offsets);
}

/// Declaring a signature adds it behind the others and changes nothing else.
pub proof fn a_signature_is_added_behind_the_others(runtime: RuntimeView, sig: SignatureView)
    ensures
        ({
            let after = runtime.with_signature(sig);
            let at = runtime.signatures.len() as int;
            &&& after == (RuntimeView { signatures: after.signatures, ..runtime })
            &&& after.signatures.len() == at + 1
            &&& after.signatures[at] == sig
            &&& after.signatures.take(at) == runtime.signatures
        }),
{
    let at = runtime.signatures.len() as int;
    assert(runtime.with_signature(sig).signatures.take(at) =~= runtime.signatures);
}

/// Declaring a function, imported or not, adds it behind the others; an imported one also adds a
/// name behind the others; nothing else changes.
pub proof fn a_function_is_added_behind_the_others(
    runtime: RuntimeView,
    sig_index: SignatureIndex,
    module: Seq<u8>,
    field: Seq<u8>,
)
    ensures
        ({
            let defined = runtime.with_func_type(sig_index);
            let imported = runtime.with_func_import(sig_index, module, field);
            let at = runtime.func_types.len() as int;
            let import = runtime.imported_funcs.len() as int;
            &&& defined == (RuntimeView { func_types: defined.func_types, ..runtime })
            &&& imported == (RuntimeView {
                func_types: defined.func_types,
                imported_funcs: imported.imported_funcs,
                ..runtime
            })
            &&& defined.func_types.len() == at + 1
            &&& defined.func_types[at] == sig_index
            &&& defined.func_types.take(at) == runtime.func_types
            &&& imported.imported_funcs.len() == import + 1
            &&& imported.imported_funcs[import] == import_name(module, field)
            &&& imported.imported_funcs.take(import) == runtime.imported_funcs
        }),
{
    let defined = runtime.with_func_type(sig_index);
    let imported = runtime.with_func_import(sig_index, module, field);
    assert(defined.func_types.take(runtime.func_types.len() as int) =~= runtime.func_types);
    assert(imported.imported_funcs.take(runtime.imported_funcs.len() as int)
        =~= runtime.imported_funcs);
}

/// A function is known by the name of its import exactly where there is an import at its position,
/// and by its position everywhere else.
pub proof fn functions_have_their_names(runtime: RuntimeView, index: int)
    requires
        0 <= index,
    ensures
        index < runtime.imported_funcs.len() ==> runtime.func_name(index)
            == runtime.imported_funcs[index],
        index >= runtime.imported_funcs.len() ==> runtime.func_name(index) == local_name(
            index as nat,
        ),
{
}

/// The next function starts with nothing imported, and everything that was declared stays.
pub proof fn the_next_function_starts_afresh(runtime: RuntimeView)
    ensures
        ({
            let after = runtime.at_next_function();
            &&& after.has_current_memory is None
            &&& after.has_grow_memory is None
            &&& after.func_indices.len() == 0
            &&& after == (RuntimeView {
                has_current_memory: after.has_current_memory,
                has_grow_memory: after.has_grow_memory,
                func_indices: after.func_indices,
                ..runtime
            })
        }),
{
}

/// The place of a global in the context is eight bytes per variable up to whole multiples of the
/// range of a word, and lies within the range of a signed word.
pub proof fn context_places_are_signed_words(n: int)
    ensures
        -0x8000_0000 <= low_i32(n) < 0x8000_0000,
        (n - low_i32(n)) % 0x1_0000_0000 == 0,
        0 <= n < 0x8000_0000 ==> low_i32(n) == n,
{
}

/// A memory helper that was imported is called under the number of its import, whatever the number;
/// one that was not has to be imported, under its name and with its signature: the one that grows
/// the memory takes a number of pages, and both give a number of pages back.
pub proof fn helpers_have_their_signatures(func: FuncRef, helper: ExtFuncView)
    ensures
        helper_callee(Some(func), helper) == CalleeView::Imported(func),
        helper_callee(None, helper) == CalleeView::Import(helper),
        grow_memory_helper().name.len() == 11,
        current_memory_helper().name.len() == 14,
        forall|k: int|
            0 <= k < 11 ==> #[trigger] grow_memory_helper().name[k] == "grow_memory"@[k] as u8,
        forall|k: int|
            0 <= k < 14 ==> #[trigger] current_memory_helper().name[k]
                == "current_memory"@[k] as u8,
        grow_memory_helper().signature.call_conv is Native,
        current_memory_helper().signature.call_conv is Native,
        grow_memory_helper().signature.argument_bytes is None,
        current_memory_helper().signature.argument_bytes is None,
        grow_memory_helper().signature.argument_types.len() == 1,
        grow_memory_helper().signature.argument_types[0].value_type is I32,
        current_memory_helper().signature.argument_types.len() == 0,
        grow_memory_helper().signature.return_types.len() == 1,
        grow_memory_helper().signature.return_types[0].value_type is I32,
        current_memory_helper().signature.return_types.len() == 1,
        current_memory_helper().signature.return_types[0].value_type is I32,
{
    reveal_strlit("grow_memory");
    reveal_strlit("current_memory");
}

/// A callee is seen as it is.
pub proof fn callees_are_seen_as_they_are(callee: Callee)
    ensures
        match callee {
            Callee::Imported(func) => callee@ == CalleeView::Imported(func),
            Callee::Import(data) => callee@ == CalleeView::Import(data@),
        },
{
}

/// When translation begins the globals are laid out one behind the other, from zero on, with four
/// bytes for a 32-bit value and eight for a 64-bit one; nothing but the globals changes.
pub proof fn globals_are_laid_out_when_translation_begins(runtime: RuntimeView, i: int)
    requires
        can_initialize(runtime.globals),
        0 <= i < runtime.globals.len(),
    ensures
        ({
            let after = runtime.begun();
            let width = if runtime.globals[i].ty is I64 || runtime.globals[i].ty is F64 {
                8int
            } else {
                4int
            };
            &&& after.instantiated
            &&& after == (RuntimeView {
                instantiated: after.instantiated,
                global_offsets: after.global_offsets,
                globals_data: after.globals_data,
                ..runtime
            })
            &&& after.global_offsets.len() == runtime.globals.len()
            &&& after.global_offsets[0] == 0
            &&& i + 1 < runtime.globals.len() ==> after.global_offsets[i + 1]
                == after.global_offsets[i] + width
            &&& i + 1 == runtime.globals.len() ==> after.globals_data.len()
                == after.global_offsets[i] + width
        }),
{
    let n = runtime.globals.len() as int;
    let base = resized(runtime.globals_data, globals_size(runtime.globals));
    globals_follow_one_another(runtime.globals, i);
    globals_follow_one_another(runtime.globals, 0);
    if i + 1 < n {
        globals_follow_one_another(runtime.globals, i + 1);
    }
    lemma_initialized_len(runtime.target.byte_order, runtime.globals, base, n);
}

/// When translation begins without globals there are no bytes for globals, and nothing else
/// changes.
pub proof fn without_globals_translation_only_begins(runtime: RuntimeView)
    requires
        runtime.globals.len() == 0,
    ensures
        can_initialize(runtime.globals),
        runtime.begun().instantiated,
        runtime.begun().globals_data.len() == 0,
        runtime.begun().global_offsets.len() == 0,
        runtime.begun() == (RuntimeView {
            instantiated: runtime.begun().instantiated,
            global_offsets: runtime.begun().global_offsets,
            globals_data: runtime.begun().globals_data,
            ..runtime
        }),
{
}

/// Every byte of every global after translation began. A constant stands in its global digit by
/// digit in the byte order of the host, as far as the global reaches; a copy equals what the copied
/// global holds, or held before where that global comes later; everything else is what was there
/// before, or zero, but for an import behind a constant that is wider than its global, into which
/// that constant runs.
pub proof fn every_byte_of_a_global_is_known_when_translation_began(
    runtime: RuntimeView,
    i: int,
    p: int,
)
    requires
        can_initialize(runtime.globals),
        0 <= i < runtime.globals.len(),
        0 <= p < 8,
        (runtime.globals[i].ty is I32 || runtime.globals[i].ty is F32) ==> p < 4,
    ensures
        ({
            let after = runtime.begun();
            let little = runtime.target.byte_order is Little;
            let at = after.global_offsets[i] as int;
            let byte = after.globals_data[at + p];
            let digit4 = if little {
                p as nat
            } else {
                (3 - p) as nat
            };
            let digit8 = if little {
                p as nat
            } else {
                (7 - p) as nat
            };
            let before = if at + p < runtime.globals_data.len() {
                runtime.globals_data[at + p]
            } else {
                0u8
            };
            &&& at + p < after.globals_data.len()
            &&& match runtime.globals[i].initializer {
                GlobalInit::I32Const(v) => if p < 4 {
                    byte == (v as int / pow(256, digit4)) % 256
                } else {
                    byte == before
                },
                GlobalInit::F32Const(bits) => if p < 4 {
                    byte == (bits as int / pow(256, digit4)) % 256
                } else {
                    byte == before
                },
                GlobalInit::I64Const(v) => byte == (v as int / pow(256, digit8)) % 256,
                GlobalInit::F64Const(bits) => byte == (bits as int / pow(256, digit8)) % 256,
                GlobalInit::GlobalRef(j) => {
                    let from = after.global_offsets[j as int] + p;
                    let earlier = if from < runtime.globals_data.len() {
                        runtime.globals_data[from]
                    } else {
                        0u8
                    };
                    if j < i {
                        byte == after.globals_data[from]
                    } else {
                        byte == earlier
                    }
                },
                GlobalInit::Import => {
                    let behind_narrow = i > 0 && p < 4 && (runtime.globals[i - 1].ty is I32
                        || runtime.globals[i - 1].ty is F32);
                    let running_on = if little {
                        (4 + p) as nat
                    } else {
                        (3 - p) as nat
                    };
                    match runtime.globals[i - 1].initializer {
                        GlobalInit::I64Const(v) if behind_narrow => byte == (v as int / pow(
                            256,
                            running_on,
                        )) % 256,
                        GlobalInit::F64Const(bits) if behind_narrow => byte == (bits as int / pow(
                            256,
                            running_on,
                        )) % 256,
                        _ => byte == before,
                    }
                },
            }
        }),
{
    let order = runtime.target.byte_order;
    let base = resized(runtime.globals_data, globals_size(runtime.globals));
    globals_follow_one_another(runtime.globals, i);
    every_byte_of_a_global_is_known(order, runtime.globals, base, i, p);
    if let GlobalInit::GlobalRef(j) = runtime.globals[i].initializer {
        assert(crate::globals::init_in_bounds(runtime.globals, i));
        globals_follow_one_another(runtime.globals, j as int);
    }
}

/// A 32-bit integer global shows its constant: its bytes, read as a number in two's complement in
/// the byte order of the host, are the constant, for every constant.
pub proof fn i32_globals_show_their_constants(runtime: RuntimeView, i: int, value: i32)
    requires
        can_initialize(runtime.globals),
        0 <= i < runtime.globals.len(),
        runtime.globals[i].ty is I32,
        runtime.globals[i].initializer == GlobalInit::I32Const(value),
    ensures
        ({
            let after = runtime.begun();
            let at = after.global_offsets[i] as int;
            let d = after.globals_data;
            let little = d[at] + 0x100 * d[at + 1] + 0x1_0000 * d[at + 2] + 0x100_0000 * d[at + 3];
            let big = d[at + 3] + 0x100 * d[at + 2] + 0x1_0000 * d[at + 1] + 0x100_0000 * d[at];
            let read = if runtime.target.byte_order is Little {
                little
            } else {
                big
            };
            &&& at + 4 <= d.len()
            &&& value as int == if read < 0x8000_0000 {
                read
            } else {
                read - 0x1_0000_0000
            }
        }),
{
    let order = runtime.target.byte_order;
    let after = runtime.begun();
    let at = after.global_offsets[i] as int;
    globals_show_their_initializers(runtime, i);
    i32_reads_back(order, value);
    let b = word_bytes(order, bits32(value), 4);
    assert(after.global_bytes(i) == b);
    assert(after.globals_data[at] == b[0]);
    assert(after.globals_data[at + 1] == b[1]);
    assert(after.globals_data[at + 2] == b[2]);
    assert(after.globals_data[at + 3] == b[3]);
}

/// A 64-bit integer global shows its constant: its bytes, read as a number in two's complement in
/// the byte order of the host, are the constant, for every constant.
pub proof fn i64_globals_show_their_constants(runtime: RuntimeView, i: int, value: i64)
    requires
        can_initialize(runtime.globals),
        0 <= i < runtime.globals.len(),
        runtime.globals[i].ty is I64,
        runtime.globals[i].initializer == GlobalInit::I64Const(value),
    ensures
        ({
            let after = runtime.begun();
            let at = after.global_offsets[i] as int;
            let d = after.globals_data;
            let little = d[at] + 0x100 * d[at + 1] + 0x1_0000 * d[at + 2] + 0x100_0000 * d[at + 3]
                + 0x1_0000_0000 * d[at + 4] + 0x100_0000_0000 * d[at + 5] + 0x1_0000_0000_0000
                * d[at + 6] + 0x100_0000_0000_0000 * d[at + 7];
            let big = d[at + 7] + 0x100 * d[at + 6] + 0x1_0000 * d[at + 5] + 0x100_0000 * d[at + 4]
                + 0x1_0000_0000 * d[at + 3] + 0x100_0000_0000 * d[at + 2] + 0x1_0000_0000_0000
                * d[at + 1] + 0x100_0000_0000_0000 * d[at];
            let read = if runtime.target.byte_order is Little {
                little
            } else {
                big
            };
            &&& at + 8 <= d.len()
            &&& value as int == if read < 0x8000_0000_0000_0000 {
                read
            } else {
                read - 0x1_0000_0000_0000_0000
            }
        }),
{
    let order = runtime.target.byte_order;
    let after = runtime.begun();
    let at = after.global_offsets[i] as int;
    globals_show_their_initializers(runtime, i);
    i64_reads_back(order, value);
    let b = word_bytes(order, bits64(value), 8);
    assert(after.global_bytes(i) == b);
    assert(forall|k: int| 0 <= k < 8 ==> #[trigger] after.globals_data[at + k] == b[k]) by {
        assert forall|k: int| 0 <= k < 8 implies #[trigger] after.globals_data[at + k] == b[k] by {
            assert(after.global_bytes(i)[k] == after.globals_data[at + k]);
        }
    }
    assert(after.globals_data[at + 0] == b[0]);
}

/// A global can be read exactly when its bytes, four or eight from its offset on, lie within those
/// of all the globals, and reading it gives those bytes.
pub proof fn globals_are_read_where_they_stand(runtime: RuntimeView, i: int, k: int)
    requires
        0 <= i < runtime.globals.len(),
    ensures
        ({
            let at = runtime.global_offsets[i] as int;
            let width = if runtime.globals[i].ty is I64 || runtime.globals[i].ty is F64 {
                8int
            } else {
                4int
            };
            &&& runtime.global_in_bounds(i) <==> at + width <= runtime.globals_data.len()
            &&& at + width <= runtime.globals_data.len() ==> runtime.global_bytes(i).len() == width
            &&& at + width <= runtime.globals_data.len() && 0 <= k < width ==> runtime.global_bytes(
                i,
            )[k] == runtime.globals_data[at + k]
        }),
{
}

/// The memory helpers are available for the default memory on the heap that was created, once
/// translation has begun, and for nothing else.
pub proof fn helpers_are_available_for_the_memory(
    runtime: RuntimeView,
    index: MemoryIndex,
    heap: Heap,
)
    ensures
        runtime.helpers_available(index, heap) <==> (runtime.instantiated && index == 0
            && runtime.the_heap is Some && runtime.the_heap->Some_0 == heap),
{
}

} // verus!
