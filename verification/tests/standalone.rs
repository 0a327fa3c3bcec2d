use sip::entities::{
    ArgumentExtension, ArgumentPurpose, ArgumentType, CallConv, FuncRef, Global, GlobalInit, Heap,
    Memory, SigRef, Signature, Table, TableElementType, Type, Value,
};
use sip::standalone::{
    Callee, FlagSetting, Flags, HeapBase, HeapStyle, StandaloneRuntime, TableElement, PAGE_SIZE,
};
use sip::target::{ByteOrder, Target};

const DEBUG: Target = Target { byte_order: ByteOrder::Little, debug_assertions: true };
const RELEASE: Target = Target { byte_order: ByteOrder::Little, debug_assertions: false };
const BIG_ENDIAN: Target = Target { byte_order: ByteOrder::Big, debug_assertions: false };

fn signature(arguments: &[Type], results: &[Type]) -> Signature {
    Signature {
        call_conv: CallConv::SpiderWASM,
        argument_bytes: Some(16),
        argument_types: arguments.iter().map(|ty| ArgumentType::new(*ty)).collect(),
        return_types: results.iter().map(|ty| ArgumentType::new(*ty)).collect(),
    }
}

fn function_table(size: usize) -> Table {
    Table { ty: TableElementType::Func, size, maximum: None }
}

fn instantiated() -> StandaloneRuntime {
    let mut runtime = StandaloneRuntime::default(DEBUG);
    assert!(runtime.can_begin_translation());
    runtime.begin_translation();
    runtime
}

#[test]
fn a_new_runtime_is_empty() {
    let runtime = StandaloneRuntime::default(DEBUG);
    assert!(runtime.flags().settings.is_empty());
    assert_eq!(runtime.global_count(), 0);
    assert_eq!(runtime.signature_count(), 0);
    assert_eq!(runtime.function_count(), 0);
    assert_eq!(runtime.import_count(), 0);
    assert_eq!(runtime.function_type(0), None);
    assert_eq!(runtime.table_size(0), None);
    assert_eq!(runtime.memory_size(0), None);
    assert_eq!(runtime.heap(), None);
    assert!(!runtime.is_instantiated());
}

#[test]
fn settings_are_kept() {
    let flags = Flags { settings: vec![FlagSetting::Enable("is_64bit".to_string())] };
    let runtime = StandaloneRuntime::with_flags(flags, RELEASE);
    assert_eq!(runtime.flags().settings.len(), 1);
    assert_eq!(runtime.target(), RELEASE);
    let setting = &runtime.flags().settings[0];
    assert!(matches!(setting, FlagSetting::Enable(name) if name == "is_64bit"));
}

#[test]
fn memory_starts_zero_and_reads_back_its_data() {
    let mut runtime = StandaloneRuntime::default(DEBUG);
    runtime.declare_memory(Memory { pages_count: 1, maximum: None });
    runtime.declare_memory(Memory { pages_count: 2, maximum: Some(4) });
    assert_eq!(runtime.memory_size(0), Some(PAGE_SIZE));
    assert_eq!(runtime.memory_size(1), Some(131072));
    assert_eq!(runtime.inspect_memory(0, 0, PAGE_SIZE), vec![0; PAGE_SIZE].as_slice());
    assert_eq!(runtime.declare_data_initialization(1, 70000, b"hello"), Ok(()));
    assert_eq!(runtime.inspect_memory(1, 70000, 5), b"hello");
    assert_eq!(runtime.inspect_memory(1, 69999, 7), b"\0hello\0");
    assert_eq!(runtime.inspect_memory(0, 0, PAGE_SIZE), vec![0; PAGE_SIZE].as_slice());
    runtime.begin_translation();
    assert_eq!(runtime.declare_data_initialization(1, 70001, b"a"), Ok(()));
    assert_eq!(runtime.inspect_memory(1, 70000, 5), b"hallo");
}

#[test]
fn data_beyond_the_memory_is_refused() {
    let mut runtime = StandaloneRuntime::default(DEBUG);
    runtime.declare_memory(Memory { pages_count: 1, maximum: None });
    assert_eq!(runtime.declare_data_initialization(0, 65534, &[1, 2]), Ok(()));
    assert_eq!(
        runtime.declare_data_initialization(0, 65535, &[3, 4]),
        Err("initialization data out of bounds".to_string())
    );
    assert_eq!(runtime.inspect_memory(0, 65533, 3), [0, 1, 2]);
    assert_eq!(runtime.declare_data_initialization(0, 65536, &[]), Ok(()));
    assert_eq!(
        runtime.declare_data_initialization(0, 65537, &[]),
        Err("initialization data out of bounds".to_string())
    );
}

#[test]
fn table_elements_trap_until_they_are_declared() {
    let mut runtime = StandaloneRuntime::default(DEBUG);
    runtime.declare_table(function_table(4));
    runtime.declare_table(function_table(2));
    runtime.declare_table_elements(0, 1, &[7, 9]);
    assert_eq!(runtime.table_size(0), Some(4));
    assert_eq!(runtime.table_element(0, 0), Some(TableElement::Trap));
    assert_eq!(runtime.table_element(0, 1), Some(TableElement::Function(7)));
    assert_eq!(runtime.table_element(0, 2), Some(TableElement::Function(9)));
    assert_eq!(runtime.table_element(0, 3), Some(TableElement::Trap));
    assert_eq!(runtime.table_element(0, 4), None);
    assert_eq!(runtime.table_element(1, 1), Some(TableElement::Trap));
    assert_eq!(runtime.table_element(2, 0), None);
    runtime.declare_table_elements(0, 2, &[5]);
    assert_eq!(runtime.table_element(0, 2), Some(TableElement::Function(5)));
    runtime.declare_table_elements(9, 100, &[]);
    assert_eq!(runtime.table_size(2), None);
}

#[test]
fn a_global_shows_its_initializer() {
    let mut runtime = StandaloneRuntime::default(DEBUG);
    runtime.declare_global(Global {
        ty: Type::I64,
        mutability: true,
        initializer: GlobalInit::I64Const(-3),
    });
    assert!(runtime.can_begin_translation());
    runtime.begin_translation();
    assert!(runtime.is_instantiated());
    assert_eq!(runtime.inspect_global(0), (-3i64).to_le_bytes());
    runtime.declare_signature(&signature(&[], &[]));
    runtime.declare_func_type(0);
    runtime.next_function();
    assert!(runtime.is_instantiated());
    assert_eq!(runtime.inspect_global(0), (-3i64).to_le_bytes());
    let value = runtime.make_global(0);
    assert_eq!(value.offset, 8);
    assert_eq!(value.ty, Type::I64);
}

#[test]
fn several_globals_show_their_initializers() {
    let mut runtime = StandaloneRuntime::default(RELEASE);
    for (ty, initializer) in [
        (Type::I64, GlobalInit::I64Const(-2)),
        (Type::I32, GlobalInit::I32Const(1)),
        (Type::I32, GlobalInit::GlobalRef(1)),
    ] {
        runtime.declare_global(Global { ty, mutability: false, initializer });
    }
    assert_eq!(runtime.global_count(), 3);
    assert!(runtime.can_begin_translation());
    runtime.begin_translation();
    assert_eq!(runtime.inspect_global(0), [0xfe, 0xff, 0xff, 0xff, 0xff, 0xff, 0xff, 0xff]);
    assert_eq!(runtime.inspect_global(1), [1, 0, 0, 0]);
    assert_eq!(runtime.inspect_global(2), [1, 0, 0, 0]);
    assert_eq!(runtime.make_global(2).offset, 24);
    assert!(runtime.can_make_global(2));
    assert!(!runtime.can_make_global(3));
}

fn i32_global(initializer: GlobalInit) -> Global {
    Global { ty: Type::I32, mutability: false, initializer }
}

#[test]
fn on_a_big_endian_host_a_global_starts_with_its_highest_byte() {
    let mut runtime = StandaloneRuntime::default(BIG_ENDIAN);
    runtime.declare_global(i32_global(GlobalInit::I32Const(0x0102_0304)));
    runtime.declare_global(i32_global(GlobalInit::Import));
    runtime.begin_translation();
    assert_eq!(runtime.inspect_global(0), [1, 2, 3, 4]);
    assert_eq!(runtime.inspect_global(1), [0, 0, 0, 0]);
}

#[test]
fn a_release_build_declares_more_after_translation_began() {
    let mut runtime = StandaloneRuntime::default(RELEASE);
    runtime.declare_global(i32_global(GlobalInit::I32Const(5)));
    runtime.begin_translation();
    runtime.declare_global(i32_global(GlobalInit::GlobalRef(0)));
    runtime.declare_memory(Memory { pages_count: 1, maximum: None });
    runtime.declare_table(function_table(1));
    runtime.declare_table_elements(0, 0, &[3]);
    assert_eq!(runtime.memory_size(0), Some(PAGE_SIZE));
    assert_eq!(runtime.table_element(0, 0), Some(TableElement::Function(3)));
    assert_eq!(runtime.inspect_global(0), [5, 0, 0, 0]);
    assert!(runtime.can_begin_translation());
    runtime.begin_translation();
    assert_eq!(runtime.inspect_global(0), [5, 0, 0, 0]);
    assert_eq!(runtime.inspect_global(1), [5, 0, 0, 0]);
}

#[test]
fn a_release_build_takes_a_second_heap() {
    let mut runtime = StandaloneRuntime::default(RELEASE);
    runtime.heap_created(Heap(0));
    assert_eq!(runtime.make_heap(1).guard_size, 0x8000_0000);
    runtime.heap_created(Heap(1));
    assert_eq!(runtime.heap(), Some(Heap(1)));
}

#[test]
fn a_release_build_calls_through_any_table_and_on_any_memory() {
    let runtime = StandaloneRuntime::default(RELEASE);
    let call = runtime.translate_call_indirect(2, 0, SigRef(1), Value(3), &[Value(4)]);
    assert_eq!(call.callee, Value(3));
    assert_eq!(call.args, vec![Value(4)]);
    let grow = runtime.translate_grow_memory(1, Heap(6), Value(5));
    assert_eq!(grow.args, vec![Value(5)]);
    assert!(matches!(grow.callee, Callee::Import(_)));
    assert!(matches!(runtime.translate_current_memory(1, Heap(6)).callee, Callee::Import(_)));
}

#[test]
fn a_release_build_imports_after_a_function_was_declared() {
    let mut runtime = StandaloneRuntime::default(RELEASE);
    runtime.declare_signature(&signature(&[], &[]));
    runtime.declare_func_type(0);
    runtime.declare_func_import(0, b"env", b"print");
    assert_eq!(runtime.function_count(), 2);
    assert_eq!(runtime.import_count(), 1);
    assert_eq!(runtime.make_direct_func(0).name, b"env_print".to_vec());
    assert_eq!(runtime.make_direct_func(1).name, b"localfunc1".to_vec());
}

#[test]
fn a_global_that_copies_itself_cannot_be_initialized() {
    let mut runtime = StandaloneRuntime::default(DEBUG);
    runtime.declare_global(Global {
        ty: Type::I32,
        mutability: false,
        initializer: GlobalInit::GlobalRef(0),
    });
    assert!(!runtime.can_begin_translation());
}

#[test]
fn functions_are_known_by_import_or_by_number() {
    let mut runtime = StandaloneRuntime::default(DEBUG);
    runtime.declare_signature(&signature(&[Type::I32], &[Type::I32]));
    runtime.declare_signature(&signature(&[Type::F64, Type::I64], &[]));
    runtime.declare_func_import(1, b"env", b"call.test");
    runtime.declare_func_type(0);
    assert_eq!(runtime.import_count(), 1);
    assert_eq!(runtime.function_count(), 2);
    assert_eq!(runtime.function_type(0), Some(1));
    assert_eq!(runtime.function_type(1), Some(0));
    let imported = runtime.make_direct_func(0);
    assert_eq!(imported.name, b"env_call_test".to_vec());
    assert_eq!(imported.signature.argument_types.len(), 2);
    assert_eq!(imported.signature.argument_types[0].value_type, Type::F64);
    assert_eq!(imported.signature.argument_bytes, Some(16));
    assert_eq!(imported.signature.call_conv, CallConv::SpiderWASM);
    let local = runtime.make_direct_func(1);
    assert_eq!(local.name, b"localfunc1".to_vec());
    assert_eq!(local.signature.return_types, vec![ArgumentType::new(Type::I32)]);
    let indirect = runtime.make_indirect_sig(1);
    assert_eq!(indirect.argument_types[1].value_type, Type::I64);
    assert!(indirect.return_types.is_empty());
}

#[test]
fn imported_functions_are_found_again() {
    let mut runtime = StandaloneRuntime::default(DEBUG);
    runtime.direct_func_imported(FuncRef(3), 17);
    runtime.direct_func_imported(FuncRef(1), 4);
    assert_eq!(runtime.func_indices.get(FuncRef(3)), 17);
    assert_eq!(runtime.func_index(FuncRef(3)), 17);
    assert_eq!(runtime.func_index(FuncRef(2)), 0);
    assert_eq!(runtime.func_indices.get(FuncRef(1)), 4);
    assert_eq!(runtime.func_indices.get(FuncRef(0)), 0);
    assert_eq!(runtime.func_indices.get(FuncRef(1000)), 0);
    runtime.next_function();
    assert_eq!(runtime.func_indices.get(FuncRef(3)), 0);
}

#[test]
fn the_heap_has_a_static_bound() {
    let mut runtime = instantiated();
    let heap = runtime.make_heap(0);
    assert_eq!(heap.base, HeapBase::ReservedReg);
    assert_eq!(heap.min_size, 0);
    assert_eq!(heap.guard_size, 0x8000_0000);
    assert_eq!(heap.style, HeapStyle::Static { bound: 0x1_0000_0000 });
    runtime.heap_created(Heap(2));
    assert_eq!(runtime.heap(), Some(Heap(2)));
    runtime.next_function();
    assert_eq!(runtime.heap(), Some(Heap(2)));
}

#[test]
fn growing_the_memory_imports_its_helper_once_per_body() {
    let mut runtime = instantiated();
    runtime.heap_created(Heap(0));
    let call = runtime.translate_grow_memory(0, Heap(0), Value(5));
    assert_eq!(call.args, vec![Value(5)]);
    match call.callee {
        Callee::Import(helper) => {
            assert_eq!(helper.name, b"grow_memory".to_vec());
            assert_eq!(helper.signature.call_conv, CallConv::Native);
            assert_eq!(helper.signature.argument_bytes, None);
            let i32_argument = ArgumentType {
                value_type: Type::I32,
                purpose: ArgumentPurpose::Normal,
                extension: ArgumentExtension::Unextended,
            };
            assert_eq!(helper.signature.argument_types, vec![i32_argument]);
            assert_eq!(helper.signature.return_types, vec![i32_argument]);
        }
        Callee::Imported(_) => panic!("nothing was imported yet"),
    }
    runtime.grow_memory_imported(FuncRef(8));
    let again = runtime.translate_grow_memory(0, Heap(0), Value(6));
    assert!(matches!(again.callee, Callee::Imported(FuncRef(8))));
    assert_eq!(again.args, vec![Value(6)]);
    let other = runtime.translate_current_memory(0, Heap(0));
    assert!(matches!(other.callee, Callee::Import(_)));
    runtime.next_function();
    let anew = runtime.translate_grow_memory(0, Heap(0), Value(7));
    assert!(matches!(anew.callee, Callee::Import(_)));
}

#[test]
fn the_memory_size_helper_takes_no_argument() {
    let mut runtime = instantiated();
    runtime.heap_created(Heap(0));
    let call = runtime.translate_current_memory(0, Heap(0));
    assert!(call.args.is_empty());
    match call.callee {
        Callee::Import(helper) => {
            assert_eq!(helper.name, b"current_memory".to_vec());
            assert!(helper.signature.argument_types.is_empty());
            assert_eq!(helper.signature.return_types, vec![ArgumentType::new(Type::I32)]);
        }
        Callee::Imported(_) => panic!("nothing was imported yet"),
    }
    runtime.current_memory_imported(FuncRef(2));
    let again = runtime.translate_current_memory(0, Heap(0));
    assert!(matches!(again.callee, Callee::Imported(FuncRef(2))));
}

#[test]
fn indirect_calls_pass_everything_on() {
    let runtime = StandaloneRuntime::default(DEBUG);
    let call = runtime.translate_call_indirect(0, 3, SigRef(4), Value(9), &[Value(1), Value(2)]);
    assert_eq!(call.sig_ref, SigRef(4));
    assert_eq!(call.callee, Value(9));
    assert_eq!(call.args, vec![Value(1), Value(2)]);
}
