use sip::execute::{
    check_protection, check_relocations, check_start, compile_module, execute, make_vmctx, relocate,
    Compilation, FunctionBody, Relocation,
};
use sip::module::Module;
use sip::target::{ByteOrder, Target};

const DEBUG: Target = Target { byte_order: ByteOrder::Little, debug_assertions: true };

fn two_functions() -> Compilation {
    Compilation {
        functions: vec![
            FunctionBody { address: 0x1000, code: vec![0x90; 16] },
            FunctionBody { address: 0x2000, code: vec![0xcc; 12] },
        ],
    }
}

fn module(imports: usize, start: Option<usize>) -> Module {
    let mut module = Module::new();
    for i in 0..imports {
        module.import("env".to_string(), format!("f{}", i));
    }
    module.start_func = start;
    module
}

#[test]
fn relocations_point_to_imports_and_to_defined_functions() {
    let mut compilation = two_functions();
    let relocations = vec![
        vec![
            Relocation { func_index: 0, offset: 0, addend: 0 },
            Relocation { func_index: 2, offset: 6, addend: -4 },
        ],
        vec![Relocation { func_index: 1, offset: 4, addend: 3 }],
    ];
    assert!(check_relocations(&compilation, &relocations, &[0x5000]));
    relocate(&mut compilation, &relocations, &[0x5000], ByteOrder::Little);
    let mut first = vec![0x90; 16];
    first[4..8].copy_from_slice(&(0x5000i32 - 0x1004).to_le_bytes());
    first[10..14].copy_from_slice(&(0x2000i32 - 0x100a - 4).to_le_bytes());
    assert_eq!(compilation.functions[0].code, first);
    let mut second = vec![0xcc; 12];
    second[8..12].copy_from_slice(&(0x1000i32 - 0x2008 + 3).to_le_bytes());
    assert_eq!(compilation.functions[1].code, second);
    assert_eq!(compilation.functions[0].address, 0x1000);

    let once = vec![first, second];
    relocate(&mut compilation, &relocations, &[0x5000], ByteOrder::Little);
    for (body, code) in compilation.functions.iter().zip(once) {
        assert_eq!(body.code, code);
    }
}

#[test]
fn of_overlapping_relocations_the_later_counts() {
    let mut compilation = two_functions();
    let relocations = vec![vec![
        Relocation { func_index: 0, offset: 0, addend: 0 },
        Relocation { func_index: 1, offset: 2, addend: 0 },
    ]];
    relocate(&mut compilation, &relocations, &[], ByteOrder::Little);
    let early = (-4i32).to_le_bytes();
    let late = (0x2000i32 - 0x1006).to_le_bytes();
    assert_eq!(compilation.functions[0].code[4..6], early[0..2]);
    assert_eq!(compilation.functions[0].code[6..10], late);
    assert_eq!(compilation.functions[1].code, vec![0xcc; 12]);
}

#[test]
fn distances_are_cut_to_a_word() {
    let mut compilation = two_functions();
    let relocations = vec![vec![Relocation { func_index: 0, offset: 4, addend: 0 }]];
    relocate(&mut compilation, &relocations, &[0x7fff_1234_5678_9abc], ByteOrder::Little);
    let distance = (0x7fff_1234_5678_9abci64 - 0x1008) as i32;
    assert_eq!(compilation.functions[0].code[8..12], distance.to_le_bytes());
}

#[test]
fn on_a_big_endian_host_distances_start_with_the_highest_byte() {
    let mut compilation = two_functions();
    let relocations = vec![vec![Relocation { func_index: 1, offset: 0, addend: 0 }]];
    relocate(&mut compilation, &relocations, &[], ByteOrder::Big);
    assert_eq!(compilation.functions[0].code[4..8], (0x2000i32 - 0x1004).to_be_bytes());
    assert_eq!(compilation.functions[0].code[8..16], [0x90; 8]);
}

#[test]
fn a_release_build_links_a_module_whose_start_function_is_imported() {
    let target = Target { byte_order: ByteOrder::Big, debug_assertions: false };
    let relocations = vec![vec![Relocation { func_index: 0, offset: 0, addend: 0 }]];
    let compiled = Ok((two_functions(), relocations));
    let result = compile_module(&module(1, Some(0)), compiled, &[0x5000], target);
    let code = &result.unwrap().functions[0].code;
    assert_eq!(code[4..8], (0x5000i32 - 0x1004).to_be_bytes());
}

#[test]
fn relocations_that_do_not_fit_are_found() {
    let compilation = two_functions();
    let outside_code = vec![vec![Relocation { func_index: 0, offset: 9, addend: 0 }]];
    assert!(!check_relocations(&compilation, &outside_code, &[]));
    let no_function = vec![vec![Relocation { func_index: 3, offset: 0, addend: 0 }]];
    assert!(!check_relocations(&compilation, &no_function, &[1]));
    assert!(check_relocations(&compilation, &no_function, &[1, 2]));
    let too_many = vec![vec![], vec![], vec![Relocation { func_index: 0, offset: 0, addend: 0 }]];
    assert!(!check_relocations(&compilation, &too_many, &[]));
    assert!(check_relocations(&compilation, &vec![vec![], vec![], vec![]], &[]));
}

#[test]
fn a_compiled_module_is_linked() {
    let relocations = vec![vec![Relocation { func_index: 1, offset: 0, addend: 0 }]];
    let compiled = Ok((two_functions(), relocations));
    let result = compile_module(&module(1, Some(1)), compiled, &[0x5000], DEBUG);
    let compilation = result.unwrap();
    assert_eq!(compilation.functions[0].code[4..8], (-4i32).to_le_bytes());
    assert_eq!(compilation.functions[0].code[8..16], [0x90; 8]);
}

#[test]
fn a_failed_compilation_is_passed_on() {
    let compiled = Err("unsupported instruction".to_string());
    let result = compile_module(&module(0, None), compiled, &[], DEBUG);
    assert_eq!(result.unwrap_err(), "unsupported instruction");
}

#[test]
fn the_start_function_is_found() {
    let compilation = two_functions();
    assert_eq!(execute(&module(0, Some(1)), &compilation), Ok(1));
    assert_eq!(execute(&module(3, Some(3)), &compilation), Ok(0));
    assert_eq!(execute(&module(3, Some(4)), &compilation), Ok(1));
    assert_eq!(
        execute(&module(3, None), &compilation),
        Err("No start function defined, aborting execution".to_string())
    );
}

#[test]
fn a_start_function_without_code_is_found() {
    assert!(check_start(&module(3, None), &two_functions()));
    assert!(check_start(&module(3, Some(4)), &two_functions()));
    assert!(!check_start(&module(3, Some(2)), &two_functions()));
    assert!(!check_start(&module(3, Some(5)), &two_functions()));
}

#[test]
fn refused_protection_ends_the_run() {
    assert_eq!(check_protection(Ok(())), Ok(()));
    assert_eq!(
        check_protection(Err("access denied".to_string())),
        Err("failed to give executable permission to code: access denied".to_string())
    );
}

#[test]
fn the_context_names_globals_and_memories() {
    assert_eq!(make_vmctx(0x10, 0x20), vec![0x10, 0x20]);
}
