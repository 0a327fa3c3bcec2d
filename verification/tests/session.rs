use sip::execute::{Compilation, FunctionBody, Relocation};
use sip::module::{Export, Module};
use sip::session::{check_entry, code_flags, compile_and_execute, execute, Action, Event, Session};
use sip::standalone::FlagSetting;
use sip::target::{ByteOrder, Target};

const DEBUG: Target = Target { byte_order: ByteOrder::Little, debug_assertions: true };
const RELEASE: Target = Target { byte_order: ByteOrder::Big, debug_assertions: false };

fn module() -> Module {
    let mut module = Module::new();
    module.import("env".to_string(), "call_test".to_string());
    module.import("env".to_string(), "print".to_string());
    module.export("test".to_string(), Export::Function(3));
    module.export("table".to_string(), Export::Table(0));
    module.export("memory".to_string(), Export::Memory(0));
    module.export("global".to_string(), Export::Global(0));
    module
}

fn compilation() -> Compilation {
    Compilation {
        functions: vec![
            FunctionBody { address: 0x1000, code: vec![0; 8] },
            FunctionBody { address: 0x2000, code: vec![0; 8] },
        ],
    }
}

fn step(session: &mut Session, event: Event) -> Action {
    assert!(session.accepts(&event));
    compile_and_execute(session, event)
}

fn failure(action: Action) -> String {
    match action {
        Action::Finish(Err(message)) => message,
        other => panic!("expected a failure, got {:?}", other),
    }
}

#[test]
fn a_run_goes_from_translation_to_return() {
    let mut session = Session::new("test", DEBUG);
    let action = step(&mut session, Event::Translated(Ok(module())));
    assert!(matches!(action, Action::Resolve(name) if name == "call_test"));
    let action = step(&mut session, Event::Resolved(Ok(0x5000)));
    assert!(matches!(action, Action::Resolve(name) if name == "print"));
    let action = step(&mut session, Event::Resolved(Ok(0x6000)));
    assert!(matches!(action, Action::Compile));
    let relocations = vec![
        vec![Relocation { func_index: 1, offset: 0, addend: 0 }],
        vec![Relocation { func_index: 2, offset: 0, addend: 0 }],
    ];
    let action = step(&mut session, Event::Compiled(Ok((compilation(), relocations))));
    assert!(matches!(action, Action::Protect(1)));
    let functions = &session.compilation().functions;
    assert_eq!(functions[0].code[4..8], (0x6000i32 - 0x1004).to_le_bytes());
    assert_eq!(functions[1].code[4..8], (0x1000i32 - 0x2004).to_le_bytes());
    let action = step(&mut session, Event::Protected(Ok(())));
    assert!(matches!(action, Action::Run(1)));
    let action = step(&mut session, Event::Returned);
    assert!(matches!(action, Action::Finish(Ok(()))));
    assert!(!session.accepts(&Event::Returned));
    assert!(!session.accepts(&Event::Translated(Ok(module()))));
}

#[test]
fn a_module_without_imports_is_compiled_at_once() {
    let mut session = Session::new("test", DEBUG);
    let action = step(&mut session, Event::Translated(Ok(Module::new())));
    assert!(matches!(action, Action::Compile));
    assert!(!session.accepts(&Event::Resolved(Ok(1))));
}

#[test]
fn a_failed_translation_ends_the_run() {
    let mut session = Session::new("test", DEBUG);
    let action = step(&mut session, Event::Translated(Err("invalid module".to_string())));
    assert_eq!(failure(action), "invalid module");
}

#[test]
fn a_missing_import_ends_the_run() {
    let mut session = Session::new("test", DEBUG);
    step(&mut session, Event::Translated(Ok(module())));
    step(&mut session, Event::Resolved(Ok(0x5000)));
    let action = step(&mut session, Event::Resolved(Err("undefined symbol".to_string())));
    assert_eq!(
        failure(action),
        "Failed to link imported function print because of error: undefined symbol"
    );
}

fn linked(fn_name: &str) -> Session {
    let mut session = Session::new(fn_name, DEBUG);
    step(&mut session, Event::Translated(Ok(module())));
    step(&mut session, Event::Resolved(Ok(0x5000)));
    step(&mut session, Event::Resolved(Ok(0x6000)));
    session
}

#[test]
fn a_failed_compilation_ends_the_run() {
    let mut session = linked("test");
    let action = step(&mut session, Event::Compiled(Err("verifier errors".to_string())));
    assert_eq!(failure(action), "verifier errors");
}

#[test]
fn a_name_that_is_no_function_ends_the_run() {
    let cases = [
        ("none", "Wasm did not define function: none"),
        ("table", "Strangely, your function name: table was actually a table."),
        ("memory", "Strangely, your function name: memory was actually a memory."),
        ("global", "Strangely, your function name: global was actually a global."),
    ];
    for (name, message) in cases {
        let mut session = linked(name);
        let action = step(&mut session, Event::Compiled(Ok((compilation(), vec![]))));
        assert_eq!(failure(action), message);
        assert_eq!(execute(&module(), &compilation(), name), Err(message.to_string()));
    }
}

#[test]
fn refused_protection_ends_the_session() {
    let mut session = linked("test");
    step(&mut session, Event::Compiled(Ok((compilation(), vec![]))));
    let action = step(&mut session, Event::Protected(Err("denied".to_string())));
    assert_eq!(failure(action), "failed to give executable permission to code: denied");
}

fn start_function(start: Option<usize>) -> (Session, Action) {
    let mut module = module();
    module.start_func = start;
    Session::of_start_function(module, compilation(), DEBUG)
}

#[test]
fn the_start_function_is_protected_and_run() {
    let (mut session, action) = start_function(Some(3));
    assert!(matches!(action, Action::Protect(1)));
    assert_eq!(session.compilation().functions[1].address, 0x2000);
    assert!(!session.accepts(&Event::Returned));
    assert!(matches!(step(&mut session, Event::Protected(Ok(()))), Action::Run(1)));
    assert!(matches!(step(&mut session, Event::Returned), Action::Finish(Ok(()))));
    assert!(!session.accepts(&Event::Returned));
}

#[test]
fn a_module_without_start_function_runs_nothing() {
    let (session, action) = start_function(None);
    assert_eq!(failure(action), "No start function defined, aborting execution");
    assert!(!session.accepts(&Event::Protected(Ok(()))));
    assert!(!session.accepts(&Event::Returned));
}

#[test]
fn a_start_function_that_cannot_be_protected_is_not_run() {
    let (mut session, action) = start_function(Some(2));
    assert!(matches!(action, Action::Protect(0)));
    let action = step(&mut session, Event::Protected(Err("denied".to_string())));
    assert_eq!(failure(action), "failed to give executable permission to code: denied");
    assert!(!session.accepts(&Event::Returned));
}

#[test]
fn code_that_does_not_fit_is_not_accepted() {
    let session = linked("test");
    let no_function = vec![vec![Relocation { func_index: 4, offset: 0, addend: 0 }]];
    assert!(!session.accepts(&Event::Compiled(Ok((compilation(), no_function)))));
    let one = Compilation { functions: vec![FunctionBody { address: 0, code: vec![] }] };
    assert!(!session.accepts(&Event::Compiled(Ok((one, vec![])))));
    assert!(session.accepts(&Event::Compiled(Ok((compilation(), vec![])))));
    assert!(!session.accepts(&Event::Protected(Ok(()))));
}

#[test]
fn a_debug_build_does_not_accept_an_imported_start_function() {
    let mut module = module();
    module.start_func = Some(1);
    let mut session = Session::new("test", DEBUG);
    step(&mut session, Event::Translated(Ok(module)));
    step(&mut session, Event::Resolved(Ok(0x5000)));
    step(&mut session, Event::Resolved(Ok(0x6000)));
    assert!(!session.accepts(&Event::Compiled(Ok((compilation(), vec![])))));
    assert!(!session.accepts(&Event::Compiled(Err("cause".to_string()))));
}

#[test]
fn a_release_build_runs_a_named_function_whatever_the_start_function() {
    let mut module = module();
    module.start_func = Some(1);
    let mut session = Session::new("test", RELEASE);
    step(&mut session, Event::Translated(Ok(module)));
    step(&mut session, Event::Resolved(Ok(0x5000)));
    step(&mut session, Event::Resolved(Ok(0x6000)));
    let relocations = vec![vec![Relocation { func_index: 0, offset: 0, addend: 0 }]];
    let action = step(&mut session, Event::Compiled(Ok((compilation(), relocations))));
    assert!(matches!(action, Action::Protect(1)));
    let functions = &session.compilation().functions;
    assert_eq!(functions[0].code[4..8], (0x5000i32 - 0x1004).to_be_bytes());
}

#[test]
fn exports_are_found_by_name() {
    let mut module = module();
    assert_eq!(module.find_export("test"), Some(Export::Function(3)));
    assert_eq!(module.find_export("memory"), Some(Export::Memory(0)));
    assert_eq!(module.find_export("tes"), None);
    module.export("test".to_string(), Export::Function(2));
    assert_eq!(module.find_export("test"), Some(Export::Function(2)));
    assert_eq!(execute(&module, &compilation(), "test"), Ok(0));
}

#[test]
fn an_exported_import_has_no_code() {
    let mut module = module();
    module.export("call_test".to_string(), Export::Function(0));
    assert!(!check_entry(&module, &compilation(), "call_test"));
    assert!(check_entry(&module, &compilation(), "test"));
    assert!(check_entry(&module, &compilation(), "none"));
}

#[test]
fn code_is_optimized_and_verified_in_debug_builds() {
    let debug = code_flags(true).settings;
    assert_eq!(debug.len(), 2);
    assert!(matches!(&debug[0], FlagSetting::Enable(name) if name == "enable_verifier"));
    let release = code_flags(false).settings;
    assert_eq!(release.len(), 1);
    for settings in [&debug, &release] {
        assert!(matches!(
            settings.last(),
            Some(FlagSetting::Assign(name, value)) if name == "opt_level" && value == "best"
        ));
    }
}
