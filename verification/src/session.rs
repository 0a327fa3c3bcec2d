//! One run of a module, from its translation to the call of one of its functions.
use vstd::prelude::*;

use vstd::string::StringExecFns;

use crate::entities::FunctionIndex;
use crate::execute::{
    check_protection, check_relocations, compile_module, relocated, relocations_fit,
    relocations_view, target_address, BodyView, Compilation, Relocation,
};
use crate::module::{Export, Module, ModuleView};
use crate::standalone::{FlagSetting, Flags};
use crate::target::Target;

verus! {

/// The settings that code is generated with: the best optimization, and the verifier of the code
/// generator where assertions are on.
pub fn code_flags(debug_assertions: bool) -> (flags: Flags)
    ensures
        flags.settings@.len() == if debug_assertions {
            2nat
        } else {
            1nat
        },
        debug_assertions ==> (flags.settings@[0] matches FlagSetting::Enable(name) && name@
            == "enable_verifier"@),
        flags.settings@.last() matches FlagSetting::Assign(name, value) && name@ == "opt_level"@
            && value@ == "best"@,
{
    let mut settings: Vec<FlagSetting> = Vec::new();
    if debug_assertions {
        settings.push(FlagSetting::Enable("enable_verifier".to_owned()));
    }
    settings.push(FlagSetting::Assign("opt_level".to_owned(), "best".to_owned()));
    Flags { settings }
}

/// The place of the code to run for the function that the module exports under `name`, or why there
/// is none.
pub open spec fn entry(module: ModuleView, name: Seq<char>) -> Result<int, Seq<char>> {
    if !module.exports.dom().contains(name) {
        Err("Wasm did not define function: "@ + name)
    } else {
        match module.exports[name] {
            Export::Function(index) => Ok(module.place(index)),
            Export::Table(_) => Err(
                "Strangely, your function name: "@ + name + " was actually a table."@,
            ),
            Export::Memory(_) => Err(
                "Strangely, your function name: "@ + name + " was actually a memory."@,
            ),
            Export::Global(_) => Err(
                "Strangely, your function name: "@ + name + " was actually a global."@,
            ),
        }
    }
}

/// Whether the module, where it exports a function under `name`, defines that function itself.
pub open spec fn entry_is_defined(module: ModuleView, defined: nat, name: Seq<char>) -> bool {
    module.exports.dom().contains(name) ==> (module.exports[name] matches Export::Function(index)
        ==> module.defines(defined, index))
}

/// Says that something other than a function is exported under a name.
fn not_a_function(name: &str, kind: &str) -> (message: String)
    ensures
        message@ == "Strangely, your function name: "@ + name@ + kind@,
{
    "Strangely, your function name: ".to_owned().concat(name).concat(kind)
}

/// Finds the place of the code of the function that the module exports under `fn_name`.
pub fn execute(module: &Module, compilation: &Compilation, fn_name: &str) -> (result: Result<
    usize,
    String,
>)
    requires
        entry_is_defined(module@, compilation@.len(), fn_name@),
    ensures
        match entry(module@, fn_name@) {
            Ok(place) => result == Ok::<usize, String>(place as usize) && 0 <= place
                < compilation@.len(),
            Err(message) => result is Err && result->Err_0@ == message,
        },
        result is Ok <==> module@.exports.dom().contains(fn_name@) && module@.exports[fn_name@]
            is Function,
        result matches Ok(place) ==> {
            &&& module@.exports[fn_name@] == Export::Function(
                (place + module.imported_funcs@.len()) as usize,
            )
            &&& place + module.imported_funcs@.len() <= usize::MAX
            &&& place < compilation.functions@.len()
        },
{
    match module.find_export(fn_name) {
        None => Err("Wasm did not define function: ".to_owned().concat(fn_name)),
        Some(Export::Function(index)) => Ok(index - module.imported_funcs.len()),
        Some(Export::Table(_)) => Err(not_a_function(fn_name, " was actually a table.")),
        Some(Export::Memory(_)) => Err(not_a_function(fn_name, " was actually a memory.")),
        Some(Export::Global(_)) => Err(not_a_function(fn_name, " was actually a global.")),
    }
}

/// What a run waits for.
#[derive(Clone, Copy, Debug, PartialEq, Eq, Structural)]
pub enum Phase {
    /// The module is being translated.
    Translating,
    /// The address of an imported function is being looked up.
    Linking,
    /// The functions are being compiled.
    Compiling,
    /// The code at a place of the compilation is being made executable.
    Protecting(usize),
    /// The code at a place of the compilation is running.
    Running(usize),
    /// The run is over.
    Finished,
}

/// What has happened outside.
#[derive(Debug)]
pub enum Event {
    /// The module was translated, or could not be.
    Translated(Result<Module, String>),
    /// The address of an imported function was found, or not.
    Resolved(Result<u64, String>),
    /// The functions were compiled, or could not be.
    Compiled(Result<(Compilation, Vec<Vec<Relocation>>), String>),
    /// The code was made executable, or could not be.
    Protected(Result<(), String>),
    /// The code has returned.
    Returned,
}

/// What is to be done outside.
#[derive(Debug)]
pub enum Action {
    /// Look up the address of the imported function with this name.
    Resolve(String),
    /// Compile the functions of the module.
    Compile,
    /// Make the code at this place of the compilation executable.
    Protect(usize),
    /// Run the code at this place of the compilation.
    Run(usize),
    /// Report how the run ended.
    Finish(Result<(), String>),
}

/// An event as a mathematical value.
pub enum EventView {
    Translated(Result<ModuleView, Seq<char>>),
    Resolved(Result<u64, Seq<char>>),
    Compiled(Result<(Seq<BodyView>, Seq<Seq<Relocation>>), Seq<char>>),
    Protected(Result<(), Seq<char>>),
    Returned,
}

/// An action as a mathematical value.
#[verifier::ext_equal]
pub enum ActionView {
    Resolve(Seq<char>),
    Compile,
    Protect(usize),
    Run(usize),
    Finish(Result<(), Seq<char>>),
}

impl View for Event {
    type V = EventView;

    open spec fn view(&self) -> EventView {
        match self {
            Event::Translated(Ok(module)) => EventView::Translated(Ok(module@)),
            Event::Translated(Err(message)) => EventView::Translated(Err(message@)),
            Event::Resolved(Ok(address)) => EventView::Resolved(Ok(*address)),
            Event::Resolved(Err(message)) => EventView::Resolved(Err(message@)),
            Event::Compiled(Ok((compilation, relocations))) => EventView::Compiled(
                Ok((compilation@, relocations_view(relocations@))),
            ),
            Event::Compiled(Err(message)) => EventView::Compiled(Err(message@)),
            Event::Protected(Ok(_)) => EventView::Protected(Ok(())),
            Event::Protected(Err(message)) => EventView::Protected(Err(message@)),
            Event::Returned => EventView::Returned,
        }
    }
}

impl View for Action {
    type V = ActionView;

    open spec fn view(&self) -> ActionView {
        match self {
            Action::Resolve(name) => ActionView::Resolve(name@),
            Action::Compile => ActionView::Compile,
            Action::Protect(place) => ActionView::Protect(*place),
            Action::Run(place) => ActionView::Run(*place),
            Action::Finish(Ok(_)) => ActionView::Finish(Ok(())),
            Action::Finish(Err(message)) => ActionView::Finish(Err(message@)),
        }
    }
}

/// A run as a mathematical value.
#[verifier::ext_equal]
pub struct SessionView {
    /// What the program was built for.
    pub target: Target,
    /// The name of the function to call.
    pub fn_name: Seq<char>,
    /// What the run waits for.
    pub phase: Phase,
    /// The module, once it is translated.
    pub module: ModuleView,
    /// The addresses of the imported functions that were found so far.
    pub addresses: Seq<u64>,
    /// The functions, once they are compiled and linked.
    pub functions: Seq<BodyView>,
}

impl SessionView {
    /// A run that has not begun.
    pub open spec fn at_start(fn_name: Seq<char>, target: Target) -> SessionView {
        SessionView {
            target,
            fn_name,
            phase: Phase::Translating,
            module: ModuleView {
                start_func: None,
                imported_funcs: Seq::empty(),
                exports: Map::empty(),
            },
            addresses: Seq::empty(),
            functions: Seq::empty(),
        }
    }

    /// A run of the start function of a module that is compiled and linked already, and what is to
    /// be done first: make the code executable, or report that there is no start function.
    pub open spec fn of_start_function(
        module: ModuleView,
        functions: Seq<BodyView>,
        target: Target,
    ) -> (SessionView, ActionView) {
        let compiled = SessionView {
            target,
            fn_name: Seq::empty(),
            phase: Phase::Compiling,
            module,
            addresses: Seq::empty(),
            functions,
        };
        match module.start_func {
            Some(start) => {
                let place = module.place(start) as usize;
                (
                    SessionView { phase: Phase::Protecting(place), ..compiled },
                    ActionView::Protect(place),
                )
            },
            None => compiled.finished(Err("No start function defined, aborting execution"@)),
        }
    }

    /// What every step keeps: addresses are found in the order of the imports, one for each, and
    /// the code that is protected or run exists.
    pub open spec fn wf(self) -> bool {
        match self.phase {
            Phase::Translating => self.addresses.len() == 0,
            Phase::Linking => self.addresses.len() < self.module.imported_funcs.len(),
            Phase::Compiling => self.addresses.len() == self.module.imported_funcs.len(),
            Phase::Protecting(place) => place < self.functions.len(),
            Phase::Running(place) => place < self.functions.len(),
            Phase::Finished => true,
        }
    }

    /// Whether an event is one that the run waits for and can go on from.
    pub open spec fn accepts(self, event: EventView) -> bool {
        match event {
            EventView::Translated(_) => self.phase is Translating,
            EventView::Resolved(_) => self.phase is Linking,
            EventView::Compiled(compiled) => {
                &&& self.phase is Compiling
                &&& self.target.debug_assertions ==> self.module.start_is_not_imported()
                &&& compiled matches Ok((functions, relocations)) ==> {
                    &&& relocations_fit(functions, relocations, self.addresses)
                    &&& entry_is_defined(self.module, functions.len(), self.fn_name)
                }
            },
            EventView::Protected(_) => self.phase is Protecting,
            EventView::Returned => self.phase is Running,
        }
    }

    /// The run is over with the given result.
    pub open spec fn finished(self, result: Result<(), Seq<char>>) -> (SessionView, ActionView) {
        (SessionView { phase: Phase::Finished, ..self }, ActionView::Finish(result))
    }

    /// The run goes on with the next import, or with the compilation if there is none left.
    pub open spec fn linked(self) -> (SessionView, ActionView) {
        if self.addresses.len() < self.module.imported_funcs.len() {
            (
                SessionView { phase: Phase::Linking, ..self },
                ActionView::Resolve(
                    self.module.imported_funcs[self.addresses.len() as int].1,
                ),
            )
        } else {
            (SessionView { phase: Phase::Compiling, ..self }, ActionView::Compile)
        }
    }

    /// What an event does to the run, and what is to be done then.
    pub open spec fn next(self, event: EventView) -> (SessionView, ActionView) {
        match event {
            EventView::Translated(Ok(module)) => SessionView { module, ..self }.linked(),
            EventView::Translated(Err(message)) => self.finished(Err(message)),
            EventView::Resolved(Ok(address)) => SessionView {
                addresses: self.addresses.push(address),
                ..self
            }.linked(),
            EventView::Resolved(Err(message)) => self.finished(
                Err(
                    "Failed to link imported function "@
                        + self.module.imported_funcs[self.addresses.len() as int].1
                        + " because of error: "@ + message,
                ),
            ),
            EventView::Compiled(Ok((functions, relocations))) => {
                let linked = SessionView {
                    functions: relocated(
                        self.target.byte_order,
                        functions,
                        relocations,
                        self.addresses,
                    ),
                    ..self
                };
                match entry(self.module, self.fn_name) {
                    Ok(place) => (
                        SessionView { phase: Phase::Protecting(place as usize), ..linked },
                        ActionView::Protect(place as usize),
                    ),
                    Err(message) => linked.finished(Err(message)),
                }
            },
            EventView::Compiled(Err(message)) => self.finished(Err(message)),
            EventView::Protected(Ok(_)) => {
                let place = self.phase->Protecting_0;
                (SessionView { phase: Phase::Running(place), ..self }, ActionView::Run(place))
            },
            EventView::Protected(Err(message)) => self.finished(
                Err("failed to give executable permission to code: "@ + message),
            ),
            EventView::Returned => self.finished(Ok(())),
        }
    }

    /// How many more events a run can take at most, once its module is translated.
    pub open spec fn remaining(self) -> nat
        recommends
            !(self.phase is Translating),
    {
        match self.phase {
            Phase::Translating => 0,
            Phase::Linking => (self.module.imported_funcs.len() - self.addresses.len() + 3) as nat,
            Phase::Compiling => 3,
            Phase::Protecting(_) => 2,
            Phase::Running(_) => 1,
            Phase::Finished => 0,
        }
    }
}

/// One run of a module.
#[derive(Debug)]
pub struct Session {
    target: Target,
    fn_name: String,
    phase: Phase,
    module: Module,
    addresses: Vec<u64>,
    compilation: Compilation,
}

impl View for Session {
    type V = SessionView;

    closed spec fn view(&self) -> SessionView {
        SessionView {
            target: self.target,
            fn_name: self.fn_name@,
            phase: self.phase,
            module: self.module@,
            addresses: self.addresses@,
            functions: self.compilation@,
        }
    }
}

impl Session {
    /// A run that will call the function that the module exports under `fn_name`; it begins with
    /// the translation of the module.
    pub fn new(fn_name: &str, target: Target) -> (session: Session)
        ensures
            session@.wf(),
            session@ == SessionView::at_start(fn_name@, target),
    {
        let session = Session {
            target,
            fn_name: fn_name.to_owned(),
            phase: Phase::Translating,
            module: Module::new(),
            addresses: Vec::new(),
            compilation: Compilation { functions: Vec::new() },
        };
        assert(session@ =~= SessionView::at_start(fn_name@, target));
        session
    }

    /// A run of the start function of a module that is compiled and linked already, and what is to
    /// be done first. It goes on as any other run does, with the outcome of that.
    pub fn of_start_function(
        module: Module,
        compilation: Compilation,
        target: Target,
    ) -> (started: (Session, Action))
        requires
            module@.start_func matches Some(start) ==> module@.defines(compilation@.len(), start),
        ensures
            started.0@.wf(),
            (started.0@, started.1@) == SessionView::of_start_function(
                module@,
                compilation@,
                target,
            ),
    {
        let found = crate::execute::execute(&module, &compilation);
        let mut session = Session {
            target,
            fn_name: String::new(),
            phase: Phase::Compiling,
            module,
            addresses: Vec::new(),
            compilation,
        };
        let action = match found {
            Ok(place) => {
                session.phase = Phase::Protecting(place);
                Action::Protect(place)
            },
            Err(message) => session.finish(Err(message)),
        };
        assert((session@, action@) =~= SessionView::of_start_function(
                module@,
                compilation@,
                target,
            ));
        (session, action)
    }

    /// The functions that were compiled and linked.
    pub fn compilation(&self) -> (compilation: &Compilation)
        ensures
            compilation@ == self@.functions,
    {
        &self.compilation
    }

    /// Tells whether the run waits for an event and can go on from it.
    pub fn accepts(&self, event: &Event) -> (yes: bool)
        ensures
            yes == self@.accepts(event@),
    {
        match event {
            Event::Translated(_) => matches!(self.phase, Phase::Translating),
            Event::Resolved(_) => matches!(self.phase, Phase::Linking),
            Event::Compiled(compiled) => {
                let start_is_not_imported: bool = match self.module.start_func {
                    Some(start) => self.module.imported_funcs.len() <= start,
                    None => true,
                };
                let code_fits: bool = match compiled {
                    Ok((compilation, relocations)) => check_relocations(
                        compilation,
                        relocations,
                        self.addresses.as_slice(),
                    ) && check_entry(&self.module, compilation, self.fn_name.as_str()),
                    Err(_) => true,
                };
                matches!(self.phase, Phase::Compiling) && (!self.target.debug_assertions
                    || start_is_not_imported) && code_fits
            },
            Event::Protected(_) => matches!(self.phase, Phase::Protecting(_)),
            Event::Returned => matches!(self.phase, Phase::Running(_)),
        }
    }

    /// Ends the run.
    fn finish(&mut self, result: Result<(), String>) -> (action: Action)
        ensures
            (final(self)@, action@) == old(self)@.finished(
                match result {
                    Ok(_) => Ok(()),
                    Err(message) => Err(message@),
                },
            ),
    {
        self.phase = Phase::Finished;
        Action::Finish(result)
    }

    /// Goes on with the next import, or with the compilation if there is none left.
    fn link_next(&mut self) -> (action: Action)
        ensures
            (final(self)@, action@) == old(self)@.linked(),
    {
        let found: usize = self.addresses.len();
        if found < self.module.imported_funcs.len() {
            self.phase = Phase::Linking;
            Action::Resolve(self.module.imported_funcs[found].1.clone())
        } else {
            self.phase = Phase::Compiling;
            Action::Compile
        }
    }
}

/// Tells whether the module, where it exports a function under `fn_name`, defines that function
/// itself.
pub fn check_entry(module: &Module, compilation: &Compilation, fn_name: &str) -> (yes: bool)
    ensures
        yes == entry_is_defined(module@, compilation@.len(), fn_name@),
        yes == (module@.exports.dom().contains(fn_name@) ==> (
        module@.exports[fn_name@] matches Export::Function(index)
            ==> module.imported_funcs@.len() <= index && index < module.imported_funcs@.len()
            + compilation.functions@.len())),
{
    let imported: usize = module.imported_funcs.len();
    match module.find_export(fn_name) {
        Some(Export::Function(index)) => index >= imported && index - imported
            < compilation.functions.len(),
        _ => true,
    }
}

/// Takes an event and says what is to be done next.
pub fn compile_and_execute(session: &mut Session, event: Event) -> (action: Action)
    requires
        old(session)@.wf(),
        old(session)@.accepts(event@),
    ensures
        final(session)@.wf(),
        (final(session)@, action@) == old(session)@.next(event@),
{
    match event {
        Event::Translated(Ok(module)) => {
            session.module = module;
            session.link_next()
        },
        Event::Translated(Err(message)) => session.finish(Err(message)),
        Event::Resolved(Ok(address)) => {
            session.addresses.push(address);
            session.link_next()
        },
        Event::Resolved(Err(message)) => {
            let found: usize = session.addresses.len();
            let text: String = "Failed to link imported function ".to_owned().concat(
                session.module.imported_funcs[found].1.as_str(),
            ).concat(" because of error: ").concat(message.as_str());
            session.finish(Err(text))
        },
        Event::Compiled(compiled) => {
            match compile_module(
                &session.module,
                compiled,
                session.addresses.as_slice(),
                session.target,
            ) {
                Ok(compilation) => {
                    session.compilation = compilation;
                    match execute(&session.module, &session.compilation, session.fn_name.as_str()) {
                        Ok(place) => {
                            session.phase = Phase::Protecting(place);
                            Action::Protect(place)
                        },
                        Err(message) => session.finish(Err(message)),
                    }
                },
                Err(message) => session.finish(Err(message)),
            }
        },
        Event::Protected(outcome) => {
            match check_protection(outcome) {
                Ok(_) => {
                    let place: usize = match session.phase {
                        Phase::Protecting(place) => place,
                        _ => 0,
                    };
                    session.phase = Phase::Running(place);
                    Action::Run(place)
                },
                Err(message) => session.finish(Err(message)),
            }
        },
        Event::Returned => session.finish(Ok(())),
    }
}

/// A run comes to an end: once its module is translated every event brings the end closer, the run
/// is over exactly when its result is reported, and then it takes no event any more.
pub proof fn runs_come_to_an_end(session: SessionView, event: EventView)
    requires
        session.wf(),
        session.accepts(event),
    ensures
        ({
            let (after, action) = session.next(event);
            &&& after.wf()
            &&& !(after.phase is Translating)
            &&& !(session.phase is Translating) ==> after.remaining() < session.remaining()
            &&& after.remaining() == 0 <==> after.phase is Finished
            &&& action is Finish <==> after.phase is Finished
            &&& after.phase is Finished ==> forall|later: EventView| !after.accepts(later)
        }),
{
}

/// The imported functions are looked up one after the other, in the order of the imports, and each
/// address that was found is kept under the number of its import; the functions are compiled only
/// when all are found.
pub proof fn imports_are_resolved_in_order(session: SessionView, event: EventView)
    requires
        session.wf(),
        session.accepts(event),
    ensures
        ({
            let (after, action) = session.next(event);
            &&& action matches ActionView::Resolve(name) ==> {
                &&& after.addresses.len() < after.module.imported_funcs.len()
                &&& name == after.module.imported_funcs[after.addresses.len() as int].1
            }
            &&& action is Compile ==> after.addresses.len() == after.module.imported_funcs.len()
            &&& event matches EventView::Resolved(Ok(address)) ==> after.addresses
                == session.addresses.push(address)
            &&& !(event is Resolved) ==> after.addresses == session.addresses
            &&& !(event is Translated) ==> after.module == session.module
            &&& after.target == session.target
        }),
{
}

/// Whatever fails ends the run with an error; code is run only when it was made executable, and a
/// run whose code has run succeeds, so that no code has run where a run fails.
pub proof fn failures_end_the_run(session: SessionView, event: EventView)
    requires
        session.wf(),
        session.accepts(event),
    ensures
        ({
            let (after, action) = session.next(event);
            let failed = match event {
                EventView::Translated(result) => result is Err,
                EventView::Resolved(result) => result is Err,
                EventView::Compiled(result) => result is Err || entry(
                    session.module,
                    session.fn_name,
                ) is Err,
                EventView::Protected(result) => result is Err,
                EventView::Returned => false,
            };
            &&& failed <==> (action matches ActionView::Finish(result) && result is Err)
            &&& event is Returned <==> action == ActionView::Finish(Ok(()))
            &&& action is Run <==> (event matches EventView::Protected(result) && result is Ok)
            &&& action is Run <==> after.phase is Running
            &&& session.phase is Running ==> action == ActionView::Finish(Ok(()))
        }),
{
}

/// Everything that is done, in order, in a run of the start function, when the attempt to make its
/// code executable ends in `protection`.
pub open spec fn start_function_actions(
    module: ModuleView,
    functions: Seq<BodyView>,
    target: Target,
    protection: Result<(), Seq<char>>,
) -> Seq<ActionView> {
    let (found, first) = SessionView::of_start_function(module, functions, target);
    let (protected, second) = found.next(EventView::Protected(protection));
    let (returned, third) = protected.next(EventView::Returned);
    if first is Finish {
        seq![first]
    } else if second is Finish {
        seq![first, second]
    } else {
        seq![first, second, third]
    }
}

/// A run of the start function fails exactly when there is no start function or its code cannot be
/// made executable, with the error that says so; then no code is run. Otherwise the code of the
/// start function is made executable and run, and the run succeeds.
pub proof fn the_start_function_is_run(
    module: ModuleView,
    functions: Seq<BodyView>,
    target: Target,
    protection: Result<(), Seq<char>>,
)
    requires
        module.start_func matches Some(start) ==> module.defines(functions.len(), start),
    ensures
        ({
            let (found, first) = SessionView::of_start_function(module, functions, target);
            let protected = found.next(EventView::Protected(protection)).0;
            let returned = protected.next(EventView::Returned).0;
            let actions = start_function_actions(module, functions, target, protection);
            let ran = exists|k: int| 0 <= k < actions.len() && #[trigger] actions[k] is Run;
            &&& found.wf()
            &&& found.functions == functions
            &&& match module.start_func {
                None => {
                    &&& found.phase is Finished
                    &&& actions == seq![
                        ActionView::Finish(
                            Err("No start function defined, aborting execution"@),
                        ),
                    ]
                },
                Some(start) => {
                    let place = module.place(start) as usize;
                    &&& place == module.place(start) < functions.len()
                    &&& found.accepts(EventView::Protected(protection))
                    &&& protected.functions == functions
                    &&& match protection {
                        Err(cause) => {
                            &&& protected.phase is Finished
                            &&& actions == seq![
                                ActionView::Protect(place),
                                ActionView::Finish(
                                    Err(
                                        "failed to give executable permission to code: "@ + cause,
                                    ),
                                ),
                            ]
                        },
                        Ok(_) => {
                            &&& protected.accepts(EventView::Returned)
                            &&& returned.phase is Finished
                            &&& actions == seq![
                                ActionView::Protect(place),
                                ActionView::Run(place),
                                ActionView::Finish(Ok(())),
                            ]
                        },
                    }
                },
            }
            &&& actions.last() is Finish
            &&& ran <==> actions.last() == ActionView::Finish(Ok(()))
            &&& ran <==> module.start_func is Some && protection is Ok
        }),
{
    let actions = start_function_actions(module, functions, target, protection);
    if module.start_func is Some && protection is Ok {
        assert(actions[1] is Run);
    }
}

/// The code that is made executable and run is the code of the function that the module exports
/// under the name that was asked for, linked to the addresses that were found.
pub proof fn the_named_function_is_run(
    session: SessionView,
    functions: Seq<BodyView>,
    relocations: Seq<Seq<Relocation>>,
    index: FunctionIndex,
)
    requires
        session.wf(),
        session.accepts(EventView::Compiled(Ok((functions, relocations)))),
        session.module.exports.dom().contains(session.fn_name),
        session.module.exports[session.fn_name] == Export::Function(index),
    ensures
        ({
            let (compiled, action) = session.next(
                EventView::Compiled(Ok((functions, relocations))),
            );
            let (protected, run) = compiled.next(EventView::Protected(Ok(())));
            let place = session.module.place(index);
            &&& 0 <= place < functions.len()
            &&& action == ActionView::Protect(place as usize)
            &&& run == ActionView::Run(place as usize)
            &&& protected.functions == relocated(
                session.target.byte_order,
                functions,
                relocations,
                session.addresses,
            )
            &&& target_address(protected.functions, session.addresses, index)
                == protected.functions[place].address
        }),
{
}

/// A run begins with the translation, for the name and the target that were given, with nothing
/// known.
pub proof fn runs_begin_with_the_translation(fn_name: Seq<char>, target: Target)
    ensures
        ({
            let start = SessionView::at_start(fn_name, target);
            &&& start.fn_name == fn_name
            &&& start.target == target
            &&& start.phase is Translating
            &&& start.addresses.len() == 0
            &&& start.functions.len() == 0
            &&& start.module.start_func is None
            &&& start.module.imported_funcs.len() == 0
            &&& start.module.exports =~= Map::empty()
        }),
{
}

/// A run waits for exactly one thing at a time. From compiled code it can go on where every
/// relocation fits and the named function, if it is exported, is not imported; a debug build also
/// asserts that the start function is not imported.
pub proof fn runs_wait_for_one_thing(session: SessionView, event: EventView)
    ensures
        session.accepts(event) <==> match event {
            EventView::Translated(_) => session.phase is Translating,
            EventView::Resolved(_) => session.phase is Linking,
            EventView::Compiled(Err(_)) => session.phase is Compiling && (
            session.target.debug_assertions ==> (session.module.start_func matches Some(start)
                ==> start >= session.module.imported_funcs.len())),
            EventView::Compiled(Ok((functions, relocations))) => {
                &&& session.phase is Compiling
                &&& session.target.debug_assertions ==> (
                session.module.start_func matches Some(start) ==> start
                    >= session.module.imported_funcs.len())
                &&& relocations_fit(functions, relocations, session.addresses)
                &&& session.module.exports.dom().contains(session.fn_name) ==> (
                session.module.exports[session.fn_name] matches Export::Function(index) ==> 0
                    <= index - session.module.imported_funcs.len() < functions.len())
            },
            EventView::Protected(_) => session.phase is Protecting,
            EventView::Returned => session.phase is Running,
        },
{
}

/// A translated module is kept, whatever it imports or exports, and the run goes on with its first
/// import, or with the compilation where it has none; a failed translation ends the run with its
/// message.
pub proof fn a_translated_module_is_kept(
    session: SessionView,
    module: ModuleView,
    message: Seq<char>,
)
    requires
        session.wf(),
        session.phase is Translating,
    ensures
        ({
            let (after, action) = session.next(EventView::Translated(Ok(module)));
            let (failed, report) = session.next(EventView::Translated(Err(message)));
            &&& after.module == module
            &&& after.fn_name == session.fn_name
            &&& after.target == session.target
            &&& after.addresses.len() == 0
            &&& after.functions == session.functions
            &&& module.imported_funcs.len() == 0 ==> after.phase is Compiling && action is Compile
            &&& module.imported_funcs.len() > 0 ==> after.phase is Linking && action
                == ActionView::Resolve(module.imported_funcs[0].1)
            &&& failed == (SessionView { phase: Phase::Finished, ..session })
            &&& report == ActionView::Finish(Err(message))
        }),
{
}

/// An address that was found is kept behind those found before, and the run goes on with the import
/// that comes next, or with the compilation once all are found; one that was not found ends the run
/// with a message that names the import and the cause.
pub proof fn a_found_address_is_kept(session: SessionView, address: u64, cause: Seq<char>)
    requires
        session.wf(),
        session.phase is Linking,
    ensures
        ({
            let found = session.addresses.len() as int;
            let imports = session.module.imported_funcs;
            let (after, action) = session.next(EventView::Resolved(Ok(address)));
            let (failed, report) = session.next(EventView::Resolved(Err(cause)));
            &&& found < imports.len()
            &&& after.addresses.len() == found + 1
            &&& after.addresses[found] == address
            &&& after.addresses.take(found) == session.addresses
            &&& after.module == session.module
            &&& after.fn_name == session.fn_name
            &&& after.target == session.target
            &&& after.functions == session.functions
            &&& found + 1 == imports.len() ==> after.phase is Compiling && action is Compile
            &&& found + 1 < imports.len() ==> after.phase is Linking && action
                == ActionView::Resolve(imports[found + 1].1)
            &&& failed == (SessionView { phase: Phase::Finished, ..session })
            &&& report == ActionView::Finish(
                Err(
                    "Failed to link imported function "@ + imports[found].1
                        + " because of error: "@ + cause,
                ),
            )
        }),
{
    let found = session.addresses.len() as int;
    assert(session.next(EventView::Resolved(Ok(address))).0.addresses.take(found)
        =~= session.addresses);
}

/// Compiled code is linked to the addresses that were found; where a function is exported under the
/// name, the code at the place of that function is made executable; where something else or nothing
/// is, or where the compilation failed, the run ends with a message that says so.
pub proof fn compiled_code_is_linked_and_looked_up(
    session: SessionView,
    functions: Seq<BodyView>,
    relocations: Seq<Seq<Relocation>>,
    message: Seq<char>,
)
    requires
        session.wf(),
        session.accepts(EventView::Compiled(Ok((functions, relocations)))),
    ensures
        ({
            let (after, action) = session.next(EventView::Compiled(Ok((functions, relocations))));
            let (failed, report) = session.next(EventView::Compiled(Err(message)));
            let name = session.fn_name;
            let imports = session.module.imported_funcs.len();
            &&& after.functions == relocated(
                session.target.byte_order,
                functions,
                relocations,
                session.addresses,
            )
            &&& after.module == session.module
            &&& after.addresses == session.addresses
            &&& after.fn_name == session.fn_name
            &&& after.target == session.target
            &&& if !session.module.exports.dom().contains(name) {
                &&& after.phase is Finished
                &&& action == ActionView::Finish(Err("Wasm did not define function: "@ + name))
            } else {
                match session.module.exports[name] {
                    Export::Function(index) => {
                        &&& after.phase matches Phase::Protecting(place)
                        &&& place + imports == index
                        &&& place < functions.len()
                        &&& action == ActionView::Protect(place)
                    },
                    Export::Table(_) => {
                        &&& after.phase is Finished
                        &&& action == ActionView::Finish(
                            Err(
                                "Strangely, your function name: "@ + name
                                    + " was actually a table."@,
                            ),
                        )
                    },
                    Export::Memory(_) => {
                        &&& after.phase is Finished
                        &&& action == ActionView::Finish(
                            Err(
                                "Strangely, your function name: "@ + name
                                    + " was actually a memory."@,
                            ),
                        )
                    },
                    Export::Global(_) => {
                        &&& after.phase is Finished
                        &&& action == ActionView::Finish(
                            Err(
                                "Strangely, your function name: "@ + name
                                    + " was actually a global."@,
                            ),
                        )
                    },
                }
            }
            &&& failed == (SessionView { phase: Phase::Finished, ..session })
            &&& report == ActionView::Finish(Err(message))
        }),
{
}

/// Code that was made executable is run at the same place; code that could not be is not run, and
/// the run ends with the cause; when the code has returned the run succeeds.
pub proof fn protected_code_is_run(session: SessionView, place: usize, cause: Seq<char>)
    ensures
        ({
            let protecting = SessionView { phase: Phase::Protecting(place), ..session };
            let (running, run) = protecting.next(EventView::Protected(Ok(())));
            let (failed, report) = protecting.next(EventView::Protected(Err(cause)));
            let (returned, end) = SessionView { phase: Phase::Running(place), ..session }.next(
                EventView::Returned,
            );
            &&& running == (SessionView { phase: Phase::Running(place), ..session })
            &&& run == ActionView::Run(place)
            &&& failed == (SessionView { phase: Phase::Finished, ..session })
            &&& report == ActionView::Finish(
                Err("failed to give executable permission to code: "@ + cause),
            )
            &&& returned == (SessionView { phase: Phase::Finished, ..session })
            &&& end == ActionView::Finish(Ok(()))
        }),
{
}

/// The addresses of all the imports are taken one after the other.
proof fn lemma_all_imports_are_found(session: SessionView, addresses: Seq<u64>)
    requires
        session.wf(),
        session.phase is Linking || session.phase is Compiling,
        session.addresses.len() + addresses.len() == session.module.imported_funcs.len(),
    ensures
        addresses.fold_left(
            session,
            |s: SessionView, address: u64| s.next(EventView::Resolved(Ok(address))).0,
        ) == (SessionView {
            phase: Phase::Compiling,
            addresses: session.addresses + addresses,
            ..session
        }),
    decreases addresses.len(),
{
    let step = |s: SessionView, address: u64| s.next(EventView::Resolved(Ok(address))).0;
    if addresses.len() == 0 {
        assert(session.addresses + addresses =~= session.addresses);
    } else {
        let rest = addresses.drop_last();
        let all = session.addresses + addresses;
        lemma_most_imports_are_found(session, rest);
        assert((session.addresses + rest).push(addresses.last()) =~= all);
    }
}

/// The addresses of some of the imports, but not all, are taken one after the other.
proof fn lemma_most_imports_are_found(session: SessionView, addresses: Seq<u64>)
    requires
        session.wf(),
        session.phase is Linking,
        session.addresses.len() + addresses.len() < session.module.imported_funcs.len(),
    ensures
        addresses.fold_left(
            session,
            |s: SessionView, address: u64| s.next(EventView::Resolved(Ok(address))).0,
        ) == (SessionView { addresses: session.addresses + addresses, ..session }),
    decreases addresses.len(),
{
    if addresses.len() == 0 {
        assert(session.addresses + addresses =~= session.addresses);
    } else {
        let rest = addresses.drop_last();
        lemma_most_imports_are_found(session, rest);
        assert((session.addresses + rest).push(addresses.last()) =~= session.addresses + addresses);
    }
}

/// A whole run. A module that exports a function of its own under the name that was asked for, all
/// of whose imports are found, that is compiled, and whose code is made executable, has exactly
/// that function run, in code that is linked to exactly the addresses that were found, and the run
/// succeeds; this holds whether the module imports anything or not.
pub proof fn a_whole_run_runs_the_named_function(
    fn_name: Seq<char>,
    target: Target,
    module: ModuleView,
    addresses: Seq<u64>,
    functions: Seq<BodyView>,
    relocations: Seq<Seq<Relocation>>,
    index: FunctionIndex,
)
    requires
        addresses.len() == module.imported_funcs.len(),
        relocations_fit(functions, relocations, addresses),
        module.exports.dom().contains(fn_name),
        module.exports[fn_name] == Export::Function(index),
        0 <= index - module.imported_funcs.len() < functions.len(),
        target.debug_assertions ==> (module.start_func matches Some(start) ==> start
            >= module.imported_funcs.len()),
    ensures
        ({
            let start = SessionView::at_start(fn_name, target);
            let translated = start.next(EventView::Translated(Ok(module))).0;
            let linked = addresses.fold_left(
                translated,
                |s: SessionView, address: u64| s.next(EventView::Resolved(Ok(address))).0,
            );
            let event = EventView::Compiled(Ok((functions, relocations)));
            let (compiled, protect) = linked.next(event);
            let (protected, run) = compiled.next(EventView::Protected(Ok(())));
            let (returned, end) = protected.next(EventView::Returned);
            let place = (index - module.imported_funcs.len()) as usize;
            &&& start.accepts(EventView::Translated(Ok(module)))
            &&& linked.accepts(event)
            &&& linked.addresses == addresses
            &&& compiled.accepts(EventView::Protected(Ok(())))
            &&& protected.accepts(EventView::Returned)
            &&& protect == ActionView::Protect(place)
            &&& run == ActionView::Run(place)
            &&& end == ActionView::Finish(Ok(()))
            &&& protected.functions == relocated(
                target.byte_order,
                functions,
                relocations,
                addresses,
            )
            &&& protected.module == module
        }),
{
    let start = SessionView::at_start(fn_name, target);
    let translated = start.next(EventView::Translated(Ok(module))).0;
    lemma_all_imports_are_found(translated, addresses);
    assert(translated.addresses + addresses =~= addresses);
}

/// A run of the start function begins with the code at the place that comes after the imports, or
/// ends at once where there is no start function; the module, the code and the target are those
/// that were given.
pub proof fn runs_of_the_start_function_begin_with_its_code(
    module: ModuleView,
    functions: Seq<BodyView>,
    target: Target,
)
    requires
        module.start_func matches Some(start) ==> 0 <= start - module.imported_funcs.len()
            < functions.len(),
    ensures
        ({
            let (session, action) = SessionView::of_start_function(module, functions, target);
            &&& session.module == module
            &&& session.functions == functions
            &&& session.target == target
            &&& match module.start_func {
                Some(start) => {
                    &&& session.phase matches Phase::Protecting(place)
                    &&& place + module.imported_funcs.len() == start
                    &&& action == ActionView::Protect(place)
                },
                None => {
                    &&& session.phase is Finished
                    &&& action == ActionView::Finish(
                        Err("No start function defined, aborting execution"@),
                    )
                },
            }
        }),
{
}

/// The function to run is the one that is exported under the name, at the place that comes after
/// the imports; where there is none, the message says what there is instead.
pub proof fn entries_are_exported_functions(module: ModuleView, defined: nat, name: Seq<char>)
    ensures
        entry(module, name) is Ok <==> module.exports.dom().contains(name) && module.exports[name]
            is Function,
        entry(module, name) matches Ok(place) ==> module.exports[name]
            matches Export::Function(index) && place + module.imported_funcs.len() == index,
        !module.exports.dom().contains(name) ==> entry(module, name) == Err::<int, Seq<char>>(
            "Wasm did not define function: "@ + name,
        ),
        module.exports.dom().contains(name) && module.exports[name] is Table ==> entry(module, name)
            == Err::<int, Seq<char>>(
            "Strangely, your function name: "@ + name + " was actually a table."@,
        ),
        module.exports.dom().contains(name) && module.exports[name] is Memory ==> entry(
            module,
            name,
        ) == Err::<int, Seq<char>>(
            "Strangely, your function name: "@ + name + " was actually a memory."@,
        ),
        module.exports.dom().contains(name) && module.exports[name] is Global ==> entry(
            module,
            name,
        ) == Err::<int, Seq<char>>(
            "Strangely, your function name: "@ + name + " was actually a global."@,
        ),
        entry_is_defined(module, defined, name) <==> (module.exports.dom().contains(name) ==> (
        module.exports[name] matches Export::Function(index) ==> 0 <= index
            - module.imported_funcs.len() < defined)),
{
}

/// Events are seen as they are.
pub proof fn events_are_seen_as_they_are(event: Event)
    ensures
        match event {
            Event::Translated(Ok(module)) => event@ == EventView::Translated(Ok(module@)),
            Event::Translated(Err(message)) => event@ == EventView::Translated(Err(message@)),
            Event::Resolved(Ok(address)) => event@ == EventView::Resolved(Ok(address)),
            Event::Resolved(Err(message)) => event@ == EventView::Resolved(Err(message@)),
            Event::Compiled(Ok((compilation, relocations))) => event@ == EventView::Compiled(
                Ok((compilation@, relocations_view(relocations@))),
            ),
            Event::Compiled(Err(message)) => event@ == EventView::Compiled(Err(message@)),
            Event::Protected(Ok(_)) => event@ matches EventView::Protected(result) && result is Ok,
            Event::Protected(Err(message)) => event@ == EventView::Protected(Err(message@)),
            Event::Returned => event@ is Returned,
        },
{
}

/// Actions are seen as they are.
pub proof fn actions_are_seen_as_they_are(action: Action)
    ensures
        match action {
            Action::Resolve(name) => action@ == ActionView::Resolve(name@),
            Action::Compile => action@ is Compile,
            Action::Protect(place) => action@ == ActionView::Protect(place),
            Action::Run(place) => action@ == ActionView::Run(place),
            Action::Finish(Ok(_)) => action@ matches ActionView::Finish(result) && result is Ok,
            Action::Finish(Err(message)) => action@ == ActionView::Finish(Err(message@)),
        },
{
}

} // verus!
