//! Compiled code: linking the functions of a module to each other and to the functions that it
//! imports, and finding the code to run.
use vstd::prelude::*;

use vstd::arithmetic::power::pow;
use vstd::string::StringExecFns;

use crate::bytes::{
    byte_range, bytes_are_digits, encode, lemma_digit_of_shifted, lemma_le_value_of_four,
    lemma_powers_of_256, lemma_word_bytes_len, overwrite, overwrite_read_back, word_bytes,
    word_bytes_read_back, word_value, write_bytes,
};
use crate::entities::FunctionIndex;
use crate::module::{Module, ModuleView};
use crate::target::{ByteOrder, Target};

verus! {

/// A place in the code of a function that refers to a function.
#[derive(Clone, Copy, Debug, PartialEq, Eq, Structural)]
pub struct Relocation {
    /// The function that is referred to.
    pub func_index: FunctionIndex,
    /// Where in the code the reference stands.
    pub offset: u32,
    /// What is added to the distance.
    pub addend: i64,
}

/// The machine code of a function and the address at which it stands in memory.
#[derive(Debug)]
pub struct FunctionBody {
    pub address: u64,
    pub code: Vec<u8>,
}

/// The machine code of a function as a mathematical value.
#[verifier::ext_equal]
pub struct BodyView {
    pub address: u64,
    pub code: Seq<u8>,
}

impl View for FunctionBody {
    type V = BodyView;

    open spec fn view(&self) -> BodyView {
        BodyView { address: self.address, code: self.code@ }
    }
}

/// The functions that a module defines, compiled, in the order of their definition.
#[derive(Debug)]
pub struct Compilation {
    pub functions: Vec<FunctionBody>,
}

impl View for Compilation {
    type V = Seq<BodyView>;

    open spec fn view(&self) -> Seq<BodyView> {
        self.functions@.map_values(|body: FunctionBody| body@)
    }
}

/// The relocations of all the functions, as mathematical values.
pub open spec fn relocations_view(relocations: Seq<Vec<Relocation>>) -> Seq<Seq<Relocation>> {
    relocations.map_values(|rs: Vec<Relocation>| rs@)
}

/// The address of a function: positions count the imported functions first, then those that the
/// module defines.
pub open spec fn target_address(
    functions: Seq<BodyView>,
    imported: Seq<u64>,
    func_index: FunctionIndex,
) -> u64 {
    if func_index < imported.len() {
        imported[func_index as int]
    } else {
        functions[func_index - imported.len()].address
    }
}

/// Where in the code a relocation is written: four bytes behind its offset.
pub open spec fn patch_offset(r: Relocation) -> int {
    r.offset + 4
}

/// The word that a relocation writes: the distance from where it is written to the target, plus the
/// addend, cut to 32 bits.
pub open spec fn patch_word(target: u64, address: u64, r: Relocation) -> nat {
    ((target - (address + patch_offset(r)) + r.addend) % 0x1_0000_0000) as nat
}

/// The code of a function at `address` after the first `n` relocations were written, in order.
pub open spec fn patched(
    order: ByteOrder,
    functions: Seq<BodyView>,
    imported: Seq<u64>,
    body: BodyView,
    relocations: Seq<Relocation>,
    n: int,
) -> Seq<u8>
    decreases n,
{
    if n <= 0 {
        body.code
    } else {
        let r = relocations[n - 1];
        overwrite(
            patched(order, functions, imported, body, relocations, n - 1),
            patch_offset(r),
            word_bytes(
                order,
                patch_word(target_address(functions, imported, r.func_index), body.address, r),
                4,
            ),
        )
    }
}

/// A function after all its relocations were written.
pub open spec fn relocated_body(
    order: ByteOrder,
    functions: Seq<BodyView>,
    imported: Seq<u64>,
    body: BodyView,
    relocations: Seq<Relocation>,
) -> BodyView {
    BodyView {
        code: patched(order, functions, imported, body, relocations, relocations.len() as int),
        ..body
    }
}

/// The functions after all the relocations were written.
pub open spec fn relocated(
    order: ByteOrder,
    functions: Seq<BodyView>,
    relocations: Seq<Seq<Relocation>>,
    imported: Seq<u64>,
) -> Seq<BodyView> {
    Seq::new(
        functions.len(),
        |i: int|
            if i < relocations.len() {
                relocated_body(order, functions, imported, functions[i], relocations[i])
            } else {
                functions[i]
            },
    )
}

/// Whether a relocation of the function at place `i` belongs to a function that exists, lies within
/// its code and refers to a function that exists.
pub open spec fn relocation_fits(
    functions: Seq<BodyView>,
    imported: Seq<u64>,
    i: int,
    r: Relocation,
) -> bool {
    &&& i < functions.len()
    &&& patch_offset(r) + 4 <= functions[i].code.len()
    &&& r.func_index < imported.len() + functions.len()
}

/// Whether every relocation belongs to a function, lies within its code and refers to a function
/// that exists.
pub open spec fn relocations_fit(
    functions: Seq<BodyView>,
    relocations: Seq<Seq<Relocation>>,
    imported: Seq<u64>,
) -> bool {
    forall|i: int, k: int|
        0 <= i < relocations.len() && 0 <= k < relocations[i].len() ==> relocation_fits(
            functions,
            imported,
            i,
            #[trigger] relocations[i][k],
        )
}

/// Computes the word that a relocation writes.
fn compute_patch_word(target: u64, address: u64, r: &Relocation) -> (word: u64)
    ensures
        word == patch_word(target, address, *r),
        word < 0x1_0000_0000,
{
    let place: i128 = address as i128 + r.offset as i128 + 4;
    let distance: i128 = target as i128 - place + r.addend as i128;
    // A multiple of the range of a word makes the distance positive and keeps its low bits.
    let shifted: i128 = distance + 0x1_0000_0000_0000_0000_0000;
    let word: u64 = (shifted as u128 % 0x1_0000_0000) as u64;
    assert(shifted % 0x1_0000_0000 == distance % 0x1_0000_0000);
    word
}

/// Writes one relocation of the function at place `i`.
fn patch(
    compilation: &mut Compilation,
    i: usize,
    r: &Relocation,
    imported_functions: &[u64],
    order: ByteOrder,
)
    requires
        relocation_fits(old(compilation)@, imported_functions@, i as int, *r),
    ensures
        final(compilation)@ == old(compilation)@.update(
            i as int,
            BodyView {
                code: overwrite(
                    old(compilation)@[i as int].code,
                    patch_offset(*r),
                    word_bytes(
                        order,
                        patch_word(
                            target_address(
                                old(compilation)@,
                                imported_functions@,
                                r.func_index,
                            ),
                            old(compilation)@[i as int].address,
                            *r,
                        ),
                        4,
                    ),
                ),
                ..old(compilation)@[i as int]
            },
        ),
{
    let imported: usize = imported_functions.len();
    let target: u64 = if r.func_index < imported {
        imported_functions[r.func_index]
    } else {
        compilation.functions[r.func_index - imported].address
    };
    let word: u64 = compute_patch_word(target, compilation.functions[i].address, r);
    let bytes: Vec<u8> = encode(order, word, 4);
    proof {
        lemma_word_bytes_len(order, word as nat, 4);
    }
    let total: usize = compilation.functions[i].code.len();
    assert(patch_offset(*r) + 4 <= total);
    write_bytes(
        &mut compilation.functions[i].code,
        r.offset as usize + 4,
        bytes.as_slice(),
    );
    assert(compilation@ =~= old(compilation)@.update(i as int, compilation@[i as int]));
}

/// The functions after the relocations of the first `i` functions, and the first `k` of those of
/// function `i`, were written.
spec fn partly_relocated(
    order: ByteOrder,
    functions: Seq<BodyView>,
    relocations: Seq<Seq<Relocation>>,
    imported: Seq<u64>,
    i: int,
    k: int,
) -> Seq<BodyView> {
    Seq::new(
        functions.len(),
        |j: int|
            if j < i && j < relocations.len() {
                relocated_body(order, functions, imported, functions[j], relocations[j])
            } else if j == i && j < relocations.len() {
                BodyView {
                    code: patched(order, functions, imported, functions[j], relocations[j], k),
                    ..functions[j]
                }
            } else {
                functions[j]
            },
    )
}

proof fn lemma_patched_len(
    order: ByteOrder,
    functions: Seq<BodyView>,
    imported: Seq<u64>,
    body: BodyView,
    relocations: Seq<Relocation>,
    n: int,
)
    ensures
        patched(order, functions, imported, body, relocations, n).len() == body.code.len(),
    decreases n,
{
    if n > 0 {
        lemma_patched_len(order, functions, imported, body, relocations, n - 1);
    }
}

/// Writes into the code of every function the distances to the functions that it refers to, in the
/// given byte order.
///
/// The positions of functions start with the imported functions, whose addresses are given, and go
/// on with the functions of the compilation.
pub fn relocate(
    compilation: &mut Compilation,
    relocations: &Vec<Vec<Relocation>>,
    imported_functions: &[u64],
    order: ByteOrder,
)
    requires
        relocations_fit(
            old(compilation)@,
            relocations_view(relocations@),
            imported_functions@,
        ),
    ensures
        final(compilation)@ == relocated(
            order,
            old(compilation)@,
            relocations_view(relocations@),
            imported_functions@,
        ),
{
    let ghost functions = compilation@;
    let ghost rs = relocations_view(relocations@);
    let ghost imported = imported_functions@;
    let mut i: usize = 0;
    assert(compilation@ =~= partly_relocated(order, functions, rs, imported, 0, 0));
    while i < relocations.len()
        invariant
            i <= relocations@.len(),
            rs == relocations_view(relocations@),
            imported == imported_functions@,
            relocations_fit(functions, rs, imported),
            compilation@ == partly_relocated(order, functions, rs, imported, i as int, 0),
        decreases relocations@.len() - i,
    {
        let mut k: usize = 0;
        assert(rs[i as int] == relocations@[i as int]@);
        while k < relocations[i].len()
            invariant
                i < relocations@.len(),
                k <= relocations@[i as int]@.len(),
                rs == relocations_view(relocations@),
                rs[i as int] == relocations@[i as int]@,
                imported == imported_functions@,
                relocations_fit(functions, rs, imported),
                compilation@ == partly_relocated(
                    order,
                    functions,
                    rs,
                    imported,
                    i as int,
                    k as int,
                ),
            decreases relocations@[i as int]@.len() - k,
        {
            let r: Relocation = relocations[i][k];
            proof {
                assert(r == rs[i as int][k as int]);
                lemma_patched_len(
                    order,
                    functions,
                    imported,
                    functions[i as int],
                    rs[i as int],
                    k as int,
                );
            }
            patch(compilation, i, &r, imported_functions, order);
            k = k + 1;
            assert(compilation@ =~= partly_relocated(
                order,
                functions,
                rs,
                imported,
                i as int,
                k as int,
            ));
        }
        i = i + 1;
        assert(compilation@ =~= partly_relocated(order, functions, rs, imported, i as int, 0));
    }
    assert(compilation@ =~= relocated(order, functions, rs, imported));
}

/// Tells whether `relocate` can be used.
pub fn check_relocations(
    compilation: &Compilation,
    relocations: &Vec<Vec<Relocation>>,
    imported_functions: &[u64],
) -> (fit: bool)
    ensures
        fit == relocations_fit(
            compilation@,
            relocations_view(relocations@),
            imported_functions@,
        ),
{
    let ghost rs = relocations_view(relocations@);
    let defined: usize = compilation.functions.len();
    let imported: usize = imported_functions.len();
    let mut i: usize = 0;
    while i < relocations.len()
        invariant
            i <= relocations@.len(),
            rs == relocations_view(relocations@),
            defined == compilation@.len(),
            imported == imported_functions@.len(),
            forall|j: int, k: int|
                0 <= j < i && 0 <= k < rs[j].len() ==> relocation_fits(
                    compilation@,
                    imported_functions@,
                    j,
                    #[trigger] rs[j][k],
                ),
        decreases relocations@.len() - i,
    {
        let mut k: usize = 0;
        assert(rs[i as int] == relocations@[i as int]@);
        while k < relocations[i].len()
            invariant
                i < relocations@.len(),
                k <= relocations@[i as int]@.len(),
                rs == relocations_view(relocations@),
                rs[i as int] == relocations@[i as int]@,
                defined == compilation@.len(),
                imported == imported_functions@.len(),
                forall|m: int|
                    0 <= m < k ==> relocation_fits(
                        compilation@,
                        imported_functions@,
                        i as int,
                        #[trigger] rs[i as int][m],
                    ),
            decreases relocations@[i as int]@.len() - k,
        {
            let r: Relocation = relocations[i][k];
            assert(r == rs[i as int][k as int]);
            if i >= defined || r.offset as u64 + 8 > compilation.functions[i].code.len() as u64 || (
            r.func_index >= imported && r.func_index - imported >= defined) {
                return false;
            }
            k = k + 1;
        }
        i = i + 1;
    }
    true
}

/// Links compiled code to the functions that it refers to, or passes on why there is none.
///
/// A debug build asserts that the start function is not imported.
pub fn compile_module(
    module: &Module,
    compiled: Result<(Compilation, Vec<Vec<Relocation>>), String>,
    imported_functions: &[u64],
    target: Target,
) -> (result: Result<Compilation, String>)
    requires
        target.debug_assertions ==> module@.start_is_not_imported(),
        compiled matches Ok((compilation, relocations)) ==> relocations_fit(
            compilation@,
            relocations_view(relocations@),
            imported_functions@,
        ),
    ensures
        match compiled {
            Ok((compilation, relocations)) => {
                &&& result is Ok
                &&& result->Ok_0@ == relocated(
                    target.byte_order,
                    compilation@,
                    relocations_view(relocations@),
                    imported_functions@,
                )
            },
            Err(message) => result == Err::<Compilation, String>(message),
        },
{
    match compiled {
        Ok((mut compilation, relocations)) => {
            relocate(&mut compilation, &relocations, imported_functions, target.byte_order);
            Ok(compilation)
        },
        Err(message) => Err(message),
    }
}

/// The context that compiled code runs in: the address of the globals, then the address of the
/// list of the memories' addresses.
pub fn make_vmctx(globals: u64, memories: u64) -> (vmctx: Vec<u64>)
    ensures
        vmctx@ == seq![globals, memories],
{
    let mut vmctx: Vec<u64> = Vec::new();
    vmctx.push(globals);
    vmctx.push(memories);
    assert(vmctx@ =~= seq![globals, memories]);
    vmctx
}

/// Finds the place of the start function's code in the compilation.
pub fn execute(module: &Module, compilation: &Compilation) -> (result: Result<usize, String>)
    requires
        module@.start_func matches Some(start) ==> module@.defines(compilation@.len(), start),
    ensures
        match module@.start_func {
            Some(start) => result == Ok::<usize, String>(module@.place(start) as usize)
                && module@.place(start) < compilation@.len(),
            None => result is Err && result->Err_0@
                == "No start function defined, aborting execution"@,
        },
        result is Ok <==> module.start_func is Some,
        result matches Ok(place) ==> {
            &&& place + module.imported_funcs@.len() == module.start_func->Some_0
            &&& place < compilation.functions@.len()
        },
{
    match module.start_func {
        Some(start) => Ok(start - module.imported_funcs.len()),
        None => Err("No start function defined, aborting execution".to_owned()),
    }
}

/// Tells whether the module, where it has a start function, defines that function itself.
pub fn check_start(module: &Module, compilation: &Compilation) -> (yes: bool)
    ensures
        yes == (module@.start_func matches Some(start) ==> module@.defines(
            compilation@.len(),
            start,
        )),
        yes == (module.start_func matches Some(start) ==> module.imported_funcs@.len() <= start
            && start < module.imported_funcs@.len() + compilation.functions@.len()),
{
    let imported: usize = module.imported_funcs.len();
    match module.start_func {
        Some(start) => start >= imported && start - imported < compilation.functions.len(),
        None => true,
    }
}

/// What the attempt to make code executable means for the run: it goes on, or it fails with the
/// cause.
pub fn check_protection(outcome: Result<(), String>) -> (result: Result<(), String>)
    ensures
        match outcome {
            Ok(_) => result is Ok,
            Err(cause) => result is Err && result->Err_0@
                == "failed to give executable permission to code: "@ + cause@,
        },
{
    match outcome {
        Ok(_) => Ok(()),
        Err(cause) => Err(
            "failed to give executable permission to code: ".to_owned().concat(cause.as_str()),
        ),
    }
}

/// Whether a relocation writes the byte at position `b`.
pub open spec fn covers(r: Relocation, b: int) -> bool {
    patch_offset(r) <= b < patch_offset(r) + 4
}

/// Relocation changes no byte that no relocation covers, and what it writes does not depend on what
/// was there before.
pub proof fn relocation_writes_only_patches(
    order: ByteOrder,
    functions: Seq<BodyView>,
    imported: Seq<u64>,
    body: BodyView,
    other: BodyView,
    relocations: Seq<Relocation>,
    n: int,
    b: int,
)
    requires
        0 <= n <= relocations.len(),
        0 <= b < body.code.len(),
        other.address == body.address,
        other.code.len() == body.code.len(),
    ensures
        patched(order, functions, imported, body, relocations, n).len() == body.code.len(),
        (forall|k: int| 0 <= k < n ==> !covers(#[trigger] relocations[k], b)) ==> patched(
            order,
            functions,
            imported,
            body,
            relocations,
            n,
        )[b] == body.code[b],
        (exists|k: int| 0 <= k < n && covers(#[trigger] relocations[k], b)) ==> patched(
            order,
            functions,
            imported,
            body,
            relocations,
            n,
        )[b] == patched(order, functions, imported, other, relocations, n)[b],
    decreases n,
{
    lemma_patched_len(order, functions, imported, body, relocations, n);
    lemma_patched_len(order, functions, imported, other, relocations, n);
    if n > 0 {
        let r = relocations[n - 1];
        let word = patch_word(
            target_address(functions, imported, r.func_index),
            body.address,
            r,
        );
        lemma_word_bytes_len(order, word, 4);
        lemma_patched_len(order, functions, imported, body, relocations, n - 1);
        lemma_patched_len(order, functions, imported, other, relocations, n - 1);
        relocation_writes_only_patches(
            order,
            functions,
            imported,
            body,
            other,
            relocations,
            n - 1,
            b,
        );
        if !covers(r, b) && (exists|k: int| 0 <= k < n && covers(#[trigger] relocations[k], b)) {
            let k = choose|k: int| 0 <= k < n && covers(#[trigger] relocations[k], b);
            assert(k < n - 1);
        }
    }
}

/// Where a relocation is not overwritten by a later one, the code holds the distance to its target.
pub proof fn relocation_reads_back(
    order: ByteOrder,
    functions: Seq<BodyView>,
    imported: Seq<u64>,
    body: BodyView,
    relocations: Seq<Relocation>,
    k: int,
)
    requires
        0 <= k < relocations.len(),
        patch_offset(relocations[k]) + 4 <= body.code.len(),
        forall|m: int|
            k < m < relocations.len() ==> patch_offset(#[trigger] relocations[m]) + 4
                <= patch_offset(relocations[k]) || patch_offset(relocations[k]) + 4
                <= patch_offset(relocations[m]),
    ensures
        ({
            let r = relocations[k];
            let at = patch_offset(r);
            let code = relocated_body(order, functions, imported, body, relocations).code;
            word_value(order, code.subrange(at, at + 4)) == patch_word(
                target_address(functions, imported, r.func_index),
                body.address,
                r,
            )
        }),
{
    let r = relocations[k];
    let at = patch_offset(r);
    let word = patch_word(target_address(functions, imported, r.func_index), body.address, r);
    lemma_patched_len(order, functions, imported, body, relocations, k);
    word_bytes_read_back(order, word, 4);
    assert(byte_range(4) == 0x1_0000_0000) by {
        reveal_with_fuel(byte_range, 5);
    }
    overwrite_read_back(
        patched(order, functions, imported, body, relocations, k),
        at,
        word_bytes(order, word, 4),
    );
    lemma_patch_is_kept(order, functions, imported, body, relocations, k, relocations.len() as int);
}

/// Later relocations that do not overlap relocation `k` leave its bytes alone.
proof fn lemma_patch_is_kept(
    order: ByteOrder,
    functions: Seq<BodyView>,
    imported: Seq<u64>,
    body: BodyView,
    relocations: Seq<Relocation>,
    k: int,
    n: int,
)
    requires
        0 <= k < n <= relocations.len(),
        patch_offset(relocations[k]) + 4 <= body.code.len(),
        forall|m: int|
            k < m < relocations.len() ==> patch_offset(#[trigger] relocations[m]) + 4
                <= patch_offset(relocations[k]) || patch_offset(relocations[k]) + 4
                <= patch_offset(relocations[m]),
    ensures
        ({
            let at = patch_offset(relocations[k]);
            let first = patched(order, functions, imported, body, relocations, k + 1);
            let last = patched(order, functions, imported, body, relocations, n);
            last.subrange(at, at + 4) == first.subrange(at, at + 4)
        }),
    decreases n,
{
    if k + 1 < n {
        let at = patch_offset(relocations[k]);
        let r = relocations[n - 1];
        let word = patch_word(target_address(functions, imported, r.func_index), body.address, r);
        lemma_patch_is_kept(order, functions, imported, body, relocations, k, n - 1);
        lemma_word_bytes_len(order, word, 4);
        lemma_patched_len(order, functions, imported, body, relocations, n - 1);
        let before = patched(order, functions, imported, body, relocations, n - 1);
        let after = patched(order, functions, imported, body, relocations, n);
        assert(after.subrange(at, at + 4) =~= before.subrange(at, at + 4));
    }
}

/// Following a relocation leads to its target: the place where it is written, plus the word there,
/// less the addend, is the target's address, up to whole multiples of the range of a word.
pub proof fn relocation_leads_to_target(target: u64, address: u64, r: Relocation)
    ensures
        patch_word(target, address, r) < 0x1_0000_0000,
        (address + patch_offset(r) + patch_word(target, address, r) - r.addend - target)
            % 0x1_0000_0000 == 0,
{
    let distance = target - (address + patch_offset(r)) + r.addend;
    assert((distance % 0x1_0000_0000 - distance) % 0x1_0000_0000 == 0);
}

/// Relocating code that was relocated already changes nothing.
pub proof fn relocation_is_idempotent(
    order: ByteOrder,
    functions: Seq<BodyView>,
    relocations: Seq<Seq<Relocation>>,
    imported: Seq<u64>,
)
    requires
        relocations_fit(functions, relocations, imported),
    ensures
        ({
            let once = relocated(order, functions, relocations, imported);
            relocated(order, once, relocations, imported) == once
        }),
{
    let once = relocated(order, functions, relocations, imported);
    let twice = relocated(order, once, relocations, imported);
    assert forall|i: int| 0 <= i < functions.len() implies #[trigger] twice[i] == once[i] by {
        if i < relocations.len() {
            let rs = relocations[i];
            let n = rs.len() as int;
            lemma_patched_len(order, functions, imported, functions[i], rs, n);
            lemma_same_addresses(order, functions, once, relocations, imported, i, once[i], n);
            assert forall|b: int| 0 <= b < once[i].code.len() implies #[trigger] twice[i].code[b]
                == once[i].code[b] by {
                relocation_writes_only_patches(
                    order,
                    functions,
                    imported,
                    once[i],
                    functions[i],
                    rs,
                    n,
                    b,
                );
            }
            lemma_patched_len(order, once, imported, once[i], rs, n);
            assert(twice[i].code =~= once[i].code);
        }
    }
    assert(twice =~= once);
}

/// What is written depends on the addresses of the functions alone, and relocation keeps those.
proof fn lemma_same_addresses(
    order: ByteOrder,
    functions: Seq<BodyView>,
    once: Seq<BodyView>,
    relocations: Seq<Seq<Relocation>>,
    imported: Seq<u64>,
    i: int,
    body: BodyView,
    n: int,
)
    requires
        relocations_fit(functions, relocations, imported),
        once == relocated(order, functions, relocations, imported),
        0 <= i < relocations.len(),
        0 <= n <= relocations[i].len(),
    ensures
        patched(order, once, imported, body, relocations[i], n) == patched(
            order,
            functions,
            imported,
            body,
            relocations[i],
            n,
        ),
    decreases n,
{
    if n > 0 {
        lemma_same_addresses(order, functions, once, relocations, imported, i, body, n - 1);
        let r = relocations[i][n - 1];
        assert(target_address(once, imported, r.func_index) == target_address(
            functions,
            imported,
            r.func_index,
        ));
    }
}

/// The code that is run for a function and the code that calls of it lead to are the same.
pub proof fn calls_lead_to_the_code_that_is_run(
    module: ModuleView,
    functions: Seq<BodyView>,
    imported: Seq<u64>,
    index: FunctionIndex,
)
    requires
        imported.len() == module.imported_funcs.len(),
        module.defines(functions.len(), index),
    ensures
        target_address(functions, imported, index) == functions[module.place(index)].address,
{
}

/// A compilation is seen as it is: as many functions, each with its address and its code.
pub proof fn compilations_are_seen_as_they_are(compilation: Compilation, i: int)
    requires
        0 <= i < compilation.functions@.len(),
    ensures
        compilation@.len() == compilation.functions@.len(),
        compilation@[i].address == compilation.functions@[i].address,
        compilation@[i].code == compilation.functions@[i].code@,
{
}

/// The relocations are seen as they are: as many lists, each with its relocations.
pub proof fn relocations_are_seen_as_they_are(relocations: Seq<Vec<Relocation>>, i: int)
    requires
        0 <= i < relocations.len(),
    ensures
        relocations_view(relocations).len() == relocations.len(),
        relocations_view(relocations)[i] == relocations[i]@,
{
}

/// Code can be linked where every relocation belongs to a function that was compiled, its four
/// bytes, which start four bytes behind its offset, lie within the code of that function, and it
/// refers to one of the imported or of the compiled functions.
pub proof fn code_that_fits_can_be_linked(
    functions: Seq<BodyView>,
    relocations: Seq<Seq<Relocation>>,
    imported: Seq<u64>,
)
    requires
        forall|i: int, k: int|
            0 <= i < relocations.len() && 0 <= k < relocations[i].len() ==> (
            #[trigger] relocations[i][k]).func_index < imported.len() + functions.len(),
        forall|i: int, k: int|
            0 <= i < relocations.len() && 0 <= k < relocations[i].len() ==> i < functions.len() && (
            #[trigger] relocations[i][k]).offset + 8 <= functions[i].code.len(),
    ensures
        relocations_fit(functions, relocations, imported),
{
    assert forall|i: int, k: int|
        0 <= i < relocations.len() && 0 <= k < relocations[i].len() implies relocation_fits(
        functions,
        imported,
        i,
        #[trigger] relocations[i][k],
    ) by {
        let r = relocations[i][k];
        assert(r.func_index < imported.len() + functions.len());
        assert(r.offset + 8 <= functions[i].code.len());
    }
}

/// Only such code can be linked.
pub proof fn linkable_code_fits(
    functions: Seq<BodyView>,
    relocations: Seq<Seq<Relocation>>,
    imported: Seq<u64>,
    i: int,
    k: int,
)
    requires
        relocations_fit(functions, relocations, imported),
        0 <= i < relocations.len(),
        0 <= k < relocations[i].len(),
    ensures
        i < functions.len(),
        relocations[i][k].offset + 8 <= functions[i].code.len(),
        relocations[i][k].func_index < imported.len() + functions.len(),
{
    assert(relocation_fits(functions, imported, i, relocations[i][k]));
}

/// Relocations from `m` on that do not cover byte `b` leave it alone.
proof fn lemma_byte_is_kept(
    order: ByteOrder,
    functions: Seq<BodyView>,
    imported: Seq<u64>,
    body: BodyView,
    relocations: Seq<Relocation>,
    m: int,
    n: int,
    b: int,
)
    requires
        0 <= m <= n <= relocations.len(),
        0 <= b < body.code.len(),
        forall|k: int|
            m <= k < n ==> b < (#[trigger] relocations[k]).offset + 4 || relocations[k].offset + 8
                <= b,
    ensures
        patched(order, functions, imported, body, relocations, n)[b] == patched(
            order,
            functions,
            imported,
            body,
            relocations,
            m,
        )[b],
    decreases n,
{
    if m < n {
        let r = relocations[n - 1];
        let word = patch_word(target_address(functions, imported, r.func_index), body.address, r);
        lemma_byte_is_kept(order, functions, imported, body, relocations, m, n - 1, b);
        lemma_patched_len(order, functions, imported, body, relocations, n - 1);
        lemma_word_bytes_len(order, word, 4);
    }
}

/// Linking changes nothing but the four bytes of each relocation: the functions stay as many, each
/// keeps its address and the length of its code, and every byte that no relocation covers is what
/// it was.
pub proof fn linking_leaves_the_rest_alone(
    order: ByteOrder,
    functions: Seq<BodyView>,
    relocations: Seq<Seq<Relocation>>,
    imported: Seq<u64>,
    i: int,
    b: int,
)
    requires
        0 <= i < functions.len(),
        0 <= b < functions[i].code.len(),
    ensures
        ({
            let after = relocated(order, functions, relocations, imported);
            &&& after.len() == functions.len()
            &&& after[i].address == functions[i].address
            &&& after[i].code.len() == functions[i].code.len()
            &&& i >= relocations.len() ==> after[i].code == functions[i].code
            &&& i < relocations.len() && (forall|k: int|
                0 <= k < relocations[i].len() ==> b < (#[trigger] relocations[i][k]).offset + 4
                    || relocations[i][k].offset + 8 <= b) ==> after[i].code[b]
                == functions[i].code[b]
        }),
{
    if i < relocations.len() {
        let rs = relocations[i];
        lemma_patched_len(order, functions, imported, functions[i], rs, rs.len() as int);
        if forall|k: int|
            0 <= k < rs.len() ==> b < (#[trigger] rs[k]).offset + 4 || rs[k].offset + 8 <= b {
            lemma_byte_is_kept(
                order,
                functions,
                imported,
                functions[i],
                rs,
                0,
                rs.len() as int,
                b,
            );
        }
    }
}

/// Every byte that a relocation covers, and no later one of that function covers, is a digit of the
/// distance from the place of the relocation to the function that it refers to, plus the addend. A
/// reference to an imported function leads to the address that is given for exactly that import,
/// one to a function of the module to the address of exactly that function.
pub proof fn every_linked_byte_is_known(
    order: ByteOrder,
    functions: Seq<BodyView>,
    relocations: Seq<Seq<Relocation>>,
    imported: Seq<u64>,
    i: int,
    k: int,
    p: int,
)
    requires
        relocations_fit(functions, relocations, imported),
        0 <= i < relocations.len(),
        0 <= k < relocations[i].len(),
        0 <= p < 4,
        forall|m: int|
            k < m < relocations[i].len() ==> relocations[i][k].offset + p < (
            #[trigger] relocations[i][m]).offset || relocations[i][m].offset + 4
                <= relocations[i][k].offset + p,
    ensures
        ({
            let after = relocated(order, functions, relocations, imported);
            let r = relocations[i][k];
            let place = functions[i].address + r.offset + 4;
            let byte = after[i].code[r.offset + 4 + p];
            let digit = if order is Little {
                p as nat
            } else {
                (3 - p) as nat
            };
            &&& r.offset + 4 + p < after[i].code.len()
            &&& r.func_index < imported.len() ==> byte == ((imported[r.func_index as int] - place
                + r.addend) / pow(256, digit)) % 256
            &&& r.func_index >= imported.len() ==> byte == ((functions[r.func_index
                - imported.len()].address - place + r.addend) / pow(256, digit)) % 256
        }),
{
    let rs = relocations[i];
    let r = rs[k];
    let body = functions[i];
    assert(relocation_fits(functions, imported, i, relocations[i][k]));
    let target = target_address(functions, imported, r.func_index);
    let distance = target - (body.address + r.offset + 4) + r.addend;
    let word = patch_word(target, body.address, r);
    let q = -(distance / 0x1_0000_0000);
    lemma_patched_len(order, functions, imported, body, rs, k);
    lemma_patched_len(order, functions, imported, body, rs, rs.len() as int);
    lemma_byte_is_kept(
        order,
        functions,
        imported,
        body,
        rs,
        k + 1,
        rs.len() as int,
        r.offset + 4 + p,
    );
    lemma_powers_of_256();
    assert(word == distance + q * pow(256, 4));
    bytes_are_digits(order, word, 4, p as nat);
    bytes_are_digits(order, word, 4, (3 - p) as nat);
    lemma_digit_of_shifted(distance, q, 4, p as nat);
    lemma_digit_of_shifted(distance, q, 4, (3 - p) as nat);
}

/// Following a call leads to the function that is called: where no later relocation overlaps this
/// one, the word that stands in the linked code, added to the place where it stands, less the
/// addend, is the address that is given for the imported function, or the address of the compiled
/// function, up to whole multiples of the range of a word. So two calls from one place that lead to
/// functions at different distances differ.
pub proof fn calls_lead_to_their_functions(
    order: ByteOrder,
    functions: Seq<BodyView>,
    relocations: Seq<Seq<Relocation>>,
    imported: Seq<u64>,
    i: int,
    k: int,
)
    requires
        relocations_fit(functions, relocations, imported),
        0 <= i < relocations.len(),
        0 <= k < relocations[i].len(),
        forall|m: int|
            k < m < relocations[i].len() ==> relocations[i][k].offset + 4 <= (
            #[trigger] relocations[i][m]).offset || relocations[i][m].offset + 4
                <= relocations[i][k].offset,
    ensures
        ({
            let code = relocated(order, functions, relocations, imported)[i].code;
            let r = relocations[i][k];
            let at = r.offset + 4;
            let place = functions[i].address + at;
            let little = code[at] + 0x100 * code[at + 1] + 0x1_0000 * code[at + 2] + 0x100_0000
                * code[at + 3];
            let big = code[at + 3] + 0x100 * code[at + 2] + 0x1_0000 * code[at + 1] + 0x100_0000
                * code[at];
            let word = if order is Little {
                little
            } else {
                big
            };
            &&& at + 4 <= code.len()
            &&& r.func_index < imported.len() ==> (place + word - r.addend
                - imported[r.func_index as int]) % 0x1_0000_0000 == 0
            &&& r.func_index >= imported.len() ==> (place + word - r.addend - functions[r.func_index
                - imported.len()].address) % 0x1_0000_0000 == 0
        }),
{
    let rs = relocations[i];
    let r = rs[k];
    let at = r.offset + 4;
    let code = relocated(order, functions, relocations, imported)[i].code;
    assert(relocation_fits(functions, imported, i, relocations[i][k]));
    assert forall|m: int| k < m < rs.len() implies patch_offset(#[trigger] rs[m]) + 4
        <= patch_offset(r) || patch_offset(r) + 4 <= patch_offset(rs[m]) by {
        assert(relocations[i][m] == rs[m]);
    }
    relocation_reads_back(order, functions, imported, functions[i], rs, k);
    lemma_patched_len(order, functions, imported, functions[i], rs, rs.len() as int);
    let bytes = code.subrange(at, at + 4);
    lemma_le_value_of_four(bytes);
    lemma_le_value_of_four(bytes.reverse());
    relocation_leads_to_target(
        target_address(functions, imported, r.func_index),
        functions[i].address,
        r,
    );
}

/// Two relocations at the same place of the same function, with the same addend, to imported
/// functions whose addresses differ by less than the range of a word, write different words.
pub proof fn calls_of_different_imports_differ(
    functions: Seq<BodyView>,
    imported: Seq<u64>,
    address: u64,
    r: Relocation,
    other: Relocation,
)
    requires
        r.offset == other.offset,
        r.addend == other.addend,
        r.func_index < imported.len(),
        other.func_index < imported.len(),
        0 < imported[r.func_index as int] - imported[other.func_index as int] < 0x1_0000_0000,
    ensures
        patch_word(target_address(functions, imported, r.func_index), address, r) != patch_word(
            target_address(functions, imported, other.func_index),
            address,
            other,
        ),
{
}

/// A compilation holds the code to run for the start function at the place that comes after the
/// imported functions, and the place of a function and the number of imports make up its position.
pub proof fn places_count_from_the_imports(module: ModuleView, defined: nat, index: FunctionIndex)
    ensures
        module.place(index) + module.imported_funcs.len() == index,
        module.defines(defined, index) <==> 0 <= index - module.imported_funcs.len() < defined,
        module.start_is_not_imported() <==> (module.start_func matches Some(start) ==> start
            >= module.imported_funcs.len()),
{
}

} // verus!
