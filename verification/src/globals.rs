//! The global variables of a module and the bytes that hold them.
use vstd::prelude::*;

use vstd::arithmetic::power::pow;

use crate::bytes::{
    bits32, bits64, bytes_are_digits, bytes_of_i32_are_digits, bytes_of_i64_are_digits, encode,
    encode_i32, encode_i64, lemma_word_bytes_len, overwrite, overwrite_read_back, resized,
    word_bytes, write_bytes,
};
use crate::entities::{Global, GlobalIndex, GlobalInit, Type};
use crate::target::ByteOrder;

verus! {

/// Where the bytes of global `i` begin: the widths of the globals before it, added up.
pub open spec fn slot_offset(globals: Seq<Global>, i: int) -> nat
    decreases i,
{
    if i <= 0 {
        0
    } else {
        slot_offset(globals, i - 1) + globals[i - 1].ty.width()
    }
}

/// How many bytes all the globals take.
pub open spec fn globals_size(globals: Seq<Global>) -> nat {
    slot_offset(globals, globals.len() as int)
}

/// Where the bytes of each global begin.
pub open spec fn slot_offsets(globals: Seq<Global>) -> Seq<usize> {
    Seq::new(globals.len(), |i: int| slot_offset(globals, i) as usize)
}

/// The bytes of global `i` in `data`.
pub open spec fn slot(globals: Seq<Global>, data: Seq<u8>, i: int) -> Seq<u8> {
    data.subrange(
        slot_offset(globals, i) as int,
        (slot_offset(globals, i) + globals[i].ty.width()) as int,
    )
}

/// How many bytes the initializer of a global writes.
pub open spec fn init_width(global: Global) -> nat {
    match global.initializer {
        GlobalInit::I32Const(_) => 4,
        GlobalInit::I64Const(_) => 8,
        GlobalInit::F32Const(_) => 4,
        GlobalInit::F64Const(_) => 8,
        GlobalInit::Import => 0,
        GlobalInit::GlobalRef(_) => global.ty.width(),
    }
}

/// The bytes that the initializer of global `i` writes, when `data` is there already.
pub open spec fn init_bytes(
    order: ByteOrder,
    globals: Seq<Global>,
    data: Seq<u8>,
    i: int,
) -> Seq<u8> {
    match globals[i].initializer {
        GlobalInit::I32Const(value) => word_bytes(order, bits32(value), 4),
        GlobalInit::I64Const(value) => word_bytes(order, bits64(value), 8),
        GlobalInit::F32Const(bits) => word_bytes(order, bits as nat, 4),
        GlobalInit::F64Const(bits) => word_bytes(order, bits as nat, 8),
        GlobalInit::Import => Seq::empty(),
        GlobalInit::GlobalRef(index) => data.subrange(
            slot_offset(globals, index as int) as int,
            (slot_offset(globals, index as int) + globals[i].ty.width()) as int,
        ),
    }
}

/// The bytes of all the globals once the first `n` initializers have run, in order, over `base`.
pub open spec fn initialized(
    order: ByteOrder,
    globals: Seq<Global>,
    base: Seq<u8>,
    n: int,
) -> Seq<u8>
    decreases n,
{
    if n <= 0 {
        base
    } else {
        let before = initialized(order, globals, base, n - 1);
        overwrite(
            before,
            slot_offset(globals, n - 1) as int,
            init_bytes(order, globals, before, n - 1),
        )
    }
}

/// The bytes of all the globals once they were given their slots and all the initializers have run,
/// when the bytes were `data` before.
pub open spec fn allocated(order: ByteOrder, globals: Seq<Global>, data: Seq<u8>) -> Seq<u8> {
    initialized(order, globals, resized(data, globals_size(globals)), globals.len() as int)
}

/// Whether the initializer of global `i` stays within the bytes of the globals and, where it copies
/// another global, copies between regions that do not overlap.
pub open spec fn init_in_bounds(globals: Seq<Global>, i: int) -> bool {
    let at = slot_offset(globals, i);
    let size = globals_size(globals);
    match globals[i].initializer {
        GlobalInit::GlobalRef(index) => {
            let from = slot_offset(globals, index as int);
            let width = globals[i].ty.width();
            &&& index < globals.len()
            &&& from + width <= size
            &&& from + width <= at || at + width <= from
        },
        GlobalInit::Import => true,
        _ => at + init_width(globals[i]) <= size,
    }
}

/// Whether the globals can be laid out and initialized: they fit in memory and every initializer
/// stays in bounds.
pub open spec fn can_initialize(globals: Seq<Global>) -> bool {
    &&& globals_size(globals) <= isize::MAX
    &&& forall|i: int| 0 <= i < globals.len() ==> #[trigger] init_in_bounds(globals, i)
}

/// Whether global `i` holds what it was declared with in the end: a constant is as wide as its
/// global, a copy is one of an earlier global of the same width, and an import stands behind
/// constants that are no wider than their globals.
pub open spec fn keeps_declaration(globals: Seq<Global>, i: int) -> bool {
    match globals[i].initializer {
        GlobalInit::GlobalRef(index) => index < i && globals[index as int].ty.width()
            == globals[i].ty.width(),
        GlobalInit::Import => forall|k: int|
            0 <= k < i ==> init_width(#[trigger] globals[k]) <= globals[k].ty.width(),
        _ => init_width(globals[i]) == globals[i].ty.width(),
    }
}

/// Whether every constant has the type of its global and every global that copies another one
/// copies an earlier global of the same type.
pub open spec fn well_typed(globals: Seq<Global>) -> bool {
    forall|i: int| 0 <= i < globals.len() ==> #[trigger] well_typed_at(globals, i)
}

/// Whether the constant of global `i` has its type, or the global that it copies is an earlier one
/// of the same type.
pub open spec fn well_typed_at(globals: Seq<Global>, i: int) -> bool {
    match globals[i].initializer {
        GlobalInit::I32Const(_) => globals[i].ty == Type::I32,
        GlobalInit::I64Const(_) => globals[i].ty == Type::I64,
        GlobalInit::F32Const(_) => globals[i].ty == Type::F32,
        GlobalInit::F64Const(_) => globals[i].ty == Type::F64,
        GlobalInit::Import => true,
        GlobalInit::GlobalRef(index) => index < i && globals[index as int].ty == globals[i].ty,
    }
}

/// The bytes that global `i` has to hold in `data`, when the initializers ran over `base`: its
/// constant, what was there for an import, or what the global that it copies holds.
pub open spec fn declared_bytes(
    order: ByteOrder,
    globals: Seq<Global>,
    base: Seq<u8>,
    data: Seq<u8>,
    i: int,
) -> Seq<u8> {
    match globals[i].initializer {
        GlobalInit::I32Const(value) => word_bytes(order, bits32(value), 4),
        GlobalInit::I64Const(value) => word_bytes(order, bits64(value), 8),
        GlobalInit::F32Const(bits) => word_bytes(order, bits as nat, 4),
        GlobalInit::F64Const(bits) => word_bytes(order, bits as nat, 8),
        GlobalInit::Import => slot(globals, base, i),
        GlobalInit::GlobalRef(index) => slot(globals, data, index as int),
    }
}

/// The slots of the globals follow one another without gap or overlap and fill the data exactly.
pub proof fn slots_tile_the_data(globals: Seq<Global>, i: int, j: int)
    requires
        0 <= i < j <= globals.len(),
    ensures
        slot_offset(globals, 0) == 0,
        slot_offset(globals, i) + globals[i].ty.width() == slot_offset(globals, i + 1),
        slot_offset(globals, i) + globals[i].ty.width() <= slot_offset(globals, j),
        slot_offset(globals, j) <= globals_size(globals),
    decreases globals.len() - i, j - i,
{
    if i + 1 < j {
        slots_tile_the_data(globals, i + 1, j);
    } else if j < globals.len() {
        slots_tile_the_data(globals, j, globals.len() as int);
    }
}

/// Initializing the globals does not change how many bytes they take.
pub proof fn lemma_initialized_len(
    order: ByteOrder,
    globals: Seq<Global>,
    base: Seq<u8>,
    n: int,
)
    ensures
        initialized(order, globals, base, n).len() == base.len(),
    decreases n,
{
    if n > 0 {
        lemma_initialized_len(order, globals, base, n - 1);
    }
}

/// An initializer writes as many bytes as its width says.
proof fn lemma_init_width(order: ByteOrder, globals: Seq<Global>, data: Seq<u8>, i: int)
    requires
        0 <= i < globals.len(),
        init_in_bounds(globals, i),
        data.len() == globals_size(globals),
    ensures
        init_bytes(order, globals, data, i).len() == init_width(globals[i]),
{
    match globals[i].initializer {
        GlobalInit::I32Const(value) => {
            lemma_word_bytes_len(order, bits32(value), 4);
        },
        GlobalInit::I64Const(value) => {
            lemma_word_bytes_len(order, bits64(value), 8);
        },
        GlobalInit::F32Const(bits) => {
            lemma_word_bytes_len(order, bits as nat, 4);
        },
        GlobalInit::F64Const(bits) => {
            lemma_word_bytes_len(order, bits as nat, 8);
        },
        GlobalInit::Import => {},
        GlobalInit::GlobalRef(_) => {},
    }
}

/// Once the initializer of global `i` has run, the later ones leave its slot alone.
proof fn lemma_slot_is_kept(
    order: ByteOrder,
    globals: Seq<Global>,
    base: Seq<u8>,
    i: int,
    n: int,
)
    requires
        0 <= i < n <= globals.len(),
        base.len() == globals_size(globals),
    ensures
        slot(globals, initialized(order, globals, base, n), i) == slot(
            globals,
            initialized(order, globals, base, i + 1),
            i,
        ),
    decreases n,
{
    if i + 1 < n {
        lemma_slot_is_kept(order, globals, base, i, n - 1);
        lemma_initialized_len(order, globals, base, n - 1);
        slots_tile_the_data(globals, i, n - 1);
        assert(slot(globals, initialized(order, globals, base, n), i) =~= slot(
            globals,
            initialized(order, globals, base, n - 1),
            i,
        ));
    }
}

/// The first `n` initializers leave the slot of global `i` alone where none of them writes beyond
/// its own slot.
proof fn lemma_slot_is_untouched(
    order: ByteOrder,
    globals: Seq<Global>,
    base: Seq<u8>,
    i: int,
    n: int,
)
    requires
        can_initialize(globals),
        base.len() == globals_size(globals),
        0 <= n <= i < globals.len(),
        forall|k: int| 0 <= k < i ==> init_width(#[trigger] globals[k]) <= globals[k].ty.width(),
    ensures
        slot(globals, initialized(order, globals, base, n), i) == slot(globals, base, i),
    decreases n,
{
    if n > 0 {
        let before = initialized(order, globals, base, n - 1);
        lemma_slot_is_untouched(order, globals, base, i, n - 1);
        lemma_initialized_len(order, globals, base, n - 1);
        assert(init_in_bounds(globals, n - 1));
        lemma_init_width(order, globals, before, n - 1);
        slots_tile_the_data(globals, n - 1, i);
        slots_tile_the_data(globals, i, globals.len() as int);
        assert(slot(globals, initialized(order, globals, base, n), i) =~= slot(
            globals,
            before,
            i,
        ));
    }
}

/// After all the initializers have run, every global whose declaration is kept holds what it was
/// declared with: its constant, what was there before if it is imported, or the bytes of the global
/// that it copies.
pub proof fn globals_hold_their_initializers(
    order: ByteOrder,
    globals: Seq<Global>,
    base: Seq<u8>,
    i: int,
)
    requires
        can_initialize(globals),
        base.len() == globals_size(globals),
        0 <= i < globals.len(),
        keeps_declaration(globals, i),
    ensures
        ({
            let data = initialized(order, globals, base, globals.len() as int);
            slot(globals, data, i) == declared_bytes(order, globals, base, data, i)
        }),
{
    let n = globals.len() as int;
    let before = initialized(order, globals, base, i);
    let written = init_bytes(order, globals, before, i);
    let at = slot_offset(globals, i) as int;
    assert(init_in_bounds(globals, i));
    lemma_slot_is_kept(order, globals, base, i, n);
    lemma_initialized_len(order, globals, base, i);
    lemma_init_width(order, globals, before, i);
    slots_tile_the_data(globals, i, n);
    overwrite_read_back(before, at, written);
    match globals[i].initializer {
        GlobalInit::Import => {
            lemma_slot_is_untouched(order, globals, base, i, i);
            assert(overwrite(before, at, written) =~= before);
        },
        GlobalInit::GlobalRef(index) => {
            lemma_slot_is_kept(order, globals, base, index as int, i);
            lemma_slot_is_kept(order, globals, base, index as int, n);
        },
        _ => {},
    }
}

/// A well-typed list of globals that fits in memory can be initialized, and keeps every
/// declaration.
pub proof fn well_typed_globals_keep_their_declarations(globals: Seq<Global>)
    requires
        well_typed(globals),
        globals_size(globals) <= isize::MAX,
    ensures
        can_initialize(globals),
        forall|i: int| 0 <= i < globals.len() ==> #[trigger] keeps_declaration(globals, i),
{
    assert forall|i: int| 0 <= i < globals.len() implies #[trigger] init_in_bounds(globals, i) by {
        assert(well_typed_at(globals, i));
        slots_tile_the_data(globals, i, globals.len() as int);
        if let GlobalInit::GlobalRef(index) = globals[i].initializer {
            slots_tile_the_data(globals, index as int, i);
        }
    }
    assert forall|i: int| 0 <= i < globals.len() implies #[trigger] keeps_declaration(
        globals,
        i,
    ) by {
        assert(well_typed_at(globals, i));
        assert forall|k: int| 0 <= k < i implies init_width(#[trigger] globals[k])
            <= globals[k].ty.width() by {
            assert(well_typed_at(globals, k));
        }
    }
}

/// The layout: the first global begins at zero, each global begins where the one before it ends,
/// 32-bit values take four bytes and 64-bit values eight, and the size is where the last one ends.
pub proof fn globals_follow_one_another(globals: Seq<Global>, i: int)
    requires
        0 <= i < globals.len(),
    ensures
        slot_offset(globals, 0) == 0,
        (globals[i].ty is I32 || globals[i].ty is F32) ==> slot_offset(globals, i + 1)
            == slot_offset(globals, i) + 4,
        (globals[i].ty is I64 || globals[i].ty is F64) ==> slot_offset(globals, i + 1)
            == slot_offset(globals, i) + 8,
        globals_size(globals) == slot_offset(globals, globals.len() as int),
        slot_offsets(globals).len() == globals.len(),
        globals_size(globals) <= usize::MAX ==> slot_offsets(globals)[i] == slot_offset(globals, i),
{
    slots_tile_the_data(globals, i, globals.len() as int);
}

/// Which globals can be initialized: those that take no more memory than there can be, whose
/// constants end where the last global ends at the latest, and which copy other globals only, from
/// within the bytes of the globals and between places that do not overlap.
pub proof fn initializable_globals(globals: Seq<Global>)
    ensures
        ({
            let size = slot_offset(globals, globals.len() as int);
            can_initialize(globals) <==> {
                &&& size <= isize::MAX
                &&& forall|i: int|
                    0 <= i < globals.len() ==> {
                        let at = slot_offset(globals, i);
                        let wide = globals[i].ty is I64 || globals[i].ty is F64;
                        let width = if wide {
                            8nat
                        } else {
                            4nat
                        };
                        match (#[trigger] globals[i]).initializer {
                            GlobalInit::I32Const(_) => at + 4 <= size,
                            GlobalInit::F32Const(_) => at + 4 <= size,
                            GlobalInit::I64Const(_) => at + 8 <= size,
                            GlobalInit::F64Const(_) => at + 8 <= size,
                            GlobalInit::Import => true,
                            GlobalInit::GlobalRef(j) => {
                                let from = slot_offset(globals, j as int);
                                &&& j < globals.len()
                                &&& from + width <= size
                                &&& from + width <= at || at + width <= from
                            },
                        }
                    }
            }
        }),
{
    if can_initialize(globals) {
        assert forall|i: int| 0 <= i < globals.len() implies {
            let at = slot_offset(globals, i);
            let wide = globals[i].ty is I64 || globals[i].ty is F64;
            let width = if wide {
                8nat
            } else {
                4nat
            };
            let size = slot_offset(globals, globals.len() as int);
            match (#[trigger] globals[i]).initializer {
                GlobalInit::I32Const(_) => at + 4 <= size,
                GlobalInit::F32Const(_) => at + 4 <= size,
                GlobalInit::I64Const(_) => at + 8 <= size,
                GlobalInit::F64Const(_) => at + 8 <= size,
                GlobalInit::Import => true,
                GlobalInit::GlobalRef(j) => {
                    let from = slot_offset(globals, j as int);
                    &&& j < globals.len()
                    &&& from + width <= size
                    &&& from + width <= at || at + width <= from
                },
            }
        } by {
            assert(init_in_bounds(globals, i));
        }
    } else if globals_size(globals) <= isize::MAX {
        let i = choose|i: int| 0 <= i < globals.len() && !#[trigger] init_in_bounds(globals, i);
        assert(globals[i] == globals[i]);
    }
}

/// Globals that hold constants of their own type, that are imported, or that copy an earlier global
/// of the same type can be initialized, however many there are, as long as they fit in memory.
pub proof fn typed_globals_can_be_initialized(globals: Seq<Global>)
    requires
        slot_offset(globals, globals.len() as int) <= isize::MAX,
        forall|i: int|
            0 <= i < globals.len() ==> match (#[trigger] globals[i]).initializer {
                GlobalInit::I32Const(_) => globals[i].ty is I32,
                GlobalInit::I64Const(_) => globals[i].ty is I64,
                GlobalInit::F32Const(_) => globals[i].ty is F32,
                GlobalInit::F64Const(_) => globals[i].ty is F64,
                GlobalInit::Import => true,
                GlobalInit::GlobalRef(j) => j < i && globals[j as int].ty == globals[i].ty,
            },
    ensures
        can_initialize(globals),
{
    assert forall|i: int| 0 <= i < globals.len() implies #[trigger] well_typed_at(globals, i) by {
        assert(globals[i] == globals[i]);
    }
    well_typed_globals_keep_their_declarations(globals);
}

/// The initializers from `m` on leave the bytes below slot `m` alone.
proof fn lemma_low_bytes_are_kept(
    order: ByteOrder,
    globals: Seq<Global>,
    base: Seq<u8>,
    m: int,
    n: int,
    b: int,
)
    requires
        base.len() == globals_size(globals),
        0 <= m <= n <= globals.len(),
        0 <= b < slot_offset(globals, m),
    ensures
        b < base.len(),
        initialized(order, globals, base, n)[b] == initialized(order, globals, base, m)[b],
    decreases n,
{
    lemma_initialized_len(order, globals, base, n);
    if m < globals.len() {
        slots_tile_the_data(globals, m, globals.len() as int);
    }
    if m < n {
        lemma_low_bytes_are_kept(order, globals, base, m, n - 1, b);
        lemma_initialized_len(order, globals, base, n - 1);
        if m < n - 1 {
            slots_tile_the_data(globals, m, n - 1);
        }
    }
}

/// The first `n` initializers leave the bytes ahead of them alone: those from four bytes behind the
/// start of slot `n` on, and those of slot `n` too where the last of them is no wider than its
/// slot.
proof fn lemma_bytes_ahead_are_untouched(
    order: ByteOrder,
    globals: Seq<Global>,
    base: Seq<u8>,
    n: int,
    b: int,
)
    requires
        can_initialize(globals),
        base.len() == globals_size(globals),
        0 <= n <= globals.len(),
        0 <= b < base.len(),
        n == 0 || b >= slot_offset(globals, n) + 4 || (b >= slot_offset(globals, n) && init_width(
            globals[n - 1],
        ) <= globals[n - 1].ty.width()),
    ensures
        initialized(order, globals, base, n)[b] == base[b],
    decreases n,
{
    if n > 0 {
        let before = initialized(order, globals, base, n - 1);
        lemma_initialized_len(order, globals, base, n - 1);
        assert(init_in_bounds(globals, n - 1));
        lemma_init_width(order, globals, before, n - 1);
        lemma_bytes_ahead_are_untouched(order, globals, base, n - 1, b);
    }
}

/// Every byte of every global after all the initializers have run over `base`, on either kind of
/// host: a constant stands in its global digit by digit, as far as the global reaches; a copy
/// equals what the copied global holds in the end where that global is an earlier one, and what was
/// there before where it is a later one; everything else is what was there before, but for an
/// import behind a constant that is wider than its global, into which that constant runs.
pub proof fn every_byte_of_a_global_is_known(
    order: ByteOrder,
    globals: Seq<Global>,
    base: Seq<u8>,
    i: int,
    p: int,
)
    requires
        can_initialize(globals),
        base.len() == slot_offset(globals, globals.len() as int),
        0 <= i < globals.len(),
        0 <= p < 8,
        (globals[i].ty is I32 || globals[i].ty is F32) ==> p < 4,
    ensures
        ({
            let data = initialized(order, globals, base, globals.len() as int);
            let at = slot_offset(globals, i) as int;
            let digit4 = if order is Little {
                p as nat
            } else {
                (3 - p) as nat
            };
            let digit8 = if order is Little {
                p as nat
            } else {
                (7 - p) as nat
            };
            &&& data.len() == base.len()
            &&& at + p < data.len()
            &&& match globals[i].initializer {
                GlobalInit::I32Const(v) => if p < 4 {
                    data[at + p] == (v as int / pow(256, digit4)) % 256
                } else {
                    data[at + p] == base[at + p]
                },
                GlobalInit::F32Const(bits) => if p < 4 {
                    data[at + p] == (bits as int / pow(256, digit4)) % 256
                } else {
                    data[at + p] == base[at + p]
                },
                GlobalInit::I64Const(v) => data[at + p] == (v as int / pow(256, digit8)) % 256,
                GlobalInit::F64Const(bits) => data[at + p] == (bits as int / pow(256, digit8))
                    % 256,
                GlobalInit::GlobalRef(j) => if j < i {
                    data[at + p] == data[slot_offset(globals, j as int) + p]
                } else {
                    data[at + p] == base[slot_offset(globals, j as int) + p]
                },
                GlobalInit::Import => {
                    let behind_narrow = i > 0 && p < 4 && (globals[i - 1].ty is I32 || globals[i
                        - 1].ty is F32);
                    let running_on = if order is Little {
                        (4 + p) as nat
                    } else {
                        (3 - p) as nat
                    };
                    match globals[i - 1].initializer {
                        GlobalInit::I64Const(v) if behind_narrow => data[at + p] == (v as int / pow(
                            256,
                            running_on,
                        )) % 256,
                        GlobalInit::F64Const(bits) if behind_narrow => data[at + p] == (bits as int
                            / pow(256, running_on)) % 256,
                        _ => data[at + p] == base[at + p],
                    }
                },
            }
        }),
{
    let n = globals.len() as int;
    let at = slot_offset(globals, i) as int;
    let before = initialized(order, globals, base, i);
    let written = init_bytes(order, globals, before, i);
    assert(init_in_bounds(globals, i));
    slots_tile_the_data(globals, i, n);
    lemma_initialized_len(order, globals, base, n);
    lemma_initialized_len(order, globals, base, i);
    lemma_init_width(order, globals, before, i);
    lemma_low_bytes_are_kept(order, globals, base, i + 1, n, at + p);
    if p >= 4 {
        lemma_bytes_ahead_are_untouched(order, globals, base, i, at + p);
    }
    match globals[i].initializer {
        GlobalInit::I32Const(v) => {
            if p < 4 {
                bytes_of_i32_are_digits(order, v, p as nat);
                bytes_of_i32_are_digits(order, v, (3 - p) as nat);
            }
        },
        GlobalInit::F32Const(bits) => {
            if p < 4 {
                bytes_are_digits(order, bits as nat, 4, p as nat);
                bytes_are_digits(order, bits as nat, 4, (3 - p) as nat);
            }
        },
        GlobalInit::I64Const(v) => {
            bytes_of_i64_are_digits(order, v, p as nat);
            bytes_of_i64_are_digits(order, v, (7 - p) as nat);
        },
        GlobalInit::F64Const(bits) => {
            bytes_are_digits(order, bits as nat, 8, p as nat);
            bytes_are_digits(order, bits as nat, 8, (7 - p) as nat);
        },
        GlobalInit::GlobalRef(j) => {
            if j < i {
                slots_tile_the_data(globals, j as int, i);
                lemma_low_bytes_are_kept(
                    order,
                    globals,
                    base,
                    i,
                    n,
                    slot_offset(globals, j as int) + p,
                );
            } else {
                slots_tile_the_data(globals, i, j as int);
                lemma_bytes_ahead_are_untouched(
                    order,
                    globals,
                    base,
                    i,
                    slot_offset(globals, j as int) + p,
                );
            }
        },
        GlobalInit::Import => {
            if i > 0 && p < 4 && init_width(globals[i - 1]) > globals[i - 1].ty.width() {
                let earlier = initialized(order, globals, base, i - 1);
                assert(init_in_bounds(globals, i - 1));
                lemma_initialized_len(order, globals, base, i - 1);
                lemma_init_width(order, globals, earlier, i - 1);
                match globals[i - 1].initializer {
                    GlobalInit::I64Const(v) => {
                        bytes_of_i64_are_digits(order, v, (4 + p) as nat);
                        bytes_of_i64_are_digits(order, v, (3 - p) as nat);
                    },
                    GlobalInit::F64Const(bits) => {
                        bytes_are_digits(order, bits as nat, 8, (4 + p) as nat);
                        bytes_are_digits(order, bits as nat, 8, (3 - p) as nat);
                    },
                    _ => {},
                }
            } else {
                lemma_bytes_ahead_are_untouched(order, globals, base, i, at + p);
            }
        },
    }
}

/// A global variable and where its bytes begin.
#[derive(Clone, Copy, Debug)]
struct GlobalInfo {
    global: Global,
    offset: usize,
}

/// The global variables of a module and the bytes that hold them.
#[derive(Debug)]
pub struct GlobalsData {
    data: Vec<u8>,
    info: Vec<GlobalInfo>,
}

impl GlobalsData {
    /// The globals, in the order of their declaration.
    pub closed spec fn globals(self) -> Seq<Global> {
        self.info@.map_values(|g: GlobalInfo| g.global)
    }

    /// Where the bytes of each global begin; zero before they are given their slots.
    pub closed spec fn offsets(self) -> Seq<usize> {
        self.info@.map_values(|g: GlobalInfo| g.offset)
    }

    /// The bytes that hold the globals.
    pub closed spec fn data(self) -> Seq<u8> {
        self.data@
    }

    /// No globals.
    pub fn new() -> (out: GlobalsData)
        ensures
            out.globals() == Seq::<Global>::empty(),
            out.offsets() == Seq::<usize>::empty(),
            out.data() == Seq::<u8>::empty(),
    {
        let out = GlobalsData { data: Vec::new(), info: Vec::new() };
        assert(out.globals() =~= Seq::<Global>::empty());
        assert(out.offsets() =~= Seq::<usize>::empty());
        out
    }

    /// How many globals there are.
    pub fn len(&self) -> (n: usize)
        ensures
            n == self.globals().len(),
            n == self.offsets().len(),
    {
        self.info.len()
    }

    /// The global at position `index`.
    pub fn get(&self, index: GlobalIndex) -> (global: Global)
        requires
            index < self.globals().len(),
        ensures
            global == self.globals()[index as int],
    {
        self.info[index].global
    }

    /// Adds a global behind those that are there.
    pub fn declare(&mut self, global: Global)
        ensures
            final(self).globals() == old(self).globals().push(global),
            final(self).offsets() == old(self).offsets().push(0),
            final(self).data() == old(self).data(),
    {
        self.info.push(GlobalInfo { global, offset: 0 });
        assert(self.globals() =~= old(self).globals().push(global));
        assert(self.offsets() =~= old(self).offsets().push(0));
    }

    /// Where the bytes of global `i` will begin.
    fn planned_offset(&self, i: usize) -> (offset: u128)
        requires
            i <= self.globals().len(),
        ensures
            offset == slot_offset(self.globals(), i as int),
            offset <= 8 * i,
    {
        let mut offset: u128 = 0;
        let mut k: usize = 0;
        while k < i
            invariant
                k <= i <= self.info@.len(),
                offset == slot_offset(self.globals(), k as int),
                offset <= 8 * k,
            decreases i - k,
        {
            let global = self.info[k].global;
            assert(self.globals()[k as int] == global);
            offset = offset + global.ty.bytes() as u128;
            k = k + 1;
        }
        offset
    }

    /// Tells whether the globals can be laid out and initialized.
    pub fn can_allocate(&self) -> (yes: bool)
        ensures
            yes == can_initialize(self.globals()),
    {
        let n: usize = self.info.len();
        let size: u128 = self.planned_offset(n);
        if size > isize::MAX as u128 {
            return false;
        }
        let mut i: usize = 0;
        while i < n
            invariant
                i <= n == self.info@.len(),
                size == globals_size(self.globals()),
                size <= isize::MAX,
                forall|k: int| 0 <= k < i ==> #[trigger] init_in_bounds(self.globals(), k),
            decreases n - i,
        {
            let global = self.info[i].global;
            assert(self.globals()[i as int] == global);
            let at: u128 = self.planned_offset(i);
            let fits: bool = match global.initializer {
                GlobalInit::I32Const(_) => at + 4 <= size,
                GlobalInit::I64Const(_) => at + 8 <= size,
                GlobalInit::F32Const(_) => at + 4 <= size,
                GlobalInit::F64Const(_) => at + 8 <= size,
                GlobalInit::Import => true,
                GlobalInit::GlobalRef(index) => {
                    if index < n {
                        let from: u128 = self.planned_offset(index);
                        let width: u128 = global.ty.bytes() as u128;
                        from + width <= size && (from + width <= at || at + width <= from)
                    } else {
                        false
                    }
                },
            };
            assert(fits == init_in_bounds(self.globals(), i as int));
            if !fits {
                return false;
            }
            i = i + 1;
        }
        true
    }

    /// Gives every global its slot and returns how many bytes they take together.
    fn lay_out(&mut self) -> (size: usize)
        requires
            globals_size(old(self).globals()) <= isize::MAX,
        ensures
            size == globals_size(old(self).globals()),
            final(self).globals() == old(self).globals(),
            final(self).offsets() == slot_offsets(old(self).globals()),
            final(self).data() == old(self).data(),
    {
        let ghost globals = self.globals();
        let mut size: usize = 0;
        let mut i: usize = 0;
        while i < self.info.len()
            invariant
                i <= self.info@.len(),
                self.globals() == globals,
                self.data() == old(self).data(),
                globals_size(globals) <= isize::MAX,
                size == slot_offset(globals, i as int),
                forall|k: int|
                    0 <= k < i ==> (#[trigger] self.info@[k]).offset == slot_offset(globals, k),
            decreases self.info@.len() - i,
        {
            let global = self.info[i].global;
            self.info.set(i, GlobalInfo { global, offset: size });
            proof {
                assert(self.globals() =~= globals);
                assert(globals[i as int] == global);
                slots_tile_the_data(globals, i as int, globals.len() as int);
            }
            size = size + global.ty.bytes() as usize;
            i = i + 1;
        }
        assert(self.offsets() =~= slot_offsets(globals));
        size
    }

    /// Runs the initializer of global `i`.
    fn initialize(&mut self, order: ByteOrder, i: usize)
        requires
            can_initialize(old(self).globals()),
            old(self).offsets() == slot_offsets(old(self).globals()),
            old(self).data().len() == globals_size(old(self).globals()),
            i < old(self).globals().len(),
        ensures
            final(self).globals() == old(self).globals(),
            final(self).offsets() == old(self).offsets(),
            final(self).data() == overwrite(
                old(self).data(),
                slot_offset(old(self).globals(), i as int) as int,
                init_bytes(order, old(self).globals(), old(self).data(), i as int),
            ),
    {
        let info = self.info[i];
        let ghost globals = self.globals();
        let total: usize = self.data.len();
        proof {
            assert(info.global == globals[i as int]);
            assert(info.offset == self.offsets()[i as int]);
            assert(init_in_bounds(globals, i as int));
            slots_tile_the_data(globals, i as int, globals.len() as int);
        }
        let bytes: Vec<u8> = match info.global.initializer {
            GlobalInit::I32Const(value) => encode_i32(order, value),
            GlobalInit::I64Const(value) => encode_i64(order, value),
            GlobalInit::F32Const(bits) => encode(order, bits as u64, 4),
            GlobalInit::F64Const(bits) => encode(order, bits, 8),
            GlobalInit::Import => Vec::new(),
            GlobalInit::GlobalRef(index) => {
                let from: usize = self.info[index].offset;
                let width: usize = info.global.ty.bytes() as usize;
                assert(from == self.offsets()[index as int]);
                assert(from + width <= total);
                vstd::slice::slice_to_vec(
                    vstd::slice::slice_subrange(self.data.as_slice(), from, from + width),
                )
            },
        };
        proof {
            assert(bytes@ =~= init_bytes(order, globals, self.data(), i as int));
            lemma_init_width(order, globals, self.data(), i as int);
        }
        write_bytes(&mut self.data, info.offset, bytes.as_slice());
    }

    /// Gives every global its slot and initializes the globals, one after the other.
    pub fn allocate(&mut self, order: ByteOrder)
        requires
            can_initialize(old(self).globals()),
        ensures
            final(self).globals() == old(self).globals(),
            final(self).offsets() == slot_offsets(old(self).globals()),
            final(self).data() == allocated(order, old(self).globals(), old(self).data()),
    {
        let ghost globals = self.globals();
        let ghost before = self.data();
        let ghost base = resized(before, globals_size(globals));
        let size: usize = self.lay_out();
        self.data.resize(size, 0);
        proof {
            if size > before.len() {
                assert(forall|k: int|
                    0 <= k < before.len() ==> self.data@[k] == self.data@.subrange(
                        0,
                        before.len() as int,
                    )[k]);
            }
            assert(self.data() =~= base);
        }
        let mut i: usize = 0;
        while i < self.info.len()
            invariant
                i <= globals.len(),
                self.globals() == globals,
                self.offsets() == slot_offsets(globals),
                can_initialize(globals),
                base.len() == globals_size(globals),
                self.data() == initialized(order, globals, base, i as int),
            decreases globals.len() - i,
        {
            proof {
                lemma_initialized_len(order, globals, base, i as int);
            }
            self.initialize(order, i);
            i = i + 1;
        }
    }

    /// The bytes of the global at position `index`.
    pub fn bytes_of(&self, index: GlobalIndex) -> (bytes: &[u8])
        requires
            index < self.globals().len(),
            self.offsets()[index as int] + self.globals()[index as int].ty.width()
                <= self.data().len(),
        ensures
            bytes@ == self.data().subrange(
                self.offsets()[index as int] as int,
                self.offsets()[index as int] + self.globals()[index as int].ty.width(),
            ),
    {
        let total: usize = self.data.len();
        let offset: usize = self.info[index].offset;
        let len: usize = self.info[index].global.ty.bytes() as usize;
        proof {
            assert(self.globals()[index as int] == self.info@[index as int].global);
            assert(self.offsets()[index as int] == self.info@[index as int].offset);
            assert(offset + len <= total);
        }
        vstd::slice::slice_subrange(self.data.as_slice(), offset, offset + len)
    }
}

} // verus!
