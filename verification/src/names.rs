//! The names under which functions are known to the code generator.
use vstd::prelude::*;

use vstd::arithmetic::power::pow;

use crate::bytes::{ascii_bytes, decimal, decimal_bytes, numerals_show_their_numbers};
use crate::entities::FunctionIndex;

verus! {

/// Whether the Latin-1 character with code `c` is a letter or a numeric character.
pub open spec fn latin1_alphanumeric(c: u8) -> bool {
    ||| 0x30 <= c <= 0x39  // 0 to 9
    ||| 0x41 <= c <= 0x5a  // A to Z
    ||| 0x61 <= c <= 0x7a  // a to z
    ||| c == 0xaa  // feminine ordinal indicator
    ||| c == 0xb2 || c == 0xb3  // superscript two and three
    ||| c == 0xb5  // micro sign
    ||| c == 0xb9 || c == 0xba  // superscript one, masculine ordinal indicator
    ||| 0xbc <= c <= 0xbe  // one quarter, one half, three quarters
    ||| 0xc0 <= c && c != 0xd7 && c != 0xf7  // accented letters, without the two signs
}

/// What `name_fold` makes of `c`.
pub open spec fn folded(c: u8) -> u8 {
    if latin1_alphanumeric(c) {
        c
    } else {
        0x5f
    }
}

/// `text` with each byte folded.
pub open spec fn folded_text(text: Seq<u8>) -> Seq<u8> {
    text.map_values(|c: u8| folded(c))
}

/// The name of an imported function: module and field, each folded, with an underscore between.
pub open spec fn import_name(module: Seq<u8>, field: Seq<u8>) -> Seq<u8> {
    folded_text(module).push(0x5f) + folded_text(field)
}

/// The name of a function that the module defines.
pub open spec fn local_name(index: nat) -> Seq<u8> {
    crate::bytes::ascii("localfunc"@) + crate::bytes::decimal(index)
}

/// Keeps letters and numeric characters and turns every other byte into an underscore.
pub fn name_fold(c: u8) -> (out: u8)
    ensures
        out == folded(c),
        out == c || out == 0x5f,
{
    if (c >= 0x30 && c <= 0x39) || (c >= 0x41 && c <= 0x5a) || (c >= 0x61 && c <= 0x7a) || c == 0xaa
        || c == 0xb2 || c == 0xb3 || c == 0xb5 || c == 0xb9 || c == 0xba || (c >= 0xbc && c <= 0xbe)
        || (c >= 0xc0 && c != 0xd7 && c != 0xf7) {
        c
    } else {
        0x5f
    }
}

/// Appends the folded bytes of `text` to `out`.
fn push_folded(out: &mut Vec<u8>, text: &[u8])
    ensures
        final(out)@ == old(out)@ + folded_text(text@),
{
    let ghost before = out@;
    let mut k: usize = 0;
    assert(out@ =~= before + folded_text(text@.take(0)));
    while k < text.len()
        invariant
            k <= text@.len(),
            out@ == before + folded_text(text@.take(k as int)),
        decreases text@.len() - k,
    {
        out.push(name_fold(text[k]));
        k = k + 1;
        assert(out@ =~= before + folded_text(text@.take(k as int)));
    }
    assert(text@.take(k as int) =~= text@);
}

/// Builds the name of an imported function.
pub fn mangle_import(module: &[u8], field: &[u8]) -> (name: Vec<u8>)
    ensures
        name@ == import_name(module@, field@),
{
    let mut name: Vec<u8> = Vec::new();
    push_folded(&mut name, module);
    name.push(0x5f);
    assert(name@ =~= folded_text(module@).push(0x5f));
    push_folded(&mut name, field);
    name
}

/// Builds the name of a function that the module defines.
pub fn mangle_local(index: FunctionIndex) -> (name: Vec<u8>)
    ensures
        name@ == local_name(index as nat),
{
    proof {
        reveal_strlit("localfunc");
    }
    let mut name: Vec<u8> = ascii_bytes("localfunc");
    let mut digits: Vec<u8> = decimal_bytes(index as u64);
    name.append(&mut digits);
    name
}

/// Every byte of an import's name is a letter, a numeric character or an underscore, and the name
/// is one byte longer than module and field together.
pub proof fn import_names_are_printable(module: Seq<u8>, field: Seq<u8>)
    ensures
        import_name(module, field).len() == module.len() + 1 + field.len(),
        forall|k: int|
            0 <= k < import_name(module, field).len() ==> {
                let c = #[trigger] import_name(module, field)[k];
                latin1_alphanumeric(c) || c == 0x5f
            },
{
}

/// Folding a byte twice is folding it once.
pub proof fn folding_is_idempotent(c: u8)
    ensures
        folded(folded(c)) == folded(c),
{
}

/// Folding keeps every byte that is a letter or a numeric character in Latin-1 and turns every
/// other byte into an underscore. Among the ASCII bytes those are the digits and the letters; from
/// 0xa0 on they are the ordinal indicators, the superscripts, the micro sign, the fractions, and
/// the letters with marks, which the signs of multiplication and division interrupt.
pub proof fn folding_keeps_letters_and_numerals(c: u8)
    ensures
        (0x30 <= c <= 0x39 || 0x41 <= c <= 0x5a || 0x61 <= c <= 0x7a) ==> folded(c) == c,
        c < 0x80 && !(0x30 <= c <= 0x39 || 0x41 <= c <= 0x5a || 0x61 <= c <= 0x7a) ==> folded(c)
            == 0x5f,
        0x80 <= c < 0xaa ==> folded(c) == 0x5f,
        (c == 0xaa || c == 0xb2 || c == 0xb3 || c == 0xb5 || c == 0xb9 || c == 0xba) ==> folded(c)
            == c,
        (0xab <= c <= 0xb1 || c == 0xb4 || 0xb6 <= c <= 0xb8 || c == 0xbb || c == 0xbf) ==> folded(
            c,
        ) == 0x5f,
        0xbc <= c <= 0xbe ==> folded(c) == c,
        (c == 0xd7 || c == 0xf7) ==> folded(c) == 0x5f,
        c >= 0xc0 && c != 0xd7 && c != 0xf7 ==> folded(c) == c,
{
}

/// The name of an import is made of its module and its field, byte for byte, in this order, with
/// one underscore between.
pub proof fn import_names_spell_module_and_field(module: Seq<u8>, field: Seq<u8>)
    ensures
        ({
            let name = import_name(module, field);
            &&& name.len() == module.len() + 1 + field.len()
            &&& forall|k: int|
                0 <= k < module.len() ==> #[trigger] name[k] == folded(module[k])
            &&& name[module.len() as int] == 0x5f
            &&& forall|k: int|
                0 <= k < field.len() ==> name[module.len() + 1 + k] == folded(#[trigger] field[k])
        }),
{
}

/// The name of a function that the module defines is the word `localfunc` and behind it the decimal
/// numeral of its position: the byte that stands `k` places before the end is the digit that counts
/// ten to the power of `k`.
pub proof fn local_names_spell_the_position(index: nat, k: nat)
    ensures
        ({
            let name = local_name(index);
            &&& name.len() >= 10
            &&& name.take(9) == seq![
                0x6cu8,
                0x6f,
                0x63,
                0x61,
                0x6c,
                0x66,
                0x75,
                0x6e,
                0x63,
            ]
            &&& k < name.len() - 9 ==> name[name.len() - 1 - k] == 48 + (index as int / pow(10, k))
                % 10
            &&& index < pow(10, (name.len() - 9) as nat)
            &&& name.len() > 10 ==> index >= pow(10, (name.len() - 10) as nat)
        }),
{
    reveal_strlit("localfunc");
    numerals_show_their_numbers(index, k);
    assert(crate::bytes::ascii("localfunc"@).len() == 9);
    assert(local_name(index).take(9) =~= seq![
        0x6cu8,
        0x6f,
        0x63,
        0x61,
        0x6c,
        0x66,
        0x75,
        0x6e,
        0x63,
    ]);
}

/// Functions at different positions have different names.
pub proof fn local_names_are_distinct(index: nat, other: nat)
    requires
        local_name(index) == local_name(other),
    ensures
        index == other,
{
    let a = crate::bytes::ascii("localfunc"@);
    assert(local_name(index).skip(a.len() as int) =~= decimal(index));
    assert(local_name(other).skip(a.len() as int) =~= decimal(other));
    lemma_numerals_are_distinct(index, other);
}

proof fn lemma_numerals_are_distinct(n: nat, m: nat)
    requires
        decimal(n) == decimal(m),
    ensures
        n == m,
    decreases n,
{
    numerals_show_their_numbers(n, 0);
    numerals_show_their_numbers(m, 0);
    if n >= 10 {
        numerals_show_their_numbers(n / 10, 0);
        if m >= 10 {
            numerals_show_their_numbers(m / 10, 0);
            assert(decimal(n).drop_last() =~= decimal(n / 10));
            assert(decimal(m).drop_last() =~= decimal(m / 10));
            lemma_numerals_are_distinct(n / 10, m / 10);
            assert(decimal(n).last() == decimal(m).last());
        } else {
            assert(decimal(m).len() == 1);
        }
    } else if m >= 10 {
        numerals_show_their_numbers(m / 10, 0);
        assert(decimal(n).len() == 1);
    } else {
        assert(decimal(n)[0] == decimal(m)[0]);
    }
}

} // verus!
