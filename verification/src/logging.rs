//! Where log files stand and how a log record names its origin.
use vstd::prelude::*;

use vstd::arithmetic::power::pow;
use vstd::string::StringExecFns;

use crate::bytes::{decimal, decimal_bytes, numerals_show_their_numbers};

verus! {

/// The decimal numeral of `n` as text.
pub open spec fn decimal_text(n: nat) -> Seq<char> {
    decimal(n).map_values(|digit: u8| digit as char)
}

/// The bytes of a numeral are the codes of decimal digits.
proof fn lemma_decimal_digits(n: nat)
    ensures
        forall|k: int| 0 <= k < decimal(n).len() ==> 48 <= #[trigger] decimal(n)[k] < 58,
    decreases n,
{
    if n >= 10 {
        lemma_decimal_digits(n / 10);
        assert forall|k: int| 0 <= k < decimal(n).len() implies 48 <= #[trigger] decimal(n)[k]
            < 58 by {
            if k < decimal(n).len() - 1 {
                assert(decimal(n)[k] == decimal(n / 10)[k]);
            }
        }
    }
}

/// The text of a decimal digit.
fn digit_text(digit: u8) -> (text: &'static str)
    requires
        48 <= digit < 58,
    ensures
        text@ == seq![digit as char],
{
    proof {
        reveal_strlit("0");
        reveal_strlit("1");
        reveal_strlit("2");
        reveal_strlit("3");
        reveal_strlit("4");
        reveal_strlit("5");
        reveal_strlit("6");
        reveal_strlit("7");
        reveal_strlit("8");
        reveal_strlit("9");
    }
    let text = match digit {
        48 => "0",
        49 => "1",
        50 => "2",
        51 => "3",
        52 => "4",
        53 => "5",
        54 => "6",
        55 => "7",
        56 => "8",
        _ => "9",
    };
    assert(text@ =~= seq![digit as char]);
    text
}

/// The decimal numeral of `n` as text.
pub fn decimal_string(n: u32) -> (text: String)
    ensures
        text@ == decimal_text(n as nat),
{
    let digits: Vec<u8> = decimal_bytes(n as u64);
    let mut text: String = String::new();
    let mut k: usize = 0;
    proof {
        lemma_decimal_digits(n as nat);
    }
    assert(text@ =~= digits@.take(0).map_values(|digit: u8| digit as char));
    while k < digits.len()
        invariant
            k <= digits@.len(),
            forall|m: int| 0 <= m < digits@.len() ==> 48 <= #[trigger] digits@[m] < 58,
            text@ == digits@.take(k as int).map_values(|digit: u8| digit as char),
        decreases digits@.len() - k,
    {
        text.append(digit_text(digits[k]));
        k = k + 1;
        assert(text@ =~= digits@.take(k as int).map_values(|digit: u8| digit as char));
    }
    assert(digits@.take(k as int) =~= digits@);
    text
}

/// The file that a log with the given name is written to.
pub fn log_file_path(log_path: &str) -> (path: String)
    ensures
        path@ == "tests/logs/"@ + log_path@,
{
    "tests/logs/".to_owned().concat(log_path)
}

/// How a log record names the place in the source that it comes from.
pub fn record_origin(file: &str, line: u32) -> (origin: String)
    ensures
        origin@ == file@ + ":"@ + decimal_text(line as nat),
{
    file.to_owned().concat(":").concat(decimal_string(line).as_str())
}

/// The text of a numeral shows the number: the character that stands `k` places before the end is
/// the digit that counts ten to the power of `k`, and there is no leading zero.
pub proof fn numeral_texts_show_their_numbers(n: nat, k: nat)
    ensures
        ({
            let text = decimal_text(n);
            &&& text.len() >= 1
            &&& k < text.len() ==> text[text.len() - 1 - k] as int == '0' as int + (n as int / pow(
                10,
                k,
            )) % 10
            &&& n < pow(10, text.len())
            &&& text.len() > 1 ==> n >= pow(10, (text.len() - 1) as nat)
        }),
{
    numerals_show_their_numbers(n, k);
    lemma_decimal_digits(n);
}

} // verus!
