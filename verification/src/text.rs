//! The string that a value is read as where a string is wanted: the name of a
//! property, the key of a host mapping.
//!
//! The text of undefined, null, a boolean, an integer of any size and a string
//! follows from the value alone and is computed here. The text of a double, of
//! an array, of an object, of a keyed collection and of any other kind is the
//! runtime's to give; a snapshot does not hold it, and such a value has no
//! text here.

use crate::value::{word_base, words_value, BigInt, Value, ValueModel};
use vstd::prelude::*;
use vstd::string::*;

verus! {

/// The character of one decimal digit.
pub open spec fn digit(d: int) -> char {
    (48 + d) as char
}

/// The decimal digits of a natural number, most significant first, without
/// leading zeros.
pub open spec fn digits(n: nat) -> Seq<char>
    decreases n,
{
    if n < 10 {
        seq![digit(n as int)]
    } else {
        digits(n / 10).push(digit((n % 10) as int))
    }
}

/// The decimal form of an integer: its digits, behind a minus sign where it is
/// negative.
pub open spec fn decimal(v: int) -> Seq<char> {
    if v < 0 {
        seq!['-'] + digits((-v) as nat)
    } else {
        digits(v as nat)
    }
}

/// The digits of `rest`, where it is not zero, and then `tail`.
pub open spec fn digits_then(rest: nat, tail: Seq<char>) -> Seq<char> {
    if rest == 0 {
        tail
    } else {
        digits(rest) + tail
    }
}

/// Taking the last digit off a number and putting it in front of the tail
/// leaves the whole unchanged.
pub proof fn lemma_digits_step(rest: nat, tail: Seq<char>)
    requires
        rest > 0,
    ensures
        digits_then(rest, tail) == digits_then(rest / 10, seq![digit((rest % 10) as int)] + tail),
{
}

impl ValueModel {
    /// The string that this value is read as, where that follows from the
    /// value alone.
    pub open spec fn text(self) -> Option<Seq<char>> {
        match self {
            ValueModel::Undefined => Some("undefined"@),
            ValueModel::Null => Some("null"@),
            ValueModel::Boolean(b) => Some(
                if b {
                    "true"@
                } else {
                    "false"@
                },
            ),
            ValueModel::Int32(i) => Some(decimal(i as int)),
            ValueModel::UInt32(u) => Some(decimal(u as int)),
            ValueModel::BigInt(b) => Some(decimal(b)),
            ValueModel::String(s) => Some(s),
            ValueModel::Float64(_) => None,
            ValueModel::Array(_) => None,
            ValueModel::Object(_) => None,
            ValueModel::OpaqueObject => None,
            ValueModel::Mapping(_) => None,
            ValueModel::Other => None,
            ValueModel::Unresolved => None,
        }
    }
}

/// The text of one decimal digit.
fn digit_text(d: u64) -> (text: &'static str)
    requires
        d < 10,
    ensures
        text@ == seq![digit(d as int)],
{
    proof {
        reveal_strlit("0");
        reveal_strlit("1");
        reveal_strlit("2");
        reveal_strlit("3");
        reveal_strlit("4");
        reveal_strlit("5");
        reveal_strlit("6");
        reveal_strlit("7");
        reveal_strlit("8");
        reveal_strlit("9");
    }
    let text = if d == 0 {
        "0"
    } else if d == 1 {
        "1"
    } else if d == 2 {
        "2"
    } else if d == 3 {
        "3"
    } else if d == 4 {
        "4"
    } else if d == 5 {
        "5"
    } else if d == 6 {
        "6"
    } else if d == 7 {
        "7"
    } else if d == 8 {
        "8"
    } else {
        "9"
    };
    text
}

/// The decimal digits of `n`.
pub fn decimal_u64(n: u64) -> (text: String)
    ensures
        text@ == digits(n as nat),
{
    let mut rest: u64 = n / 10;
    let mut text: String = digit_text(n % 10).to_owned();
    while rest > 0
        invariant
            digits(n as nat) == digits_then(rest as nat, text@),
        decreases rest,
    {
        proof {
            lemma_digits_step(rest as nat, text@);
        }
        text = digit_text(rest % 10).to_owned().concat(text.as_str());
        rest = rest / 10;
    }
    text
}

/// The decimal form of `v`.
pub fn decimal_i64(v: i64) -> (text: String)
    ensures
        text@ == decimal(v as int),
{
    if v >= 0 {
        decimal_u64(v as u64)
    } else {
        let magnitude: u64 = if v == i64::MIN {
            0x8000_0000_0000_0000
        } else {
            (-v) as u64
        };
        proof {
            reveal_strlit("-");
        }
        "-".to_owned().concat(decimal_u64(magnitude).as_str())
    }
}

/// The number that the words from index `from` on hold.
pub open spec fn upper_value(words: Seq<u64>, from: int) -> int {
    words_value(words.skip(from))
}

/// The words from one index on hold the word at that index and, a word
/// higher, what the words above it hold.
pub proof fn lemma_upper_value(words: Seq<u64>, from: int)
    requires
        0 <= from < words.len(),
    ensures
        upper_value(words, from) == words[from] + word_base() * upper_value(words, from + 1),
        upper_value(words, words.len() as int) == 0,
{
    assert(words.skip(from).drop_first() =~= words.skip(from + 1));
}

/// No sequence of words holds a negative number.
pub proof fn lemma_words_value_bounds(words: Seq<u64>)
    ensures
        words_value(words) >= 0,
        words_value(words) == 0 <==> forall|i: int| 0 <= i < words.len() ==> words[i] == 0,
    decreases words.len(),
{
    if words.len() > 0 {
        let rest = words.drop_first();
        lemma_words_value_bounds(rest);
        if words_value(words) == 0 {
            assert forall|i: int| 0 <= i < words.len() implies words[i] == 0 by {
                if i > 0 {
                    assert(words[i] == rest[i - 1]);
                }
            }
        }
    }
}

/// Whether the words hold zero.
fn is_zero(words: &Vec<u64>) -> (zero: bool)
    ensures
        zero == (words_value(words@) == 0),
{
    let mut i: usize = 0;
    while i < words.len()
        invariant
            i <= words.len(),
            forall|j: int| 0 <= j < i ==> words@[j] == 0,
        decreases words.len() - i,
    {
        if words[i] != 0 {
            proof {
                lemma_words_value_bounds(words@);
            }
            return false;
        }
        i += 1;
    }
    proof {
        lemma_words_value_bounds(words@);
    }
    true
}

/// Divides the number that the words hold by ten, in place, and returns the
/// remainder.
fn divide_by_ten(words: &mut Vec<u64>) -> (remainder: u64)
    ensures
        remainder < 10,
        final(words)@.len() == old(words)@.len(),
        words_value(old(words)@) == 10 * words_value(final(words)@) + remainder,
{
    let ghost before = words@;
    let mut remainder: u64 = 0;
    let mut i: usize = words.len();
    while i > 0
        invariant
            i <= words@.len(),
            words@.len() == before.len(),
            remainder < 10,
            forall|j: int| 0 <= j < i ==> words@[j] == before[j],
            upper_value(before, i as int) == 10 * upper_value(words@, i as int) + remainder,
        decreases i,
    {
        i -= 1;
        let ghost above = words@;
        let current: u128 = (remainder as u128) * 0x1_0000_0000_0000_0000u128 + (words[i] as u128);
        let quotient: u128 = current / 10;
        let next: u64 = (current % 10) as u64;
        words.set(i, quotient as u64);
        proof {
            lemma_upper_value(before, i as int);
            lemma_upper_value(words@, i as int);
            assert(words@.skip(i + 1) =~= above.skip(i + 1));
        }
        remainder = next;
    }
    proof {
        assert(before.skip(0) =~= before);
        assert(words@.skip(0) =~= words@);
    }
    remainder
}

/// The decimal digits of the number that the words hold.
pub fn decimal_words(words: &Vec<u64>) -> (text: String)
    ensures
        text@ == digits(words_value(words@) as nat),
{
    let mut rest: Vec<u64> = words.clone();
    proof {
        lemma_words_value_bounds(rest@);
    }
    let ghost whole = words_value(words@) as nat;
    let first = divide_by_ten(&mut rest);
    let mut text: String = digit_text(first).to_owned();
    proof {
        lemma_words_value_bounds(rest@);
    }
    while !is_zero(&rest)
        invariant
            words_value(rest@) >= 0,
            digits(whole) == digits_then(words_value(rest@) as nat, text@),
        decreases words_value(rest@),
    {
        let ghost before = words_value(rest@) as nat;
        proof {
            lemma_digits_step(before, text@);
        }
        let d = divide_by_ten(&mut rest);
        proof {
            lemma_words_value_bounds(rest@);
        }
        text = digit_text(d).to_owned().concat(text.as_str());
    }
    text
}

impl BigInt {
    /// The decimal form of the number.
    pub fn decimal(&self) -> (text: String)
        ensures
            text@ == decimal(self@),
    {
        proof {
            lemma_words_value_bounds(self.words@);
            reveal_strlit("-");
        }
        if self.negative && !is_zero(&self.words) {
            "-".to_owned().concat(decimal_words(&self.words).as_str())
        } else {
            decimal_words(&self.words)
        }
    }
}

/// Reads a value as a string, where its text follows from the value alone.
pub fn coerce_to_string(input: &Value) -> (text: Option<String>)
    ensures
        match text {
            Some(s) => input@.text() == Some(s@),
            None => input@.text() is None,
        },
{
    match input {
        Value::Undefined => Some("undefined".to_owned()),
        Value::Null => Some("null".to_owned()),
        Value::Boolean(b) => if *b {
            Some("true".to_owned())
        } else {
            Some("false".to_owned())
        },
        Value::Int32(i) => Some(decimal_i64(*i as i64)),
        Value::UInt32(u) => Some(decimal_u64(*u as u64)),
        Value::BigInt(b) => Some(b.decimal()),
        Value::String(s) => Some(s.clone()),
        _ => None,
    }
}

} // verus!
