//! Texts of error messages, with numbers in decimal.

use vstd::prelude::*;
use vstd::string::*;

verus! {

/// The character of a decimal digit.
pub open spec fn digit(d: nat) -> char {
    ('0' as int + d) as char
}

/// A number in decimal, without leading zeros.
pub open spec fn dec(n: nat) -> Seq<char>
    decreases n,
{
    if n < 10 {
        seq![digit(n)]
    } else {
        dec(n / 10).push(digit(n % 10))
    }
}

fn digit_text(d: u64) -> (text: &'static str)
    requires
        d < 10,
    ensures
        text@ == seq![digit(d as nat)],
{
    proof {
        reveal_strlit("0");
        reveal_strlit("1");
        reveal_strlit("2");
        reveal_strlit("3");
        reveal_strlit("4");
        reveal_strlit("5");
        reveal_strlit("6");
        reveal_strlit("7");
        reveal_strlit("8");
        reveal_strlit("9");
    }
    let text = match d {
        0 => "0",
        1 => "1",
        2 => "2",
        3 => "3",
        4 => "4",
        5 => "5",
        6 => "6",
        7 => "7",
        8 => "8",
        _ => "9",
    };
    assert(text@ =~= seq![digit(d as nat)]);
    text
}

/// Render `n` in decimal.
pub fn decimal(n: u64) -> (text: String)
    ensures
        text@ == dec(n as nat),
    decreases n,
{
    if n < 10 {
        let mut text = String::new();
        text.append(digit_text(n));
        assert(text@ =~= dec(n as nat));
        text
    } else {
        let mut text = decimal(n / 10);
        text.append(digit_text(n % 10));
        assert(text@ =~= dec(n as nat));
        text
    }
}

/// One text after another.
pub fn glue(head: &str, tail: &str) -> (text: String)
    ensures
        text@ == head@ + tail@,
{
    let mut text = String::new();
    text.append(head);
    text.append(tail);
    assert(text@ =~= head@ + tail@);
    text
}

/// A number between two texts.
pub fn glue_number(head: &str, n: u64, tail: &str) -> (text: String)
    ensures
        text@ == head@ + dec(n as nat) + tail@,
{
    glue(glue(head, decimal(n).as_str()).as_str(), tail)
}

/// The number that decimal digits read as.
pub open spec fn read_decimal(digits: Seq<char>) -> int
    decreases digits.len(),
{
    if digits.len() == 0 {
        0
    } else {
        10 * read_decimal(digits.drop_last()) + (digits.last() as int - '0' as int)
    }
}

/// A number is rendered in decimal digits that read as it, without leading zeros.
pub proof fn law_a_number_reads_as_itself(n: u64, text: String)
    requires
        call_ensures(decimal, (n,), text),
    ensures
        read_decimal(text@) == n,
        text@.len() > 0,
        forall|i: int| 0 <= i < text@.len() ==> '0' <= #[trigger] text@[i] <= '9',
        text@.len() > 1 ==> text@[0] != '0',
{
    lemma_dec(n as nat);
}

/// The digits of a number.
pub proof fn lemma_dec(n: nat)
    ensures
        read_decimal(dec(n)) == n,
        dec(n).len() > 0,
        forall|i: int| 0 <= i < dec(n).len() ==> '0' <= #[trigger] dec(n)[i] <= '9',
        n > 0 ==> dec(n)[0] != '0',
        n >= 10 <==> dec(n).len() > 1,
    decreases n,
{
    reveal_with_fuel(read_decimal, 2);
    if n >= 10 {
        lemma_dec(n / 10);
        let head = dec(n / 10);
        assert(dec(n).drop_last() =~= head);
        assert(dec(n).last() == digit(n % 10));
        assert(dec(n)[0] == head[0]);
        assert forall|i: int| 0 <= i < dec(n).len() implies '0' <= #[trigger] dec(n)[i] <= '9' by {
            if i < head.len() {
                assert(dec(n)[i] == head[i]);
            }
        }
    } else {
        assert(dec(n).drop_last() =~= Seq::empty());
    }
}

/// Texts are put one after another, with a number in decimal between them where
/// one is given.
pub proof fn law_texts_are_put_one_after_another(
    head: &str,
    tail: &str,
    n: u64,
    glued: String,
    number: String,
    numbered: String,
)
    requires
        call_ensures(glue, (head, tail), glued),
        call_ensures(decimal, (n,), number),
        call_ensures(glue_number, (head, n, tail), numbered),
    ensures
        glued@ == head@ + tail@,
        numbered@ == head@ + number@ + tail@,
{
}

} // verus!
