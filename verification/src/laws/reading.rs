//! Strings and numbers: order, search, spelling.

use crate::cause::{Cause, Fixes};
use crate::text::{
    all_digits, decimal_text, digit_value, digits_value, has_text, is_digit, parse_u32,
    parsed_u32, precedes, same_text, stands_at, text_has, text_precedes,
};
use vstd::prelude::*;

verus! {

/// Whether `a` and `b` agree up to `k`, where `a` ends or has the smaller character.
pub open spec fn smaller_at(a: Seq<char>, b: Seq<char>, k: int) -> bool {
    &&& 0 <= k <= a.len()
    &&& k < b.len()
    &&& a.take(k) == b.take(k)
    &&& k == a.len() || (a[k] as int) < (b[k] as int)
}

/// Whether `a` comes before `b`: it is smaller at the first place where they differ.
pub open spec fn comes_before(a: Seq<char>, b: Seq<char>) -> bool {
    exists|k: int| smaller_at(a, b, k)
}

/// The dictionary order is decided at the first difference.
pub proof fn lemma_order_is_decided_at_the_first_difference(a: Seq<char>, b: Seq<char>)
    ensures
        precedes(a, b) <==> comes_before(a, b),
    decreases a.len(),
{
    if b.len() == 0 {
    } else if a.len() == 0 {
        assert(a.take(0) =~= b.take(0));
        assert(smaller_at(a, b, 0));
    } else if a[0] == b[0] {
        let x = a.drop_first();
        let y = b.drop_first();
        lemma_order_is_decided_at_the_first_difference(x, y);
        if comes_before(a, b) {
            let k = choose|k: int| smaller_at(a, b, k);
            assert(k > 0);
            assert(x.take(k - 1) =~= a.take(k).drop_first());
            assert(y.take(k - 1) =~= b.take(k).drop_first());
            assert(smaller_at(x, y, k - 1));
        }
        if comes_before(x, y) {
            let k = choose|k: int| smaller_at(x, y, k);
            assert(a.take(k + 1) =~= seq![a[0]] + x.take(k));
            assert(b.take(k + 1) =~= seq![b[0]] + y.take(k));
            assert(smaller_at(a, b, k + 1));
        }
    } else {
        if (a[0] as int) < (b[0] as int) {
            assert(a.take(0) =~= b.take(0));
            assert(smaller_at(a, b, 0));
        }
        if comes_before(a, b) {
            let k = choose|k: int| smaller_at(a, b, k);
            if k > 0 {
                assert(a.take(k)[0] == b.take(k)[0]);
            }
        }
    }
}

/// Comparing two texts tells whether the one is smaller at the first place where they differ.
pub proof fn lemma_comparing_texts(a: &str, b: &str, before: bool)
    requires
        call_ensures(text_precedes, (a, b), before),
    ensures
        before <==> comes_before(a@, b@),
{
    lemma_order_is_decided_at_the_first_difference(a@, b@);
}

/// Two texts are the same if they hold the same characters.
pub proof fn lemma_equal_texts(a: &str, b: &str, same: bool)
    requires
        call_ensures(same_text, (a, b), same),
    ensures
        same <==> a@.len() == b@.len() && forall|i: int| 0 <= i < a@.len() ==> a@[i] == b@[i],
{
    if a@.len() == b@.len() && forall|i: int| 0 <= i < a@.len() ==> a@[i] == b@[i] {
        assert(a@ =~= b@);
    }
}

/// Whether a text is made of something, the part, and something more.
pub open spec fn occurs(text: Seq<char>, part: Seq<char>) -> bool {
    exists|head: Seq<char>, tail: Seq<char>| text == #[trigger] (head + part + tail)
}

/// A text has a part exactly if it is made of something, the part, and something more.
pub proof fn lemma_search_finds_what_occurs(text: Seq<char>, part: Seq<char>)
    ensures
        has_text(text, part) <==> occurs(text, part),
{
    if has_text(text, part) {
        let at = choose|at: int| stands_at(text, part, at);
        let head = text.take(at);
        let tail = text.skip(at + part.len());
        assert(text =~= head + part + tail);
    }
    if occurs(text, part) {
        let (head, tail) = choose|head: Seq<char>, tail: Seq<char>|
            text == #[trigger] (head + part + tail);
        assert(text.subrange(head.len() as int, (head.len() + part.len()) as int) =~= part);
        assert(stands_at(text, part, head.len() as int));
    }
}

/// Searching a text for a part tells whether it occurs.
pub proof fn lemma_searching_a_text(text: &Vec<char>, part: &str, found: bool)
    requires
        call_ensures(text_has, (text, part), found),
    ensures
        found <==> occurs(text@, part@),
{
    lemma_search_finds_what_occurs(text@, part@);
}

/// A part that occurs in a text occurs in every text around it.
pub proof fn lemma_occurs_in_what_is_around(
    before: Seq<char>,
    text: Seq<char>,
    after: Seq<char>,
    part: Seq<char>,
)
    requires
        occurs(text, part),
    ensures
        occurs(before + text + after, part),
{
    let (head, tail) = choose|head: Seq<char>, tail: Seq<char>|
        text == #[trigger] (head + part + tail);
    assert(before + text + after =~= (before + head) + part + (tail + after));
}

/// The ten digits are those of ASCII, in their order.
pub proof fn lemma_the_ten_digits(c: char)
    ensures
        is_digit(c) <==> "0123456789"@.contains(c),
        is_digit(c) ==> digit_value(c) < 10 && "0123456789"@[digit_value(c) as int] == c,
{
    reveal_strlit("0123456789");
    let ten = "0123456789"@;
    assert(ten.len() == 10);
    assert(forall|i: int| 0 <= i < 10 ==> ten[i] as int == '0' as int + i);
    if is_digit(c) {
        assert(ten[c as int - '0' as int] == c);
    }
}

/// A number below ten is written as its digit; any other as what a tenth of it is written as,
/// followed by the digit of the rest.
pub proof fn lemma_writing_numbers(n: u32, text: String, tenth: String)
    requires
        call_ensures(decimal_text, (n,), text),
        call_ensures(decimal_text, (n / 10,), tenth),
    ensures
        n < 10 ==> text@ == seq!["0123456789"@[n as int]],
        n >= 10 ==> text@ == tenth@.push("0123456789"@[(n % 10) as int]),
{
    reveal_strlit("0123456789");
    let ten = "0123456789"@;
    assert(forall|i: int| 0 <= i < 10 ==> ten[i] as int == '0' as int + i);
}

/// A text of one digit spells it.
pub proof fn lemma_reading_one_digit(d: int)
    requires
        0 <= d < 10,
    ensures
        parsed_u32(seq!["0123456789"@[d]]) == Some(d as u32),
{
    reveal_strlit("0123456789");
    let c = "0123456789"@[d];
    let text = seq![c];
    assert(text.drop_last() =~= Seq::<char>::empty());
    assert(digits_value(text.drop_last()) == 0);
    assert(c as int == '0' as int + d);
    assert(all_digits(text));
}

/// The digits that a text spells a number with.
spec fn digits_of(text: Seq<char>) -> Seq<char> {
    if text.len() > 0 && text[0] == '+' {
        text.skip(1)
    } else {
        text
    }
}

/// One more digit makes a number ten times as large and adds the digit, if that still fits.
pub proof fn lemma_reading_one_digit_more(text: Seq<char>, n: u32, d: int)
    requires
        parsed_u32(text) == Some(n),
        0 <= d < 10,
    ensures
        parsed_u32(text.push("0123456789"@[d])) == (if n * 10 + d <= u32::MAX {
            Some((n * 10 + d) as u32)
        } else {
            None
        }),
{
    reveal_strlit("0123456789");
    let c = "0123456789"@[d];
    assert(c as int == '0' as int + d);
    let digits = digits_of(text);
    assert(digits_of(text.push(c)) =~= digits.push(c));
    assert(digits.push(c).drop_last() =~= digits);
    assert forall|i: int| 0 <= i < digits.push(c).len() implies is_digit(
        #[trigger] digits.push(c)[i],
    ) by {
        if i < digits.len() {
            assert(is_digit(digits[i]));
        }
    }
    assert(digits_value(digits.push(c)) == n * 10 + d);
}

/// A number that is too large stays so with one more digit.
pub proof fn lemma_too_large_stays_too_large(text: Seq<char>, d: int)
    requires
        text.len() > 0,
        forall|i: int| 0 <= i < text.len() ==> "0123456789"@.contains(#[trigger] text[i]),
        parsed_u32(text) is None,
        0 <= d < 10,
    ensures
        parsed_u32(text.push("0123456789"@[d])) is None,
{
    let c = "0123456789"@[d];
    assert forall|i: int| 0 <= i < text.len() implies is_digit(#[trigger] text[i]) by {
        lemma_the_ten_digits(text[i]);
    }
    assert(all_digits(text));
    assert(is_digit(text[0]));
    assert(text.push(c)[0] == text[0]);
    assert(text.push(c).drop_last() =~= text);
}

/// A plus sign before the first digit changes nothing.
pub proof fn lemma_a_plus_sign_changes_nothing(text: Seq<char>)
    requires
        text.len() > 0,
        text[0] != '+',
    ensures
        parsed_u32(seq!['+'] + text) == parsed_u32(text),
{
    assert((seq!['+'] + text).skip(1) =~= text);
}

/// A text that is empty, a lone sign, or holds anything but digits behind a sign, spells nothing.
pub proof fn lemma_what_spells_no_number(text: Seq<char>, i: int)
    ensures
        text.len() == 0 ==> parsed_u32(text) is None,
        text == seq!['+'] ==> parsed_u32(text) is None,
        0 <= i < text.len() && !"0123456789"@.contains(text[i]) && (i > 0 || text[0] != '+')
            ==> parsed_u32(text) is None,
{
    if 0 <= i < text.len() && !"0123456789"@.contains(text[i]) && (i > 0 || text[0] != '+') {
        lemma_the_ten_digits(text[i]);
        if text[0] == '+' {
            assert(text.skip(1)[i - 1] == text[i]);
        }
    }
    if text == seq!['+'] {
        assert(text.skip(1).len() == 0);
    }
}

/// Reading a text gives the number that it spells, and reading what was written gives it back.
pub proof fn lemma_reading_and_writing(text: &str, number: Option<u32>, n: u32, written: String)
    requires
        call_ensures(parse_u32, (text,), number),
        call_ensures(decimal_text, (n,), written),
    ensures
        number == parsed_u32(text@),
        text@ == written@ ==> number == Some(n),
{
    crate::text::lemma_parse_of_decimal(n);
}

/// A cause is printed as its name between double quotes.
pub proof fn lemma_printing_causes(cause: Cause, text: String)
    requires
        call_ensures(Cause::to_string, (&cause,), text),
    ensures
        text@.len() >= 2,
        text@[0] == '"',
        text@.last() == '"',
        text@.subrange(1, text@.len() - 1) == (match cause {
            Cause::Unchecked => "Unchecked"@,
            Cause::ZombienetDeployment => "ZombienetDeployment"@,
            Cause::FileServerDNSIssue => "FileServerDNSIssue"@,
            Cause::Infra => "Infra"@,
            Cause::InfraKilled => "InfraKilled"@,
            Cause::Assertion => "Assertion"@,
            Cause::AlreadyMerged => "AlreadyMerged"@,
            Cause::AlreadyFixedNeedsRebase(Fixes::PJS) => "AlreadyFixedNeedsRebase_PJS"@,
            Cause::AlreadyFixedNeedsRebase(Fixes::Deleting) => "AlreadyFixedNeedsRebase_Deleting"@,
        }),
{
    assert(text@.subrange(1, text@.len() - 1) =~= cause.name());
}

/// A job that nobody has looked at is unchecked.
pub proof fn lemma_first_cause(cause: Cause)
    requires
        call_ensures(Cause::default, (), cause),
    ensures
        cause == Cause::Unchecked,
{
}

} // verus!
