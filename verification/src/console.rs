//! Text for the raw character output.
//!
//! The kernel reports fatal conditions one character at a time through a
//! sink that does not depend on the heap being sane. This module computes
//! what is sent; sending it is up to the caller.

use vstd::prelude::*;

verus! {

/// The decimal digits of `n` as ASCII, most significant first, without
/// leading zeros; zero is the single digit `0`.
pub open spec fn decimal_digits(n: nat) -> Seq<u8>
    decreases n,
{
    if n < 10 {
        seq![(n + 0x30) as u8]
    } else {
        decimal_digits(n / 10).push((n % 10 + 0x30) as u8)
    }
}

/// Ten to the power of `k`.
pub open spec fn pow10(k: nat) -> nat
    decreases k,
{
    if k == 0 {
        1
    } else {
        10 * pow10((k - 1) as nat)
    }
}

/// A number below `10^k` has at most `k` digits, and every number has at
/// least one.
pub proof fn lemma_digit_count(n: nat, k: nat)
    requires
        k >= 1,
        n < pow10(k),
    ensures
        1 <= decimal_digits(n).len() <= k,
    decreases k,
{
    reveal_with_fuel(pow10, 2);
    if n >= 10 {
        assert(k >= 2);
        assert(n / 10 < pow10((k - 1) as nat));
        lemma_digit_count(n / 10, (k - 1) as nat);
    }
}

/// Every number has at least one digit.
pub proof fn lemma_digits_nonempty(n: nat)
    ensures
        decimal_digits(n).len() >= 1,
{
}

/// Twenty digits are enough for any 64-bit number.
pub proof fn lemma_twenty_digits(n: nat)
    requires
        n <= u64::MAX,
    ensures
        1 <= decimal_digits(n).len() <= 20,
{
    reveal_with_fuel(pow10, 21);
    assert(pow10(20) == 100_000_000_000_000_000_000);
    lemma_digit_count(n, 20);
}

/// The characters that printing `msg` sends to the sink, in order.
pub fn print_msg(msg: &str) -> (out: Vec<char>)
    ensures
        out@ == msg@,
{
    let mut out: Vec<char> = Vec::new();
    let n: usize = msg.unicode_len();
    let mut i: usize = 0;
    while i < n
        invariant
            n == msg@.len(),
            i <= n,
            out@ == msg@.subrange(0, i as int),
        decreases n - i,
    {
        out.push(msg.get_char(i));
        i += 1;
        assert(out@ =~= msg@.subrange(0, i as int));
    }
    assert(msg@.subrange(0, n as int) =~= msg@);
    out
}

/// Puts the ASCII representation of `num` at the end of `char_slice` and
/// returns the index where it begins. The bytes before that index are left
/// as they were. If the slice is too short for all the digits, it is filled
/// with the least significant ones.
pub fn usize_to_chars(char_slice: &mut [u8], num: usize) -> (start: usize)
    requires
        old(char_slice)@.len() > 0,
    ensures
        final(char_slice)@.len() == old(char_slice)@.len(),
        start < final(char_slice)@.len(),
        final(char_slice)@.len() - start == if decimal_digits(num as nat).len() <= old(
            char_slice,
        )@.len() {
            decimal_digits(num as nat).len()
        } else {
            old(char_slice)@.len()
        },
        final(char_slice)@.subrange(start as int, final(char_slice)@.len() as int)
            == decimal_digits(num as nat).subrange(
            decimal_digits(num as nat).len() - (final(char_slice)@.len() - start),
            decimal_digits(num as nat).len() as int,
        ),
        final(char_slice)@.subrange(0, start as int) == old(char_slice)@.subrange(0, start as int),
{
    let len: usize = char_slice.len();
    let ghost digits = decimal_digits(num as nat);
    let ghost before = char_slice@;
    let mut i: usize = len - 1;
    let mut val: usize = num;
    loop
        invariant_except_break
            i < len,
            len == char_slice@.len(),
            len == before.len(),
            digits == decimal_digits(num as nat),
            digits == decimal_digits(val as nat) + char_slice@.subrange(i + 1, len as int),
            char_slice@.subrange(0, i + 1) == before.subrange(0, i + 1),
        ensures
            i < len,
            len == char_slice@.len(),
            len == before.len(),
            digits == decimal_digits(num as nat),
            char_slice@.subrange(0, i as int) == before.subrange(0, i as int),
            digits.len() <= len ==> digits == char_slice@.subrange(i as int, len as int),
            digits.len() > len ==> i == 0 && char_slice@ == digits.subrange(
                digits.len() - len,
                digits.len() as int,
            ),
        decreases i,
    {
        let ghost written = char_slice@.subrange(i + 1, len as int);
        let ghost prev = char_slice@;
        let digit: u8 = ((val % 10) + 0x30) as u8;
        char_slice[i] = digit;
        let ghost rest = decimal_digits((val / 10) as nat);
        proof {
            assert(char_slice@.subrange(i as int, len as int) =~= seq![digit] + written);
            assert(char_slice@.subrange(0, i as int) =~= before.subrange(0, i + 1).subrange(
                0,
                i as int,
            )) by {
                assert(prev.subrange(0, i + 1) == before.subrange(0, i + 1));
                assert forall|j: int| 0 <= j < i implies char_slice@[j] == before[j] by {
                    assert(prev.subrange(0, i + 1)[j] == before.subrange(0, i + 1)[j]);
                }
            }
            assert(char_slice@.subrange(0, i as int) =~= before.subrange(0, i as int));
            if val < 10 {
                assert(decimal_digits(val as nat) =~= seq![digit]);
                assert(digits =~= seq![digit] + written);
            } else {
                assert(decimal_digits(val as nat) == rest.push(digit));
                assert(digits =~= rest + (seq![digit] + written));
            }
        }
        val /= 10;
        if val == 0 || i == 0 {
            proof {
                let tail = char_slice@.subrange(i as int, len as int);
                if val == 0 {
                    assert(digits == tail);
                } else {
                    assert(digits == rest + tail);
                    lemma_digits_nonempty(val as nat);
                    assert(tail =~= char_slice@);
                    assert(digits.subrange(digits.len() - len, digits.len() as int) =~= tail);
                }
            }
            break ;
        }
        i -= 1;
    }
    proof {
        if digits.len() <= len {
            assert(digits.subrange(0, digits.len() as int) =~= digits);
        } else {
            assert(char_slice@.subrange(0, len as int) =~= char_slice@);
        }
    }
    i
}

/// The decimal digits of `n` as characters.
pub open spec fn decimal_chars(n: nat) -> Seq<char> {
    decimal_digits(n).map_values(|b: u8| b as char)
}

/// Appends the characters of `text` to `out`.
fn push_text(out: &mut Vec<char>, text: &str)
    ensures
        final(out)@ == old(out)@ + text@,
{
    let n: usize = text.unicode_len();
    let mut i: usize = 0;
    while i < n
        invariant
            n == text@.len(),
            i <= n,
            out@ == old(out)@ + text@.subrange(0, i as int),
        decreases n - i,
    {
        out.push(text.get_char(i));
        i += 1;
        assert(out@ =~= old(out)@ + text@.subrange(0, i as int));
    }
    assert(text@.subrange(0, n as int) =~= text@);
}

/// Appends the decimal representation of `num` to `out`.
fn push_decimal(out: &mut Vec<char>, num: usize)
    ensures
        final(out)@ == old(out)@ + decimal_chars(num as nat),
{
    // Twenty digits are enough for a 64-bit number.
    let mut digits: Vec<u8> = vec![0u8; 20];
    let start: usize = usize_to_chars(digits.as_mut_slice(), num);
    proof {
        lemma_twenty_digits(num as nat);
    }
    let ghost text = decimal_digits(num as nat);
    assert(digits@.subrange(start as int, 20) =~= text);
    let mut i: usize = start;
    while i < 20
        invariant
            start <= i <= 20,
            digits@.len() == 20,
            text == decimal_digits(num as nat),
            digits@.subrange(start as int, 20) == text,
            out@ == old(out)@ + decimal_chars(num as nat).subrange(0, i - start),
        decreases 20 - i,
    {
        assert(digits@[i as int] == digits@.subrange(start as int, 20)[i - start]);
        out.push(digits[i] as char);
        i += 1;
        assert(out@ =~= old(out)@ + decimal_chars(num as nat).subrange(0, i - start));
    }
    assert(decimal_chars(num as nat).subrange(0, 20 - start) =~= decimal_chars(num as nat));
}

/// The decimal representation of `num`.
pub fn decimal(num: usize) -> (out: Vec<char>)
    ensures
        out@ == decimal_chars(num as nat),
{
    let mut out: Vec<char> = Vec::new();
    push_decimal(&mut out, num);
    assert(out@ =~= decimal_chars(num as nat));
    out
}

/// What the kernel task reports when it finds the stack of the task `pid`
/// overrun.
pub fn stack_overflow_message(pid: usize) -> (out: Vec<char>)
    ensures
        out@ == "Stack overflow in task "@ + decimal_chars(pid as nat) + "!\n"@,
{
    let mut out: Vec<char> = Vec::new();
    push_text(&mut out, "Stack overflow in task ");
    push_decimal(&mut out, pid);
    push_text(&mut out, "!\n");
    assert(out@ =~= "Stack overflow in task "@ + decimal_chars(pid as nat) + "!\n"@);
    out
}

/// What is reported when an allocation of `size` bytes with alignment
/// `align` cannot be served.
pub fn out_of_memory_message(size: usize, align: usize) -> (out: Vec<char>)
    ensures
        out@ == "Out of memory!\n"@ + "Size: "@ + decimal_chars(size as nat) + " Alignment: "@
            + decimal_chars(align as nat) + "\n"@,
{
    let mut out: Vec<char> = Vec::new();
    push_text(&mut out, "Out of memory!\n");
    push_text(&mut out, "Size: ");
    push_decimal(&mut out, size);
    push_text(&mut out, " Alignment: ");
    push_decimal(&mut out, align);
    push_text(&mut out, "\n");
    assert(out@ =~= "Out of memory!\n"@ + "Size: "@ + decimal_chars(size as nat) + " Alignment: "@
        + decimal_chars(align as nat) + "\n"@);
    out
}

/// The first line of what is reported when the task `pid` has panicked.
pub fn panic_message(pid: usize) -> (out: Vec<char>)
    ensures
        out@ == "Oh no! Process "@ + decimal_chars(pid as nat) + " has panicked!\n"@,
{
    let mut out: Vec<char> = Vec::new();
    push_text(&mut out, "Oh no! Process ");
    push_decimal(&mut out, pid);
    push_text(&mut out, " has panicked!\n");
    assert(out@ =~= "Oh no! Process "@ + decimal_chars(pid as nat) + " has panicked!\n"@);
    out
}

} // verus!
