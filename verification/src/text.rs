//! Rendering of numbers and byte strings as text.

use vstd::prelude::*;
use vstd::string::*;

verus! {

/// The character of the decimal digit `d`.
pub open spec fn digit_char(d: int) -> char
    recommends
        0 <= d < 10,
{
    if d == 0 {
        '0'
    } else if d == 1 {
        '1'
    } else if d == 2 {
        '2'
    } else if d == 3 {
        '3'
    } else if d == 4 {
        '4'
    } else if d == 5 {
        '5'
    } else if d == 6 {
        '6'
    } else if d == 7 {
        '7'
    } else if d == 8 {
        '8'
    } else {
        '9'
    }
}

/// The decimal numeral of `n`: no sign, no leading zero, `"0"` for zero.
pub open spec fn decimal(n: nat) -> Seq<char>
    decreases n,
{
    if n < 10 {
        seq![digit_char(n as int)]
    } else {
        decimal(n / 10).push(digit_char((n % 10) as int))
    }
}

/// The numerals of `bytes`, in order, separated by a comma and a space.
pub open spec fn byte_list(bytes: Seq<u8>) -> Seq<char>
    decreases bytes.len(),
{
    if bytes.len() == 0 {
        Seq::empty()
    } else if bytes.len() == 1 {
        decimal(bytes[0] as nat)
    } else {
        byte_list(bytes.drop_last()) + seq![',', ' '] + decimal(bytes.last() as nat)
    }
}

/// A byte string written out so that every byte can be read back:
/// `[72, 0, 255]`.
pub open spec fn debug_bytes(bytes: Seq<u8>) -> Seq<char> {
    seq!['['] + byte_list(bytes) + seq![']']
}

/// Whether `c` is one of the ten decimal digits.
pub open spec fn is_digit_char(c: char) -> bool {
    '0' <= c <= '9'
}

/// A decimal numeral is made of digits, at least one, and of exactly one
/// only below ten.
pub proof fn lemma_decimal_shape(n: nat)
    ensures
        decimal(n).len() >= 1,
        n < 10 <==> decimal(n).len() == 1,
        forall|i: int| 0 <= i < decimal(n).len() ==> is_digit_char(#[trigger] decimal(n)[i]),
    decreases n,
{
    if n >= 10 {
        lemma_decimal_shape(n / 10);
    }
}

/// Two numbers with the same decimal numeral are the same number.
pub proof fn lemma_decimal_injective(m: nat, n: nat)
    requires
        decimal(m) == decimal(n),
    ensures
        m == n,
    decreases m,
{
    lemma_decimal_shape(m);
    lemma_decimal_shape(n);
    if m < 10 {
        assert(n < 10);
        assert(decimal(m)[0] == digit_char(m as int));
        assert(decimal(n)[0] == digit_char(n as int));
    } else {
        assert(n >= 10);
        assert(decimal(m).drop_last() =~= decimal(m / 10));
        assert(decimal(n).drop_last() =~= decimal(n / 10));
        assert(decimal(m).last() == digit_char((m % 10) as int));
        assert(decimal(n).last() == digit_char((n % 10) as int));
        lemma_decimal_injective(m / 10, n / 10);
        assert(m % 10 == n % 10);
        assert(m == 10 * (m / 10) + m % 10);
        assert(n == 10 * (n / 10) + n % 10);
    }
}

proof fn lemma_byte_list_shape(bytes: Seq<u8>)
    ensures
        bytes.len() == 0 <==> byte_list(bytes).len() == 0,
        bytes.len() == 1 ==> byte_list(bytes) == decimal(bytes[0] as nat),
        bytes.len() >= 2 ==> ({
            let numeral = decimal(bytes.last() as nat);
            let list = byte_list(bytes);
            &&& list.len() >= numeral.len() + 2
            &&& list[list.len() - numeral.len() - 1] == ' '
            &&& list.subrange(list.len() - numeral.len(), list.len() as int) == numeral
            &&& list.take(list.len() - numeral.len() - 2) == byte_list(bytes.drop_last())
        }),
    decreases bytes.len(),
{
    if bytes.len() == 1 {
        lemma_decimal_shape(bytes[0] as nat);
    } else if bytes.len() >= 2 {
        let numeral = decimal(bytes.last() as nat);
        let list = byte_list(bytes);
        let front = byte_list(bytes.drop_last());
        lemma_decimal_shape(bytes.last() as nat);
        assert(list == front + seq![',', ' '] + numeral);
        assert(list.len() == front.len() + 2 + numeral.len());
        assert(list[front.len() as int + 1] == ' ');
        assert(list.subrange(list.len() - numeral.len(), list.len() as int) =~= numeral);
        assert(list.take(list.len() - numeral.len() - 2) =~= front);
    }
}

proof fn lemma_byte_list_injective(a: Seq<u8>, b: Seq<u8>)
    requires
        byte_list(a) == byte_list(b),
    ensures
        a == b,
    decreases a.len(),
{
    lemma_byte_list_shape(a);
    lemma_byte_list_shape(b);
    let list = byte_list(a);
    if a.len() == 0 {
        assert(a =~= b);
    } else if a.len() == 1 && b.len() == 1 {
        lemma_decimal_injective(a[0] as nat, b[0] as nat);
        assert(a =~= b);
    } else if a.len() == 1 {
        let numeral = decimal(b.last() as nat);
        lemma_decimal_shape(a[0] as nat);
        assert(is_digit_char(list[list.len() - numeral.len() - 1]));
    } else if b.len() == 1 {
        let numeral = decimal(a.last() as nat);
        lemma_decimal_shape(b[0] as nat);
        assert(is_digit_char(list[list.len() - numeral.len() - 1]));
    } else {
        let na = decimal(a.last() as nat);
        let nb = decimal(b.last() as nat);
        lemma_decimal_shape(a.last() as nat);
        lemma_decimal_shape(b.last() as nat);
        if na.len() < nb.len() {
            let i = list.len() - na.len() - 1;
            let tail = list.subrange(list.len() - nb.len(), list.len() as int);
            assert(tail[i - (list.len() - nb.len())] == list[i]);
            assert(is_digit_char(nb[i - (list.len() - nb.len())]));
        } else if nb.len() < na.len() {
            let i = list.len() - nb.len() - 1;
            let tail = list.subrange(list.len() - na.len(), list.len() as int);
            assert(tail[i - (list.len() - na.len())] == list[i]);
            assert(is_digit_char(na[i - (list.len() - na.len())]));
        } else {
            lemma_decimal_injective(a.last() as nat, b.last() as nat);
            lemma_byte_list_injective(a.drop_last(), b.drop_last());
            assert(a =~= a.drop_last().push(a.last()));
            assert(b =~= b.drop_last().push(b.last()));
        }
    }
}

/// The rendering of a byte string loses nothing: two byte strings with the
/// same rendering are the same byte string.
pub proof fn lemma_debug_bytes_lossless(a: Seq<u8>, b: Seq<u8>)
    requires
        debug_bytes(a) == debug_bytes(b),
    ensures
        a == b,
{
    let la = byte_list(a);
    let lb = byte_list(b);
    assert(debug_bytes(a).subrange(1, 1 + la.len() as int) =~= la);
    assert(debug_bytes(b).subrange(1, 1 + lb.len() as int) =~= lb);
    assert(debug_bytes(a).len() == la.len() + 2);
    assert(debug_bytes(b).len() == lb.len() + 2);
    lemma_byte_list_injective(a, b);
}

fn digit_str(d: u32) -> (s: &'static str)
    requires
        d < 10,
    ensures
        s@ == seq![digit_char(d as int)],
{
    proof {
        reveal_strlit("0");
        reveal_strlit("1");
        reveal_strlit("2");
        reveal_strlit("3");
        reveal_strlit("4");
        reveal_strlit("5");
        reveal_strlit("6");
        reveal_strlit("7");
        reveal_strlit("8");
        reveal_strlit("9");
    }
    let s = match d {
        0 => "0",
        1 => "1",
        2 => "2",
        3 => "3",
        4 => "4",
        5 => "5",
        6 => "6",
        7 => "7",
        8 => "8",
        _ => "9",
    };
    assert(s@ =~= seq![digit_char(d as int)]);
    s
}

/// Appends the decimal numeral of `n` to `out`.
pub fn append_decimal(out: &mut String, n: u32)
    ensures
        final(out)@ == old(out)@ + decimal(n as nat),
    decreases n,
{
    if n >= 10 {
        append_decimal(out, n / 10);
    }
    out.append(digit_str(n % 10));
    assert(out@ =~= old(out)@ + decimal(n as nat));
}

/// Renders `n` as a decimal numeral.
pub fn decimal_string(n: u32) -> (s: String)
    ensures
        s@ == decimal(n as nat),
{
    let mut s = String::new();
    append_decimal(&mut s, n);
    assert(s@ =~= decimal(n as nat));
    s
}

/// Renders `bytes` as a bracketed list of decimal numerals.
pub fn debug_bytes_string(bytes: &[u8]) -> (s: String)
    ensures
        s@ == debug_bytes(bytes@),
{
    let mut s = String::new();
    proof {
        reveal_strlit("[");
        reveal_strlit(", ");
        reveal_strlit("]");
    }
    s.append("[");
    let mut i: usize = 0;
    while i < bytes.len()
        invariant
            i <= bytes.len(),
            s@ == seq!['['] + byte_list(bytes@.take(i as int)),
            ", "@ == seq![',', ' '],
        decreases bytes.len() - i,
    {
        let ghost before = s@;
        if i > 0 {
            s.append(", ");
        }
        append_decimal(&mut s, bytes[i] as u32);
        proof {
            let next = bytes@.take(i + 1);
            assert(next.drop_last() =~= bytes@.take(i as int));
            assert(next.last() == bytes@[i as int]);
            assert(s@ =~= seq!['['] + byte_list(next));
        }
        i += 1;
    }
    assert(bytes@.take(i as int) =~= bytes@);
    s.append("]");
    assert(s@ =~= debug_bytes(bytes@));
    s
}

} // verus!
