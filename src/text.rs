use vstd::prelude::*;

verus! {

/// Relies on std's `String::push`: the character is appended.
#[verifier::external_body]
pub(crate) fn push_char(s: &mut String, c: char)
    ensures
        final(s)@ == old(s)@.push(c),
{
    s.push(c);
}

/// The characters a number can be written with.
pub open spec fn is_number_char(c: char) -> bool {
    c == '-' || c == '.' || c == ',' || ('0' <= c && c <= '9')
}

/// `s` with every character dropped that cannot appear in a number.
pub open spec fn number_chars(s: Seq<char>) -> Seq<char>
    decreases s.len(),
{
    if s.len() == 0 {
        s
    } else if is_number_char(s.last()) {
        number_chars(s.drop_last()).push(s.last())
    } else {
        number_chars(s.drop_last())
    }
}

/// Keeps the digits, `-`, `.` and `,` of `s`, in order.
pub fn keep_number_chars(s: &str) -> (r: String)
    ensures
        r@ == number_chars(s@),
{
    let mut r = String::new();
    for c in it: s.chars()
        invariant
            it.seq() == s@,
            r@ == number_chars(s@.subrange(0, it.index() as int)),
    {
        let ghost i = it.index();
        assert(s@.subrange(0, i + 1).drop_last() =~= s@.subrange(0, i as int));
        if c == '-' || c == '.' || c == ',' || ('0' <= c && c <= '9') {
            push_char(&mut r, c);
        }
    }
    assert(s@.subrange(0, s@.len() as int) =~= s@);
    r
}


pub open spec fn digit_char(d: nat) -> char {
    ((d % 10) + ('0' as nat)) as char
}

/// The decimal digits of `m`, most significant first.
pub open spec fn digits_of(m: nat) -> Seq<char>
    decreases m,
{
    if m < 10 {
        seq![digit_char(m)]
    } else {
        digits_of(m / 10).push(digit_char(m % 10))
    }
}

/// Appends the decimal digits of `m`.
pub fn push_digits(s: &mut String, m: u128)
    ensures
        final(s)@ == old(s)@ + digits_of(m as nat),
    decreases m,
{
    if m >= 10 {
        push_digits(s, m / 10);
    }
    let c = match m % 10 {
        0 => '0',
        1 => '1',
        2 => '2',
        3 => '3',
        4 => '4',
        5 => '5',
        6 => '6',
        7 => '7',
        8 => '8',
        _ => '9',
    };
    push_char(s, c);
}

/// Decimal text of a natural number.
pub fn digits_text(m: u128) -> (r: String)
    ensures
        r@ == digits_of(m as nat),
{
    let mut s = String::new();
    push_digits(&mut s, m);
    assert(s@ =~= digits_of(m as nat));
    s
}

} // verus!
