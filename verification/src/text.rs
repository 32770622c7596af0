//! Small verified helpers for building diagnostic and token text.

use vstd::prelude::*;

verus! {

/// Relies on `str::chars`: iterating a string slice yields exactly its
/// characters, in order.
#[verifier::external_body]
pub fn str_chars(source: &str) -> (v: Vec<char>)
    ensures
        v@ == source@,
{
    source.chars().collect()
}

/// Relies on `String::push`: it appends exactly the one character.
#[verifier::external_body]
pub fn push_char(s: &mut String, c: char)
    ensures
        final(s)@ == old(s)@.push(c),
{
    s.push(c);
}

/// The characters `chars[from..to]` as an owned string.
pub fn chars_to_string(chars: &Vec<char>, from: usize, to: usize) -> (s: String)
    requires
        from <= to <= chars@.len(),
    ensures
        s@ == chars@.subrange(from as int, to as int),
{
    let mut s = String::new();
    let mut i = from;
    while i < to
        invariant
            from <= i <= to <= chars@.len(),
            s@ == chars@.subrange(from as int, i as int),
        decreases to - i,
    {
        push_char(&mut s, chars[i]);
        i = i + 1;
        proof {
            assert(chars@.subrange(from as int, i as int) =~= chars@.subrange(
                from as int,
                i - 1,
            ).push(chars@[i - 1]));
        }
    }
    s
}

/// The decimal digits of `n`, most significant first; empty for zero.
pub open spec fn spec_dec_aux(n: nat) -> Seq<char>
    decreases n,
{
    if n == 0 {
        Seq::empty()
    } else {
        spec_dec_aux(n / 10) + seq![spec_digit_char(n % 10)]
    }
}

/// The usual decimal rendering of `n`.
pub open spec fn spec_dec(n: nat) -> Seq<char> {
    if n == 0 {
        seq!['0']
    } else {
        spec_dec_aux(n)
    }
}

/// The digit character for a value below ten.
pub open spec fn spec_digit_char(d: nat) -> char {
    if d == 0 {
        '0'
    } else if d == 1 {
        '1'
    } else if d == 2 {
        '2'
    } else if d == 3 {
        '3'
    } else if d == 4 {
        '4'
    } else if d == 5 {
        '5'
    } else if d == 6 {
        '6'
    } else if d == 7 {
        '7'
    } else if d == 8 {
        '8'
    } else {
        '9'
    }
}

fn digit_char(d: usize) -> (c: char)
    requires
        d < 10,
    ensures
        c == spec_digit_char(d as nat),
{
    if d == 0 {
        '0'
    } else if d == 1 {
        '1'
    } else if d == 2 {
        '2'
    } else if d == 3 {
        '3'
    } else if d == 4 {
        '4'
    } else if d == 5 {
        '5'
    } else if d == 6 {
        '6'
    } else if d == 7 {
        '7'
    } else if d == 8 {
        '8'
    } else {
        '9'
    }
}

/// Renders `n` in decimal.
pub fn dec_string(n: usize) -> (s: String)
    ensures
        s@ == spec_dec(n as nat),
{
    let mut s = String::new();
    if n == 0 {
        push_char(&mut s, '0');
        proof {
            assert(s@ =~= seq!['0']);
        }
        return s;
    }
    let mut digits: Vec<char> = Vec::new();
    let mut m = n;
    while m > 0
        invariant
            spec_dec_aux(n as nat) == spec_dec_aux(m as nat) + digits@.reverse(),
            m <= n,
        decreases m,
    {
        let d = m % 10;
        digits.push(digit_char(d));
        proof {
            assert(digits@.reverse() =~= seq![spec_digit_char((m % 10) as nat)] + digits@.drop_last().reverse());
            assert(spec_dec_aux(m as nat) == spec_dec_aux((m / 10) as nat) + seq![
                spec_digit_char((m % 10) as nat),
            ]);
            assert(spec_dec_aux((m / 10) as nat) + digits@.reverse() =~= spec_dec_aux(m as nat)
                + digits@.drop_last().reverse());
        }
        m = m / 10;
    }
    let mut i = digits.len();
    proof {
        assert(digits@.reverse() =~= spec_dec_aux(n as nat));
    }
    while i > 0
        invariant
            i <= digits@.len(),
            digits@.reverse() == spec_dec_aux(n as nat),
            s@ == spec_dec_aux(n as nat).take(digits@.len() - i),
        decreases i,
    {
        i = i - 1;
        push_char(&mut s, digits[i]);
        proof {
            assert(spec_dec_aux(n as nat)[digits@.len() - i - 1] == digits@.reverse()[digits@.len()
                - i - 1]);
            assert(digits@.reverse()[digits@.len() - i - 1] == digits@[i as int]);
            assert(s@ =~= spec_dec_aux(n as nat).take(digits@.len() - i));
        }
    }
    proof {
        assert(spec_dec_aux(n as nat).take(digits@.len() as int) =~= spec_dec_aux(n as nat));
        assert(n as nat > 0 ==> spec_dec(n as nat) == spec_dec_aux(n as nat));
    }
    s
}

} // verus!
