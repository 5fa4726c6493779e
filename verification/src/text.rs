use vstd::prelude::*;

verus! {

/// Relies on String::push: appends one character to the string.
#[verifier::external_body]
pub(crate) fn push_char(s: &mut String, c: char)
    ensures
        final(s)@ == old(s)@.push(c),
{
    s.push(c);
}

/// The decimal digit character for `d`.
pub open spec fn spec_digit_char(d: nat) -> char {
    if d == 0 {
        '0'
    } else if d == 1 {
        '1'
    } else if d == 2 {
        '2'
    } else if d == 3 {
        '3'
    } else if d == 4 {
        '4'
    } else if d == 5 {
        '5'
    } else if d == 6 {
        '6'
    } else if d == 7 {
        '7'
    } else if d == 8 {
        '8'
    } else {
        '9'
    }
}

/// A run of `n` zero characters.
pub open spec fn zeros(n: nat) -> Seq<char> {
    Seq::new(n, |i: int| '0')
}

/// The decimal digit sequence of `n`, most significant digit first.
pub open spec fn spec_decimal(n: nat) -> Seq<char>
    decreases n,
{
    if n < 10 {
        seq![spec_digit_char(n)]
    } else {
        spec_decimal(n / 10).push(spec_digit_char(n % 10))
    }
}

/// `spec_decimal(n)` left-padded with `'0'` to at least `width` characters.
pub open spec fn spec_padded_decimal(n: nat, width: nat) -> Seq<char> {
    if spec_decimal(n).len() >= width {
        spec_decimal(n)
    } else {
        zeros((width - spec_decimal(n).len()) as nat) + spec_decimal(n)
    }
}

fn digit_char(d: usize) -> (c: char)
    requires
        d < 10,
    ensures
        c == spec_digit_char(d as nat),
{
    match d {
        0 => '0',
        1 => '1',
        2 => '2',
        3 => '3',
        4 => '4',
        5 => '5',
        6 => '6',
        7 => '7',
        8 => '8',
        _ => '9',
    }
}

/// Appends the decimal form of `n` to `out`.
pub fn append_decimal(out: &mut String, n: usize)
    ensures
        final(out)@ == old(out)@ + spec_decimal(n as nat),
    decreases n,
{
    if n < 10 {
        push_char(out, digit_char(n));
        proof {
            assert(old(out)@ + spec_decimal(n as nat) =~= old(out)@.push(spec_digit_char(n as nat)));
        }
    } else {
        append_decimal(out, n / 10);
        push_char(out, digit_char(n % 10));
        proof {
            assert(old(out)@ + spec_decimal(n as nat) =~= (old(out)@ + spec_decimal(
                (n / 10) as nat,
            )).push(spec_digit_char((n % 10) as nat)));
        }
    }
}

/// Appends the decimal form of `n`, left-padded with zeros to at least
/// `width` characters, to `out`.
pub fn append_padded_decimal(out: &mut String, n: usize, width: usize)
    ensures
        final(out)@ == old(out)@ + spec_padded_decimal(n as nat, width as nat),
{
    let digits: usize = decimal_width(n);
    proof {
        assert(out@ =~= old(out)@ + zeros(0));
    }
    let mut pad: usize = 0;
    while digits < width && pad < width - digits
        invariant
            digits == spec_decimal(n as nat).len(),
            digits < width ==> pad <= width - digits,
            digits >= width ==> pad == 0,
            out@ == old(out)@ + zeros(pad as nat),
        decreases width - digits - pad,
    {
        push_char(out, '0');
        proof {
            assert(old(out)@ + zeros((pad + 1) as nat) =~= (old(out)@ + zeros(pad as nat)).push('0'));
        }
        pad = pad + 1;
    }
    append_decimal(out, n);
    proof {
        if spec_decimal(n as nat).len() >= width as nat {
            assert(out@ =~= old(out)@ + spec_padded_decimal(n as nat, width as nat));
        } else {
            assert((old(out)@ + zeros((width - digits) as nat)) + spec_decimal(n as nat)
                =~= old(out)@ + spec_padded_decimal(n as nat, width as nat));
        }
    }
}

/// A run of `n` space characters.
pub open spec fn spaces(n: nat) -> Seq<char> {
    Seq::new(n, |i: int| ' ')
}

/// The decimal form of `n`, right-aligned with spaces to at least `width`
/// characters.
pub open spec fn spec_right_aligned(n: nat, width: nat) -> Seq<char> {
    if spec_decimal(n).len() >= width {
        spec_decimal(n)
    } else {
        spaces((width - spec_decimal(n).len()) as nat) + spec_decimal(n)
    }
}

/// Appends the decimal form of `n`, right-aligned with spaces to at least
/// `width` characters, to `out`.
pub fn append_right_aligned(out: &mut String, n: usize, width: usize)
    ensures
        final(out)@ == old(out)@ + spec_right_aligned(n as nat, width as nat),
{
    let digits: usize = decimal_width(n);
    proof {
        assert(out@ =~= old(out)@ + spaces(0));
    }
    let mut pad: usize = 0;
    while digits < width && pad < width - digits
        invariant
            digits == spec_decimal(n as nat).len(),
            digits < width ==> pad <= width - digits,
            digits >= width ==> pad == 0,
            out@ == old(out)@ + spaces(pad as nat),
        decreases width - digits - pad,
    {
        push_char(out, ' ');
        proof {
            assert(old(out)@ + spaces((pad + 1) as nat) =~= (old(out)@ + spaces(pad as nat)).push(
                ' ',
            ));
        }
        pad = pad + 1;
    }
    append_decimal(out, n);
    proof {
        if spec_decimal(n as nat).len() >= width as nat {
            assert(out@ =~= old(out)@ + spec_right_aligned(n as nat, width as nat));
        } else {
            assert((old(out)@ + spaces((width - digits) as nat)) + spec_decimal(n as nat) =~= old(
                out,
            )@ + spec_right_aligned(n as nat, width as nat));
        }
    }
}

/// The number of decimal digits of `n`.
fn decimal_width(n: usize) -> (w: usize)
    ensures
        w == spec_decimal(n as nat).len(),
        1 <= w <= n + 1,
    decreases n,
{
    if n < 10 {
        1
    } else {
        let w: usize = decimal_width(n / 10);
        proof {
            assert(spec_decimal(n as nat).len() == spec_decimal((n / 10) as nat).len() + 1);
        }
        w + 1
    }
}

} // verus!
