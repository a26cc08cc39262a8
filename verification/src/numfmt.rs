use vstd::prelude::*;

verus! {

/// The character for one decimal digit value.
pub open spec fn digit_char(d: int) -> char {
    if d == 0 {
        '0'
    } else if d == 1 {
        '1'
    } else if d == 2 {
        '2'
    } else if d == 3 {
        '3'
    } else if d == 4 {
        '4'
    } else if d == 5 {
        '5'
    } else if d == 6 {
        '6'
    } else if d == 7 {
        '7'
    } else if d == 8 {
        '8'
    } else {
        '9'
    }
}

/// The decimal notation of a number, most significant digit first.
pub open spec fn dec_chars(n: int) -> Seq<char>
    decreases n,
{
    if n <= 0 {
        seq!['0']
    } else if n < 10 {
        seq![digit_char(n)]
    } else {
        dec_chars(n / 10) + seq![digit_char(n % 10)]
    }
}

/// Writes a number in decimal notation.
pub fn usize_to_chars(n: usize) -> (r: Vec<char>)
    ensures
        r@ == dec_chars(n as int),
        r@.len() >= 1,
{
    let mut digits: Vec<char> = Vec::new();
    if n == 0 {
        digits.push('0');
        proof {
            assert(digits@ =~= dec_chars(0));
        }
        return digits;
    }
    let mut m = n;
    while m > 0
        invariant
            m <= n,
            m > 0 ==> dec_chars(n as int) == dec_chars(m as int) + digits@,
            m == 0 ==> n > 0 && dec_chars(n as int) == digits@,
        decreases m,
    {
        let d = m % 10;
        let c: char = if d == 0 {
            '0'
        } else if d == 1 {
            '1'
        } else if d == 2 {
            '2'
        } else if d == 3 {
            '3'
        } else if d == 4 {
            '4'
        } else if d == 5 {
            '5'
        } else if d == 6 {
            '6'
        } else if d == 7 {
            '7'
        } else if d == 8 {
            '8'
        } else {
            '9'
        };
        let ghost m0 = m as int;
        let ghost digits0 = digits@;
        digits.insert(0, c);
        m = m / 10;
        proof {
            assert(c == digit_char(m0 % 10));
            assert(digits@ =~= seq![digit_char(m0 % 10)] + digits0);
            if m0 >= 10 {
                assert(dec_chars(m0) == dec_chars(m0 / 10) + seq![digit_char(m0 % 10)]);
                assert(dec_chars(m0) + digits0 =~= dec_chars(m0 / 10) + digits@);
            } else {
                assert(dec_chars(m0) == seq![digit_char(m0)]);
                assert(m0 % 10 == m0 && m0 / 10 == 0);
                assert(dec_chars(m0) + digits0 =~= digits@);
            }
        }
    }
    digits
}

} // verus!
