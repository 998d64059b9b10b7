//! Decimal digit strings: their numeric value, the canonical text of a
//! number, and verified conversions between the two.

use vstd::prelude::*;
use vstd::string::StrSliceExecFns;
use vstd::string::StringExecFns;

verus! {

/// Is `c` one of the ten decimal digits?
pub open spec fn is_digit(c: char) -> bool {
    c == '0' || c == '1' || c == '2' || c == '3' || c == '4' || c == '5' || c == '6' || c == '7'
        || c == '8' || c == '9'
}

/// The numeric value of one decimal digit.
pub open spec fn digit_val(c: char) -> nat {
    if c == '0' {
        0
    } else if c == '1' {
        1
    } else if c == '2' {
        2
    } else if c == '3' {
        3
    } else if c == '4' {
        4
    } else if c == '5' {
        5
    } else if c == '6' {
        6
    } else if c == '7' {
        7
    } else if c == '8' {
        8
    } else {
        9
    }
}

/// The digit character of a value below ten.
pub open spec fn digit_char(d: nat) -> char {
    if d == 0 {
        '0'
    } else if d == 1 {
        '1'
    } else if d == 2 {
        '2'
    } else if d == 3 {
        '3'
    } else if d == 4 {
        '4'
    } else if d == 5 {
        '5'
    } else if d == 6 {
        '6'
    } else if d == 7 {
        '7'
    } else if d == 8 {
        '8'
    } else {
        '9'
    }
}

/// Every character of `s` is a decimal digit.
pub open spec fn all_digits(s: Seq<char>) -> bool {
    forall|i: int| 0 <= i < s.len() ==> is_digit(#[trigger] s[i])
}

/// The value of a digit string, most significant digit first. Characters
/// outside the digits contribute as if they were `9`; callers guard with
/// `all_digits`.
pub open spec fn dec_val(s: Seq<char>) -> nat
    decreases s.len(),
{
    if s.len() == 0 {
        0
    } else {
        dec_val(s.drop_last()) * 10 + digit_val(s.last())
    }
}

/// The canonical decimal text of `n`: digits only, no leading zero.
pub open spec fn dec_of(n: nat) -> Seq<char>
    decreases n,
{
    if n < 10 {
        seq![digit_char(n)]
    } else {
        dec_of(n / 10).push(digit_char(n % 10))
    }
}

/// `s` is the canonical text of its own value: nonempty, digits only, and no
/// leading zero unless it is exactly `"0"`.
pub open spec fn canonical_dec(s: Seq<char>) -> bool {
    s.len() > 0 && all_digits(s) && (s[0] != '0' || s.len() == 1)
}

/// The value of a one-character digit string is its digit's value.
pub proof fn lemma_dec_val_singleton(s: Seq<char>)
    requires
        s.len() == 1,
    ensures
        dec_val(s) == digit_val(s[0]),
{
    assert(s.drop_last() =~= Seq::<char>::empty());
    assert(dec_val(Seq::<char>::empty()) == 0);
    assert(s.last() == s[0]);
    assert(dec_val(s) == dec_val(s.drop_last()) * 10 + digit_val(s.last()));
}

/// The canonical text of a number is canonical and evaluates back to it.
pub proof fn lemma_dec_of_digits(n: nat)
    ensures
        canonical_dec(dec_of(n)),
        dec_val(dec_of(n)) == n,
    decreases n,
{
    if n < 10 {
        let s = seq![digit_char(n)];
        assert(s.len() == 1 && s[0] == digit_char(n) && s.last() == digit_char(n));
        assert(is_digit(digit_char(n)));
        assert(digit_val(digit_char(n)) == n);
        assert(s.drop_last() =~= Seq::<char>::empty());
        assert(dec_val(s.drop_last()) == 0);
        assert(dec_val(s) == digit_val(digit_char(n)));
        assert(all_digits(s));
        assert(dec_of(n) == s);
        assert(canonical_dec(s));
    } else {
        lemma_dec_of_digits(n / 10);
        let p = dec_of(n / 10);
        let s = dec_of(n);
        assert(s == p.push(digit_char(n % 10)));
        assert(s.drop_last() =~= p);
        assert(s.last() == digit_char(n % 10));
        assert(dec_val(s) == dec_val(p) * 10 + digit_val(digit_char(n % 10)));
        assert(dec_val(s) == (n / 10) * 10 + n % 10);
        assert(s[0] == p[0]);
        assert(s[0] != '0') by {
            if p[0] == '0' {
                assert(p.len() == 1);
                assert(p.drop_last() =~= Seq::<char>::empty());
                assert(dec_val(Seq::<char>::empty()) == 0);
                assert(p.last() == '0');
                assert(dec_val(p) == dec_val(p.drop_last()) * 10 + digit_val(p.last()));
                assert(false);
            }
        };
        assert(forall|i: int| 0 <= i < s.len() ==> is_digit(#[trigger] s[i]));
        assert(canonical_dec(s));
    }
}

/// A nonempty digit string that does not start with `'0'` has a positive
/// value.
pub proof fn lemma_dec_val_positive(s: Seq<char>)
    requires
        s.len() > 0,
        all_digits(s),
        s[0] != '0',
    ensures
        dec_val(s) >= 1,
    decreases s.len(),
{
    if s.len() == 1 {
        assert(digit_val(s[0]) >= 1);
    } else {
        let p = s.drop_last();
        assert(p[0] == s[0]);
        assert(forall|i: int| 0 <= i < p.len() ==> is_digit(#[trigger] p[i]));
        lemma_dec_val_positive(p);
    }
}

/// A canonical digit string is the canonical text of its own value.
pub proof fn lemma_dec_of_of_val(s: Seq<char>)
    requires
        canonical_dec(s),
    ensures
        dec_of(dec_val(s)) == s,
    decreases s.len(),
{
    if s.len() == 1 {
        lemma_dec_val_singleton(s);
        assert(dec_val(s) == digit_val(s[0]));
        assert(dec_of(dec_val(s)) =~= s);
    } else {
        let p = s.drop_last();
        let d = digit_val(s.last());
        assert(p[0] == s[0]);
        assert(forall|i: int| 0 <= i < p.len() ==> is_digit(#[trigger] p[i]));
        lemma_dec_of_of_val(p);
        lemma_dec_val_positive(p);
        let v = dec_val(s);
        assert(v == dec_val(p) * 10 + d);
        assert(v >= 10);
        assert(v / 10 == dec_val(p) && v % 10 == d) by (nonlinear_arith)
            requires
                v == dec_val(p) * 10 + d,
                d < 10,
                dec_val(p) >= 0,
        ;
        assert(dec_of(v) == dec_of(dec_val(p)).push(digit_char(d)));
        assert(digit_char(digit_val(s.last())) == s.last());
        assert(dec_of(v) =~= s);
    }
}

/// The value of a digit string is at least the value of any of its prefixes.
pub proof fn lemma_dec_val_prefix(s: Seq<char>, i: int)
    requires
        0 <= i <= s.len(),
    ensures
        dec_val(s) >= dec_val(s.subrange(0, i)),
    decreases s.len() - i,
{
    if i == s.len() {
        assert(s.subrange(0, i) =~= s);
    } else {
        lemma_dec_val_prefix(s, i + 1);
        let longer = s.subrange(0, i + 1);
        assert(longer.drop_last() =~= s.subrange(0, i));
        assert(dec_val(longer) == dec_val(s.subrange(0, i)) * 10 + digit_val(s[i]));
    }
}

/// Read the digit `c`, if it is one.
fn digit_of_char(c: char) -> (r: Option<usize>)
    ensures
        match r {
            Some(d) => is_digit(c) && d == digit_val(c),
            None => !is_digit(c),
        },
{
    match c {
        '0' => Some(0),
        '1' => Some(1),
        '2' => Some(2),
        '3' => Some(3),
        '4' => Some(4),
        '5' => Some(5),
        '6' => Some(6),
        '7' => Some(7),
        '8' => Some(8),
        '9' => Some(9),
        _ => None,
    }
}

/// Parse the characters `s[from..to]` as an unsigned decimal number. `None`
/// exactly when the range is empty, holds a non-digit, or its value does not
/// fit in `usize`.
pub fn parse_dec_range(s: &str, from: usize, to: usize) -> (r: Option<usize>)
    requires
        from <= to <= s@.len(),
    ensures
        ({
            let seg = s@.subrange(from as int, to as int);
            match r {
                Some(v) => seg.len() > 0 && all_digits(seg) && v == dec_val(seg),
                None => seg.len() == 0 || !all_digits(seg) || dec_val(seg) > usize::MAX,
            }
        }),
{
    let ghost seg = s@.subrange(from as int, to as int);
    if from == to {
        return None;
    }
    let mut acc: usize = 0;
    let mut i: usize = from;
    while i < to
        invariant
            from <= i <= to <= s@.len(),
            seg == s@.subrange(from as int, to as int),
            all_digits(s@.subrange(from as int, i as int)),
            acc == dec_val(s@.subrange(from as int, i as int)),
        decreases to - i,
    {
        let c = s.get_char(i);
        let ghost pre = s@.subrange(from as int, i as int);
        let ghost ext = s@.subrange(from as int, i + 1 as int);
        proof {
            assert(ext.drop_last() =~= pre);
            assert(ext.last() == c);
        }
        match digit_of_char(c) {
            None => {
                proof {
                    assert(seg[i - from] == c);
                    assert(!all_digits(seg));
                }
                return None;
            },
            Some(d) => {
                proof {
                    assert(dec_val(ext) == acc * 10 + digit_val(c));
                }
                let step = match acc.checked_mul(10) {
                    Some(m) => m.checked_add(d),
                    None => None,
                };
                match step {
                    Some(v) => {
                        acc = v;
                        i = i + 1;
                    },
                    None => {
                        proof {
                            assert(dec_val(ext) > usize::MAX);
                            assert(ext =~= seg.subrange(0, i + 1 - from));
                            lemma_dec_val_prefix(seg, i + 1 - from);
                        }
                        return None;
                    },
                }
            },
        }
    }
    proof {
        assert(s@.subrange(from as int, i as int) =~= seg);
    }
    Some(acc)
}

/// Append the canonical decimal text of `n` to `out`.
pub fn push_dec(out: &mut String, n: usize)
    ensures
        final(out)@ == old(out)@ + dec_of(n as nat),
    decreases n,
{
    let ghost at_entry = out@;
    if n >= 10 {
        push_dec(out, n / 10);
    }
    let rem: usize = n % 10;
    match rem {
        0 => out.append("0"),
        1 => out.append("1"),
        2 => out.append("2"),
        3 => out.append("3"),
        4 => out.append("4"),
        5 => out.append("5"),
        6 => out.append("6"),
        7 => out.append("7"),
        8 => out.append("8"),
        _ => out.append("9"),
    }
    proof {
        reveal_strlit("0");
        reveal_strlit("1");
        reveal_strlit("2");
        reveal_strlit("3");
        reveal_strlit("4");
        reveal_strlit("5");
        reveal_strlit("6");
        reveal_strlit("7");
        reveal_strlit("8");
        reveal_strlit("9");
        if n < 10 {
            assert(out@ =~= at_entry + dec_of(n as nat));
        } else {
            assert(out@ =~= at_entry + dec_of((n / 10) as nat).push(digit_char((n % 10) as nat)));
        }
    }
}

} // verus!
