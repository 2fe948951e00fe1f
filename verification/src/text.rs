use vstd::prelude::*;
use vstd::string::StringExecFns;

verus! {

/// The decimal digit character for one digit value.
pub open spec fn spec_digit_char(d: int) -> char {
    if d == 0 {
        '0'
    } else if d == 1 {
        '1'
    } else if d == 2 {
        '2'
    } else if d == 3 {
        '3'
    } else if d == 4 {
        '4'
    } else if d == 5 {
        '5'
    } else if d == 6 {
        '6'
    } else if d == 7 {
        '7'
    } else if d == 8 {
        '8'
    } else {
        '9'
    }
}

/// The decimal digits of a number, most significant first.
pub open spec fn spec_dec(n: int) -> Seq<char>
    decreases n,
{
    if n < 10 {
        seq![spec_digit_char(n)]
    } else {
        spec_dec(n / 10).push(spec_digit_char(n % 10))
    }
}

fn append_digit(s: &mut String, d: u8)
    requires
        d < 10,
    ensures
        final(s)@ == old(s)@ + seq![spec_digit_char(d as int)],
{
    if d == 0 {
        proof {
            reveal_strlit("0");
        }
        s.append("0");
    } else if d == 1 {
        proof {
            reveal_strlit("1");
        }
        s.append("1");
    } else if d == 2 {
        proof {
            reveal_strlit("2");
        }
        s.append("2");
    } else if d == 3 {
        proof {
            reveal_strlit("3");
        }
        s.append("3");
    } else if d == 4 {
        proof {
            reveal_strlit("4");
        }
        s.append("4");
    } else if d == 5 {
        proof {
            reveal_strlit("5");
        }
        s.append("5");
    } else if d == 6 {
        proof {
            reveal_strlit("6");
        }
        s.append("6");
    } else if d == 7 {
        proof {
            reveal_strlit("7");
        }
        s.append("7");
    } else if d == 8 {
        proof {
            reveal_strlit("8");
        }
        s.append("8");
    } else {
        proof {
            reveal_strlit("9");
        }
        s.append("9");
    }
    proof {
        assert(final(s)@ =~= old(s)@ + seq![spec_digit_char(d as int)]);
    }
}

/// Appends the decimal digits of a number.
pub fn append_dec(s: &mut String, n: usize)
    ensures
        final(s)@ == old(s)@ + spec_dec(n as int),
    decreases n,
{
    if n < 10 {
        append_digit(s, n as u8);
    } else {
        proof {
            assert(n / 10 < n) by (nonlinear_arith)
                requires
                    n >= 10,
            ;
        }
        append_dec(s, n / 10);
        append_digit(s, (n % 10) as u8);
        proof {
            assert(old(s)@ + spec_dec(n as int / 10) + seq![spec_digit_char(n as int % 10)]
                =~= old(s)@ + spec_dec(n as int));
        }
    }
}

/// The decimal text of a number.
pub fn usize_to_string(n: usize) -> (r: String)
    ensures
        r@ == spec_dec(n as int),
{
    let mut s = String::new();
    append_dec(&mut s, n);
    proof {
        assert(Seq::<char>::empty() + spec_dec(n as int) =~= spec_dec(n as int));
    }
    s
}

/// Whether every byte is an ASCII decimal digit.
pub open spec fn spec_all_digits(bytes: Seq<u8>) -> bool {
    forall|i: int| 0 <= i < bytes.len() ==> 48 <= #[trigger] bytes[i] <= 57
}

/// The number the digit bytes denote.
pub open spec fn spec_digits_value(bytes: Seq<u8>) -> int
    decreases bytes.len(),
{
    if bytes.len() == 0 {
        0
    } else {
        spec_digits_value(bytes.drop_last()) * 10 + (bytes.last() - 48)
    }
}

/// Whether the bytes are the text of a `usize`, as std reads it: an
/// optional leading plus sign, then one or more digits, denoting a value
/// within range.
pub open spec fn spec_is_usize_text(bytes: Seq<u8>) -> bool {
    let digits = if bytes.len() > 0 && bytes[0] == 43 {
        bytes.drop_first()
    } else {
        bytes
    };
    &&& digits.len() > 0
    &&& spec_all_digits(digits)
    &&& spec_digits_value(digits) <= usize::MAX
}

/// The value the bytes denote, sign prefix dropped.
pub open spec fn spec_usize_text_value(bytes: Seq<u8>) -> int {
    if bytes.len() > 0 && bytes[0] == 43 {
        spec_digits_value(bytes.drop_first())
    } else {
        spec_digits_value(bytes)
    }
}

/// A longer digit string never denotes a smaller number.
proof fn lemma_digits_value_mono(bytes: Seq<u8>, upto: int)
    requires
        0 <= upto <= bytes.len(),
        spec_all_digits(bytes),
    ensures
        spec_digits_value(bytes.take(upto)) <= spec_digits_value(bytes),
        spec_digits_value(bytes) >= 0,
    decreases bytes.len(),
{
    if bytes.len() == 0 {
    } else {
        let head = bytes.drop_last();
        assert(spec_all_digits(head));
        if upto == bytes.len() {
            lemma_digits_value_mono(head, head.len() as int);
            assert(spec_digits_value(bytes.take(upto)) == spec_digits_value(bytes)) by {
                assert(bytes.take(upto) =~= bytes);
            }
        } else {
            lemma_digits_value_mono(head, upto);
            assert(bytes.take(upto) =~= head.take(upto));
            lemma_digits_value_mono(head, head.len() as int);
            assert(spec_digits_value(bytes) == spec_digits_value(head) * 10 + (bytes.last() - 48));
            assert(spec_digits_value(head) * 10 >= spec_digits_value(head)) by (nonlinear_arith)
                requires
                    spec_digits_value(head) >= 0,
            ;
        }
    }
}

/// Reads a `usize` from the decimal text in `bytes`, exactly as std's
/// parser does: `None` on an empty string, a stray character, or a value
/// out of range.
pub fn parse_usize(bytes: &[u8]) -> (r: Option<usize>)
    ensures
        r is Some <==> spec_is_usize_text(bytes@),
        r matches Some(v) ==> v == spec_usize_text_value(bytes@),
{
    let n = bytes.len();
    let start: usize = if n > 0 && bytes[0] == 43 {
        1
    } else {
        0
    };
    let ghost digits = if bytes@.len() > 0 && bytes@[0] == 43 {
        bytes@.drop_first()
    } else {
        bytes@
    };
    proof {
        assert(digits =~= bytes@.subrange(start as int, n as int));
    }
    if n == start {
        return None;
    }
    let mut value: usize = 0;
    let mut i: usize = start;
    while i < n
        invariant
            start <= i <= n,
            n == bytes@.len(),
            digits == bytes@.subrange(start as int, n as int),
            digits == (if bytes@.len() > 0 && bytes@[0] == 43 {
                bytes@.drop_first()
            } else {
                bytes@
            }),
            spec_all_digits(digits.take(i - start)),
            value == spec_digits_value(digits.take(i - start)),
        decreases n - i,
    {
        let b = bytes[i];
        if b < 48 || b > 57 {
            proof {
                assert(digits[i - start] == b);
                assert(!spec_all_digits(digits));
                assert(!spec_is_usize_text(bytes@));
            }
            return None;
        }
        let d = (b - 48) as usize;
        if value > (usize::MAX - d) / 10 {
            // Too many digits: every longer prefix only grows the value.
            proof {
                let pre = digits.take(i + 1 - start);
                assert(pre.drop_last() =~= digits.take(i - start));
                assert(pre.last() == b);
                assert(spec_digits_value(pre) == value * 10 + d);
                assert(value * 10 + d > usize::MAX) by (nonlinear_arith)
                    requires
                        value > (usize::MAX - d) / 10,
                        0 <= d <= 9,
                        value >= 0,
                ;
                if spec_all_digits(digits) {
                    lemma_digits_value_mono(digits, i + 1 - start);
                    assert(spec_digits_value(digits) > usize::MAX);
                }
                assert(!spec_is_usize_text(bytes@));
            }
            return None;
        }
        proof {
            assert(value * 10 + d <= usize::MAX) by (nonlinear_arith)
                requires
                    value <= (usize::MAX - d) / 10,
                    0 <= d <= 9,
                    value >= 0,
            ;
            let pre = digits.take(i + 1 - start);
            assert(pre.drop_last() =~= digits.take(i - start));
            assert(pre.last() == b);
        }
        value = value * 10 + d;
        i = i + 1;
    }
    proof {
        assert(digits.take(n - start) =~= digits);
    }
    Some(value)
}

/// How many times a byte occurs.
pub open spec fn spec_count_byte(bytes: Seq<u8>, b: u8) -> int
    decreases bytes.len(),
{
    if bytes.len() == 0 {
        0
    } else {
        spec_count_byte(bytes.drop_last(), b) + if bytes.last() == b {
            1int
        } else {
            0int
        }
    }
}

/// Index of the first occurrence of a byte, or the length if absent.
pub open spec fn spec_find_byte(bytes: Seq<u8>, b: u8) -> int
    decreases bytes.len(),
{
    if bytes.len() == 0 {
        0
    } else if bytes[0] == b {
        0
    } else {
        1 + spec_find_byte(bytes.drop_first(), b)
    }
}

/// A byte string with no occurrence before `p` and an occurrence at `p`
/// finds its first occurrence at `p`.
pub proof fn lemma_find_characterization(bytes: Seq<u8>, b: u8, p: int)
    requires
        0 <= p < bytes.len(),
        bytes[p] == b,
        spec_count_byte(bytes.take(p), b) == 0,
    ensures
        spec_find_byte(bytes, b) == p,
    decreases p,
{
    if p == 0 {
    } else {
        assert(bytes[0] != b) by {
            if bytes[0] == b {
                assert(bytes.take(p)[0] == b);
                lemma_count_byte_member(bytes.take(p), b, 0);
                lemma_count_byte_nonneg(bytes.take(p), b);
            }
        }
        let rest = bytes.drop_first();
        assert(rest.take(p - 1) =~= bytes.take(p).drop_first());
        lemma_count_byte_drop_first(bytes.take(p), b);
        lemma_count_byte_nonneg(rest.take(p - 1), b);
        lemma_find_characterization(rest, b, p - 1);
    }
}

pub proof fn lemma_count_byte_member(bytes: Seq<u8>, b: u8, k: int)
    requires
        0 <= k < bytes.len(),
        bytes[k] == b,
    ensures
        spec_count_byte(bytes, b) >= 1,
    decreases bytes.len(),
{
    if k == bytes.len() - 1 {
        lemma_count_byte_nonneg(bytes.drop_last(), b);
    } else {
        lemma_count_byte_member(bytes.drop_last(), b, k);
    }
}

pub proof fn lemma_count_byte_nonneg(bytes: Seq<u8>, b: u8)
    ensures
        spec_count_byte(bytes, b) >= 0,
    decreases bytes.len(),
{
    if bytes.len() > 0 {
        lemma_count_byte_nonneg(bytes.drop_last(), b);
    }
}

pub proof fn lemma_count_byte_drop_first(bytes: Seq<u8>, b: u8)
    requires
        bytes.len() > 0,
    ensures
        spec_count_byte(bytes, b) == spec_count_byte(bytes.drop_first(), b) + (if bytes[0] == b {
            1int
        } else {
            0int
        }),
    decreases bytes.len(),
{
    if bytes.len() == 1 {
        assert(bytes.drop_last() =~= bytes.drop_first());
    } else {
        lemma_count_byte_drop_first(bytes.drop_last(), b);
        assert(bytes.drop_last().drop_first() =~= bytes.drop_first().drop_last());
    }
}

} // verus!
