//! Byte-level helpers shared by the wire codec: whitespace trimming and
//! decimal numerals, as they appear in a `Content-Length` header.

use vstd::prelude::*;

verus! {

/// Whitespace as it may surround the numeral in a header line: space, tab,
/// carriage return, line feed.
pub open spec fn is_ws(b: u8) -> bool {
    b == 32 || b == 9 || b == 13 || b == 10
}

/// An ASCII decimal digit.
pub open spec fn is_digit(b: u8) -> bool {
    48 <= b && b <= 57
}

/// The bytes with leading and trailing whitespace removed.
pub open spec fn trim_spec(s: Seq<u8>) -> Seq<u8>
    decreases s.len(),
{
    if s.len() > 0 && is_ws(s.first()) {
        trim_spec(s.drop_first())
    } else if s.len() > 0 && is_ws(s.last()) {
        trim_spec(s.drop_last())
    } else {
        s
    }
}

/// A non-empty run of decimal digits.
pub open spec fn is_digit_seq(s: Seq<u8>) -> bool {
    s.len() > 0 && forall|i: int| 0 <= i < s.len() ==> is_digit(#[trigger] s[i])
}

/// The value of a run of decimal digits, most significant first.
pub open spec fn digits_value(s: Seq<u8>) -> nat
    decreases s.len(),
{
    if s.len() == 0 {
        0
    } else {
        digits_value(s.drop_last()) * 10 + (s.last() - 48) as nat
    }
}

/// The shortest decimal numeral for `n`.
pub open spec fn dec_spec(n: nat) -> Seq<u8>
    decreases n,
{
    if n < 10 {
        seq![(48 + n) as u8]
    } else {
        dec_spec(n / 10).push((48 + n % 10) as u8)
    }
}

/// Appending digits never lowers the value.
proof fn lemma_digits_value_prefix(s: Seq<u8>, i: int)
    requires
        0 <= i <= s.len(),
        forall|j: int| 0 <= j < s.len() ==> is_digit(#[trigger] s[j]),
    ensures
        digits_value(s.take(i)) <= digits_value(s),
    decreases s.len() - i,
{
    if i < s.len() {
        assert(s.take(i + 1).drop_last() =~= s.take(i));
        assert(digits_value(s.take(i + 1)) == digits_value(s.take(i)) * 10 + (s.take(i + 1).last()
            - 48));
        assert(digits_value(s.take(i)) <= digits_value(s.take(i + 1)));
        lemma_digits_value_prefix(s, i + 1);
        assert(s.take(s.len() as int) =~= s);
    } else {
        assert(s.take(i) =~= s);
    }
}

/// The decimal numeral of `n` is all digits and reads back as `n`.
pub(crate) proof fn lemma_dec_spec_value(n: nat)
    ensures
        is_digit_seq(dec_spec(n)),
        digits_value(dec_spec(n)) == n,
    decreases n,
{
    if n < 10 {
        let s = dec_spec(n);
        assert(s =~= seq![(48 + n) as u8]);
        assert(s.drop_last() =~= Seq::<u8>::empty());
        assert(digits_value(s.drop_last()) == 0);
        assert(s.last() == (48 + n) as u8);
        assert(digits_value(s) == digits_value(s.drop_last()) * 10 + (s.last() - 48) as nat);
        assert((s.last() - 48) as nat == n);
    } else {
        lemma_dec_spec_value(n / 10);
        let s = dec_spec(n);
        assert(s =~= dec_spec(n / 10).push((48 + n % 10) as u8));
        assert(s.drop_last() =~= dec_spec(n / 10));
        assert(n % 10 < 10);
        assert(s.last() == (48 + n % 10) as u8);
        assert((s.last() - 48) as nat == n % 10);
        assert(digits_value(s) == (n / 10) * 10 + n % 10);
        assert(n == (n / 10) * 10 + n % 10);
        assert(forall|i: int|
            0 <= i < s.len() ==> is_digit(#[trigger] s[i])) by {
            assert(forall|i: int|
                0 <= i < s.len() - 1 ==> #[trigger] s[i] == dec_spec(n / 10)[i]);
        }
    }
}

/// True exactly when the byte is whitespace.
pub fn is_ws_byte(b: u8) -> (r: bool)
    ensures
        r == is_ws(b),
{
    b == 32 || b == 9 || b == 13 || b == 10
}

/// Parses the whole byte range `s[from..]`, once trimmed, as a decimal
/// numeral; `None` when it is empty, holds a non-digit, or does not fit in
/// `usize`.
pub fn parse_trimmed_decimal(s: &Vec<u8>, from: usize) -> (r: Option<usize>)
    requires
        from <= s@.len(),
    ensures
        ({
            let t = trim_spec(s@.skip(from as int));
            &&& r is Some <==> (is_digit_seq(t) && digits_value(t) <= usize::MAX)
            &&& (r matches Some(n) ==> n as nat == digits_value(t))
        }),
{
    let ghost whole = s@.skip(from as int);
    let mut lo: usize = from;
    while lo < s.len() && is_ws_byte(s[lo])
        invariant
            from <= lo <= s@.len(),
            trim_spec(whole) == trim_spec(s@.skip(lo as int)),
            whole == s@.skip(from as int),
        decreases s@.len() - lo,
    {
        proof {
            assert(s@.skip(lo as int).drop_first() =~= s@.skip(lo as int + 1));
        }
        lo = lo + 1;
    }
    let mut hi: usize = s.len();
    while hi > lo && is_ws_byte(s[hi - 1])
        invariant
            from <= lo <= hi <= s@.len(),
            whole == s@.skip(from as int),
            trim_spec(whole) == trim_spec(s@.subrange(lo as int, hi as int)),
            lo < s@.len() ==> !is_ws(s@[lo as int]),
        decreases hi,
    {
        proof {
            assert(s@.subrange(lo as int, hi as int).drop_last() =~= s@.subrange(
                lo as int,
                hi as int - 1,
            ));
        }
        hi = hi - 1;
    }
    let ghost t = s@.subrange(lo as int, hi as int);
    proof {
        assert(trim_spec(t) == t);
        assert(trim_spec(whole) == t);
    }
    if lo == hi {
        return None;
    }
    let mut acc: usize = 0;
    let mut k: usize = lo;
    while k < hi
        invariant
            lo <= k <= hi <= s@.len(),
            whole == s@.skip(from as int),
            t == s@.subrange(lo as int, hi as int),
            trim_spec(whole) == t,
            lo < hi,
            forall|j: int| 0 <= j < k - lo ==> is_digit(#[trigger] t[j]),
            acc as nat == digits_value(t.take(k - lo)),
        decreases hi - k,
    {
        let b = s[k];
        proof {
            assert(t[k - lo] == s@[k as int]);
        }
        if !(48 <= b && b <= 57) {
            proof {
                assert(!is_digit(t[k - lo]));
                assert(!is_digit_seq(t));
            }
            return None;
        }
        let d = (b - 48) as usize;
        if acc > (usize::MAX - d) / 10 {
            // The numeral read so far already overflows `usize`; any digits
            // that follow only enlarge it.
            proof {
                let tt = t.take(k - lo + 1);
                assert(tt.drop_last() =~= t.take(k - lo));
                assert(tt.last() == t[k - lo]);
                assert(digits_value(tt) == acc as nat * 10 + d as nat);
                assert(acc as nat * 10 + d as nat > usize::MAX as nat) by {
                    let q = (usize::MAX - d) / 10;
                    assert(q * 10 + 10 > usize::MAX - d);
                    assert(acc >= q + 1);
                    assert(acc * 10 >= (q + 1) * 10) by (nonlinear_arith)
                        requires
                            acc >= q + 1,
                    ;
                }
                if is_digit_seq(t) {
                    lemma_digits_value_prefix(t, k - lo + 1);
                    assert(digits_value(t) >= digits_value(tt));
                    assert(digits_value(t) > usize::MAX);
                }
                assert(!(is_digit_seq(t) && digits_value(t) <= usize::MAX));
            }
            return None;
        }
        proof {
            assert(acc <= (usize::MAX - d) / 10);
            assert(acc * 10 <= ((usize::MAX - d) / 10) * 10) by (nonlinear_arith)
                requires
                    acc <= (usize::MAX - d) / 10,
            ;
            assert(((usize::MAX - d) / 10) * 10 <= usize::MAX - d);
            assert(t.take(k - lo + 1).drop_last() =~= t.take(k - lo));
        }
        acc = acc * 10 + d;
        k = k + 1;
    }
    proof {
        assert(t.take(hi - lo) =~= t);
    }
    Some(acc)
}

/// The shortest decimal numeral for `n`, as bytes.
pub fn render_decimal(n: usize) -> (r: Vec<u8>)
    ensures
        r@ == dec_spec(n as nat),
    decreases n,
{
    if n < 10 {
        let mut v: Vec<u8> = Vec::new();
        v.push(48 + n as u8);
        proof {
            assert(v@ =~= dec_spec(n as nat));
        }
        v
    } else {
        let mut v = render_decimal(n / 10);
        v.push(48 + (n % 10) as u8);
        v
    }
}

/// Appends all of `src` to `dst`.
pub fn push_all(dst: &mut Vec<u8>, src: &Vec<u8>)
    ensures
        final(dst)@ == old(dst)@ + src@,
{
    let mut j: usize = 0;
    while j < src.len()
        invariant
            j <= src@.len(),
            dst@ == old(dst)@ + src@.take(j as int),
        decreases src@.len() - j,
    {
        dst.push(src[j]);
        proof {
            assert(old(dst)@ + src@.take(j as int + 1) =~= (old(dst)@ + src@.take(j as int)).push(
                src@[j as int],
            ));
        }
        j = j + 1;
    }
    proof {
        assert(src@.take(src@.len() as int) =~= src@);
    }
}

} // verus!
