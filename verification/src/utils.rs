//! Input helpers: reading a number from a line and reading a `/`-separated
//! list of indices.

use vstd::prelude::*;
use vstd::string::StrSliceExecFns;
use crate::questions::{spec_split, split_on, strs_view};

verus! {

/// A decimal digit.
pub open spec fn is_digit(c: char) -> bool {
    '0' <= c && c <= '9'
}

/// The value of a decimal digit.
pub open spec fn digit_val(c: char) -> int {
    c as int - '0' as int
}

/// All characters are decimal digits.
pub open spec fn all_digits(s: Seq<char>) -> bool {
    forall|i: int| 0 <= i < s.len() ==> is_digit(#[trigger] s[i])
}

/// The number the digit string denotes.
pub open spec fn digits_val(s: Seq<char>) -> int
    decreases s.len(),
{
    if s.len() == 0 {
        0
    } else {
        digits_val(s.drop_last()) * 10 + digit_val(s.last())
    }
}

/// The number a line denotes: an optional leading `+`, then at least one
/// digit, with a value that fits; anything else is no number.
pub open spec fn spec_parse_usize(s: Seq<char>) -> Option<usize> {
    let digits = if s.len() > 0 && s[0] == '+' {
        s.skip(1)
    } else {
        s
    };
    if digits.len() > 0 && all_digits(digits) && digits_val(digits) <= usize::MAX {
        Some(digits_val(digits) as usize)
    } else {
        None
    }
}

proof fn lemma_digits_val_nonneg(s: Seq<char>)
    requires
        all_digits(s),
    ensures
        digits_val(s) >= 0,
    decreases s.len(),
{
    if s.len() > 0 {
        assert(all_digits(s.drop_last()));
        lemma_digits_val_nonneg(s.drop_last());
    }
}

proof fn lemma_digits_val_mono(s: Seq<char>, i: int)
    requires
        all_digits(s),
        0 <= i <= s.len(),
    ensures
        digits_val(s.take(i)) <= digits_val(s),
    decreases s.len() - i,
{
    if i < s.len() {
        let t = s.take(i + 1);
        assert(t.drop_last() =~= s.take(i));
        assert(t.last() == s[i]);
        assert(all_digits(s.take(i)));
        lemma_digits_val_nonneg(s.take(i));
        assert(digits_val(s.take(i)) <= digits_val(s.take(i + 1)));
        lemma_digits_val_mono(s, i + 1);
    } else {
        assert(s.take(i) =~= s);
    }
}

/// Reads a quantity from an input line, as the menu flow needs it.
pub fn get_line_number(line: &String) -> (r: Option<usize>)
    ensures
        r == spec_parse_usize(line@),
{
    let s = line.as_str();
    let n = s.unicode_len();
    let mut start: usize = 0;
    if n > 0 {
        if s.get_char(0) == '+' {
            start = 1;
        }
    }
    let ghost digits: Seq<char> = if line@.len() > 0 && line@[0] == '+' {
        line@.skip(1)
    } else {
        line@
    };
    proof {
        if start == 0 {
            assert(line@.skip(0) =~= line@);
        }
        assert(digits =~= line@.skip(start as int));
        assert(digits.len() == n - start);
    }
    if start >= n {
        return None;
    }
    let mut acc: usize = 0;
    let mut i: usize = start;
    proof {
        assert(digits.take(0) =~= Seq::<char>::empty());
    }
    while i < n
        invariant
            start <= i <= n,
            start <= 1,
            n == line@.len(),
            s@ == line@,
            digits =~= line@.skip(start as int),
            digits == (if line@.len() > 0 && line@[0] == '+' {
                line@.skip(1)
            } else {
                line@
            }),
            digits.len() == n - start,
            all_digits(digits.take(i - start)),
            acc == digits_val(digits.take(i - start)),
        decreases n - i,
    {
        let c = s.get_char(i);
        let cv = c as u32;
        proof {
            assert(digits[i - start] == line@[i as int]);
        }
        if cv < 48 || cv > 57 {
            proof {
                assert(!is_digit(line@[i as int])) by {
                    assert('0' as u32 == 48 && '9' as u32 == 57);
                }
                assert(!all_digits(digits));
            }
            return None;
        }
        let d = (cv - 48) as usize;
        proof {
            assert(is_digit(line@[i as int])) by {
                assert('0' as u32 == 48 && '9' as u32 == 57);
            }
            assert(d == digit_val(digits[i - start])) by {
                assert('0' as u32 == 48);
            }
            let t = digits.take(i - start + 1);
            assert(t.drop_last() =~= digits.take(i - start));
            assert(t.last() == digits[i - start]);
            assert(all_digits(t));
            assert(digits_val(t) == acc * 10 + d);
        }
        if acc > (usize::MAX - d) / 10 {
            proof {
                assert(acc * 10 + d > usize::MAX) by (nonlinear_arith)
                    requires
                        acc > (usize::MAX - d) / 10,
                        d <= 9,
                ;
                if all_digits(digits) {
                    lemma_digits_val_mono(digits, i - start + 1);
                    assert(digits_val(digits) > usize::MAX);
                }
            }
            return None;
        }
        proof {
            assert(acc * 10 + d <= usize::MAX) by (nonlinear_arith)
                requires
                    acc <= (usize::MAX - d) / 10,
                    d <= 9,
            ;
        }
        acc = acc * 10 + d;
        i = i + 1;
    }
    proof {
        assert(digits.take(i - start) =~= digits);
    }
    Some(acc)
}

/// The indices a `/`-separated line denotes, parse failures skipped.
pub open spec fn collect_indices(parts: Seq<Seq<char>>) -> Seq<usize>
    decreases parts.len(),
{
    if parts.len() == 0 {
        Seq::empty()
    } else {
        collect_indices(parts.drop_last()) + (match spec_parse_usize(parts.last()) {
            Some(v) => seq![v],
            None => Seq::<usize>::empty(),
        })
    }
}

/// The category indices a whole input line denotes.
pub open spec fn spec_indices(s: Seq<char>) -> Seq<usize> {
    collect_indices(spec_split(s, '/'))
}

/// Reads the `/`-separated category indices from an input line; a part that
/// is no number is skipped.
pub fn get_line_indices(line: &String) -> (r: Vec<usize>)
    ensures
        r@ == spec_indices(line@),
{
    let parts = split_on(line.as_str(), '/');
    let ghost pv = strs_view(parts@);
    let mut out: Vec<usize> = Vec::new();
    let mut i: usize = 0;
    proof {
        assert(pv.take(0) =~= Seq::<Seq<char>>::empty());
        assert(out@ =~= collect_indices(pv.take(0)));
    }
    while i < parts.len()
        invariant
            0 <= i <= parts@.len(),
            pv == strs_view(parts@),
            out@ == collect_indices(pv.take(i as int)),
        decreases parts@.len() - i,
    {
        let ghost old_out = out@;
        proof {
            assert(pv[i as int] == parts@[i as int]@);
            assert(pv.take(i as int + 1).drop_last() =~= pv.take(i as int));
            assert(pv.take(i as int + 1).last() == pv[i as int]);
        }
        match get_line_number(&parts[i]) {
            Some(v) => {
                out.push(v);
                proof {
                    assert(out@ =~= old_out + seq![v]);
                }
            },
            None => {
                proof {
                    assert(out@ =~= old_out + Seq::<usize>::empty());
                }
            },
        }
        i = i + 1;
    }
    proof {
        assert(pv.take(i as int) =~= pv);
    }
    out
}

} // verus!
