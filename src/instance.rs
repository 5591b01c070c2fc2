use vstd::prelude::*;
use vstd::string::StrSliceExecFns;
use crate::error::SasError;

verus! {

/// The value of a hexadecimal digit, either case.
pub open spec fn hex_digit(c: char) -> Option<nat> {
    if '0' <= c && c <= '9' {
        Some((c as nat - '0' as nat) as nat)
    } else if 'a' <= c && c <= 'f' {
        Some((c as nat - 'a' as nat + 10) as nat)
    } else if 'A' <= c && c <= 'F' {
        Some((c as nat - 'A' as nat + 10) as nat)
    } else {
        None
    }
}

pub open spec fn all_hex(s: Seq<char>) -> bool {
    forall|i: int| 0 <= i < s.len() ==> (#[trigger] hex_digit(s[i])) is Some
}

/// The number that a run of hexadecimal digits denotes.
pub open spec fn hex_value(s: Seq<char>) -> nat
    decreases s.len(),
{
    if s.len() == 0 {
        0
    } else {
        hex_value(s.drop_last()) * 16 + match hex_digit(s.last()) {
            Some(d) => d,
            None => 0,
        }
    }
}

/// Instance text: `0x` followed by at least one hexadecimal digit.
pub open spec fn is_instance_text(s: Seq<char>) -> bool {
    &&& s.len() >= 3
    &&& s[0] == '0'
    &&& s[1] == 'x'
    &&& all_hex(s.subrange(2, s.len() as int))
}

/// The instance number that `s` denotes, where it is valid and fits in 64 bits.
pub open spec fn instance_of(s: Seq<char>) -> Option<u64> {
    if is_instance_text(s) && hex_value(s.subrange(2, s.len() as int)) <= u64::MAX {
        Some(hex_value(s.subrange(2, s.len() as int)) as u64)
    } else {
        None
    }
}

proof fn lemma_hex_value_push(s: Seq<char>, c: char)
    ensures
        hex_value(s.push(c)) == hex_value(s) * 16 + match hex_digit(c) {
            Some(d) => d,
            None => 0,
        },
{
    assert(s.push(c).drop_last() =~= s);
}

proof fn lemma_hex_value_monotone(s: Seq<char>, k: int)
    requires
        0 <= k <= s.len(),
    ensures
        hex_value(s.subrange(0, k)) <= hex_value(s),
    decreases s.len() - k,
{
    if k < s.len() {
        lemma_hex_value_monotone(s, k + 1);
        assert(s.subrange(0, k + 1).drop_last() =~= s.subrange(0, k));
    } else {
        assert(s.subrange(0, k) =~= s);
    }
}

fn hex_digit_of(c: char) -> (r: Option<u64>)
    ensures
        r matches Some(d) ==> hex_digit(c) == Some(d as nat),
        r is None ==> hex_digit(c) is None,
{
    if '0' <= c && c <= '9' {
        Some((c as u64) - ('0' as u64))
    } else if 'a' <= c && c <= 'f' {
        Some((c as u64) - ('a' as u64) + 10)
    } else if 'A' <= c && c <= 'F' {
        Some((c as u64) - ('A' as u64) + 10)
    } else {
        None
    }
}

/// Parses instance text such as `0x1a` into its number.
pub fn parse_instance(s: &str) -> (r: Result<u64, SasError>)
    ensures
        r matches Ok(v) ==> instance_of(s@) == Some(v),
        r is Err ==> instance_of(s@) is None && r == Err::<u64, SasError>(SasError::Parse),
{
    let n = s.unicode_len();
    if n < 3 || s.get_char(0) != '0' || s.get_char(1) != 'x' {
        return Err(SasError::Parse);
    }
    let ghost digits = s@.subrange(2, n as int);
    let mut acc: u64 = 0;
    let mut i: usize = 2;
    while i < n
        invariant
            2 <= i <= n,
            n == s@.len(),
            digits == s@.subrange(2, n as int),
            all_hex(digits.subrange(0, i - 2)),
            acc as nat == hex_value(digits.subrange(0, i - 2)),
        decreases n - i,
    {
        let c = s.get_char(i);
        let d = match hex_digit_of(c) {
            Some(d) => d,
            None => {
                proof {
                    assert(hex_digit(digits[i - 2]) is None);
                }
                return Err(SasError::Parse);
            },
        };
        proof {
            assert(digits.subrange(0, i - 2).push(c) =~= digits.subrange(0, i - 1));
            lemma_hex_value_push(digits.subrange(0, i - 2), c);
        }
        if acc > (u64::MAX - d) / 16 {
            proof {
                lemma_hex_value_monotone(digits, i - 1);
                assert(hex_value(digits.subrange(0, i - 1)) > u64::MAX) by (nonlinear_arith)
                    requires
                        acc > (u64::MAX - d) / 16,
                        hex_value(digits.subrange(0, i - 1)) == acc * 16 + d,
                        d <= 15,
                ;
            }
            return Err(SasError::Parse);
        }
        proof {
            assert(acc * 16 + d <= u64::MAX) by (nonlinear_arith)
                requires
                    acc <= (u64::MAX - d) / 16,
                    d <= 15,
            ;
        }
        acc = acc * 16 + d;
        i = i + 1;
    }
    proof {
        assert(digits.subrange(0, n - 2) =~= digits);
    }
    Ok(acc)
}

} // verus!
