use vstd::prelude::*;

verus! {

/// ASCII decimal digit.
pub open spec fn is_digit(b: u8) -> bool {
    48 <= b <= 57
}

/// Length of the longest run of decimal digits at the start of `s`.
pub open spec fn digit_prefix_len(s: Seq<u8>) -> int
    decreases s.len(),
{
    if s.len() == 0 || !is_digit(s[0]) {
        0
    } else {
        1 + digit_prefix_len(s.drop_first())
    }
}

/// Value of `s` read as a big-endian decimal numeral.
pub open spec fn digits_value(s: Seq<u8>) -> int
    decreases s.len(),
{
    if s.len() == 0 {
        0
    } else {
        digits_value(s.drop_last()) * 10 + (s.last() - 48)
    }
}

/// `s` ends in the four bytes of `.sql`.
pub open spec fn has_sql_suffix(s: Seq<u8>) -> bool {
    &&& s.len() >= 4
    &&& s[s.len() - 4] == 46u8
    &&& s[s.len() - 3] == 115u8
    &&& s[s.len() - 2] == 113u8
    &&& s[s.len() - 1] == 108u8
}

/// A well-formed migration file name: a decimal version number, anything,
/// then a `.sql` extension.
pub open spec fn valid_migration_filename(s: Seq<u8>) -> bool {
    digit_prefix_len(s) >= 1 && has_sql_suffix(s)
}

/// The digit prefix ends exactly where the scan stops.
proof fn lemma_digit_prefix_len(s: Seq<u8>, k: int)
    requires
        0 <= k <= s.len(),
        forall|j: int| 0 <= j < k ==> is_digit(s[j]),
        k == s.len() || !is_digit(s[k]),
    ensures
        digit_prefix_len(s) == k,
    decreases s.len(),
{
    if s.len() == 0 {
    } else if k == 0 {
    } else {
        assert(forall|j: int| 0 <= j < s.drop_first().len() ==> s.drop_first()[j] == s[j + 1]);
        lemma_digit_prefix_len(s.drop_first(), k - 1);
    }
}

/// A decimal numeral never shrinks when digits are appended.
proof fn lemma_digits_value_monotone(s: Seq<u8>, j: int, k: int)
    requires
        0 <= j <= k <= s.len(),
        forall|i: int| 0 <= i < s.len() ==> is_digit(s[i]),
    ensures
        digits_value(s.subrange(0, j)) <= digits_value(s.subrange(0, k)),
    decreases k - j,
{
    if j < k {
        lemma_digits_value_monotone(s, j, k - 1);
        let pre = s.subrange(0, k - 1);
        let cur = s.subrange(0, k);
        assert(cur.drop_last() =~= pre);
        assert(is_digit(cur.last()));
        lemma_digits_value_nonneg(pre);
    }
}

/// The value of a numeral made of digits is never negative.
proof fn lemma_digits_value_nonneg(s: Seq<u8>)
    requires
        forall|i: int| 0 <= i < s.len() ==> is_digit(s[i]),
    ensures
        digits_value(s) >= 0,
    decreases s.len(),
{
    if s.len() > 0 {
        assert(forall|i: int| 0 <= i < s.drop_last().len() ==> s.drop_last()[i] == s[i]);
        lemma_digits_value_nonneg(s.drop_last());
    }
}

/// Parse the version number out of a migration file name, given as bytes:
/// the name must start with at least one decimal digit and end in `.sql`,
/// and the leading numeral must fit in a version number. Returns `None` on
/// any malformed name, so a build step can treat that as fatal.
///
/// This is the runtime core of the build-time loader; reading the directory
/// and the file contents stays outside the library.
pub fn parse_migration_filename(name: &[u8]) -> (r: Option<u64>)
    ensures
        ({
            let dp = digit_prefix_len(name@);
            let value = digits_value(name@.subrange(0, dp));
            match r {
                Some(v) => valid_migration_filename(name@) && value <= u64::MAX && v == value,
                None => !valid_migration_filename(name@) || value > u64::MAX,
            }
        }),
{
    let n = name.len();

    // The `.sql` extension comes last in the regular expression, but
    // checking it first keeps the scan below on the happy path only.
    if n < 4 || name[n - 4] != 46 || name[n - 3] != 115 || name[n - 2] != 113 || name[n - 1]
        != 108 {
        return None;
    }

    let mut i: usize = 0;
    let mut acc: u64 = 0;
    while i < n && 48 <= name[i] && name[i] <= 57
        invariant
            i <= n,
            n == name@.len(),
            forall|j: int| 0 <= j < i ==> is_digit(name@[j]),
            acc == digits_value(name@.subrange(0, i as int)),
        decreases n - i,
    {
        let d = name[i] - 48;
        let acc10 = match acc.checked_mul(10) {
            Some(x) => x,
            None => {
                proof {
                    lemma_overflow(name@, i as int);
                }
                return None;
            },
        };
        let next = match acc10.checked_add(d as u64) {
            Some(x) => x,
            None => {
                proof {
                    lemma_overflow(name@, i as int);
                }
                return None;
            },
        };
        proof {
            assert(name@.subrange(0, i as int + 1).drop_last() =~= name@.subrange(0, i as int));
            assert(name@.subrange(0, i as int + 1).last() == name@[i as int]);
        }
        acc = next;
        i += 1;
    }

    proof {
        lemma_digit_prefix_len(name@, i as int);
    }

    if i == 0 {
        return None;
    }
    Some(acc)
}

/// When one more digit no longer fits, the whole digit prefix does not fit
/// either.
proof fn lemma_overflow(s: Seq<u8>, i: int)
    requires
        0 <= i < s.len(),
        forall|j: int| 0 <= j <= i ==> is_digit(s[j]),
        digits_value(s.subrange(0, i)) * 10 + (s[i] - 48) > u64::MAX,
    ensures
        digits_value(s.subrange(0, digit_prefix_len(s))) > u64::MAX,
{
    let dp = digit_prefix_len(s);
    lemma_digit_prefix_at_least(s, i + 1);
    lemma_digit_prefix_all_digits(s);
    let digits = s.subrange(0, dp);
    assert(forall|j: int| 0 <= j < digits.len() ==> is_digit(digits[j]));
    assert(s.subrange(0, i + 1).drop_last() =~= s.subrange(0, i));
    assert(s.subrange(0, i + 1).last() == s[i]);
    assert(digits_value(s.subrange(0, i + 1)) > u64::MAX);
    assert(digits.subrange(0, i + 1) =~= s.subrange(0, i + 1));
    assert(digits.subrange(0, dp) =~= digits);
    lemma_digits_value_monotone(digits, i + 1, dp);
}

/// Every byte inside the digit prefix is a digit.
proof fn lemma_digit_prefix_all_digits(s: Seq<u8>)
    ensures
        digit_prefix_len(s) <= s.len(),
        forall|j: int| 0 <= j < digit_prefix_len(s) ==> is_digit(s[j]),
    decreases s.len(),
{
    if s.len() > 0 && is_digit(s[0]) {
        lemma_digit_prefix_all_digits(s.drop_first());
        assert(digit_prefix_len(s) == 1 + digit_prefix_len(s.drop_first()));
        assert forall|j: int| 0 <= j < digit_prefix_len(s) implies is_digit(s[j]) by {
            if j > 0 {
                assert(is_digit(s.drop_first()[j - 1]));
                assert(s.drop_first()[j - 1] == s[j]);
            }
        }
    }
}

/// A scan that has only seen digits so far has not passed the digit prefix.
proof fn lemma_digit_prefix_at_least(s: Seq<u8>, k: int)
    requires
        0 <= k <= s.len(),
        forall|j: int| 0 <= j < k ==> is_digit(s[j]),
    ensures
        digit_prefix_len(s) >= k,
    decreases s.len(),
{
    if s.len() == 0 || !is_digit(s[0]) {
        if k > 0 {
            assert(is_digit(s[0]));
        }
        assert(digit_prefix_len(s) == 0);
    } else {
        let k2: int = if k > 0 {
            k - 1
        } else {
            0
        };
        assert forall|j: int| 0 <= j < k2 implies is_digit(s.drop_first()[j]) by {
            assert(s.drop_first()[j] == s[j + 1]);
            assert(is_digit(s[j + 1]));
        }
        lemma_digit_prefix_at_least(s.drop_first(), k2);
        assert(digit_prefix_len(s) == 1 + digit_prefix_len(s.drop_first()));
    }
}

} // verus!
