use vstd::prelude::*;

verus! {

/// The types an option's captured value can be read back as. Each type says in
/// spec terms which strings it accepts and which value a string stands for.
pub trait OptValue: Sized {
    /// Whether `s` parses as a value of this type.
    spec fn parseable(s: Seq<char>) -> bool;

    /// Whether `s` parses to the value `v`.
    spec fn parses_to(s: Seq<char>, v: Self) -> bool;

    /// Parse `s`: `None` exactly when `s` is not parseable.
    fn parse_opt(s: &str) -> (r: Option<Self>)
        ensures
            (r is Some) == Self::parseable(s@),
            (match r {
                Some(v) => Self::parses_to(s@, v),
                None => true,
            }),
    ;
}

impl OptValue for String {
    open spec fn parseable(s: Seq<char>) -> bool {
        true
    }

    open spec fn parses_to(s: Seq<char>, v: String) -> bool {
        v@ == s
    }

    fn parse_opt(s: &str) -> (r: Option<String>) {
        Some(s.to_owned())
    }
}

impl OptValue for bool {
    open spec fn parseable(s: Seq<char>) -> bool {
        s == "true"@ || s == "false"@
    }

    open spec fn parses_to(s: Seq<char>, v: bool) -> bool {
        (s == "true"@ && v == true) || (s == "false"@ && v == false)
    }

    fn parse_opt(s: &str) -> (r: Option<bool>) {
        let owned = s.to_owned();
        if owned.eq(&String::from_str("true")) {
            Some(true)
        } else if owned.eq(&String::from_str("false")) {
            Some(false)
        } else {
            None
        }
    }
}

/// Whether `c` is an ASCII decimal digit.
pub open spec fn is_digit(c: char) -> bool {
    '0' <= c && c <= '9'
}

/// The numeric value of a digit character.
pub open spec fn digit_val(c: char) -> int {
    c as int - '0' as int
}

/// Whether every character of `s` is a decimal digit.
pub open spec fn all_digits(s: Seq<char>) -> bool {
    forall|i: int| 0 <= i < s.len() ==> is_digit(#[trigger] s[i])
}

/// The value of a digit string read in base ten.
pub open spec fn digits_val(s: Seq<char>) -> int
    decreases s.len(),
{
    if s.len() == 0 {
        0
    } else {
        digits_val(s.drop_last()) * 10 + digit_val(s.last())
    }
}

/// The digits of `s` after an optional leading sign.
pub open spec fn int_digits(s: Seq<char>) -> Seq<char> {
    if s.len() > 0 && (s[0] == '-' || s[0] == '+') {
        s.drop_first()
    } else {
        s
    }
}

/// Whether `s` carries a leading minus sign.
pub open spec fn int_negative(s: Seq<char>) -> bool {
    s.len() > 0 && s[0] == '-'
}

/// What `s` denotes as a signed integer: an optional sign, then at least one
/// decimal digit and nothing else, with the value in range for `i64`.
pub open spec fn parse_i64_spec(s: Seq<char>) -> Option<int> {
    let ds = int_digits(s);
    if ds.len() == 0 || !all_digits(ds) {
        None
    } else {
        let v = if int_negative(s) {
            -digits_val(ds)
        } else {
            digits_val(ds)
        };
        if i64::MIN <= v <= i64::MAX {
            Some(v)
        } else {
            None
        }
    }
}

proof fn lemma_digits_val_nonneg(s: Seq<char>)
    requires
        all_digits(s),
    ensures
        digits_val(s) >= 0,
    decreases s.len(),
{
    if s.len() > 0 {
        assert(all_digits(s.drop_last())) by {
            assert(forall|i: int|
                0 <= i < s.len() - 1 ==> s.drop_last()[i] == #[trigger] s[i]);
        }
        lemma_digits_val_nonneg(s.drop_last());
    }
}

proof fn lemma_digits_val_grows(s: Seq<char>, k: int)
    requires
        all_digits(s),
        0 <= k <= s.len(),
    ensures
        digits_val(s) >= digits_val(s.take(k)),
    decreases s.len() - k,
{
    if k < s.len() {
        assert(s.take(k + 1).drop_last() =~= s.take(k));
        assert(s.take(k + 1).last() == s[k]);
        assert(all_digits(s.take(k))) by {
            assert(forall|i: int| 0 <= i < k ==> s.take(k)[i] == #[trigger] s[i]);
        }
        lemma_digits_val_nonneg(s.take(k));
        assert(digits_val(s.take(k + 1)) == digits_val(s.take(k)) * 10 + digit_val(s[k]));
        assert(digits_val(s.take(k + 1)) >= digits_val(s.take(k)));
        lemma_digits_val_grows(s, k + 1);
        assert(s.take(s.len() as int) =~= s);
    } else {
        assert(s.take(k) =~= s);
    }
}

impl OptValue for i64 {
    open spec fn parseable(s: Seq<char>) -> bool {
        parse_i64_spec(s) is Some
    }

    open spec fn parses_to(s: Seq<char>, v: i64) -> bool {
        parse_i64_spec(s) == Some(v as int)
    }

    fn parse_opt(s: &str) -> (r: Option<i64>) {
        let n = s.unicode_len();
        if n == 0 {
            return None;
        }
        let c0 = s.get_char(0);
        let neg = c0 == '-';
        let start: usize = if c0 == '-' || c0 == '+' {
            1
        } else {
            0
        };
        let ghost ds = int_digits(s@);
        proof {
            assert(ds.len() == n - start);
            assert(forall|i: int|
                start <= i < n ==> ds[i - start] == #[trigger] s@[i]);
        }
        if start >= n {
            return None;
        }
        let mut i: usize = start;
        let mut mag: u64 = 0;
        while i < n
            invariant
                start <= i <= n,
                n == s@.len(),
                start < n,
                start == 0 || start == 1,
                ds == int_digits(s@),
                ds.len() == n - start,
                forall|k: int| start <= k < n ==> ds[k - start] == #[trigger] s@[k],
                all_digits(ds.take(i - start)),
                mag == digits_val(ds.take(i - start)),
                mag <= 9223372036854775808u64,
            decreases n - i,
        {
            let c = s.get_char(i);
            if !('0' <= c && c <= '9') {
                proof {
                    assert(ds[i - start] == c);
                    assert(!is_digit(ds[i - start]));
                    assert(!all_digits(ds));
                }
                return None;
            }
            let d: u64 = (c as u32 - '0' as u32) as u64;
            proof {
                assert(d == digit_val(c));
                assert(d <= 9);
            }
            if mag > 922337203685477580u64 || (mag == 922337203685477580u64 && d > 8) {
                proof {
                    assert(mag * 10 + d > 9223372036854775808);
                    assert(ds.take(i + 1 - start).drop_last() =~= ds.take(i - start));
                    assert(ds.take(i + 1 - start).last() == ds[i - start]);
                    assert(digits_val(ds.take(i + 1 - start)) == mag * 10 + d);
                    if all_digits(ds) {
                        lemma_digits_val_grows(ds, i + 1 - start);
                        assert(digits_val(ds) > 9223372036854775808);
                        assert(parse_i64_spec(s@) is None);
                    }
                }
                return None;
            }
            proof {
                assert(mag * 10 + d <= 9223372036854775808);
                assert(ds.take(i + 1 - start).drop_last() =~= ds.take(i - start));
                assert(ds.take(i + 1 - start).last() == ds[i - start]);
                assert(all_digits(ds.take(i + 1 - start))) by {
                    assert(forall|k: int|
                        0 <= k < i + 1 - start ==> ds.take(i + 1 - start)[k] == #[trigger] ds[k]);
                }
            }
            mag = mag * 10 + d;
            i = i + 1;
        }
        proof {
            assert(ds.take(n - start) =~= ds);
            assert(mag == digits_val(ds));
            assert(all_digits(ds));
            assert(ds.len() > 0);
        }
        if neg {
            if mag == 9223372036854775808u64 {
                proof {
                    assert(parse_i64_spec(s@) == Some(i64::MIN as int));
                }
                Some(i64::MIN)
            } else {
                let v = -(mag as i64);
                proof {
                    assert(parse_i64_spec(s@) == Some(v as int));
                }
                Some(v)
            }
        } else {
            if mag >= 9223372036854775808u64 {
                proof {
                    assert(digits_val(ds) > i64::MAX);
                    assert(parse_i64_spec(s@) is None);
                }
                None
            } else {
                let v = mag as i64;
                proof {
                    assert(parse_i64_spec(s@) == Some(v as int));
                }
                Some(v)
            }
        }
    }
}

} // verus!
