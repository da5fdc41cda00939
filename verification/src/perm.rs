//! The symbolic-to-numeric permission translator.
//!
//! A symbolic expression such as `u+rwx` names a set of target categories
//! (`u`ser, `g`roup, `o`ther, `a`ll), an operation (`+` adds by bitwise OR,
//! `-` toggles by bitwise XOR), and a set of capabilities (`r`ead, `w`rite,
//! e`x`ecute). Unrecognized characters are ignored. A purely numeric
//! expression is instead read as a base-8 literal that replaces the current
//! mode outright.

use vstd::prelude::*;

use crate::UtilError;

verus! {

/// The weight a capability character contributes to a digit.
pub open spec fn cap_weight(c: char) -> nat {
    if c == 'r' {
        4
    } else if c == 'w' {
        2
    } else if c == 'x' {
        1
    } else {
        0
    }
}

/// The digit requested by an expression: the sum of the weights of the
/// capability characters it holds, duplicates collapsed.
pub open spec fn requested_digit(s: Seq<char>) -> nat {
    (if s.contains('r') {
        4nat
    } else {
        0nat
    }) + (if s.contains('w') {
        2nat
    } else {
        0nat
    }) + (if s.contains('x') {
        1nat
    } else {
        0nat
    })
}

/// The digit an expression assigns to category `cat` (one of `u`, `g`, `o`):
/// the requested digit when the category itself or `a` is present, else 0.
pub open spec fn digit_of(s: Seq<char>, cat: char) -> nat {
    if s.contains(cat) || s.contains('a') {
        requested_digit(s)
    } else {
        0
    }
}

/// The whole delta mode of a symbolic expression: the three category digits
/// composed in base 8.
pub open spec fn delta_mode(s: Seq<char>) -> nat {
    digit_of(s, 'u') * 64 + digit_of(s, 'g') * 8 + digit_of(s, 'o')
}

/// The operation of an expression: its last `+` or `-`, defaulting to `+`.
pub open spec fn last_op(s: Seq<char>) -> char
    decreases s.len(),
{
    if s.len() == 0 {
        '+'
    } else if s.last() == '+' || s.last() == '-' {
        s.last()
    } else {
        last_op(s.drop_last())
    }
}

pub open spec fn is_digit(c: char) -> bool {
    ('0' as u32) <= (c as u32) && (c as u32) <= ('9' as u32)
}

pub open spec fn is_octal_digit(c: char) -> bool {
    ('0' as u32) <= (c as u32) && (c as u32) <= ('7' as u32)
}

/// A purely numeric expression: nonempty, decimal digits only.
pub open spec fn is_numeric(s: Seq<char>) -> bool {
    s.len() > 0 && forall|i: int| 0 <= i < s.len() ==> is_digit(s[i])
}

pub open spec fn all_octal_digits(s: Seq<char>) -> bool {
    forall|i: int| 0 <= i < s.len() ==> is_octal_digit(s[i])
}

/// The value of a digit string read in base 8 (unbounded).
pub open spec fn octal_value(s: Seq<char>) -> nat
    decreases s.len(),
{
    if s.len() == 0 {
        0
    } else {
        octal_value(s.drop_last()) * 8 + (if is_digit(s.last()) {
            ((s.last() as u32) - ('0' as u32)) as nat
        } else {
            0nat
        })
    }
}

/// What `translate` returns: a numeric expression is read in base 8 and
/// replaces the mode (rejected when it holds `8` or `9` or overflows);
/// a symbolic expression is OR-ed onto or XOR-ed against the current mode
/// according to its operation.
pub open spec fn spec_translate(s: Seq<char>, current: u32) -> Result<u32, UtilError> {
    if is_numeric(s) {
        if all_octal_digits(s) && octal_value(s) <= u32::MAX {
            Ok(octal_value(s) as u32)
        } else {
            Err(UtilError::Validation)
        }
    } else {
        if last_op(s) == '+' {
            Ok(current | (delta_mode(s) as u32))
        } else {
            Ok(current ^ (delta_mode(s) as u32))
        }
    }
}

/// One category combined with one capability: that category's digit is
/// exactly the capability's weight, and the other categories' digits are
/// zero.
pub proof fn lemma_one_category_one_capability(s: Seq<char>, cat: char, cap: char)
    requires
        cat == 'u' || cat == 'g' || cat == 'o',
        cap == 'r' || cap == 'w' || cap == 'x',
        forall|c: char| (c == 'u' || c == 'g' || c == 'o' || c == 'a') ==> (#[trigger] s.contains(
            c,
        ) <==> c == cat),
        forall|c: char| (c == 'r' || c == 'w' || c == 'x') ==> (#[trigger] s.contains(c) <==> c
            == cap),
    ensures
        digit_of(s, cat) == cap_weight(cap),
        forall|c: char| (c == 'u' || c == 'g' || c == 'o') && c != cat ==> #[trigger] digit_of(
            s,
            c,
        ) == 0,
{
}

/// An expression holding `a` and all three capabilities drives every digit
/// to 7, whatever other category letters stand beside it.
pub proof fn lemma_all_categories_full(s: Seq<char>)
    requires
        s.contains('a'),
        s.contains('r'),
        s.contains('w'),
        s.contains('x'),
    ensures
        digit_of(s, 'u') == 7,
        digit_of(s, 'g') == 7,
        digit_of(s, 'o') == 7,
        delta_mode(s) == 0o777,
{
}

/// A numeric expression is read in base 8, and the current mode plays no
/// part in the result.
pub proof fn lemma_numeric_ignores_current(s: Seq<char>, m1: u32, m2: u32)
    requires
        is_numeric(s),
    ensures
        spec_translate(s, m1) == spec_translate(s, m2),
        spec_translate(s, m1) matches Ok(v) ==> v == octal_value(s),
{
}

/// Extending a prefix by one character extends what it contains by exactly
/// that character.
proof fn lemma_take_succ_contains(s: Seq<char>, i: int, c: char)
    requires
        0 <= i < s.len(),
    ensures
        s.take(i + 1).contains(c) <==> (s.take(i).contains(c) || s[i] == c),
{
    if s.take(i).contains(c) {
        let j = choose|j: int| 0 <= j < s.take(i).len() && s.take(i)[j] == c;
        assert(s.take(i + 1)[j] == c);
    }
    if s[i] == c {
        assert(s.take(i + 1)[i] == c);
    }
    if s.take(i + 1).contains(c) && s[i] != c {
        let t = s.take(i + 1);
        let j = choose|j: int| 0 <= j < t.len() && t[j] == c;
        assert(s.take(i)[j] == c);
    }
}

/// Reading more digits can only grow the base-8 value.
proof fn lemma_octal_value_take_le(s: Seq<char>, k: int)
    requires
        0 <= k <= s.len(),
    ensures
        octal_value(s.take(k)) <= octal_value(s),
    decreases s.len() - k,
{
    if k < s.len() {
        assert(s.take(k + 1).drop_last() =~= s.take(k));
        assert(s.take(k + 1).last() == s[k]);
        lemma_octal_value_take_le(s, k + 1);
    } else {
        assert(s.take(k) =~= s);
    }
}

/// Translates a permission expression against a current mode, per
/// [`spec_translate`]: numeric expressions replace the mode, `+` adds by OR,
/// `-` toggles by XOR, and only a numeric expression with a digit above `7`
/// or a value beyond `u32` is rejected.
pub fn translate(expr: &str, current: u32) -> (r: Result<u32, UtilError>)
    ensures
        r == spec_translate(expr@, current),
{
    let ghost s = expr@;
    let n = expr.unicode_len();
    let mut numeric = n > 0;
    let mut i: usize = 0;
    while i < n
        invariant
            0 <= i <= n,
            n == s.len(),
            s == expr@,
            numeric == (n > 0 && forall|j: int| 0 <= j < i ==> is_digit(s[j])),
        decreases n - i,
    {
        let c = expr.get_char(i);
        let v = c as u32;
        if !(48 <= v && v <= 57) {
            numeric = false;
        }
        i += 1;
    }
    if numeric {
        let mut acc: u64 = 0;
        let mut i: usize = 0;
        while i < n
            invariant
                0 <= i <= n,
                n == s.len(),
                s == expr@,
                is_numeric(s),
                all_octal_digits(s.take(i as int)),
                acc == octal_value(s.take(i as int)),
                acc <= u32::MAX,
            decreases n - i,
        {
            let c = expr.get_char(i);
            let v = c as u32;
            proof {
                assert(s.take(i + 1).drop_last() =~= s.take(i as int));
                assert(s.take(i + 1).last() == s[i as int]);
            }
            if v > 55 {
                // a digit 8 or 9: not a valid base-8 literal
                assert(!all_octal_digits(s));
                return Err(UtilError::Validation);
            }
            acc = acc * 8 + ((v - 48) as u64);
            if acc > (u32::MAX as u64) {
                proof {
                    if all_octal_digits(s) {
                        lemma_octal_value_take_le(s, i + 1);
                    }
                }
                return Err(UtilError::Validation);
            }
            i += 1;
        }
        proof {
            assert(s.take(n as int) =~= s);
        }
        Ok(acc as u32)
    } else {
        let mut has_u = false;
        let mut has_g = false;
        let mut has_o = false;
        let mut has_a = false;
        let mut has_r = false;
        let mut has_w = false;
        let mut has_x = false;
        let mut minus = false;
        let mut i: usize = 0;
        while i < n
            invariant
                0 <= i <= n,
                n == s.len(),
                s == expr@,
                has_u == s.take(i as int).contains('u'),
                has_g == s.take(i as int).contains('g'),
                has_o == s.take(i as int).contains('o'),
                has_a == s.take(i as int).contains('a'),
                has_r == s.take(i as int).contains('r'),
                has_w == s.take(i as int).contains('w'),
                has_x == s.take(i as int).contains('x'),
                last_op(s.take(i as int)) == (if minus {
                    '-'
                } else {
                    '+'
                }),
            decreases n - i,
        {
            let c = expr.get_char(i);
            proof {
                lemma_take_succ_contains(s, i as int, 'u');
                lemma_take_succ_contains(s, i as int, 'g');
                lemma_take_succ_contains(s, i as int, 'o');
                lemma_take_succ_contains(s, i as int, 'a');
                lemma_take_succ_contains(s, i as int, 'r');
                lemma_take_succ_contains(s, i as int, 'w');
                lemma_take_succ_contains(s, i as int, 'x');
                assert(s.take(i + 1).drop_last() =~= s.take(i as int));
                assert(s.take(i + 1).last() == s[i as int]);
            }
            match c {
                'u' => {
                    has_u = true;
                },
                'g' => {
                    has_g = true;
                },
                'o' => {
                    has_o = true;
                },
                'a' => {
                    has_a = true;
                },
                'r' => {
                    has_r = true;
                },
                'w' => {
                    has_w = true;
                },
                'x' => {
                    has_x = true;
                },
                '+' => {
                    minus = false;
                },
                '-' => {
                    minus = true;
                },
                _ => {},
            }
            i += 1;
        }
        proof {
            assert(s.take(n as int) =~= s);
        }
        let d: u32 = (if has_r {
            4
        } else {
            0
        }) + (if has_w {
            2
        } else {
            0
        }) + (if has_x {
            1
        } else {
            0
        });
        let du: u32 = if has_u || has_a {
            d
        } else {
            0
        };
        let dg: u32 = if has_g || has_a {
            d
        } else {
            0
        };
        let dr: u32 = if has_o || has_a {
            d
        } else {
            0
        };
        let delta: u32 = du * 64 + dg * 8 + dr;
        assert(delta == delta_mode(s));
        if minus {
            Ok(current ^ delta)
        } else {
            Ok(current | delta)
        }
    }
}

} // verus!
