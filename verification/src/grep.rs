//! Line filtering against a regular expression, as `grep` prints it: the
//! lines of a file that match a pattern, or — inverted — those that do not.
//!
//! The regular-expression engine is the `regex` crate; compiling a pattern
//! and testing a line are trusted calls into it, each a function of its
//! string arguments alone.

use vstd::prelude::*;

use crate::UtilError;

verus! {

/// Whether `regex::Regex::new` accepts this pattern.
pub uninterp spec fn re_valid(pattern: Seq<char>) -> bool;

/// Whether the compiled pattern matches anywhere in this line.
pub uninterp spec fn re_match(pattern: Seq<char>, line: Seq<char>) -> bool;

#[verifier::external_type_specification]
#[verifier::external_body]
pub struct ExRegex(regex::Regex);

/// A compiled pattern, kept beside the text it was compiled from.
struct Matcher {
    re: regex::Regex,
    pattern: String,
}

/// Relies on regex::Regex::new: whether a pattern compiles depends on the
/// pattern alone, and the matcher returned holds the compiled form of
/// exactly that pattern.
#[verifier::external_body]
fn compile(pattern: &str) -> (r: Option<Matcher>)
    ensures
        r is Some <==> re_valid(pattern@),
        r matches Some(m) ==> m.pattern@ == pattern@,
{
    match regex::Regex::new(pattern) {
        Ok(re) => Some(Matcher { re, pattern: pattern.to_string() }),
        Err(_) => None,
    }
}

/// Relies on regex::Regex::is_match: whether the pattern matches anywhere
/// in the line, a function of the pattern and the line alone.
#[verifier::external_body]
fn matches_line(m: &Matcher, line: &str) -> (r: bool)
    ensures
        r == re_match(m.pattern@, line@),
{
    m.re.is_match(line)
}

/// The lines `grep` keeps: those on which the pattern's match answer is not
/// `invert`, in their order of arrival.
pub open spec fn spec_grep(pattern: Seq<char>, lines: Seq<Seq<char>>, invert: bool) -> Seq<
    Seq<char>,
>
    decreases lines.len(),
{
    if lines.len() == 0 {
        Seq::empty()
    } else {
        let rest = spec_grep(pattern, lines.drop_last(), invert);
        if re_match(pattern, lines.last()) != invert {
            rest.push(lines.last())
        } else {
            rest
        }
    }
}

/// Filters `lines` by `pattern`: `Ok` — returned exactly when the pattern
/// compiles — holds the lines that match it or, with `invert`, those that
/// do not, in order; an uncompilable pattern is a validation error.
pub fn grep_lines(pattern: &str, lines: &Vec<String>, invert: bool) -> (r: Result<
    Vec<String>,
    UtilError,
>)
    ensures
        r is Ok <==> re_valid(pattern@),
        r matches Ok(out) ==> out.deep_view() == spec_grep(pattern@, lines.deep_view(), invert),
        r matches Err(e) ==> e == UtilError::Validation,
{
    match compile(pattern) {
        None => Err(UtilError::Validation),
        Some(m) => {
            let mut out: Vec<String> = Vec::new();
            let mut i: usize = 0;
            while i < lines.len()
                invariant
                    i <= lines.len(),
                    m.pattern@ == pattern@,
                    out.deep_view() =~~= spec_grep(
                        pattern@,
                        lines.deep_view().take(i as int),
                        invert,
                    ),
                decreases lines.len() - i,
            {
                proof {
                    assert(lines.deep_view().take(i + 1).drop_last() =~= lines.deep_view().take(
                        i as int,
                    ));
                    assert(lines.deep_view().take(i + 1).last() == lines.deep_view()[i as int]);
                }
                if matches_line(&m, lines[i].as_str()) != invert {
                    out.push(lines[i].clone());
                }
                proof {
                    assert(out.deep_view() =~~= spec_grep(
                        pattern@,
                        lines.deep_view().take(i + 1),
                        invert,
                    ));
                }
                i += 1;
            }
            proof {
                assert(lines.deep_view().take(lines@.len() as int) =~= lines.deep_view());
                assert(out.deep_view() =~~= spec_grep(pattern@, lines.deep_view(), invert));
            }
            Ok(out)
        },
    }
}

} // verus!
