//! String helpers: character-wise equality, decimal parsing, capitalization
//! of a token's first character, and joining tokens into one string.

use vstd::prelude::*;
use vstd::string::*;

verus! {

/// The views of a sequence of strings.
pub open spec fn views_of(ts: Seq<String>) -> Seq<Seq<char>> {
    ts.map_values(|t: String| t@)
}

/// Character-wise equality of two string slices.
pub fn str_equal(a: &str, b: &str) -> (r: bool)
    ensures
        r == (a@ == b@),
{
    let n = a.unicode_len();
    let m = b.unicode_len();
    if n != m {
        return false;
    }
    let mut i: usize = 0;
    while i < n
        invariant
            n == a@.len(),
            n == b@.len(),
            i <= n,
            forall|j: int| 0 <= j < i ==> a@[j] == b@[j],
        decreases n - i,
    {
        if a.get_char(i) != b.get_char(i) {
            return false;
        }
        i = i + 1;
    }
    proof {
        assert(a@ =~= b@);
    }
    true
}

/// Whether a character is a decimal digit.
pub open spec fn is_digit_char(c: char) -> bool {
    48 <= c as int && c as int <= 57
}

/// The numeric value of a decimal digit character.
pub open spec fn digit_value(c: char) -> int {
    c as int - 48
}

/// Whether every character of `s` is a decimal digit.
pub open spec fn all_digits(s: Seq<char>) -> bool {
    forall|i: int| 0 <= i < s.len() ==> is_digit_char(#[trigger] s[i])
}

/// The value of a sequence of decimal digit characters, most significant
/// digit first.
pub open spec fn decimal_value(s: Seq<char>) -> int
    decreases s.len(),
{
    if s.len() == 0 {
        0
    } else {
        decimal_value(s.drop_last()) * 10 + digit_value(s.last())
    }
}

/// The digits of a numeric literal: everything after one optional leading
/// plus sign.
pub open spec fn digit_part(s: Seq<char>) -> Seq<char> {
    if s.len() > 0 && s[0] == '+' {
        s.skip(1)
    } else {
        s
    }
}

/// Whether `s` is a decimal literal for a `usize`: an optional leading plus
/// sign, then one or more decimal digits, with a value that fits in `usize`.
pub open spec fn is_usize_literal(s: Seq<char>) -> bool {
    &&& digit_part(s).len() > 0
    &&& all_digits(digit_part(s))
    &&& decimal_value(digit_part(s)) <= usize::MAX
}

/// The value of a decimal `usize` literal.
pub open spec fn usize_literal_value(s: Seq<char>) -> int {
    decimal_value(digit_part(s))
}

/// A sequence of digits has a non-negative value.
proof fn lemma_decimal_value_nonneg(s: Seq<char>)
    requires
        all_digits(s),
    ensures
        decimal_value(s) >= 0,
    decreases s.len(),
{
    if s.len() > 0 {
        assert(all_digits(s.drop_last()));
        lemma_decimal_value_nonneg(s.drop_last());
    }
}

/// Extending a digit sequence can only increase its value.
proof fn lemma_decimal_value_prefix(s: Seq<char>, k: int)
    requires
        all_digits(s),
        0 <= k <= s.len(),
    ensures
        decimal_value(s) >= decimal_value(s.take(k)),
    decreases s.len() - k,
{
    if k < s.len() {
        assert(all_digits(s.drop_last()));
        assert(s.drop_last().take(k) =~= s.take(k));
        lemma_decimal_value_prefix(s.drop_last(), k);
        lemma_decimal_value_nonneg(s.drop_last());
    } else {
        assert(s.take(k) =~= s);
    }
}

/// Parse a decimal `usize`, accepting exactly the strings that consist of an
/// optional leading plus sign and one or more decimal digits whose value
/// fits in `usize`.
pub fn parse_usize(s: &str) -> (r: Option<usize>)
    ensures
        r is Some <==> is_usize_literal(s@),
        r is Some ==> r->0 == usize_literal_value(s@),
{
    let n = s.unicode_len();
    let start: usize = if n > 0 && s.get_char(0) == '+' {
        1
    } else {
        0
    };
    proof {
        assert(digit_part(s@) =~= s@.skip(start as int));
    }
    if start >= n {
        return None;
    }
    let mut acc: usize = 0;
    let mut j: usize = start;
    while j < n
        invariant
            start <= j <= n,
            n == s@.len(),
            start < n,
            digit_part(s@) =~= s@.skip(start as int),
            all_digits(s@.subrange(start as int, j as int)),
            acc == decimal_value(s@.subrange(start as int, j as int)),
        decreases n - j,
    {
        let c = s.get_char(j);
        let u: u32 = c as u32;
        if !(48 <= u && u <= 57) {
            proof {
                assert(digit_part(s@)[j - start] == s@[j as int]);
                assert(!is_digit_char(digit_part(s@)[j - start]));
            }
            return None;
        }
        let d: usize = (u - 48) as usize;
        let ghost pre = s@.subrange(start as int, j as int);
        let ghost ext = s@.subrange(start as int, j as int + 1);
        proof {
            assert(ext.drop_last() =~= pre);
            assert(ext.last() == s@[j as int]);
        }
        if acc > (usize::MAX - d) / 10 {
            proof {
                assert(acc * 10 + d > usize::MAX) by (nonlinear_arith)
                    requires
                        acc > (usize::MAX - d) / 10,
                        0 <= d <= 9,
                {}
                assert(decimal_value(ext) > usize::MAX);
                if is_usize_literal(s@) {
                    let whole = digit_part(s@);
                    assert(ext =~= whole.take(j + 1 - start));
                    lemma_decimal_value_prefix(whole, j + 1 - start);
                }
            }
            return None;
        }
        proof {
            assert(acc * 10 + d <= usize::MAX) by (nonlinear_arith)
                requires
                    acc <= (usize::MAX - d) / 10,
                    0 <= d <= 9,
                    acc >= 0,
            {}
        }
        acc = acc * 10 + d;
        j = j + 1;
        proof {
            assert(s@.subrange(start as int, j as int) =~= ext);
        }
    }
    proof {
        assert(s@.subrange(start as int, n as int) =~= digit_part(s@));
    }
    Some(acc)
}

/// Relies on String::from for char: allocates a string holding exactly the
/// one given character.
#[verifier::external_body]
pub(crate) fn char_token(c: char) -> (r: String)
    ensures
        r@ == seq![c],
{
    String::from(c)
}

/// The characters that replace a token's first character when it is
/// capitalized.
pub uninterp spec fn uppercase_of(c: char) -> Seq<char>;

/// Relies on char::to_uppercase: the Unicode uppercase mapping of a
/// character, one or more characters determined by the character alone; a
/// lowercase ASCII letter maps to the single corresponding uppercase letter.
#[verifier::external_body]
fn char_uppercase(c: char) -> (r: String)
    ensures
        r@ == uppercase_of(c),
        r@.len() >= 1,
        (97 <= c as int && c as int <= 122) ==> r@.len() == 1 && r@[0] as int == c as int - 32,
{
    c.to_uppercase().collect::<String>()
}

/// A token after capitalization: its first character replaced by that
/// character's uppercase mapping, the rest unchanged; an empty token stays
/// empty.
pub open spec fn spec_capitalize(s: Seq<char>) -> Seq<char> {
    if s.len() == 0 {
        Seq::empty()
    } else {
        uppercase_of(s[0]) + s.skip(1)
    }
}

/// Capitalize the first character of a token. When the first character is a
/// lowercase ASCII letter, the result is pinned concretely: that letter
/// moved down by 32 in code-point order, followed by the rest unchanged.
pub fn capitalize(s: &str) -> (r: String)
    ensures
        r@ == spec_capitalize(s@),
        (s@.len() > 0 && 97 <= s@[0] as int && s@[0] as int <= 122) ==> {
            &&& r@.len() == s@.len()
            &&& r@[0] as int == s@[0] as int - 32
            &&& r@.skip(1) == s@.skip(1)
        },
{
    let n = s.unicode_len();
    if n == 0 {
        let r = String::new();
        proof {
            assert(r@ =~= spec_capitalize(s@));
        }
        r
    } else {
        let first = s.get_char(0);
        let rest = s.substring_char(1, n);
        let up = char_uppercase(first);
        let r = up.concat(rest);
        proof {
            assert(s@.subrange(1, n as int) =~= s@.skip(1));
            assert(r@ =~= spec_capitalize(s@));
            if 97 <= first as int && first as int <= 122 {
                assert(r@.skip(1) =~= s@.skip(1));
            }
        }
        r
    }
}

/// The concatenation of a sequence of token views.
pub open spec fn concat_views(ts: Seq<Seq<char>>) -> Seq<char>
    decreases ts.len(),
{
    if ts.len() == 0 {
        Seq::empty()
    } else {
        concat_views(ts.drop_last()) + ts.last()
    }
}

/// Join the tokens into one string, with no separator.
pub fn join_tokens(tokens: &Vec<String>) -> (r: String)
    ensures
        r@ == concat_views(views_of(tokens@)),
{
    let mut r = String::new();
    let mut i: usize = 0;
    proof {
        assert(r@ =~= concat_views(views_of(tokens@).take(0)));
    }
    while i < tokens.len()
        invariant
            i <= tokens@.len(),
            r@ == concat_views(views_of(tokens@).take(i as int)),
        decreases tokens@.len() - i,
    {
        let ghost prev = views_of(tokens@).take(i as int);
        r.append(tokens[i].as_str());
        proof {
            assert(views_of(tokens@).take(i + 1).drop_last() =~= prev);
            assert(views_of(tokens@).take(i + 1).last() == tokens@[i as int]@);
        }
        i = i + 1;
    }
    proof {
        assert(views_of(tokens@).take(tokens@.len() as int) =~= views_of(tokens@));
    }
    r
}

} // verus!
