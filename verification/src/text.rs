//! Text scanning: whitespace tokenization and extraction of the first
//! contiguous run of ASCII digits or ASCII letters from a token.

use vstd::prelude::*;

verus! {

/// ASCII whitespace. Tokens are separated by runs of these characters.
pub open spec fn is_space(c: char) -> bool {
    c == ' ' || c == '\t' || c == '\n' || c == '\r' || c == '\u{b}' || c == '\u{c}'
}

/// ASCII decimal digit.
pub open spec fn is_digit(c: char) -> bool {
    '0' <= c && c <= '9'
}

/// ASCII letter.
pub open spec fn is_letter(c: char) -> bool {
    ('a' <= c && c <= 'z') || ('A' <= c && c <= 'Z')
}

fn space_char(c: char) -> (r: bool)
    ensures
        r == is_space(c),
{
    c == ' ' || c == '\t' || c == '\n' || c == '\r' || c == '\u{b}' || c == '\u{c}'
}

fn digit_char(c: char) -> (r: bool)
    ensures
        r == is_digit(c),
{
    '0' <= c && c <= '9'
}

fn letter_char(c: char) -> (r: bool)
    ensures
        r == is_letter(c),
{
    ('a' <= c && c <= 'z') || ('A' <= c && c <= 'Z')
}

/// Length of the leading run of non-whitespace characters.
pub open spec fn token_len(s: Seq<char>) -> nat
    decreases s.len(),
{
    if s.len() == 0 || is_space(s[0]) {
        0
    } else {
        1 + token_len(s.skip(1))
    }
}

/// The whitespace-separated tokens of `s`, in order.
pub open spec fn spec_tokens(s: Seq<char>) -> Seq<Seq<char>>
    decreases s.len(),
    via spec_tokens_decreases
{
    if s.len() == 0 {
        Seq::empty()
    } else if is_space(s[0]) {
        spec_tokens(s.skip(1))
    } else {
        seq![s.take(token_len(s) as int)] + spec_tokens(s.skip(token_len(s) as int))
    }
}

#[via_fn]
proof fn spec_tokens_decreases(s: Seq<char>) {
    if s.len() != 0 && !is_space(s[0]) {
        assert(token_len(s) >= 1);
        lemma_token_len_le(s);
    }
}

pub proof fn lemma_token_len_le(s: Seq<char>)
    ensures
        token_len(s) <= s.len(),
    decreases s.len(),
{
    if s.len() == 0 || is_space(s[0]) {
    } else {
        lemma_token_len_le(s.skip(1));
    }
}

/// The views of a sequence of string slices.
pub open spec fn views_of(ts: Seq<&str>) -> Seq<Seq<char>> {
    ts.map_values(|t: &str| t@)
}

/// One step past the end of the token that starts at `pos`.
fn token_end(s: &str, pos: usize, n: usize) -> (end: usize)
    requires
        n == s@.len(),
        pos < n,
        !is_space(s@[pos as int]),
    ensures
        end == pos + token_len(s@.skip(pos as int)),
        pos < end <= n,
    decreases n - pos,
{
    proof {
        lemma_token_len_le(s@.skip(pos as int));
        assert(s@.skip(pos as int)[0] == s@[pos as int]);
        assert(s@.skip(pos as int).skip(1) =~= s@.skip(pos as int + 1));
    }
    if pos + 1 == n {
        proof {
            assert(token_len(s@.skip(pos as int + 1)) == 0);
        }
        pos + 1
    } else {
        let c = s.get_char(pos + 1);
        if space_char(c) {
            proof {
                assert(s@.skip(pos as int + 1)[0] == s@[pos as int + 1]);
                assert(token_len(s@.skip(pos as int + 1)) == 0);
            }
            pos + 1
        } else {
            proof {
                assert(s@.skip(pos as int + 1)[0] == s@[pos as int + 1]);
            }
            token_end(s, pos + 1, n)
        }
    }
}

/// Splits `s` into its whitespace-separated tokens.
pub fn tokenize<'a>(s: &'a str) -> (toks: Vec<&'a str>)
    ensures
        views_of(toks@) == spec_tokens(s@),
{
    let n = s.unicode_len();
    let mut toks: Vec<&str> = Vec::new();
    let mut pos: usize = 0;
    proof {
        assert(views_of(toks@) =~= Seq::<Seq<char>>::empty());
        assert(s@.skip(0) =~= s@);
    }
    while pos < n
        invariant
            pos <= n,
            n == s@.len(),
            spec_tokens(s@) == views_of(toks@) + spec_tokens(s@.skip(pos as int)),
        decreases n - pos,
    {
        let c = s.get_char(pos);
        if space_char(c) {
            proof {
                assert(s@.skip(pos as int)[0] == s@[pos as int]);
                assert(s@.skip(pos as int).skip(1) =~= s@.skip(pos as int + 1));
            }
            pos = pos + 1;
        } else {
            proof {
                assert(s@.skip(pos as int)[0] == s@[pos as int]);
            }
            let end = token_end(s, pos, n);
            let tok = s.substring_char(pos, end);
            proof {
                let rest = s@.skip(pos as int);
                let tl = token_len(rest) as int;
                assert(spec_tokens(rest) == seq![rest.take(tl)] + spec_tokens(rest.skip(tl)));
                assert(rest.take(tl) =~= s@.subrange(pos as int, end as int));
                assert(rest.skip(tl) =~= s@.skip(end as int));
                assert(views_of(toks@.push(tok)) =~= views_of(toks@).push(tok@));
                assert(views_of(toks@) + seq![rest.take(tl)] + spec_tokens(s@.skip(end as int))
                    =~= views_of(toks@.push(tok)) + spec_tokens(s@.skip(end as int)));
            }
            toks.push(tok);
            pos = end;
        }
    }
    proof {
        assert(s@.skip(pos as int).len() == 0);
        assert(spec_tokens(s@.skip(pos as int)) == Seq::<Seq<char>>::empty());
        assert(views_of(toks@) + Seq::<Seq<char>>::empty() =~= views_of(toks@));
    }
    toks
}

/// Length of the leading run of ASCII digits.
pub open spec fn digit_prefix_len(s: Seq<char>) -> nat
    decreases s.len(),
{
    if s.len() == 0 || !is_digit(s[0]) {
        0
    } else {
        1 + digit_prefix_len(s.skip(1))
    }
}

/// The first contiguous run of ASCII digits in `s`, if any.
pub open spec fn spec_digit_run(s: Seq<char>) -> Option<Seq<char>>
    decreases s.len(),
{
    if s.len() == 0 {
        None
    } else if is_digit(s[0]) {
        Some(s.take(digit_prefix_len(s) as int))
    } else {
        spec_digit_run(s.skip(1))
    }
}

/// Length of the leading run of ASCII letters.
pub open spec fn letter_prefix_len(s: Seq<char>) -> nat
    decreases s.len(),
{
    if s.len() == 0 || !is_letter(s[0]) {
        0
    } else {
        1 + letter_prefix_len(s.skip(1))
    }
}

/// The first contiguous run of ASCII letters in `s`, if any.
pub open spec fn spec_letter_run(s: Seq<char>) -> Option<Seq<char>>
    decreases s.len(),
{
    if s.len() == 0 {
        None
    } else if is_letter(s[0]) {
        Some(s.take(letter_prefix_len(s) as int))
    } else {
        spec_letter_run(s.skip(1))
    }
}

pub proof fn lemma_digit_prefix_len_le(s: Seq<char>)
    ensures
        digit_prefix_len(s) <= s.len(),
    decreases s.len(),
{
    if s.len() == 0 || !is_digit(s[0]) {
    } else {
        lemma_digit_prefix_len_le(s.skip(1));
    }
}

pub proof fn lemma_letter_prefix_len_le(s: Seq<char>)
    ensures
        letter_prefix_len(s) <= s.len(),
    decreases s.len(),
{
    if s.len() == 0 || !is_letter(s[0]) {
    } else {
        lemma_letter_prefix_len_le(s.skip(1));
    }
}

/// One step past the end of the digit run that starts at `pos`.
fn digit_run_end(t: &str, pos: usize, n: usize) -> (end: usize)
    requires
        n == t@.len(),
        pos < n,
        is_digit(t@[pos as int]),
    ensures
        end == pos + digit_prefix_len(t@.skip(pos as int)),
        pos < end <= n,
    decreases n - pos,
{
    proof {
        lemma_digit_prefix_len_le(t@.skip(pos as int));
        assert(t@.skip(pos as int)[0] == t@[pos as int]);
        assert(t@.skip(pos as int).skip(1) =~= t@.skip(pos as int + 1));
    }
    if pos + 1 == n {
        proof {
            assert(digit_prefix_len(t@.skip(pos as int + 1)) == 0);
        }
        pos + 1
    } else {
        let c = t.get_char(pos + 1);
        proof {
            assert(t@.skip(pos as int + 1)[0] == t@[pos as int + 1]);
        }
        if digit_char(c) {
            digit_run_end(t, pos + 1, n)
        } else {
            proof {
                assert(digit_prefix_len(t@.skip(pos as int + 1)) == 0);
            }
            pos + 1
        }
    }
}

/// One step past the end of the letter run that starts at `pos`.
fn letter_run_end(t: &str, pos: usize, n: usize) -> (end: usize)
    requires
        n == t@.len(),
        pos < n,
        is_letter(t@[pos as int]),
    ensures
        end == pos + letter_prefix_len(t@.skip(pos as int)),
        pos < end <= n,
    decreases n - pos,
{
    proof {
        lemma_letter_prefix_len_le(t@.skip(pos as int));
        assert(t@.skip(pos as int)[0] == t@[pos as int]);
        assert(t@.skip(pos as int).skip(1) =~= t@.skip(pos as int + 1));
    }
    if pos + 1 == n {
        proof {
            assert(letter_prefix_len(t@.skip(pos as int + 1)) == 0);
        }
        pos + 1
    } else {
        let c = t.get_char(pos + 1);
        proof {
            assert(t@.skip(pos as int + 1)[0] == t@[pos as int + 1]);
        }
        if letter_char(c) {
            letter_run_end(t, pos + 1, n)
        } else {
            proof {
                assert(letter_prefix_len(t@.skip(pos as int + 1)) == 0);
            }
            pos + 1
        }
    }
}

/// Bounds of the first digit run in `t`, if any.
pub fn find_digit_run(t: &str) -> (r: Option<(usize, usize)>)
    ensures
        r is Some <==> spec_digit_run(t@) is Some,
        r matches Some(p) ==> (spec_digit_run(t@) matches Some(run)
            && p.0 < p.1 <= t@.len()
            && t@.subrange(p.0 as int, p.1 as int) == run),
{
    let n = t.unicode_len();
    let mut pos: usize = 0;
    proof {
        assert(t@.skip(0) =~= t@);
    }
    while pos < n
        invariant
            pos <= n,
            n == t@.len(),
            spec_digit_run(t@) == spec_digit_run(t@.skip(pos as int)),
        decreases n - pos,
    {
        let c = t.get_char(pos);
        proof {
            assert(t@.skip(pos as int)[0] == t@[pos as int]);
            assert(t@.skip(pos as int).skip(1) =~= t@.skip(pos as int + 1));
        }
        if digit_char(c) {
            let end = digit_run_end(t, pos, n);
            proof {
                let rest = t@.skip(pos as int);
                assert(spec_digit_run(rest) == Some(rest.take(digit_prefix_len(rest) as int)));
                assert(rest.take(digit_prefix_len(rest) as int)
                    =~= t@.subrange(pos as int, end as int));
            }
            return Some((pos, end));
        }
        pos = pos + 1;
    }
    proof {
        assert(t@.skip(pos as int).len() == 0);
    }
    None
}

/// Bounds of the first letter run in `t`, if any.
pub fn find_letter_run(t: &str) -> (r: Option<(usize, usize)>)
    ensures
        r is Some <==> spec_letter_run(t@) is Some,
        r matches Some(p) ==> (spec_letter_run(t@) matches Some(run)
            && p.0 < p.1 <= t@.len()
            && t@.subrange(p.0 as int, p.1 as int) == run),
{
    let n = t.unicode_len();
    let mut pos: usize = 0;
    proof {
        assert(t@.skip(0) =~= t@);
    }
    while pos < n
        invariant
            pos <= n,
            n == t@.len(),
            spec_letter_run(t@) == spec_letter_run(t@.skip(pos as int)),
        decreases n - pos,
    {
        let c = t.get_char(pos);
        proof {
            assert(t@.skip(pos as int)[0] == t@[pos as int]);
            assert(t@.skip(pos as int).skip(1) =~= t@.skip(pos as int + 1));
        }
        if letter_char(c) {
            let end = letter_run_end(t, pos, n);
            proof {
                let rest = t@.skip(pos as int);
                assert(spec_letter_run(rest) == Some(rest.take(letter_prefix_len(rest) as int)));
                assert(rest.take(letter_prefix_len(rest) as int)
                    =~= t@.subrange(pos as int, end as int));
            }
            return Some((pos, end));
        }
        pos = pos + 1;
    }
    proof {
        assert(t@.skip(pos as int).len() == 0);
    }
    None
}

proof fn lemma_digit_prefix_digits(s: Seq<char>)
    ensures
        forall|k: int| 0 <= k < digit_prefix_len(s) ==> is_digit(#[trigger] s[k]),
    decreases s.len(),
{
    if s.len() == 0 || !is_digit(s[0]) {
    } else {
        lemma_digit_prefix_digits(s.skip(1));
        lemma_digit_prefix_len_le(s);
        lemma_digit_prefix_len_le(s.skip(1));
        assert forall|k: int| 0 <= k < digit_prefix_len(s) implies is_digit(#[trigger] s[k]) by {
            if k > 0 {
                assert(s.skip(1)[k - 1] == s[k]);
                assert(is_digit(s.skip(1)[k - 1]));
            }
        }
    }
}

/// Every character of the first digit run is a digit.
pub proof fn lemma_digit_run_digits(s: Seq<char>)
    ensures
        spec_digit_run(s) matches Some(run)
            ==> forall|k: int| 0 <= k < run.len() ==> is_digit(#[trigger] run[k]),
    decreases s.len(),
{
    if s.len() == 0 {
    } else if is_digit(s[0]) {
        lemma_digit_prefix_digits(s);
        lemma_digit_prefix_len_le(s);
    } else {
        lemma_digit_run_digits(s.skip(1));
    }
}

/// Numeric value of a digit character.
pub open spec fn digit_val(c: char) -> int {
    c as int - 48
}

/// The value of a digit string read as a decimal numeral.
pub open spec fn digits_val(s: Seq<char>) -> int
    decreases s.len(),
{
    if s.len() == 0 {
        0
    } else {
        digits_val(s.drop_last()) * 10 + digit_val(s.last())
    }
}

pub proof fn lemma_digits_val_nonneg(s: Seq<char>)
    requires
        forall|i: int| 0 <= i < s.len() ==> is_digit(s[i]),
    ensures
        digits_val(s) >= 0,
    decreases s.len(),
{
    if s.len() > 0 {
        lemma_digits_val_nonneg(s.drop_last());
    }
}

/// Extending a digit string on the right cannot decrease its value.
proof fn lemma_digits_val_take_le(s: Seq<char>, j: int)
    requires
        forall|i: int| 0 <= i < s.len() ==> is_digit(s[i]),
        0 <= j <= s.len(),
    ensures
        digits_val(s.take(j)) <= digits_val(s),
    decreases s.len() - j,
{
    if j == s.len() {
        assert(s.take(j) =~= s);
    } else {
        lemma_digits_val_take_le(s, j + 1);
        let t = s.take(j + 1);
        assert(t.drop_last() =~= s.take(j));
        assert(digits_val(t) == digits_val(s.take(j)) * 10 + digit_val(s[j]));
        lemma_digits_val_nonneg(s.take(j));
        assert(digits_val(s.take(j)) * 10 >= digits_val(s.take(j))) by (nonlinear_arith)
            requires
                digits_val(s.take(j)) >= 0,
        ;
    }
}

/// Reads a string of ASCII digits as a decimal number; `None` exactly when
/// the value exceeds `i64::MAX`.
pub fn parse_digits(run: &str) -> (r: Option<i64>)
    requires
        forall|i: int| 0 <= i < run@.len() ==> is_digit(run@[i]),
    ensures
        r is Some <==> digits_val(run@) <= i64::MAX,
        r matches Some(v) ==> v as int == digits_val(run@) && v >= 0,
{
    let n = run.unicode_len();
    let mut val: i64 = 0;
    let mut i: usize = 0;
    proof {
        assert(run@.take(0) =~= Seq::<char>::empty());
    }
    while i < n
        invariant
            i <= n,
            n == run@.len(),
            forall|k: int| 0 <= k < run@.len() ==> is_digit(run@[k]),
            0 <= val,
            val as int == digits_val(run@.take(i as int)),
        decreases n - i,
    {
        let c = run.get_char(i);
        let d: i64 = ((c as u32) - 48) as i64;
        proof {
            assert(run@.take(i as int + 1).drop_last() =~= run@.take(i as int));
            assert(run@.take(i as int + 1).last() == run@[i as int]);
        }
        let step = match val.checked_mul(10) {
            Some(v10) => v10.checked_add(d),
            None => None,
        };
        match step {
            Some(v) => {
                val = v;
            },
            None => {
                proof {
                    assert(digits_val(run@.take(i as int + 1)) > i64::MAX) by (nonlinear_arith)
                        requires
                            digits_val(run@.take(i as int + 1))
                                == digits_val(run@.take(i as int)) * 10 + digit_val(run@[i as int]),
                            digits_val(run@.take(i as int)) == val as int,
                            val as int * 10 + digit_val(run@[i as int]) > i64::MAX,
                            digit_val(run@[i as int]) >= 0,
                    ;
                    lemma_digits_val_take_le(run@, i as int + 1);
                }
                return None;
            },
        }
        i = i + 1;
    }
    proof {
        assert(run@.take(n as int) =~= run@);
    }
    Some(val)
}

} // verus!
