//! Generators for the placeholder tokens of the command language.
//!
//! A placeholder is replaced by a freshly generated value before a line is
//! parsed.  The generators are not memoized: two expansions may yield two
//! different values.  Nothing is assumed about the random source; the
//! contracts only state the shape of each generated value, and that shape
//! is enough to show that no generated value contains a placeholder token.

use vstd::prelude::*;

use crate::text::{contains_pat, is_digit, matches_at};

verus! {

/// The symbolic token that stands for a freshly generated first name.
pub open spec fn first_name_token() -> Seq<char> {
    "@NewFirstName"@
}

/// The symbolic token that stands for a freshly generated email address.
pub open spec fn email_token() -> Seq<char> {
    "@NewEmailAddress"@
}

/// A letter or a decimal digit.
pub open spec fn is_alnum(c: char) -> bool {
    ('a' <= c && c <= 'z') || ('A' <= c && c <= 'Z') || ('0' <= c && c <= '9')
}

/// The shape of every generated first name: non-empty, letters and digits
/// only.
pub open spec fn is_fresh_first_name(f: Seq<char>) -> bool {
    &&& f.len() > 0
    &&& forall|j: int| 0 <= j < f.len() ==> is_alnum(#[trigger] f[j])
}

/// The shape of every generated email address: non-empty, made of letters,
/// digits, `@` and `.`, and every `@` is followed by an `e`.
pub open spec fn is_fresh_email(m: Seq<char>) -> bool {
    &&& m.len() > 0
    &&& forall|j: int|
        0 <= j < m.len() ==> (is_alnum(#[trigger] m[j]) || m[j] == '@' || m[j] == '.')
    &&& forall|j: int| 0 <= j < m.len() && #[trigger] m[j] == '@' ==> j + 1 < m.len() && m[j
        + 1] == 'e'
}

/// Relies on `rand::random`: a value drawn from the thread-local generator.
/// Nothing is promised of the result.
pub assume_specification<T>[ rand::random::<T> ]() -> (r: T)
    where
        rand::distr::StandardUniform: rand::distr::Distribution<T>,
;

/// The character of a decimal digit value; `0` stands in for any value out
/// of range, which callers never pass.
fn digit_char(d: u64) -> (c: char)
    ensures
        is_digit(c),
{
    match d {
        0 => '0',
        1 => '1',
        2 => '2',
        3 => '3',
        4 => '4',
        5 => '5',
        6 => '6',
        7 => '7',
        8 => '8',
        9 => '9',
        _ => '0',
    }
}

/// The decimal digits of `n`, least significant first; non-empty, digits
/// only.
fn push_digits(out: &mut Vec<char>, n: u64)
    ensures
        final(out)@.len() > old(out)@.len(),
        forall|j: int|
            0 <= j < final(out)@.len() ==> if j < old(out)@.len() {
                final(out)@[j] == old(out)@[j]
            } else {
                is_digit(#[trigger] final(out)@[j])
            },
{
    let mut rest: u64 = n;
    let ghost start = out@;
    out.push(digit_char(rest % 10));
    rest = rest / 10;
    while rest > 0
        invariant
            out@.len() > start.len(),
            forall|j: int| 0 <= j < start.len() ==> out@[j] == start[j],
            forall|j: int|
                start.len() <= j < out@.len() ==> is_digit(#[trigger] out@[j]),
        decreases rest,
    {
        out.push(digit_char(rest % 10));
        rest = rest / 10;
    }
}

/// A freshly generated first name.  Two calls may return two different
/// values; every value is non-empty and alphanumeric, so it can never
/// contain a placeholder token.
pub fn new_first_name() -> (r: String)
    ensures
        is_fresh_first_name(r@),
{
    let n: u64 = rand::random();
    let mut v: Vec<char> = Vec::new();
    v.push('U');
    v.push('s');
    v.push('e');
    v.push('r');
    push_digits(&mut v, n);
    proof {
        assert(forall|j: int| 0 <= j < v@.len() && j >= 4 ==> is_digit(#[trigger] v@[j]));
        assert(forall|j: int| 0 <= j < v@.len() ==> is_alnum(#[trigger] v@[j])) by {
            assert(is_alnum('U') && is_alnum('s') && is_alnum('e') && is_alnum('r'));
            assert(forall|c: char| is_digit(c) ==> is_alnum(c));
        }
    }
    crate::text::chars_to_string(&v)
}

/// A freshly generated email address.  Two calls may return two different
/// values; every value has the generated-shape of `is_fresh_email`, so it
/// can never contain a placeholder token.
pub fn new_email_addr() -> (r: String)
    ensures
        is_fresh_email(r@),
{
    let n: u64 = rand::random();
    let mut v: Vec<char> = Vec::new();
    v.push('u');
    v.push('s');
    v.push('e');
    v.push('r');
    push_digits(&mut v, n);
    let ghost local = v@;
    proof {
        assert(forall|j: int| 0 <= j < local.len() ==> is_alnum(#[trigger] local[j])) by {
            assert(is_alnum('u') && is_alnum('s') && is_alnum('e') && is_alnum('r'));
            assert(forall|c: char| is_digit(c) ==> is_alnum(c));
        }
    }
    v.push('@');
    v.push('e');
    v.push('x');
    v.push('a');
    v.push('m');
    v.push('p');
    v.push('l');
    v.push('e');
    v.push('.');
    v.push('c');
    v.push('o');
    v.push('m');
    proof {
        assert(v@.len() == local.len() + 12);
        assert(forall|j: int| 0 <= j < local.len() ==> v@[j] == local[j]);
        assert(forall|j: int|
            0 <= j < v@.len() ==> (is_alnum(#[trigger] v@[j]) || v@[j] == '@' || v@[j]
                == '.'));
        assert(forall|j: int|
            0 <= j < v@.len() && #[trigger] v@[j] == '@' ==> j + 1 < v@.len() && v@[j + 1]
                == 'e') by {
            assert(forall|j: int| 0 <= j < local.len() ==> v@[j] != '@');
            assert(v@[local.len() as int] == '@' && v@[local.len() as int + 1] == 'e');
            assert(forall|j: int|
                local.len() < j < v@.len() ==> #[trigger] v@[j] != '@');
        }
    }
    crate::text::chars_to_string(&v)
}

/// A value of the generated-name shape never contains either placeholder
/// token: both tokens start with `@`, which an alphanumeric value lacks.
pub proof fn lemma_fresh_name_token_free(f: Seq<char>)
    requires
        is_fresh_first_name(f),
    ensures
        !contains_pat(f, first_name_token()),
        !contains_pat(f, email_token()),
{
    reveal_strlit("@NewFirstName");
    reveal_strlit("@NewEmailAddress");
    assert forall|i: int| !matches_at(f, first_name_token(), i) by {
        if matches_at(f, first_name_token(), i) {
            assert(f.subrange(i, i + first_name_token().len())[0] == f[i]);
            assert(f[i] == '@');
            assert(is_alnum(f[i]));
        }
    }
    assert forall|i: int| !matches_at(f, email_token(), i) by {
        if matches_at(f, email_token(), i) {
            assert(f.subrange(i, i + email_token().len())[0] == f[i]);
            assert(f[i] == '@');
            assert(is_alnum(f[i]));
        }
    }
}

/// A value of the generated-email shape never contains either placeholder
/// token: in such a value every `@` is followed by `e`, while both tokens
/// follow their `@` with `N`.
pub proof fn lemma_fresh_email_token_free(m: Seq<char>)
    requires
        is_fresh_email(m),
    ensures
        !contains_pat(m, first_name_token()),
        !contains_pat(m, email_token()),
{
    reveal_strlit("@NewFirstName");
    reveal_strlit("@NewEmailAddress");
    assert forall|i: int| !matches_at(m, first_name_token(), i) by {
        if matches_at(m, first_name_token(), i) {
            assert(m.subrange(i, i + first_name_token().len())[0] == m[i]);
            assert(m.subrange(i, i + first_name_token().len())[1] == m[i + 1]);
            assert(m[i] == '@' && m[i + 1] == 'N');
        }
    }
    assert forall|i: int| !matches_at(m, email_token(), i) by {
        if matches_at(m, email_token(), i) {
            assert(m.subrange(i, i + email_token().len())[0] == m[i]);
            assert(m.subrange(i, i + email_token().len())[1] == m[i + 1]);
            assert(m[i] == '@' && m[i + 1] == 'N');
        }
    }
}

} // verus!
