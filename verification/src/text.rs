//! Character-sequence utilities the command language is built from.
//!
//! Every executable function here carries an exact contract over the
//! `Seq<char>` view of its input, so the parser and the script loader can
//! state their own behaviour directly in terms of these specifications.

use vstd::prelude::*;
use vstd::string::StrSliceExecFns;

verus! {

/// ASCII whitespace: what the command language strips from line ends.
pub open spec fn is_space(c: char) -> bool {
    c == ' ' || c == '\t' || c == '\r' || c == '\n'
}

/// Executable twin of `is_space`.
pub fn is_space_char(c: char) -> (r: bool)
    ensures
        r == is_space(c),
{
    c == ' ' || c == '\t' || c == '\r' || c == '\n'
}

/// The characters of `s`, as a vector.
pub fn to_char_vec(s: &str) -> (r: Vec<char>)
    ensures
        r@ == s@,
{
    let n = s.unicode_len();
    let mut r: Vec<char> = Vec::new();
    let mut i: usize = 0;
    while i < n
        invariant
            i <= n,
            n == s@.len(),
            r@ == s@.take(i as int),
        decreases n - i,
    {
        let c = s.get_char(i);
        r.push(c);
        proof {
            assert(s@.take((i + 1) as int) =~= s@.take(i as int).push(s@[i as int]));
        }
        i = i + 1;
    }
    proof {
        assert(s@.take(n as int) =~= s@);
    }
    r
}

/// Relies on `String: FromIterator<char>`: collecting characters yields the
/// string of exactly those characters, in order.
#[verifier::external_body]
pub(crate) fn chars_to_string(v: &Vec<char>) -> (r: String)
    ensures
        r@ == v@,
{
    v.iter().collect()
}

/// A copy of `v[from..to]`.
pub fn subvec(v: &Vec<char>, from: usize, to: usize) -> (r: Vec<char>)
    requires
        from <= to <= v@.len(),
    ensures
        r@ == v@.subrange(from as int, to as int),
{
    let mut r: Vec<char> = Vec::new();
    let mut i: usize = from;
    while i < to
        invariant
            from <= i <= to <= v@.len(),
            r@ == v@.subrange(from as int, i as int),
        decreases to - i,
    {
        r.push(v[i]);
        proof {
            assert(v@.subrange(from as int, (i + 1) as int) =~= v@.subrange(
                from as int,
                i as int,
            ).push(v@[i as int]));
        }
        i = i + 1;
    }
    r
}

/// Whether the characters of `v` are exactly those of `s`.
pub fn chars_eq_str(v: &Vec<char>, s: &str) -> (r: bool)
    ensures
        r == (v@ == s@),
{
    let n = s.unicode_len();
    if v.len() != n {
        return false;
    }
    let mut i: usize = 0;
    while i < n
        invariant
            i <= n,
            n == s@.len(),
            v@.len() == n,
            forall|j: int| 0 <= j < i ==> v@[j] == s@[j],
        decreases n - i,
    {
        if v[i] != s.get_char(i) {
            return false;
        }
        i = i + 1;
    }
    proof {
        assert(v@ =~= s@);
    }
    true
}

/// Index `i` holds the first delimiter of `s`.
pub open spec fn is_first_delim(s: Seq<char>, delims: Seq<char>, i: int) -> bool {
    &&& 0 <= i < s.len()
    &&& delims.contains(s[i])
    &&& forall|j: int| 0 <= j < i ==> !delims.contains(#[trigger] s[j])
}

/// Two first delimiters are the same one.
pub proof fn lemma_first_delim_unique(s: Seq<char>, delims: Seq<char>, i: int, j: int)
    requires
        is_first_delim(s, delims, i),
        is_first_delim(s, delims, j),
    ensures
        i == j,
{
}

/// `s` split at every delimiter; the delimiters themselves are dropped.
/// Splitting the empty sequence gives one empty field, as `str::split` does.
pub open spec fn split_any(s: Seq<char>, delims: Seq<char>) -> Seq<Seq<char>>
    decreases s.len(),
{
    if exists|i: int| is_first_delim(s, delims, i) {
        let i = choose|i: int| is_first_delim(s, delims, i);
        seq![s.take(i)] + split_any(s.skip(i + 1), delims)
    } else {
        seq![s]
    }
}

/// Splitting never yields an empty field list.
pub proof fn lemma_split_any_nonempty(s: Seq<char>, delims: Seq<char>)
    ensures
        split_any(s, delims).len() >= 1,
{
}

/// Whether `c` is one of the characters of `delims`.
pub fn contains_char(delims: &Vec<char>, c: char) -> (r: bool)
    ensures
        r == delims@.contains(c),
{
    let mut i: usize = 0;
    while i < delims.len()
        invariant
            i <= delims@.len(),
            forall|j: int| 0 <= j < i ==> delims@[j] != c,
        decreases delims@.len() - i,
    {
        if delims[i] == c {
            return true;
        }
        i = i + 1;
    }
    false
}

/// The position of the first delimiter of `v`, if there is one.
pub fn find_first_delim(v: &Vec<char>, delims: &Vec<char>) -> (r: Option<usize>)
    ensures
        match r {
            Some(i) => is_first_delim(v@, delims@, i as int),
            None => forall|i: int| !is_first_delim(v@, delims@, i),
        },
{
    let mut i: usize = 0;
    while i < v.len()
        invariant
            i <= v@.len(),
            forall|j: int| 0 <= j < i ==> !delims@.contains(#[trigger] v@[j]),
        decreases v@.len() - i,
    {
        if contains_char(delims, v[i]) {
            return Some(i);
        }
        i = i + 1;
    }
    None
}

/// Executable splitting, field for field equal to `split_any`.
pub fn split_any_exec(v: &Vec<char>, delims: &Vec<char>) -> (r: Vec<Vec<char>>)
    ensures
        r@.len() == split_any(v@, delims@).len(),
        forall|k: int| 0 <= k < r@.len() ==> r@[k]@ == split_any(v@, delims@)[k],
    decreases v@.len(),
{
    match find_first_delim(v, delims) {
        Some(i) => {
            let n = v.len();
            let head = subvec(v, 0, i);
            let rest = subvec(v, i + 1, n);
            let tail = split_any_exec(&rest, delims);
            let mut r: Vec<Vec<char>> = Vec::new();
            r.push(head);
            let mut k: usize = 0;
            proof {
                let w = choose|w: int| is_first_delim(v@, delims@, w);
                lemma_first_delim_unique(v@, delims@, w, i as int);
                assert(v@.take(i as int) =~= v@.subrange(0, i as int));
                assert(v@.skip(i + 1) =~= v@.subrange(i + 1, v@.len() as int));
            }
            while k < tail.len()
                invariant
                    k <= tail@.len(),
                    r@.len() == 1 + k,
                    r@[0]@ == split_any(v@, delims@)[0],
                    split_any(v@, delims@).len() == 1 + tail@.len(),
                    forall|j: int| 0 <= j < tail@.len() ==> tail@[j]@ == split_any(
                        v@,
                        delims@,
                    )[j + 1],
                    forall|j: int| 0 <= j < k ==> r@[j + 1]@ == tail@[j]@,
                decreases tail@.len() - k,
            {
                let piece = subvec(&tail[k], 0, tail[k].len());
                proof {
                    assert(tail@[k as int]@.subrange(0, tail@[k as int]@.len() as int)
                        =~= tail@[k as int]@);
                }
                r.push(piece);
                k = k + 1;
            }
            r
        },
        None => {
            let mut r: Vec<Vec<char>> = Vec::new();
            let whole = subvec(v, 0, v.len());
            proof {
                assert(v@.subrange(0, v@.len() as int) =~= v@);
            }
            r.push(whole);
            r
        },
    }
}

/// `s` without its leading whitespace.
pub open spec fn trim_start(s: Seq<char>) -> Seq<char>
    decreases s.len(),
{
    if s.len() > 0 && is_space(s[0]) {
        trim_start(s.drop_first())
    } else {
        s
    }
}

/// `s` without its trailing whitespace.
pub open spec fn trim_end(s: Seq<char>) -> Seq<char>
    decreases s.len(),
{
    if s.len() > 0 && is_space(s.last()) {
        trim_end(s.drop_last())
    } else {
        s
    }
}

/// `s` without leading and trailing whitespace.
pub open spec fn trim(s: Seq<char>) -> Seq<char> {
    trim_end(trim_start(s))
}

proof fn lemma_trim_start_skip(s: Seq<char>, a: int)
    requires
        0 <= a <= s.len(),
        forall|j: int| 0 <= j < a ==> is_space(#[trigger] s[j]),
        a < s.len() ==> !is_space(s[a]),
    ensures
        trim_start(s) == s.skip(a),
    decreases a,
{
    if a == 0 {
        assert(s.skip(0) =~= s);
    } else {
        assert(is_space(s[0]));
        lemma_trim_start_skip(s.drop_first(), a - 1);
        assert(s.drop_first().skip(a - 1) =~= s.skip(a));
    }
}

proof fn lemma_trim_end_take(s: Seq<char>, b: int)
    requires
        0 <= b <= s.len(),
        forall|j: int| b <= j < s.len() ==> is_space(#[trigger] s[j]),
        b > 0 ==> !is_space(s[b - 1]),
    ensures
        trim_end(s) == s.take(b),
    decreases s.len() - b,
{
    if b == s.len() {
        assert(s.take(b) =~= s);
        if s.len() > 0 && is_space(s.last()) {
            assert(!is_space(s[b - 1]));
            assert(false);
        }
    } else {
        assert(is_space(s.last()));
        lemma_trim_end_take(s.drop_last(), b);
        assert(s.drop_last().take(b) =~= s.take(b));
    }
}

/// Executable trimming, equal to `trim`.
pub fn trim_exec(v: &Vec<char>) -> (r: Vec<char>)
    ensures
        r@ == trim(v@),
{
    let mut a: usize = 0;
    while a < v.len() && is_space_char(v[a])
        invariant
            a <= v@.len(),
            forall|j: int| 0 <= j < a ==> is_space(#[trigger] v@[j]),
        decreases v@.len() - a,
    {
        a = a + 1;
    }
    proof {
        lemma_trim_start_skip(v@, a as int);
    }
    if a == v.len() {
        let r: Vec<char> = Vec::new();
        proof {
            assert(v@.skip(a as int) =~= Seq::<char>::empty());
        }
        return r;
    }
    let mut b: usize = v.len();
    while b > a + 1 && is_space_char(v[b - 1])
        invariant
            a < b <= v@.len(),
            forall|j: int| b <= j < v@.len() ==> is_space(#[trigger] v@[j]),
        decreases b,
    {
        b = b - 1;
    }
    let r = subvec(v, a, b);
    proof {
        let t = v@.skip(a as int);
        assert(!is_space(t[0]));
        assert(!is_space(t[(b - a - 1) as int]));
        lemma_trim_end_take(t, b - a as int);
        assert(t.take(b - a as int) =~= v@.subrange(a as int, b as int));
    }
    r
}

/// `s` with every occurrence of the character `c` removed.
pub open spec fn remove_char(s: Seq<char>, c: char) -> Seq<char>
    decreases s.len(),
{
    if s.len() == 0 {
        s
    } else if s.last() == c {
        remove_char(s.drop_last(), c)
    } else {
        remove_char(s.drop_last(), c).push(s.last())
    }
}

/// Executable removal, equal to `remove_char`.
pub fn remove_char_exec(v: &Vec<char>, c: char) -> (r: Vec<char>)
    ensures
        r@ == remove_char(v@, c),
{
    let mut r: Vec<char> = Vec::new();
    let mut i: usize = 0;
    while i < v.len()
        invariant
            i <= v@.len(),
            r@ == remove_char(v@.take(i as int), c),
        decreases v@.len() - i,
    {
        proof {
            assert(v@.take((i + 1) as int).drop_last() =~= v@.take(i as int));
        }
        if v[i] != c {
            r.push(v[i]);
        }
        i = i + 1;
    }
    proof {
        assert(v@.take(v@.len() as int) =~= v@);
    }
    r
}

/// The pattern `pat` stands letter for letter in `s` at position `i`.
pub open spec fn matches_at(s: Seq<char>, pat: Seq<char>, i: int) -> bool {
    &&& 0 <= i
    &&& i + pat.len() <= s.len()
    &&& s.subrange(i, i + pat.len()) == pat
}

/// `s` holds the pattern somewhere.
pub open spec fn contains_pat(s: Seq<char>, pat: Seq<char>) -> bool {
    exists|i: int| matches_at(s, pat, i)
}

/// Position `i` holds the leftmost occurrence of the pattern.
pub open spec fn is_first_match(s: Seq<char>, pat: Seq<char>, i: int) -> bool {
    &&& matches_at(s, pat, i)
    &&& forall|j: int| 0 <= j < i ==> !matches_at(s, pat, j)
}

/// Two leftmost occurrences are the same one.
pub proof fn lemma_first_match_unique(s: Seq<char>, pat: Seq<char>, i: int, j: int)
    requires
        is_first_match(s, pat, i),
        is_first_match(s, pat, j),
    ensures
        i == j,
{
}

/// Whether the pattern stands in `v` at position `i`.
pub fn matches_at_exec(v: &Vec<char>, pat: &Vec<char>, i: usize) -> (r: bool)
    requires
        i + pat@.len() <= v@.len(),
    ensures
        r == matches_at(v@, pat@, i as int),
{
    let n = v.len();
    let mut k: usize = 0;
    while k < pat.len()
        invariant
            k <= pat@.len(),
            n == v@.len(),
            i + pat@.len() <= v@.len(),
            forall|j: int| 0 <= j < k ==> v@[i + j] == #[trigger] pat@[j],
        decreases pat@.len() - k,
    {
        if v[i + k] != pat[k] {
            proof {
                assert(v@.subrange(i as int, i + pat@.len())[k as int] == v@[i + k]);
            }
            return false;
        }
        k = k + 1;
    }
    proof {
        assert(v@.subrange(i as int, i + pat@.len()) =~= pat@);
    }
    true
}

/// The position of the leftmost occurrence of the pattern, if there is one.
pub fn find_first_match(v: &Vec<char>, pat: &Vec<char>) -> (r: Option<usize>)
    ensures
        match r {
            Some(i) => is_first_match(v@, pat@, i as int),
            None => !contains_pat(v@, pat@),
        },
{
    if pat.len() > v.len() {
        return None;
    }
    if pat.len() == 0 {
        proof {
            assert(v@.subrange(0, 0) =~= pat@);
        }
        return Some(0);
    }
    let last = v.len() - pat.len();
    let mut i: usize = 0;
    while i <= last
        invariant
            i <= last + 1,
            pat@.len() > 0,
            v@.len() <= usize::MAX,
            last + pat@.len() == v@.len(),
            forall|j: int| 0 <= j < i ==> !matches_at(v@, pat@, j),
        decreases last + 1 - i,
    {
        if matches_at_exec(v, pat, i) {
            return Some(i);
        }
        i = i + 1;
    }
    None
}

/// Every occurrence of `pat` in `s` replaced by `rep`, scanning left to
/// right without overlap.  An empty pattern replaces nothing.
pub open spec fn replace_all(s: Seq<char>, pat: Seq<char>, rep: Seq<char>) -> Seq<char>
    decreases s.len(),
{
    if pat.len() == 0 {
        s
    } else if exists|i: int| is_first_match(s, pat, i) {
        let i = choose|i: int| is_first_match(s, pat, i);
        s.take(i) + rep + replace_all(s.skip(i + pat.len()), pat, rep)
    } else {
        s
    }
}

/// Executable replacement, equal to `replace_all`.
pub fn replace_all_exec(v: &Vec<char>, pat: &Vec<char>, rep: &Vec<char>) -> (r: Vec<char>)
    ensures
        r@ == replace_all(v@, pat@, rep@),
    decreases v@.len(),
{
    let n = v.len();
    if pat.len() == 0 {
        return subvec(v, 0, n);
    }
    match find_first_match(v, pat) {
        Some(i) => {
            proof {
                let w = choose|w: int| is_first_match(v@, pat@, w);
                lemma_first_match_unique(v@, pat@, w, i as int);
            }
            let mut r = subvec(v, 0, i);
            let mut mid = subvec(rep, 0, rep.len());
            let rest_in = subvec(v, i + pat.len(), n);
            let mut rest = replace_all_exec(&rest_in, pat, rep);
            r.append(&mut mid);
            r.append(&mut rest);
            proof {
                assert(rep@.subrange(0, rep@.len() as int) =~= rep@);
                assert(v@.subrange(0, i as int) =~= v@.take(i as int));
                assert(v@.subrange(i + pat@.len(), v@.len() as int) =~= v@.skip(
                    i + pat@.len(),
                ));
            }
            r
        },
        None => {
            subvec(v, 0, n)
        },
    }
}

/// Where the pattern matches, its first character stands in `s`.
pub proof fn lemma_match_starts(s: Seq<char>, pat: Seq<char>, i: int)
    requires
        matches_at(s, pat, i),
        pat.len() > 0,
    ensures
        s[i] == pat[0],
{
    assert(s.subrange(i, i + pat.len())[0] == s[i]);
}

/// A pattern beginning with a character that `s` lacks occurs nowhere.
pub proof fn lemma_absent_head(s: Seq<char>, pat: Seq<char>)
    requires
        pat.len() > 0,
        forall|j: int| 0 <= j < s.len() ==> s[j] != pat[0],
    ensures
        !contains_pat(s, pat),
{
    assert forall|i: int| !matches_at(s, pat, i) by {
        if matches_at(s, pat, i) {
            lemma_match_starts(s, pat, i);
        }
    }
}

/// A pattern that occurs nowhere is not replaced.
pub proof fn lemma_replace_absent(s: Seq<char>, pat: Seq<char>, rep: Seq<char>)
    requires
        pat.len() > 0,
        !contains_pat(s, pat),
    ensures
        replace_all(s, pat, rep) == s,
{
    if exists|i: int| is_first_match(s, pat, i) {
        let i = choose|i: int| is_first_match(s, pat, i);
        assert(matches_at(s, pat, i));
    }
}

/// A decimal digit.
pub open spec fn is_digit(c: char) -> bool {
    '0' <= c && c <= '9'
}

/// The value of a decimal digit.
pub open spec fn digit_val(c: char) -> int {
    c as int - '0' as int
}

/// Every character of `s` is a decimal digit.
pub open spec fn all_digits(s: Seq<char>) -> bool {
    forall|j: int| 0 <= j < s.len() ==> is_digit(#[trigger] s[j])
}

/// The numeric value of a digit string, most significant digit first.
pub open spec fn dec_val(s: Seq<char>) -> int
    decreases s.len(),
{
    if s.len() == 0 {
        0
    } else {
        dec_val(s.drop_last()) * 10 + digit_val(s.last())
    }
}

/// `s` is a decimal numeral whose value fits in `usize`.
pub open spec fn is_index_string(s: Seq<char>) -> bool {
    &&& s.len() > 0
    &&& all_digits(s)
    &&& dec_val(s) <= usize::MAX as int
}

proof fn lemma_dec_val_nonneg(s: Seq<char>)
    requires
        all_digits(s),
    ensures
        dec_val(s) >= 0,
    decreases s.len(),
{
    if s.len() > 0 {
        assert(all_digits(s.drop_last())) by {
            assert(forall|j: int|
                0 <= j < s.len() - 1 ==> #[trigger] s.drop_last()[j] == s[j]);
        }
        lemma_dec_val_nonneg(s.drop_last());
    }
}

proof fn lemma_dec_val_prefix_le(s: Seq<char>, k: int)
    requires
        all_digits(s),
        0 <= k <= s.len(),
    ensures
        dec_val(s.take(k)) <= dec_val(s),
    decreases s.len() - k,
{
    if k < s.len() {
        lemma_dec_val_prefix_le(s, k + 1);
        let t = s.take(k + 1);
        assert(t.drop_last() =~= s.take(k));
        assert(is_digit(s[k]) && t.last() == s[k]);
        assert(all_digits(s.take(k))) by {
            assert(forall|j: int| 0 <= j < k ==> #[trigger] s.take(k)[j] == s[j]);
        }
        lemma_dec_val_nonneg(s.take(k));
        assert(dec_val(s.take(k)) * 10 >= dec_val(s.take(k))) by (nonlinear_arith)
            requires dec_val(s.take(k)) >= 0;
        assert(dec_val(t) >= dec_val(s.take(k)));
    } else {
        assert(s.take(k) =~= s);
    }
}

/// Parse a decimal numeral; `None` exactly when `v` is not a numeral that
/// fits in `usize`.
pub fn parse_usize(v: &Vec<char>) -> (r: Option<usize>)
    ensures
        match r {
            Some(n) => is_index_string(v@) && n as int == dec_val(v@),
            None => !is_index_string(v@),
        },
{
    if v.len() == 0 {
        return None;
    }
    let mut acc: usize = 0;
    let mut i: usize = 0;
    while i < v.len()
        invariant
            i <= v@.len(),
            v@.len() > 0,
            forall|j: int| 0 <= j < i ==> is_digit(#[trigger] v@[j]),
            acc as int == dec_val(v@.take(i as int)),
        decreases v@.len() - i,
    {
        let c = v[i];
        if !(c >= '0' && c <= '9') {
            return None;
        }
        let d = (c as u32 - '0' as u32) as usize;
        proof {
            assert(v@.take((i + 1) as int).drop_last() =~= v@.take(i as int));
        }
        let step = match acc.checked_mul(10) {
            Some(m) => m.checked_add(d),
            None => None,
        };
        match step {
            Some(next) => {
                acc = next;
            },
            None => {
                proof {
                    let t = v@.take((i + 1) as int);
                    assert(dec_val(t) == acc as int * 10 + digit_val(v@[i as int]));
                    assert(dec_val(t) > usize::MAX as int);
                    if all_digits(v@) {
                        lemma_dec_val_prefix_le(v@, i + 1);
                    }
                }
                return None;
            },
        }
        i = i + 1;
    }
    proof {
        assert(v@.take(v@.len() as int) =~= v@);
    }
    Some(acc)
}

} // verus!
