//! Character-sequence helpers used by the command engine.
//!
//! Text is handled as a sequence of characters: most functions here take
//! and return `Vec<char>`, and their contracts speak of the `Seq<char>` that
//! such a vector holds.

use vstd::prelude::*;

verus! {

/// Whether `char::is_whitespace` holds of `c`, that is, whether `c` has the
/// Unicode property White_Space. Left uninterpreted.
pub uninterp spec fn is_whitespace(c: char) -> bool;

/// The text that `String::from_utf8_lossy` makes of `bytes`. Left
/// uninterpreted.
pub uninterp spec fn lossy_text(bytes: Seq<u8>) -> Seq<char>;

/// Calls `String::push`. Trusted: afterwards the string is what it was,
/// with `c` at its end.
#[verifier::external_body]
fn push_char(s: &mut String, c: char)
    ensures
        final(s)@ == old(s)@.push(c),
{
    s.push(c)
}

/// Calls `char::is_whitespace`. Trusted: the answer depends on the
/// character alone.
#[verifier::external_body]
fn is_space(c: char) -> (b: bool)
    ensures
        b == is_whitespace(c),
{
    c.is_whitespace()
}

/// Calls `String::from_utf8_lossy`, which decodes `bytes` and puts U+FFFD in
/// place of what is not UTF-8. Trusted: the text depends on the bytes
/// alone.
#[verifier::external_body]
fn from_utf8_lossy(bytes: &Vec<u8>) -> (s: String)
    ensures
        s@ == lossy_text(bytes@),
{
    String::from_utf8_lossy(bytes).into_owned()
}

/// The characters of `s`, in order.
pub fn to_chars(s: &str) -> (v: Vec<char>)
    ensures
        v@ == s@,
{
    let mut v: Vec<char> = Vec::new();
    for c in it: s.chars()
        invariant
            v@ == it.seq().take(it.index() as int),
            it.seq() == s@,
    {
        v.push(c);
    }
    v
}

/// The string made of the characters of `v`, in order.
pub fn to_string(v: &Vec<char>) -> (s: String)
    ensures
        s@ == v@,
{
    let mut s = String::new();
    let mut i: usize = 0;
    while i < v.len()
        invariant
            i <= v.len(),
            s@ == v@.take(i as int),
        decreases v.len() - i,
    {
        push_char(&mut s, v[i]);
        i += 1;
    }
    s
}

/// The text that `bytes` encode, with U+FFFD for each malformed stretch.
pub fn decode(bytes: &Vec<u8>) -> (s: String)
    ensures
        s@ == lossy_text(bytes@),
{
    from_utf8_lossy(bytes)
}

/// The characters of `s` from index `from` up to, not including, `to`.
pub fn slice(s: &Vec<char>, from: usize, to: usize) -> (v: Vec<char>)
    requires
        from <= to <= s.len(),
    ensures
        v@ == s@.subrange(from as int, to as int),
{
    let mut v: Vec<char> = Vec::new();
    let mut i: usize = from;
    while i < to
        invariant
            from <= i <= to <= s.len(),
            v@ == s@.subrange(from as int, i as int),
        decreases to - i,
    {
        v.push(s[i]);
        i += 1;
    }
    v
}

/// Appends the characters of `tail` to `v`.
pub fn append(v: &mut Vec<char>, tail: &Vec<char>)
    ensures
        final(v)@ == old(v)@ + tail@,
{
    let mut i: usize = 0;
    while i < tail.len()
        invariant
            i <= tail.len(),
            v@ == old(v)@ + tail@.take(i as int),
        decreases tail.len() - i,
    {
        v.push(tail[i]);
        i += 1;
    }
}

/// Whether `pat` stands in `s` at index `at`.
pub fn occurs_at(s: &Vec<char>, at: usize, pat: &Vec<char>) -> (b: bool)
    requires
        at <= s.len(),
    ensures
        b == pat@.is_prefix_of(s@.skip(at as int)),
{
    if pat.len() > s.len() - at {
        return false;
    }
    let mut j: usize = 0;
    while j < pat.len()
        invariant
            at <= s.len(),
            pat.len() <= s.len() - at,
            j <= pat.len(),
            forall|k: int| 0 <= k < j ==> s@[at + k] == pat@[k],
        decreases pat.len() - j,
    {
        if s[at + j] != pat[j] {
            assert(s@.skip(at as int).subrange(0, pat@.len() as int)[j as int] != pat@[j as int]);
            return false;
        }
        j += 1;
    }
    assert(pat@ =~= s@.skip(at as int).subrange(0, pat@.len() as int));
    true
}

/// `s` with every occurrence of `pat` replaced by `with`: occurrences are
/// taken from the left and do not overlap. An empty `pat` occurs nowhere.
pub open spec fn replaced(s: Seq<char>, pat: Seq<char>, with: Seq<char>) -> Seq<char>
    decreases s.len(),
{
    if pat.len() == 0 || s.len() == 0 {
        s
    } else if pat.is_prefix_of(s) {
        with + replaced(s.skip(pat.len() as int), pat, with)
    } else {
        seq![s[0]] + replaced(s.skip(1), pat, with)
    }
}

/// Replaces every occurrence of `pat` in `s` by `with`.
pub fn replace_all(s: &Vec<char>, pat: &Vec<char>, with: &Vec<char>) -> (r: Vec<char>)
    ensures
        r@ == replaced(s@, pat@, with@),
{
    let mut out: Vec<char> = Vec::new();
    if pat.len() == 0 {
        append(&mut out, s);
        return out;
    }
    let mut i: usize = 0;
    assert(s@.skip(0) =~= s@);
    assert(out@ + s@ =~= s@);
    while i < s.len()
        invariant
            i <= s.len(),
            pat.len() > 0,
            replaced(s@, pat@, with@) == out@ + replaced(s@.skip(i as int), pat@, with@),
        decreases s.len() - i,
    {
        let ghost rest = s@.skip(i as int);
        if occurs_at(s, i, pat) {
            assert(rest.skip(pat@.len() as int) =~= s@.skip(i + pat@.len()));
            assert(out@ + (with@ + replaced(rest.skip(pat@.len() as int), pat@, with@)) =~= (out@
                + with@) + replaced(rest.skip(pat@.len() as int), pat@, with@));
            append(&mut out, with);
            i += pat.len();
        } else {
            assert(rest.skip(1) =~= s@.skip(i + 1));
            assert(out@ + (seq![rest[0]] + replaced(rest.skip(1), pat@, with@)) =~= out@.push(
                s@[i as int],
            ) + replaced(rest.skip(1), pat@, with@));
            out.push(s[i]);
            i += 1;
        }
    }
    out
}

/// Whether `pat` stands somewhere in `s`.
pub open spec fn occurs(s: Seq<char>, pat: Seq<char>) -> bool {
    exists|i: int| 0 <= i <= s.len() && pat.is_prefix_of(#[trigger] s.skip(i))
}

/// The number of occurrences of `pat` that `replaced` replaces in `s`.
pub open spec fn replacements(s: Seq<char>, pat: Seq<char>) -> nat
    decreases s.len(),
{
    if pat.len() == 0 || s.len() == 0 {
        0
    } else if pat.is_prefix_of(s) {
        1 + replacements(s.skip(pat.len() as int), pat)
    } else {
        replacements(s.skip(1), pat)
    }
}

/// Each replacement trades the length of `pat` for the length of `with`.
pub proof fn lemma_replaced_len(s: Seq<char>, pat: Seq<char>, with: Seq<char>)
    ensures
        replaced(s, pat, with).len() == s.len() + (replacements(s, pat) as int) * (with.len()
            - pat.len()),
    decreases s.len(),
{
    let d = with.len() - pat.len();
    if pat.len() == 0 || s.len() == 0 {
        assert(0 * d == 0) by (nonlinear_arith);
    } else if pat.is_prefix_of(s) {
        let rest = s.skip(pat.len() as int);
        lemma_replaced_len(rest, pat, with);
        let k = replacements(rest, pat) as int;
        assert((1 + k) * d == d + k * d) by (nonlinear_arith);
        assert(replaced(s, pat, with).len() == with.len() + replaced(rest, pat, with).len());
    } else {
        lemma_replaced_len(s.skip(1), pat, with);
        assert(replaced(s, pat, with).len() == 1 + replaced(s.skip(1), pat, with).len());
    }
}

/// Where `pat` occurs, something is replaced.
pub proof fn lemma_occurrence_is_replaced(s: Seq<char>, pat: Seq<char>)
    requires
        pat.len() > 0,
        occurs(s, pat),
    ensures
        replacements(s, pat) >= 1,
        s.len() > 0,
    decreases s.len(),
{
    let i = choose|i: int| 0 <= i <= s.len() && pat.is_prefix_of(#[trigger] s.skip(i));
    if !pat.is_prefix_of(s) {
        assert(s.skip(0) =~= s);
        assert(i >= 1);
        assert(s.skip(1).skip(i - 1) =~= s.skip(i));
        lemma_occurrence_is_replaced(s.skip(1), pat);
    }
}

/// Replacing tells replacements apart: where `pat` occurs in `s`, putting
/// different texts in its place gives different results.
pub proof fn lemma_replaced_tells_apart(
    s: Seq<char>,
    pat: Seq<char>,
    first: Seq<char>,
    second: Seq<char>,
)
    requires
        pat.len() > 0,
        occurs(s, pat),
        first != second,
    ensures
        replaced(s, pat, first) != replaced(s, pat, second),
    decreases s.len(),
{
    lemma_occurrence_is_replaced(s, pat);
    let one = replaced(s, pat, first);
    let two = replaced(s, pat, second);
    if first.len() != second.len() {
        lemma_replaced_len(s, pat, first);
        lemma_replaced_len(s, pat, second);
        let k = replacements(s, pat) as int;
        let d1 = first.len() - pat.len();
        let d2 = second.len() - pat.len();
        assert(k >= 1 && d1 != d2 ==> k * d1 != k * d2) by (nonlinear_arith);
    } else if pat.is_prefix_of(s) {
        if one == two {
            assert forall|j: int| 0 <= j < first.len() implies first[j] == second[j] by {
                assert(one[j] == first[j]);
                assert(two[j] == second[j]);
            }
            assert(first =~= second);
        }
    } else {
        let i = choose|i: int| 0 <= i <= s.len() && pat.is_prefix_of(#[trigger] s.skip(i));
        assert(s.skip(0) =~= s);
        assert(s.skip(1).skip(i - 1) =~= s.skip(i));
        lemma_replaced_tells_apart(s.skip(1), pat, first, second);
        assert(one.skip(1) =~= replaced(s.skip(1), pat, first));
        assert(two.skip(1) =~= replaced(s.skip(1), pat, second));
    }
}

/// `s` without the white space it begins with.
pub open spec fn trim_start(s: Seq<char>) -> Seq<char>
    decreases s.len(),
{
    if s.len() > 0 && is_whitespace(s[0]) {
        trim_start(s.skip(1))
    } else {
        s
    }
}

/// `s` without the white space it ends with.
pub open spec fn trim_end(s: Seq<char>) -> Seq<char>
    decreases s.len(),
{
    if s.len() > 0 && is_whitespace(s.last()) {
        trim_end(s.drop_last())
    } else {
        s
    }
}

/// `s` without the white space around it.
pub open spec fn trimmed(s: Seq<char>) -> Seq<char> {
    trim_end(trim_start(s))
}

/// Removes the white space at both ends of `s`.
pub fn trim(s: &Vec<char>) -> (r: Vec<char>)
    ensures
        r@ == trimmed(s@),
{
    let mut start: usize = 0;
    assert(s@.skip(0) =~= s@);
    while start < s.len() && is_space(s[start])
        invariant
            start <= s.len(),
            trim_start(s@) == trim_start(s@.skip(start as int)),
        decreases s.len() - start,
    {
        assert(s@.skip(start as int).skip(1) =~= s@.skip(start + 1));
        start += 1;
    }
    assert(trim_start(s@) == s@.skip(start as int));
    assert(s@.skip(start as int) =~= s@.subrange(start as int, s@.len() as int));
    let mut end: usize = s.len();
    while end > start && is_space(s[end - 1])
        invariant
            start <= end <= s.len(),
            trimmed(s@) == trim_end(s@.subrange(start as int, end as int)),
        decreases end,
    {
        assert(s@.subrange(start as int, end as int).drop_last() =~= s@.subrange(
            start as int,
            end - 1,
        ));
        end -= 1;
    }
    slice(s, start, end)
}

/// `s` without the characters `c` it begins with.
pub open spec fn without_leading(s: Seq<char>, c: char) -> Seq<char>
    decreases s.len(),
{
    if s.len() > 0 && s[0] == c {
        without_leading(s.skip(1), c)
    } else {
        s
    }
}

/// `s` without the copies of `suffix` it ends with. An empty `suffix` ends
/// no text.
pub open spec fn without_trailing(s: Seq<char>, suffix: Seq<char>) -> Seq<char>
    decreases s.len(),
{
    if suffix.len() > 0 && suffix.is_suffix_of(s) {
        without_trailing(s.take(s.len() - suffix.len()), suffix)
    } else {
        s
    }
}

/// Removes every `c` that `s` begins with.
pub fn strip_leading(s: &Vec<char>, c: char) -> (r: Vec<char>)
    ensures
        r@ == without_leading(s@, c),
{
    let mut start: usize = 0;
    assert(s@.skip(0) =~= s@);
    while start < s.len() && s[start] == c
        invariant
            start <= s.len(),
            without_leading(s@, c) == without_leading(s@.skip(start as int), c),
        decreases s.len() - start,
    {
        assert(s@.skip(start as int).skip(1) =~= s@.skip(start + 1));
        start += 1;
    }
    assert(s@.skip(start as int) =~= s@.subrange(start as int, s@.len() as int));
    slice(s, start, s.len())
}

/// Removes every copy of `suffix` that `s` ends with.
pub fn strip_trailing(s: &Vec<char>, suffix: &Vec<char>) -> (r: Vec<char>)
    ensures
        r@ == without_trailing(s@, suffix@),
{
    let mut end: usize = s.len();
    assert(s@.take(end as int) =~= s@);
    if suffix.len() > 0 {
        while end >= suffix.len() && occurs_at(s, end - suffix.len(), suffix)
            invariant
                end <= s.len(),
                suffix.len() > 0,
                without_trailing(s@, suffix@) == without_trailing(s@.take(end as int), suffix@),
            decreases end,
        {
            proof {
                let head = s@.take(end as int);
                let at = end - suffix@.len();
                assert(head.subrange(at, end as int) =~= s@.skip(at).subrange(
                    0,
                    suffix@.len() as int,
                ));
                assert(head.take(at) =~= s@.take(at));
            }
            end -= suffix.len();
        }
        proof {
            let head = s@.take(end as int);
            if end >= suffix.len() {
                let at = end - suffix@.len();
                assert(head.subrange(at, end as int) =~= s@.skip(at).subrange(
                    0,
                    suffix@.len() as int,
                ));
            }
        }
    }
    slice(s, 0, end)
}

/// The character for the decimal digit `d`.
pub open spec fn digit(d: nat) -> char {
    if d == 0 {
        '0'
    } else if d == 1 {
        '1'
    } else if d == 2 {
        '2'
    } else if d == 3 {
        '3'
    } else if d == 4 {
        '4'
    } else if d == 5 {
        '5'
    } else if d == 6 {
        '6'
    } else if d == 7 {
        '7'
    } else if d == 8 {
        '8'
    } else {
        '9'
    }
}

/// `n` in decimal, without sign or leading zeros.
pub open spec fn decimal(n: nat) -> Seq<char>
    decreases n,
{
    if n < 10 {
        seq![digit(n)]
    } else {
        decimal(n / 10).push(digit(n % 10))
    }
}

fn digit_char(d: usize) -> (c: char)
    requires
        d < 10,
    ensures
        c == digit(d as nat),
{
    if d == 0 {
        '0'
    } else if d == 1 {
        '1'
    } else if d == 2 {
        '2'
    } else if d == 3 {
        '3'
    } else if d == 4 {
        '4'
    } else if d == 5 {
        '5'
    } else if d == 6 {
        '6'
    } else if d == 7 {
        '7'
    } else if d == 8 {
        '8'
    } else {
        '9'
    }
}

/// Writes `n` in decimal.
pub fn to_decimal(n: usize) -> (v: Vec<char>)
    ensures
        v@ == decimal(n as nat),
    decreases n,
{
    if n < 10 {
        let mut v: Vec<char> = Vec::new();
        v.push(digit_char(n));
        v
    } else {
        let mut v = to_decimal(n / 10);
        v.push(digit_char(n % 10));
        v
    }
}

/// The index of the first `c` in `s`: `s.len()` where there is none.
pub open spec fn first_index(s: Seq<char>, c: char) -> int
    decreases s.len(),
{
    if s.len() == 0 || s[0] == c {
        0
    } else {
        1 + first_index(s.skip(1), c)
    }
}

/// `first_index` is the least index at which `c` stands.
pub proof fn lemma_first_index(s: Seq<char>, c: char)
    ensures
        0 <= first_index(s, c) <= s.len(),
        first_index(s, c) < s.len() ==> s[first_index(s, c)] == c,
        forall|i: int| 0 <= i < first_index(s, c) ==> s[i] != c,
    decreases s.len(),
{
    if s.len() > 0 && s[0] != c {
        lemma_first_index(s.skip(1), c);
        assert forall|i: int| 0 <= i < first_index(s, c) implies s[i] != c by {
            if i > 0 {
                assert(s[i] == s.skip(1)[i - 1]);
            }
        }
    }
}

/// Finds the first `c` in `s` at or after index `from`.
pub fn find_from(s: &Vec<char>, from: usize, c: char) -> (i: usize)
    requires
        from <= s.len(),
    ensures
        i == from + first_index(s@.skip(from as int), c),
        from <= i <= s.len(),
{
    let mut i: usize = from;
    while i < s.len() && s[i] != c
        invariant
            from <= i <= s.len(),
            from + first_index(s@.skip(from as int), c) == i + first_index(s@.skip(i as int), c),
        decreases s.len() - i,
    {
        assert(s@.skip(i as int).skip(1) =~= s@.skip(i + 1));
        i += 1;
    }
    i
}

} // verus!
