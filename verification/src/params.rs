//! Text entry of envelope times: a number followed by an optional unit,
//! `ms` (or `mS`) for milliseconds and `s` (or `S`) for seconds, with
//! surrounding whitespace ignored.

use vstd::prelude::*;
use vstd::string::*;

verus! {

/// Unit of an envelope time typed by the user.
#[derive(Debug, Clone, Copy, PartialEq, Eq, Structural)]
pub enum TimeUnit {
    Milliseconds,
    Seconds,
}

/// Whether `c` is whitespace in the sense of `char::is_whitespace`, the
/// Unicode `White_Space` property.
pub open spec fn is_white_space(c: char) -> bool {
    let x = c as u32;
    ||| 0x9 <= x <= 0xD
    ||| x == 0x20
    ||| x == 0x85
    ||| x == 0xA0
    ||| x == 0x1680
    ||| 0x2000 <= x <= 0x200A
    ||| x == 0x2028
    ||| x == 0x2029
    ||| x == 0x202F
    ||| x == 0x205F
    ||| x == 0x3000
}

/// `s` without its leading whitespace.
pub open spec fn trim_start(s: Seq<char>) -> Seq<char>
    decreases s.len(),
{
    if s.len() > 0 && is_white_space(s[0]) {
        trim_start(s.drop_first())
    } else {
        s
    }
}

/// `s` without its trailing whitespace.
pub open spec fn trim_end(s: Seq<char>) -> Seq<char>
    decreases s.len(),
{
    if s.len() > 0 && is_white_space(s.last()) {
        trim_end(s.drop_last())
    } else {
        s
    }
}

/// `s` without its leading and trailing whitespace, as `str::trim` gives it.
pub open spec fn trimmed(s: Seq<char>) -> Seq<char> {
    trim_end(trim_start(s))
}

/// Trimming the front removes a run of whitespace and nothing else: the result
/// is a suffix of the text, everything before it is whitespace, and it does
/// not itself start with whitespace.
pub proof fn lemma_trim_start_cuts_leading_whitespace(s: Seq<char>)
    ensures
        trim_start(s).len() <= s.len(),
        trim_start(s) == s.subrange(s.len() - trim_start(s).len(), s.len() as int),
        forall|i: int| 0 <= i < s.len() - trim_start(s).len() ==> is_white_space(#[trigger] s[i]),
        trim_start(s).len() > 0 ==> !is_white_space(trim_start(s)[0]),
    decreases s.len(),
{
    if s.len() > 0 && is_white_space(s[0]) {
        let r = s.drop_first();
        lemma_trim_start_cuts_leading_whitespace(r);
        assert(r.subrange(r.len() - trim_start(r).len(), r.len() as int) =~= s.subrange(
            s.len() - trim_start(s).len(),
            s.len() as int,
        ));
        assert forall|i: int| 0 <= i < s.len() - trim_start(s).len() implies is_white_space(#[trigger] s[i]) by {
            if i > 0 {
                assert(s[i] == r[i - 1]);
            }
        }
    } else {
        assert(s.subrange(0, s.len() as int) =~= s);
    }
}

/// Trimming the back removes a run of whitespace and nothing else: the result
/// is a prefix of the text, everything after it is whitespace, and it does not
/// itself end with whitespace.
pub proof fn lemma_trim_end_cuts_trailing_whitespace(s: Seq<char>)
    ensures
        trim_end(s).len() <= s.len(),
        trim_end(s) == s.subrange(0, trim_end(s).len() as int),
        forall|i: int| trim_end(s).len() <= i < s.len() ==> is_white_space(#[trigger] s[i]),
        trim_end(s).len() > 0 ==> !is_white_space(trim_end(s).last()),
    decreases s.len(),
{
    if s.len() > 0 && is_white_space(s.last()) {
        let r = s.drop_last();
        lemma_trim_end_cuts_trailing_whitespace(r);
        assert(r.subrange(0, trim_end(r).len() as int) =~= s.subrange(0, trim_end(s).len() as int));
        assert forall|i: int| trim_end(s).len() <= i < s.len() implies is_white_space(#[trigger] s[i]) by {
            if i < s.len() - 1 {
                assert(s[i] == r[i]);
            }
        }
    } else {
        assert(s.subrange(0, s.len() as int) =~= s);
    }
}

/// Trimming removes the whitespace at both ends and nothing else: the result
/// is the piece of the text from some position on, everything outside it is
/// whitespace, and it neither starts nor ends with whitespace.
pub proof fn lemma_trimmed_cuts_surrounding_whitespace(s: Seq<char>)
    ensures
        ({
            let t = trimmed(s);
            let a = s.len() - trim_start(s).len();
            &&& 0 <= a && a + t.len() <= s.len()
            &&& t == s.subrange(a, a + t.len())
            &&& forall|i: int| 0 <= i < s.len() && !(a <= i < a + t.len()) ==> is_white_space(#[trigger] s[i])
            &&& t.len() > 0 ==> !is_white_space(t[0]) && !is_white_space(t.last())
        }),
{
    let u = trim_start(s);
    lemma_trim_start_cuts_leading_whitespace(s);
    lemma_trim_end_cuts_trailing_whitespace(u);
    let t = trim_end(u);
    let a = s.len() - u.len();
    assert(t == s.subrange(a, a + t.len())) by {
        assert(u.subrange(0, t.len() as int) =~= s.subrange(a, a + t.len()));
    }
    assert forall|i: int| 0 <= i < s.len() && !(a <= i < a + t.len()) implies is_white_space(#[trigger] s[i]) by {
        if i >= a + t.len() {
            assert(s[i] == u[i - a]);
        }
    }
    if t.len() > 0 {
        assert(t[0] == u[0]);
    }
}

fn is_white_space_char(c: char) -> (b: bool)
    ensures
        b == is_white_space(c),
{
    let x = c as u32;
    (0x9 <= x && x <= 0xD) || x == 0x20 || x == 0x85 || x == 0xA0 || x == 0x1680 || (0x2000 <= x
        && x <= 0x200A) || x == 0x2028 || x == 0x2029 || x == 0x202F || x == 0x205F || x == 0x3000
}

/// The text without its leading and trailing whitespace.
pub fn trim(s: &str) -> (t: &str)
    ensures
        t@ == trimmed(s@),
{
    let n = s.unicode_len();
    let mut i: usize = 0;
    assert(s@.subrange(0, n as int) =~= s@);
    while i < n && is_white_space_char(s.get_char(i))
        invariant
            n == s@.len(),
            i <= n,
            trim_start(s@) == trim_start(s@.subrange(i as int, n as int)),
        decreases n - i,
    {
        proof {
            assert(s@.subrange(i as int, n as int).drop_first() =~= s@.subrange(i + 1, n as int));
        }
        i = i + 1;
    }
    proof {
        if i == n {
            assert(s@.subrange(i as int, n as int).len() == 0);
        }
    }
    let mut j: usize = n;
    while j > i && is_white_space_char(s.get_char(j - 1))
        invariant
            n == s@.len(),
            i <= j <= n,
            trim_end(s@.subrange(i as int, n as int)) == trim_end(s@.subrange(i as int, j as int)),
        decreases j - i,
    {
        proof {
            assert(s@.subrange(i as int, j as int).drop_last() =~= s@.subrange(i as int, j - 1));
        }
        j = j - 1;
    }
    s.substring_char(i, j)
}

pub open spec fn ends_with_ms(t: Seq<char>) -> bool {
    &&& t.len() >= 2
    &&& t[t.len() - 2] == 'm'
    &&& (t[t.len() - 1] == 's' || t[t.len() - 1] == 'S')
}

pub open spec fn ends_with_s(t: Seq<char>) -> bool {
    &&& t.len() >= 1
    &&& (t[t.len() - 1] == 's' || t[t.len() - 1] == 'S')
}

/// An already trimmed time text cut into the text before its unit and the
/// unit: a trailing `ms`/`mS`, else a trailing `s`/`S`; without a unit the
/// value counts as seconds.
pub open spec fn spec_cut_time_unit(t: Seq<char>) -> (Seq<char>, TimeUnit) {
    if ends_with_ms(t) {
        (t.subrange(0, t.len() - 2), TimeUnit::Milliseconds)
    } else if ends_with_s(t) {
        (t.subrange(0, t.len() - 1), TimeUnit::Seconds)
    } else {
        (t, TimeUnit::Seconds)
    }
}

/// Cutting the unit: text ending in `m` and then `s` or `S` loses those two
/// characters as milliseconds; text ending in `s` or `S` not after an `m`
/// loses that one character as seconds; other text is kept whole as seconds.
pub proof fn lemma_cut_time_unit_cases(u: Seq<char>, c: char)
    ensures
        (c == 's' || c == 'S') ==> spec_cut_time_unit(u.push('m').push(c)) == (u, TimeUnit::Milliseconds),
        (c == 's' || c == 'S') && !(u.len() > 0 && u.last() == 'm') ==> spec_cut_time_unit(u.push(c)) == (
            u,
            TimeUnit::Seconds,
        ),
        !(c == 's' || c == 'S') ==> spec_cut_time_unit(u.push(c)) == (u.push(c), TimeUnit::Seconds),
        spec_cut_time_unit(Seq::empty()) == (Seq::<char>::empty(), TimeUnit::Seconds),
{
    let t = u.push('m').push(c);
    assert(t.subrange(0, t.len() - 2) =~= u);
    assert(u.push(c).subrange(0, u.len() as int) =~= u);
}

/// The number text and unit of an envelope time typed as `s`: the text is
/// trimmed, its unit cut off, and what remains trimmed again.
pub open spec fn spec_split_time_text(s: Seq<char>) -> (Seq<char>, TimeUnit) {
    let (number, unit) = spec_cut_time_unit(trimmed(s));
    (trimmed(number), unit)
}

/// Cuts the unit off an already trimmed time text.
pub fn cut_time_unit<'a>(t: &'a str) -> (r: (&'a str, TimeUnit))
    ensures
        (r.0@, r.1) == spec_cut_time_unit(t@),
{
    let n = t.unicode_len();
    if n >= 2 && t.get_char(n - 2) == 'm' && (t.get_char(n - 1) == 's' || t.get_char(n - 1) == 'S') {
        (t.substring_char(0, n - 2), TimeUnit::Milliseconds)
    } else if n >= 1 && (t.get_char(n - 1) == 's' || t.get_char(n - 1) == 'S') {
        (t.substring_char(0, n - 1), TimeUnit::Seconds)
    } else {
        (t, TimeUnit::Seconds)
    }
}

/// Splits an envelope time typed by the user into the text of its number and
/// its unit.
pub fn split_time_text<'a>(s: &'a str) -> (r: (&'a str, TimeUnit))
    ensures
        (r.0@, r.1) == spec_split_time_text(s@),
{
    let (number, unit) = cut_time_unit(trim(s));
    (trim(number), unit)
}

} // verus!
