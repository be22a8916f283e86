use vstd::prelude::*;

verus! {

broadcast use vstd::string::group_string_axioms;

// ---------------------------------------------------------------------------
// Characters
// ---------------------------------------------------------------------------

/// Unicode `White_Space`, the set that `char::is_whitespace` accepts.
pub open spec fn is_ws(c: char) -> bool {
    ||| c == '\t'
    ||| c == '\n'
    ||| c == '\u{0B}'
    ||| c == '\u{0C}'
    ||| c == '\r'
    ||| c == ' '
    ||| c == '\u{85}'
    ||| c == '\u{A0}'
    ||| c == '\u{1680}'
    ||| ('\u{2000}' <= c && c <= '\u{200A}')
    ||| c == '\u{2028}'
    ||| c == '\u{2029}'
    ||| c == '\u{202F}'
    ||| c == '\u{205F}'
    ||| c == '\u{3000}'
}

pub fn is_ws_char(c: char) -> (b: bool)
    ensures
        b == is_ws(c),
{
    c == '\t' || c == '\n' || c == '\u{0B}' || c == '\u{0C}' || c == '\r' || c == ' ' || c
        == '\u{85}' || c == '\u{A0}' || c == '\u{1680}' || ('\u{2000}' <= c && c <= '\u{200A}')
        || c == '\u{2028}' || c == '\u{2029}' || c == '\u{202F}' || c == '\u{205F}' || c
        == '\u{3000}'
}

pub open spec fn is_digit(c: char) -> bool {
    '0' <= c && c <= '9'
}

pub open spec fn digit_val(c: char) -> nat {
    (c as int - '0' as int) as nat
}

// ---------------------------------------------------------------------------
// Conversions between strings and character vectors
// ---------------------------------------------------------------------------

/// The characters of a string, in order.
pub fn chars_of(s: &str) -> (v: Vec<char>)
    ensures
        v@ == s@,
{
    let mut v: Vec<char> = Vec::new();
    for c in it: s.chars()
        invariant
            v@ == it.seq().take(it.index() as int),
    {
        v.push(c);
    }
    v
}

/// Collects characters into a `String` (std's `FromIterator<char>`): the
/// string holds exactly the given characters, in order.
#[verifier::external_body]
pub(crate) fn string_of(v: &[char]) -> (s: String)
    ensures
        s@ == v@,
{
    v.iter().collect()
}

/// A copy of `v[lo..hi]`.
pub fn slice_of(v: &Vec<char>, lo: usize, hi: usize) -> (r: Vec<char>)
    requires
        lo <= hi <= v.len(),
    ensures
        r@ == v@.subrange(lo as int, hi as int),
{
    let mut r: Vec<char> = Vec::new();
    let mut i = lo;
    while i < hi
        invariant
            lo <= i <= hi <= v.len(),
            r@ == v@.subrange(lo as int, i as int),
        decreases hi - i,
    {
        r.push(v[i]);
        i = i + 1;
    }
    r
}

// ---------------------------------------------------------------------------
// Trimming
// ---------------------------------------------------------------------------

pub open spec fn trim_start(s: Seq<char>) -> Seq<char>
    decreases s.len(),
{
    if s.len() > 0 && is_ws(s[0]) {
        trim_start(s.drop_first())
    } else {
        s
    }
}

pub open spec fn trim_end(s: Seq<char>) -> Seq<char>
    decreases s.len(),
{
    if s.len() > 0 && is_ws(s.last()) {
        trim_end(s.drop_last())
    } else {
        s
    }
}

/// `str::trim`: white space removed from both ends.
pub open spec fn trim(s: Seq<char>) -> Seq<char> {
    trim_end(trim_start(s))
}

proof fn lemma_trim_start_skip(s: Seq<char>, i: int)
    requires
        0 <= i <= s.len(),
        forall|j: int| 0 <= j < i ==> is_ws(#[trigger] s[j]),
    ensures
        trim_start(s) == trim_start(s.skip(i)),
    decreases i,
{
    if i > 0 {
        assert(s.skip(1) =~= s.drop_first());
        lemma_trim_start_skip(s.drop_first(), i - 1);
        assert(s.drop_first().skip(i - 1) =~= s.skip(i));
    } else {
        assert(s.skip(0) =~= s);
    }
}

proof fn lemma_trim_end_take(s: Seq<char>, i: int)
    requires
        0 <= i <= s.len(),
        forall|j: int| i <= j < s.len() ==> is_ws(#[trigger] s[j]),
    ensures
        trim_end(s) == trim_end(s.take(i)),
    decreases s.len() - i,
{
    if i < s.len() {
        lemma_trim_end_take(s.drop_last(), i);
        assert(s.drop_last().take(i) =~= s.take(i));
    } else {
        assert(s.take(i) =~= s);
    }
}

/// `str::trim` on a character vector.
pub fn trim_chars(v: &Vec<char>) -> (r: Vec<char>)
    ensures
        r@ == trim(v@),
{
    let mut lo: usize = 0;
    while lo < v.len() && is_ws_char(v[lo])
        invariant
            lo <= v.len(),
            forall|j: int| 0 <= j < lo ==> is_ws(#[trigger] v@[j]),
        decreases v.len() - lo,
    {
        lo = lo + 1;
    }
    proof {
        lemma_trim_start_skip(v@, lo as int);
        assert(v@.skip(lo as int) =~= v@.subrange(lo as int, v.len() as int));
    }
    let mut hi: usize = v.len();
    while hi > lo && is_ws_char(v[hi - 1])
        invariant
            lo <= hi <= v.len(),
            forall|j: int| hi <= j < v.len() ==> is_ws(#[trigger] v@[j]),
        decreases hi,
    {
        hi = hi - 1;
    }
    let ghost t = v@.subrange(lo as int, v.len() as int);
    proof {
        assert(trim_start(v@) == t);
        if lo < v.len() {
            assert(!is_ws(t[0]));
        }
        lemma_trim_end_take(t, hi - lo);
        assert(t.take(hi - lo) =~= v@.subrange(lo as int, hi as int));
    }
    slice_of(v, lo, hi)
}


// ---------------------------------------------------------------------------
// Lines
// ---------------------------------------------------------------------------

/// The first index at or after `i` that holds `c`.
pub open spec fn find_char_from(s: Seq<char>, c: char, i: int) -> Option<int>
    decreases s.len() - i,
{
    if !(0 <= i < s.len()) {
        None
    } else if s[i] == c {
        Some(i)
    } else {
        find_char_from(s, c, i + 1)
    }
}

pub proof fn lemma_find_char_from_range(s: Seq<char>, c: char, i: int)
    ensures
        find_char_from(s, c, i) matches Some(k) ==> i <= k < s.len() && s[k] == c,
    decreases s.len() - i,
{
    if 0 <= i < s.len() && s[i] != c {
        lemma_find_char_from_range(s, c, i + 1);
    }
}

pub proof fn lemma_find_char_skip(s: Seq<char>, c: char, i: int, k: int)
    requires
        0 <= i <= k <= s.len(),
        forall|j: int| i <= j < k ==> #[trigger] s[j] != c,
    ensures
        find_char_from(s, c, i) == find_char_from(s, c, k),
    decreases k - i,
{
    if i < k {
        lemma_find_char_skip(s, c, i + 1, k);
    }
}

/// A line with the carriage return of a `\r\n` ending removed.
pub open spec fn strip_cr(l: Seq<char>) -> Seq<char> {
    if l.len() > 0 && l.last() == '\r' {
        l.drop_last()
    } else {
        l
    }
}

/// `str::lines`: the text cut at each `\n` (a `\r` just before it dropped),
/// with no empty line after a final `\n`.
pub open spec fn lines(s: Seq<char>) -> Seq<Seq<char>>
    decreases s.len(),
{
    if s.len() == 0 {
        seq![]
    } else {
        match find_char_from(s, '\n', 0) {
            None => seq![s],
            Some(i) => {
                proof {
                    lemma_find_char_from_range(s, '\n', 0);
                }
                seq![strip_cr(s.take(i))] + lines(s.skip(i + 1))
            },
        }
    }
}

/// The views of a sequence of character vectors.
pub open spec fn views(vs: Seq<Vec<char>>) -> Seq<Seq<char>> {
    vs.map_values(|x: Vec<char>| x@)
}

proof fn lemma_views_push(vs: Seq<Vec<char>>, x: Vec<char>)
    ensures
        views(vs.push(x)) == views(vs).push(x@),
{
    assert(views(vs.push(x)) =~= views(vs).push(x@));
}

/// `str::lines` on a character vector.
pub fn split_lines(v: &Vec<char>) -> (r: Vec<Vec<char>>)
    ensures
        views(r@) == lines(v@),
{
    let mut r: Vec<Vec<char>> = Vec::new();
    let mut start: usize = 0;
    let mut i: usize = 0;
    proof {
        assert(v@.skip(0) =~= v@);
        assert(views(r@) =~= seq![]);
    }
    while i < v.len()
        invariant
            start <= i <= v.len(),
            forall|j: int| start <= j < i ==> #[trigger] v@[j] != '\n',
            lines(v@) == views(r@) + lines(v@.skip(start as int)),
        decreases v.len() - i,
    {
        if v[i] == '\n' {
            let ghost t = v@.skip(start as int);
            proof {
                lemma_find_char_skip(t, '\n', 0, i - start);
                assert(t.take(i - start) =~= v@.subrange(start as int, i as int));
                assert(t.skip(i - start + 1) =~= v@.skip(i + 1));
            }
            let mut line = slice_of(v, start, i);
            if line.len() > 0 && line[line.len() - 1] == '\r' {
                line.pop();
            }
            proof {
                lemma_views_push(r@, line);
            }
            r.push(line);
            start = i + 1;
            proof {
                assert(lines(v@) =~= views(r@) + lines(v@.skip(start as int)));
            }
        }
        i = i + 1;
    }
    if start < v.len() {
        let ghost t = v@.skip(start as int);
        proof {
            lemma_find_char_skip(t, '\n', 0, t.len() as int);
            assert(t =~= v@.subrange(start as int, v.len() as int));
        }
        let line = slice_of(v, start, v.len());
        proof {
            lemma_views_push(r@, line);
        }
        r.push(line);
        proof {
            assert(lines(v@) =~= views(r@));
        }
    } else {
        proof {
            assert(lines(v@.skip(start as int)) =~= seq![]);
            assert(lines(v@) =~= views(r@));
        }
    }
    r
}


// ---------------------------------------------------------------------------
// Words
// ---------------------------------------------------------------------------

/// Length of the run of non-white-space characters at the start of `s`.
pub open spec fn token_len(s: Seq<char>) -> nat
    decreases s.len(),
{
    if s.len() == 0 || is_ws(s[0]) {
        0
    } else {
        1 + token_len(s.drop_first())
    }
}

pub proof fn lemma_token_len_le(s: Seq<char>)
    ensures
        token_len(s) <= s.len(),
    decreases s.len(),
{
    if s.len() > 0 && !is_ws(s[0]) {
        lemma_token_len_le(s.drop_first());
    }
}

proof fn lemma_token_len_exact(s: Seq<char>, k: int)
    requires
        0 <= k <= s.len(),
        forall|j: int| 0 <= j < k ==> !is_ws(#[trigger] s[j]),
        k == s.len() || is_ws(s[k]),
    ensures
        token_len(s) == k,
    decreases k,
{
    if k > 0 {
        lemma_token_len_exact(s.drop_first(), k - 1);
    }
}

/// `str::split_whitespace`: the maximal runs of non-white-space characters.
pub open spec fn words(s: Seq<char>) -> Seq<Seq<char>>
    decreases s.len(),
{
    if s.len() == 0 {
        seq![]
    } else if is_ws(s[0]) {
        words(s.drop_first())
    } else {
        proof {
            lemma_token_len_le(s);
        }
        seq![s.take(token_len(s) as int)] + words(s.skip(token_len(s) as int))
    }
}

/// `str::split_whitespace` on a character vector.
pub fn split_words(v: &Vec<char>) -> (r: Vec<Vec<char>>)
    ensures
        views(r@) == words(v@),
{
    let mut r: Vec<Vec<char>> = Vec::new();
    let mut i: usize = 0;
    proof {
        assert(v@.skip(0) =~= v@);
        assert(views(r@) =~= seq![]);
    }
    while i < v.len()
        invariant
            i <= v.len(),
            words(v@) == views(r@) + words(v@.skip(i as int)),
        decreases v.len() - i,
    {
        if is_ws_char(v[i]) {
            proof {
                assert(v@.skip(i as int).drop_first() =~= v@.skip(i + 1));
            }
            i = i + 1;
        } else {
            let start = i;
            while i < v.len() && !is_ws_char(v[i])
                invariant
                    start <= i <= v.len(),
                    forall|j: int| start <= j < i ==> !is_ws(#[trigger] v@[j]),
                decreases v.len() - i,
            {
                i = i + 1;
            }
            let ghost t = v@.skip(start as int);
            proof {
                lemma_token_len_exact(t, i - start);
                assert(t.take(i - start) =~= v@.subrange(start as int, i as int));
                assert(t.skip(i - start) =~= v@.skip(i as int));
            }
            let w = slice_of(v, start, i);
            proof {
                lemma_views_push(r@, w);
            }
            r.push(w);
            proof {
                assert(words(v@) =~= views(r@) + words(v@.skip(i as int)));
            }
        }
    }
    proof {
        assert(words(v@.skip(i as int)) =~= seq![]);
        assert(words(v@) =~= views(r@));
    }
    r
}

// ---------------------------------------------------------------------------
// Integers
// ---------------------------------------------------------------------------

pub open spec fn all_digits(s: Seq<char>) -> bool {
    forall|i: int| 0 <= i < s.len() ==> is_digit(#[trigger] s[i])
}

/// The number written by a string of decimal digits.
pub open spec fn digits_value(s: Seq<char>) -> nat
    decreases s.len(),
{
    if s.len() == 0 {
        0
    } else {
        digits_value(s.drop_last()) * 10 + digit_val(s.last())
    }
}

/// The digits of an unsigned number: what follows an optional leading `+`.
pub open spec fn unsigned_body(s: Seq<char>) -> Seq<char> {
    if s.len() > 0 && s[0] == '+' {
        s.drop_first()
    } else {
        s
    }
}

/// The value of an unsigned decimal number as `str::parse` reads it: an
/// optional `+`, then one or more ASCII digits, and nothing else.
pub open spec fn parse_nat(s: Seq<char>) -> Option<nat> {
    let d = unsigned_body(s);
    if d.len() > 0 && all_digits(d) {
        Some(digits_value(d))
    } else {
        None
    }
}

/// `str::parse::<u64>`.
pub open spec fn parse_u64(s: Seq<char>) -> Option<u64> {
    match parse_nat(s) {
        Some(n) => if n <= u64::MAX {
            Some(n as u64)
        } else {
            None
        },
        None => None,
    }
}

/// `str::parse::<u32>`.
pub open spec fn parse_u32(s: Seq<char>) -> Option<u32> {
    match parse_nat(s) {
        Some(n) => if n <= u32::MAX {
            Some(n as u32)
        } else {
            None
        },
        None => None,
    }
}

/// `str::parse::<i64>`: an optional `+` or `-`, then one or more ASCII
/// digits, within the range of `i64`.
pub open spec fn parse_i64(s: Seq<char>) -> Option<i64> {
    if s.len() > 0 && s[0] == '-' {
        let d = s.drop_first();
        if d.len() > 0 && all_digits(d) && digits_value(d) <= 0x8000_0000_0000_0000 {
            Some((0 - digits_value(d)) as i64)
        } else {
            None
        }
    } else {
        match parse_nat(s) {
            Some(n) => if n <= i64::MAX {
                Some(n as i64)
            } else {
                None
            },
            None => None,
        }
    }
}

proof fn lemma_digits_value_take(s: Seq<char>, k: int)
    requires
        0 <= k <= s.len(),
    ensures
        digits_value(s.take(k)) <= digits_value(s),
    decreases s.len() - k,
{
    if k < s.len() {
        lemma_digits_value_take(s.drop_last(), k);
        assert(s.drop_last().take(k) =~= s.take(k));
    } else {
        assert(s.take(k) =~= s);
    }
}

proof fn lemma_digits_value_step(s: Seq<char>, k: int)
    requires
        0 <= k < s.len(),
    ensures
        digits_value(s.take(k + 1)) == digits_value(s.take(k)) * 10 + digit_val(s[k]),
{
    assert(s.take(k + 1).drop_last() =~= s.take(k));
}

/// The value of a string of digits, or `None` when it exceeds `bound`.
fn digits_value_bounded(d: &Vec<char>, start: usize, bound: u64) -> (r: Option<u64>)
    requires
        start <= d.len(),
        all_digits(d@.skip(start as int)),
    ensures
        match r {
            Some(n) => n == digits_value(d@.skip(start as int)) && n <= bound,
            None => digits_value(d@.skip(start as int)) > bound,
        },
{
    let ghost t = d@.skip(start as int);
    let mut acc: u64 = 0;
    let mut i: usize = start;
    proof {
        assert(t.take(0) =~= seq![]);
    }
    while i < d.len()
        invariant
            start <= i <= d.len(),
            t == d@.skip(start as int),
            all_digits(t),
            acc == digits_value(t.take(i - start)),
            acc <= bound,
        decreases d.len() - i,
    {
        let c = d[i];
        assert(is_digit(t[i - start]));
        let dv: u64 = ((c as u32) - ('0' as u32)) as u64;
        proof {
            lemma_digits_value_step(t, i - start);
        }
        if dv > bound || acc > (bound - dv) / 10 {
            proof {
                lemma_digits_value_take(t, i - start + 1);
                if dv <= bound {
                    assert(acc * 10 + dv > bound) by (nonlinear_arith)
                        requires
                            acc > (bound - dv) / 10,
                            dv <= bound,
                    ;
                }
            }
            return None;
        }
        assert(acc * 10 + dv <= bound) by (nonlinear_arith)
            requires
                acc <= (bound - dv) / 10,
                dv <= bound,
        ;
        acc = acc * 10 + dv;
        i = i + 1;
    }
    proof {
        assert(t.take(i - start) =~= t);
    }
    Some(acc)
}


fn all_digits_from(d: &Vec<char>, start: usize) -> (b: bool)
    requires
        start <= d.len(),
    ensures
        b == all_digits(d@.skip(start as int)),
{
    let mut i = start;
    while i < d.len()
        invariant
            start <= i <= d.len(),
            forall|j: int| start <= j < i ==> is_digit(#[trigger] d@[j]),
        decreases d.len() - i,
    {
        if !('0' <= d[i] && d[i] <= '9') {
            assert(!is_digit(d@.skip(start as int)[i - start]));
            return false;
        }
        i = i + 1;
    }
    assert forall|j: int| 0 <= j < d@.skip(start as int).len() implies is_digit(
        #[trigger] d@.skip(start as int)[j],
    ) by {
        assert(d@.skip(start as int)[j] == d@[start + j]);
    }
    true
}

/// Reads an unsigned number no larger than `bound` (see `parse_nat`).
fn parse_unsigned(d: &Vec<char>, bound: u64) -> (r: Option<u64>)
    ensures
        match r {
            Some(n) => parse_nat(d@) == Some(n as nat) && n <= bound,
            None => match parse_nat(d@) {
                Some(n) => n > bound,
                None => true,
            },
        },
{
    let start: usize = if d.len() > 0 && d[0] == '+' {
        1
    } else {
        0
    };
    proof {
        assert(unsigned_body(d@) =~= d@.skip(start as int));
    }
    if start >= d.len() || !all_digits_from(d, start) {
        return None;
    }
    digits_value_bounded(d, start, bound)
}

/// `str::parse::<u64>` on a character vector.
pub fn parse_u64_chars(d: &Vec<char>) -> (r: Option<u64>)
    ensures
        r == parse_u64(d@),
{
    parse_unsigned(d, u64::MAX)
}

/// `str::parse::<u32>` on a character vector.
pub fn parse_u32_chars(d: &Vec<char>) -> (r: Option<u32>)
    ensures
        r == parse_u32(d@),
{
    match parse_unsigned(d, 0xffff_ffff) {
        Some(n) => Some(n as u32),
        None => None,
    }
}

/// `str::parse::<i64>` on a character vector.
pub fn parse_i64_chars(d: &Vec<char>) -> (r: Option<i64>)
    ensures
        r == parse_i64(d@),
{
    if d.len() > 0 && d[0] == '-' {
        proof {
            assert(d@.drop_first() =~= d@.skip(1));
        }
        if d.len() == 1 || !all_digits_from(d, 1) {
            return None;
        }
        match digits_value_bounded(d, 1, 0x8000_0000_0000_0000) {
            Some(n) => {
                if n == 0x8000_0000_0000_0000 {
                    Some(i64::MIN)
                } else {
                    Some(0 - (n as i64))
                }
            },
            None => None,
        }
    } else {
        match parse_unsigned(d, 0x7fff_ffff_ffff_ffff) {
            Some(n) => Some(n as i64),
            None => None,
        }
    }
}

// ---------------------------------------------------------------------------
// Searching
// ---------------------------------------------------------------------------

/// `pat` occurs in `s` at index `i`.
pub open spec fn matches_at(s: Seq<char>, pat: Seq<char>, i: int) -> bool {
    0 <= i && i + pat.len() <= s.len() && s.subrange(i, i + pat.len()) == pat
}

/// The first index at or after `i` where `pat` occurs in `s`.
pub open spec fn find_from(s: Seq<char>, pat: Seq<char>, i: int) -> Option<int>
    decreases s.len() + 1 - i,
{
    if !(0 <= i && i + pat.len() <= s.len()) {
        None
    } else if matches_at(s, pat, i) {
        Some(i)
    } else {
        find_from(s, pat, i + 1)
    }
}

/// `str::find` with a string pattern, counted in characters.
pub open spec fn find(s: Seq<char>, pat: Seq<char>) -> Option<int> {
    find_from(s, pat, 0)
}

/// `str::contains` with a string pattern.
pub open spec fn contains(s: Seq<char>, pat: Seq<char>) -> bool {
    find(s, pat) is Some
}

/// `str::starts_with` with a string pattern.
pub open spec fn starts_with(s: Seq<char>, pat: Seq<char>) -> bool {
    pat.len() <= s.len() && s.take(pat.len() as int) == pat
}

pub proof fn lemma_find_from_range(s: Seq<char>, pat: Seq<char>, i: int)
    ensures
        find_from(s, pat, i) matches Some(k) ==> i <= k && matches_at(s, pat, k),
    decreases s.len() + 1 - i,
{
    if 0 <= i && i + pat.len() <= s.len() && !matches_at(s, pat, i) {
        lemma_find_from_range(s, pat, i + 1);
    }
}

fn matches_at_exec(s: &Vec<char>, pat: &Vec<char>, i: usize) -> (b: bool)
    requires
        i + pat.len() <= s.len(),
    ensures
        b == matches_at(s@, pat@, i as int),
{
    let mut j: usize = 0;
    while j < pat.len()
        invariant
            j <= pat.len(),
            i + pat.len() <= s.len(),
            forall|k: int| 0 <= k < j ==> s@[i + k] == pat@[k],
        decreases pat.len() - j,
    {
        if s[i + j] != pat[j] {
            assert(s@.subrange(i as int, i + pat.len())[j as int] != pat@[j as int]);
            return false;
        }
        j = j + 1;
    }
    assert(s@.subrange(i as int, i + pat.len()) =~= pat@);
    true
}

/// `str::find` with a string pattern, on character vectors.
pub fn find_chars(s: &Vec<char>, pat: &Vec<char>) -> (r: Option<usize>)
    ensures
        match r {
            Some(k) => find(s@, pat@) == Some(k as int),
            None => find(s@, pat@) is None,
        },
{
    if pat.len() > s.len() {
        return None;
    }
    let last = s.len() - pat.len();
    let mut i: usize = 0;
    loop
        invariant
            last + pat.len() == s.len(),
            i <= last,
            find_from(s@, pat@, 0) == find_from(s@, pat@, i as int),
        decreases last - i,
    {
        if matches_at_exec(s, pat, i) {
            return Some(i);
        }
        if i == last {
            assert(find_from(s@, pat@, i + 1) is None);
            return None;
        }
        i = i + 1;
    }
}

/// `str::starts_with` with a string pattern, on character vectors.
pub fn starts_with_chars(s: &Vec<char>, pat: &Vec<char>) -> (b: bool)
    ensures
        b == starts_with(s@, pat@),
{
    if pat.len() > s.len() {
        return false;
    }
    let b = matches_at_exec(s, pat, 0);
    assert(s@.subrange(0, pat.len() as int) =~= s@.take(pat.len() as int));
    b
}

/// `str::contains` with a string pattern, on character vectors.
pub fn contains_chars(s: &Vec<char>, pat: &str) -> (b: bool)
    ensures
        b == contains(s@, pat@),
{
    let p = chars_of(pat);
    find_chars(s, &p).is_some()
}


// ---------------------------------------------------------------------------
// Splitting at a character
// ---------------------------------------------------------------------------

/// `str::split` at a character: the pieces between its occurrences.
pub open spec fn split_char(s: Seq<char>, c: char) -> Seq<Seq<char>>
    decreases s.len(),
{
    match find_char_from(s, c, 0) {
        None => seq![s],
        Some(i) => {
            proof {
                lemma_find_char_from_range(s, c, 0);
            }
            seq![s.take(i)] + split_char(s.skip(i + 1), c)
        },
    }
}

/// `str::splitn` at a character: at most `n` pieces, the last one holding
/// the rest of the text (`n` is at least one).
pub open spec fn splitn_char(s: Seq<char>, c: char, n: nat) -> Seq<Seq<char>>
    decreases s.len(),
{
    if n <= 1 {
        seq![s]
    } else {
        match find_char_from(s, c, 0) {
            None => seq![s],
            Some(i) => {
                proof {
                    lemma_find_char_from_range(s, c, 0);
                }
                seq![s.take(i)] + splitn_char(s.skip(i + 1), c, (n - 1) as nat)
            },
        }
    }
}

/// The text before the first occurrence of `c` (all of it when there is
/// none): what `s.split(c).next()` gives.
pub open spec fn before_char(s: Seq<char>, c: char) -> Seq<char> {
    match find_char_from(s, c, 0) {
        None => s,
        Some(i) => s.take(i),
    }
}

pub proof fn lemma_split_char_first(s: Seq<char>, c: char)
    ensures
        split_char(s, c).len() >= 1,
        split_char(s, c)[0] == before_char(s, c),
{
}

fn find_char_exec(v: &Vec<char>, c: char, from: usize) -> (r: Option<usize>)
    requires
        from <= v.len(),
    ensures
        match r {
            Some(k) => find_char_from(v@, c, from as int) == Some(k as int),
            None => find_char_from(v@, c, from as int) is None,
        },
{
    let mut i = from;
    while i < v.len()
        invariant
            from <= i <= v.len(),
            forall|j: int| from <= j < i ==> #[trigger] v@[j] != c,
        decreases v.len() - i,
    {
        if v[i] == c {
            proof {
                lemma_find_char_skip(v@, c, from as int, i as int);
            }
            return Some(i);
        }
        i = i + 1;
    }
    proof {
        lemma_find_char_skip(v@, c, from as int, i as int);
    }
    None
}

proof fn lemma_find_char_shift(s: Seq<char>, c: char, start: int, i: int)
    requires
        0 <= start <= i <= s.len(),
    ensures
        find_char_from(s.skip(start), c, i - start) == (match find_char_from(s, c, i) {
            Some(k) => Some(k - start),
            None => None::<int>,
        }),
    decreases s.len() - i,
{
    if i < s.len() && s[i] != c {
        lemma_find_char_shift(s, c, start, i + 1);
    }
}

/// `str::splitn` at a character, on character vectors.
pub fn splitn_chars(v: &Vec<char>, c: char, n: usize) -> (r: Vec<Vec<char>>)
    requires
        n >= 1,
    ensures
        views(r@) == splitn_char(v@, c, n as nat),
{
    let mut r: Vec<Vec<char>> = Vec::new();
    let mut start: usize = 0;
    let mut left: usize = n;
    proof {
        assert(v@.skip(0) =~= v@);
        assert(views(r@) =~= seq![]);
    }
    loop
        invariant
            start <= v.len(),
            1 <= left <= n,
            splitn_char(v@, c, n as nat) == views(r@) + splitn_char(
                v@.skip(start as int),
                c,
                left as nat,
            ),
        decreases v.len() - start, left,
    {
        let ghost t = v@.skip(start as int);
        let found = if left <= 1 {
            None
        } else {
            find_char_exec(v, c, start)
        };
        proof {
            lemma_find_char_shift(v@, c, start as int, start as int);
        }
        match found {
            None => {
                let piece = slice_of(v, start, v.len());
                proof {
                    assert(t =~= v@.subrange(start as int, v.len() as int));
                    lemma_views_push(r@, piece);
                }
                r.push(piece);
                proof {
                    assert(splitn_char(v@, c, n as nat) =~= views(r@));
                }
                return r;
            },
            Some(k) => {
                proof {
                    lemma_find_char_from_range(v@, c, start as int);
                    assert(t.take(k - start) =~= v@.subrange(start as int, k as int));
                    assert(t.skip(k - start + 1) =~= v@.skip(k + 1));
                }
                let piece = slice_of(v, start, k);
                proof {
                    lemma_views_push(r@, piece);
                }
                r.push(piece);
                start = k + 1;
                left = left - 1;
                proof {
                    assert(splitn_char(v@, c, n as nat) =~= views(r@) + splitn_char(
                        v@.skip(start as int),
                        c,
                        left as nat,
                    ));
                }
            },
        }
    }
}

/// `str::split` at a character, on character vectors.
pub fn split_chars(v: &Vec<char>, c: char) -> (r: Vec<Vec<char>>)
    ensures
        views(r@) == split_char(v@, c),
{
    let mut r: Vec<Vec<char>> = Vec::new();
    let mut start: usize = 0;
    proof {
        assert(v@.skip(0) =~= v@);
        assert(views(r@) =~= seq![]);
    }
    loop
        invariant
            start <= v.len(),
            split_char(v@, c) == views(r@) + split_char(v@.skip(start as int), c),
        decreases v.len() - start,
    {
        let ghost t = v@.skip(start as int);
        let found = find_char_exec(v, c, start);
        proof {
            lemma_find_char_shift(v@, c, start as int, start as int);
        }
        match found {
            None => {
                let piece = slice_of(v, start, v.len());
                proof {
                    assert(t =~= v@.subrange(start as int, v.len() as int));
                    lemma_views_push(r@, piece);
                }
                r.push(piece);
                proof {
                    assert(split_char(v@, c) =~= views(r@));
                }
                return r;
            },
            Some(k) => {
                proof {
                    lemma_find_char_from_range(v@, c, start as int);
                    assert(t.take(k - start) =~= v@.subrange(start as int, k as int));
                    assert(t.skip(k - start + 1) =~= v@.skip(k + 1));
                }
                let piece = slice_of(v, start, k);
                proof {
                    lemma_views_push(r@, piece);
                }
                r.push(piece);
                start = k + 1;
                proof {
                    assert(split_char(v@, c) =~= views(r@) + split_char(v@.skip(start as int), c));
                }
            },
        }
    }
}

/// `s.split(c).next()` on a character vector.
pub fn before_char_chars(v: &Vec<char>, c: char) -> (r: Vec<char>)
    ensures
        r@ == before_char(v@, c),
{
    match find_char_exec(v, c, 0) {
        None => {
            assert(v@.subrange(0, v.len() as int) =~= v@);
            slice_of(v, 0, v.len())
        },
        Some(k) => {
            proof {
                lemma_find_char_from_range(v@, c, 0);
            }
            assert(v@.subrange(0, k as int) =~= v@.take(k as int));
            slice_of(v, 0, k)
        },
    }
}


// ---------------------------------------------------------------------------
// Prefixes and surrounding characters
// ---------------------------------------------------------------------------

/// `str::trim_start_matches` with a string pattern: every leading copy of
/// `p` removed.
pub open spec fn strip_all_prefix(s: Seq<char>, p: Seq<char>) -> Seq<char>
    decreases s.len(),
{
    if p.len() > 0 && starts_with(s, p) {
        strip_all_prefix(s.skip(p.len() as int), p)
    } else {
        s
    }
}

/// `str::trim_start_matches` with a string pattern, on character vectors.
pub fn strip_all_prefix_chars(v: &Vec<char>, p: &Vec<char>) -> (r: Vec<char>)
    ensures
        r@ == strip_all_prefix(v@, p@),
{
    let mut cur = slice_of(v, 0, v.len());
    assert(cur@ =~= v@);
    if p.len() == 0 {
        return cur;
    }
    loop
        invariant
            p@.len() > 0,
            strip_all_prefix(v@, p@) == strip_all_prefix(cur@, p@),
        decreases cur@.len(),
    {
        if starts_with_chars(&cur, p) {
            let next = slice_of(&cur, p.len(), cur.len());
            assert(next@ =~= cur@.skip(p.len() as int));
            cur = next;
        } else {
            return cur;
        }
    }
}

pub open spec fn strip_start_char(s: Seq<char>, c: char) -> Seq<char>
    decreases s.len(),
{
    if s.len() > 0 && s[0] == c {
        strip_start_char(s.drop_first(), c)
    } else {
        s
    }
}

pub open spec fn strip_end_char(s: Seq<char>, c: char) -> Seq<char>
    decreases s.len(),
{
    if s.len() > 0 && s.last() == c {
        strip_end_char(s.drop_last(), c)
    } else {
        s
    }
}

/// `str::trim_matches` with a character: every copy of `c` removed from
/// both ends.
pub open spec fn trim_char(s: Seq<char>, c: char) -> Seq<char> {
    strip_end_char(strip_start_char(s, c), c)
}

/// `str::trim_matches` with a character, on character vectors.
pub fn trim_char_chars(v: &Vec<char>, c: char) -> (r: Vec<char>)
    ensures
        r@ == trim_char(v@, c),
{
    let mut cur = slice_of(v, 0, v.len());
    assert(cur@ =~= v@);
    while cur.len() > 0 && cur[0] == c
        invariant
            strip_start_char(v@, c) == strip_start_char(cur@, c),
        decreases cur@.len(),
    {
        let next = slice_of(&cur, 1, cur.len());
        assert(next@ =~= cur@.drop_first());
        cur = next;
    }
    let ghost mid = cur@;
    while cur.len() > 0 && cur[cur.len() - 1] == c
        invariant
            strip_end_char(mid, c) == strip_end_char(cur@, c),
        decreases cur@.len(),
    {
        cur.pop();
    }
    cur
}

// ---------------------------------------------------------------------------
// Decimal numbers
// ---------------------------------------------------------------------------

pub open spec fn digit_char(d: nat) -> char {
    if d == 0 {
        '0'
    } else if d == 1 {
        '1'
    } else if d == 2 {
        '2'
    } else if d == 3 {
        '3'
    } else if d == 4 {
        '4'
    } else if d == 5 {
        '5'
    } else if d == 6 {
        '6'
    } else if d == 7 {
        '7'
    } else if d == 8 {
        '8'
    } else {
        '9'
    }
}

/// The decimal digits of `n`, as `Display` writes an integer.
pub open spec fn decimal(n: nat) -> Seq<char>
    decreases n,
{
    if n < 10 {
        seq![digit_char(n)]
    } else {
        decimal(n / 10).push(digit_char(n % 10))
    }
}

fn digit_char_exec(d: u64) -> (c: char)
    requires
        d < 10,
    ensures
        c == digit_char(d as nat),
{
    match d {
        0 => '0',
        1 => '1',
        2 => '2',
        3 => '3',
        4 => '4',
        5 => '5',
        6 => '6',
        7 => '7',
        8 => '8',
        _ => '9',
    }
}

/// Appends the decimal digits of `n`.
pub fn push_decimal(out: &mut Vec<char>, n: u64)
    ensures
        final(out)@ == old(out)@ + decimal(n as nat),
    decreases n,
{
    if n >= 10 {
        push_decimal(out, n / 10);
    }
    out.push(digit_char_exec(n % 10));
    proof {
        if n >= 10 {
            assert(decimal(n as nat) == decimal((n / 10) as nat).push(digit_char((n % 10) as nat)));
        }
    }
}

/// Appends the characters of a string.
pub fn push_str(out: &mut Vec<char>, s: &str)
    ensures
        final(out)@ == old(out)@ + s@,
{
    let cs = chars_of(s);
    let ghost start = out@;
    let mut i: usize = 0;
    while i < cs.len()
        invariant
            i <= cs.len(),
            cs@ == s@,
            out@ == start + cs@.take(i as int),
        decreases cs.len() - i,
    {
        out.push(cs[i]);
        i = i + 1;
        assert(out@ =~= start + cs@.take(i as int));
    }
    assert(cs@.take(i as int) =~= cs@);
}

/// Appends the characters of a vector.
pub fn push_chars(out: &mut Vec<char>, s: &Vec<char>)
    ensures
        final(out)@ == old(out)@ + s@,
{
    let ghost start = out@;
    let mut i: usize = 0;
    while i < s.len()
        invariant
            i <= s.len(),
            out@ == start + s@.take(i as int),
        decreases s.len() - i,
    {
        out.push(s[i]);
        i = i + 1;
        assert(out@ =~= start + s@.take(i as int));
    }
    assert(s@.take(i as int) =~= s@);
}


/// Whether a character vector spells the given string.
pub fn eq_str(v: &Vec<char>, s: &str) -> (b: bool)
    ensures
        b == (v@ == s@),
{
    let t = chars_of(s);
    if v.len() != t.len() {
        return false;
    }
    let mut i: usize = 0;
    while i < v.len()
        invariant
            i <= v.len(),
            v.len() == t.len(),
            t@ == s@,
            forall|j: int| 0 <= j < i ==> v@[j] == t@[j],
        decreases v.len() - i,
    {
        if v[i] != t[i] {
            return false;
        }
        i = i + 1;
    }
    assert(v@ =~= t@);
    true
}

/// `str::trim` followed by `str::parse::<u64>`.
pub fn parse_trimmed_u64(s: &str) -> (r: Option<u64>)
    ensures
        r == parse_u64(trim(s@)),
{
    let t = trim_chars(&chars_of(s));
    parse_u64_chars(&t)
}

/// `str::trim` followed by `str::parse::<u32>`.
pub fn parse_trimmed_u32(s: &str) -> (r: Option<u32>)
    ensures
        r == parse_u32(trim(s@)),
{
    let t = trim_chars(&chars_of(s));
    parse_u32_chars(&t)
}

/// `str::trim` followed by `str::parse::<i64>`.
pub fn parse_trimmed_i64(s: &str) -> (r: Option<i64>)
    ensures
        r == parse_i64(trim(s@)),
{
    let t = trim_chars(&chars_of(s));
    parse_i64_chars(&t)
}

/// `str::trim` into a new `String`.
pub fn trimmed(s: &str) -> (r: String)
    ensures
        r@ == trim(s@),
{
    let t = trim_chars(&chars_of(s));
    string_of(t.as_slice())
}

/// The view of an optional string.
pub open spec fn opt_view(o: Option<String>) -> Option<Seq<char>> {
    match o {
        Some(s) => Some(s@),
        None => None,
    }
}


/// The view of an optional string slice.
pub open spec fn opt_str_view(o: Option<&str>) -> Option<Seq<char>> {
    match o {
        Some(s) => Some(s@),
        None => None,
    }
}

/// A number read from a kernel attribute file: the trimmed contents as a
/// `u64`, or zero when the file could not be read (`None`) or does not hold
/// one.
pub open spec fn attr_u64(o: Option<Seq<char>>) -> u64 {
    match o {
        Some(t) => match parse_u64(trim(t)) {
            Some(v) => v,
            None => 0,
        },
        None => 0,
    }
}

/// A text read from a kernel attribute file: the trimmed contents, or empty
/// when the file could not be read.
pub open spec fn attr_text(o: Option<Seq<char>>) -> Seq<char> {
    match o {
        Some(t) => trim(t),
        None => seq![],
    }
}

/// `attr_u64` on the contents of a file.
pub fn read_attr_u64(o: Option<&str>) -> (r: u64)
    ensures
        r == attr_u64(opt_str_view(o)),
{
    match o {
        Some(t) => match parse_trimmed_u64(t) {
            Some(v) => v,
            None => 0,
        },
        None => 0,
    }
}

/// `attr_text` on the contents of a file.
pub fn read_attr_text(o: Option<&str>) -> (r: String)
    ensures
        r@ == attr_text(opt_str_view(o)),
{
    match o {
        Some(t) => trimmed(t),
        None => String::new(),
    }
}


/// Borrows the string of an optional `String`.
pub fn opt_as_str(o: &Option<String>) -> (r: Option<&str>)
    ensures
        opt_str_view(r) == opt_view(*o),
{
    match o {
        Some(s) => Some(s.as_str()),
        None => None,
    }
}


/// A text that starts with a non-blank character has at least one word.
pub proof fn lemma_words_nonempty_of_start(s: Seq<char>, p: Seq<char>)
    requires
        starts_with(s, p),
        p.len() > 0,
        !is_ws(p[0]),
    ensures
        words(s).len() >= 1,
{
    assert(s[0] == s.take(p.len() as int)[0]);
}


/// `str::rfind` with a character: its last index.
pub open spec fn rfind_char(s: Seq<char>, c: char) -> Option<int>
    decreases s.len(),
{
    if s.len() == 0 {
        None
    } else if s.last() == c {
        Some(s.len() - 1)
    } else {
        rfind_char(s.drop_last(), c)
    }
}

pub proof fn lemma_rfind_char_range(s: Seq<char>, c: char)
    ensures
        rfind_char(s, c) matches Some(k) ==> 0 <= k < s.len() && s[k] == c,
    decreases s.len(),
{
    if s.len() > 0 && s.last() != c {
        lemma_rfind_char_range(s.drop_last(), c);
    }
}

/// `str::rfind` with a character, on a character vector.
pub fn rfind_char_exec(v: &Vec<char>, c: char) -> (r: Option<usize>)
    ensures
        match r {
            Some(k) => rfind_char(v@, c) == Some(k as int),
            None => rfind_char(v@, c) is None,
        },
{
    let mut i = v.len();
    assert(v@.take(i as int) =~= v@);
    while i > 0
        invariant
            i <= v.len(),
            rfind_char(v@, c) == rfind_char(v@.take(i as int), c),
        decreases i,
    {
        proof {
            assert(v@.take(i as int).drop_last() =~= v@.take(i - 1));
        }
        if v[i - 1] == c {
            return Some(i - 1);
        }
        i = i - 1;
    }
    None
}

/// `str::find` with a character, on a character vector.
pub fn find_char_first(v: &Vec<char>, c: char) -> (r: Option<usize>)
    ensures
        match r {
            Some(k) => find_char_from(v@, c, 0) == Some(k as int),
            None => find_char_from(v@, c, 0) is None,
        },
{
    find_char_exec(v, c, 0)
}


proof fn lemma_digit_char(k: nat)
    requires
        k < 10,
    ensures
        is_digit(digit_char(k)),
        digit_val(digit_char(k)) == k,
{
}

proof fn lemma_decimal_digits(n: nat)
    ensures
        decimal(n).len() > 0,
        all_digits(decimal(n)),
        digits_value(decimal(n)) == n,
    decreases n,
{
    if n < 10 {
        lemma_digit_char(n);
        assert(decimal(n).drop_last() =~= Seq::<char>::empty());
        assert(digits_value(Seq::<char>::empty()) == 0);
        assert(digits_value(decimal(n)) == digits_value(decimal(n).drop_last()) * 10 + digit_val(
            decimal(n).last(),
        ));
    } else {
        lemma_decimal_digits(n / 10);
        lemma_digit_char(n % 10);
        let s = decimal(n / 10);
        let d = digit_char(n % 10);
        assert(s.push(d).drop_last() =~= s);
        assert(s.push(d).last() == d);
        assert(decimal(n) == s.push(d));
        assert(digits_value(s.push(d)) == digits_value(s.push(d).drop_last()) * 10 + digit_val(
            s.push(d).last(),
        ));
        assert forall|i: int| 0 <= i < s.push(d).len() implies is_digit(#[trigger] s.push(d)[i]) by {
            if i < s.len() {
                assert(s.push(d)[i] == s[i]);
            }
        }
        assert(n == (n / 10) * 10 + n % 10);
    }
}

/// The digits that the library writes for a number read back as that number.
pub proof fn lemma_decimal_parses(n: nat)
    ensures
        parse_nat(decimal(n)) == Some(n),
        n <= u64::MAX ==> parse_u64(decimal(n)) == Some(n as u64),
        n <= u32::MAX ==> parse_u32(decimal(n)) == Some(n as u32),
{
    lemma_decimal_digits(n);
    assert(is_digit(decimal(n)[0]));
    assert(unsigned_body(decimal(n)) == decimal(n));
}

/// Decimal digits are digits only, and there is at least one.
pub proof fn lemma_decimal_chars(n: nat)
    ensures
        decimal(n).len() > 0,
        forall|j: int| 0 <= j < decimal(n).len() ==> is_digit(#[trigger] decimal(n)[j]),
{
    lemma_decimal_digits(n);
}

/// Splitting at `c` a text that starts with a piece free of `c` gives that
/// piece first, then the pieces of what follows that `c`.
pub proof fn lemma_split_char_cons(a: Seq<char>, c: char, b: Seq<char>)
    requires
        forall|j: int| 0 <= j < a.len() ==> #[trigger] a[j] != c,
    ensures
        split_char(a + seq![c] + b, c) == seq![a] + split_char(b, c),
{
    let s = a + seq![c] + b;
    assert forall|j: int| 0 <= j < a.len() implies #[trigger] s[j] != c by {
        assert(s[j] == a[j]);
    }
    lemma_find_char_skip(s, c, 0, a.len() as int);
    assert(s[a.len() as int] == c);
    assert(find_char_from(s, c, a.len() as int) == Some(a.len() as int));
    assert(s.take(a.len() as int) =~= a);
    assert(s.skip(a.len() as int + 1) =~= b);
}

/// A run of characters that are not white space, followed by a space, is
/// the first word of the text; the rest are the words after the space.
pub proof fn lemma_words_cons(t: Seq<char>, r: Seq<char>)
    requires
        t.len() > 0,
        forall|j: int| 0 <= j < t.len() ==> !is_ws(#[trigger] t[j]),
    ensures
        words(t + seq![' '] + r) == seq![t] + words(r),
{
    let s = t + seq![' '] + r;
    assert forall|j: int| 0 <= j < t.len() implies !is_ws(#[trigger] s[j]) by {
        assert(s[j] == t[j]);
    }
    assert(s[t.len() as int] == ' ');
    lemma_token_len_exact(s, t.len() as int);
    assert(s.take(t.len() as int) =~= t);
    let rest = s.skip(t.len() as int);
    assert(rest =~= seq![' '] + r);
    assert(rest.drop_first() =~= r);
    assert(words(rest) == words(rest.drop_first()));
}

/// A non-empty run of characters that are not white space is one word.
pub proof fn lemma_words_single(t: Seq<char>)
    requires
        t.len() > 0,
        forall|j: int| 0 <= j < t.len() ==> !is_ws(#[trigger] t[j]),
    ensures
        words(t) == seq![t],
{
    lemma_token_len_exact(t, t.len() as int);
    assert(t.take(t.len() as int) =~= t);
    assert(t.skip(t.len() as int) =~= Seq::<char>::empty());
    assert(words(Seq::<char>::empty()) == Seq::<Seq<char>>::empty());
}

} // verus!
