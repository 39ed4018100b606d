//! Character-level text handling: whitespace, trimming, words, numbers and
//! lines, each stated over `Seq<char>` and computed over `Vec<char>`.
use vstd::prelude::*;

verus! {

/// The Unicode `White_Space` property, which `char::is_whitespace` tests.
pub open spec fn is_ws(c: char) -> bool {
    let u = c as u32;
    ||| 0x09 <= u <= 0x0D
    ||| u == 0x20
    ||| u == 0x85
    ||| u == 0xA0
    ||| u == 0x1680
    ||| 0x2000 <= u <= 0x200A
    ||| u == 0x2028
    ||| u == 0x2029
    ||| u == 0x202F
    ||| u == 0x205F
    ||| u == 0x3000
}

/// The text without its leading whitespace.
pub open spec fn trim_start(s: Seq<char>) -> Seq<char>
    decreases s.len(),
{
    if s.len() > 0 && is_ws(s[0]) {
        trim_start(s.drop_first())
    } else {
        s
    }
}

/// The text without its trailing whitespace.
pub open spec fn trim_end(s: Seq<char>) -> Seq<char>
    decreases s.len(),
{
    if s.len() > 0 && is_ws(s.last()) {
        trim_end(s.drop_last())
    } else {
        s
    }
}

/// The text without whitespace at either end.
pub open spec fn trim(s: Seq<char>) -> Seq<char> {
    trim_end(trim_start(s))
}

/// The text without every leading occurrence of `c`.
pub open spec fn strip_leading(s: Seq<char>, c: char) -> Seq<char>
    decreases s.len(),
{
    if s.len() > 0 && s[0] == c {
        strip_leading(s.drop_first(), c)
    } else {
        s
    }
}

/// How many characters the text starts with that are not `c`.
pub open spec fn count_until(s: Seq<char>, c: char) -> nat
    decreases s.len(),
{
    if s.len() > 0 && s[0] != c {
        1 + count_until(s.drop_first(), c)
    } else {
        0
    }
}

/// The index of the first `c` in the text, if there is one.
pub open spec fn find(s: Seq<char>, c: char) -> Option<nat> {
    if count_until(s, c) < s.len() {
        Some(count_until(s, c))
    } else {
        None
    }
}

/// How many characters the text starts with that are not whitespace.
pub open spec fn word_len(s: Seq<char>) -> nat
    decreases s.len(),
{
    if s.len() > 0 && !is_ws(s[0]) {
        1 + word_len(s.drop_first())
    } else {
        0
    }
}

/// The first whitespace-separated word of the text and what follows it,
/// as one step of `str::split_whitespace` gives them.
pub open spec fn next_word(s: Seq<char>) -> Option<(Seq<char>, Seq<char>)> {
    let t = trim_start(s);
    if t.len() == 0 {
        None
    } else {
        Some((t.take(word_len(t) as int), t.skip(word_len(t) as int)))
    }
}

pub open spec fn ascii_upper(c: char) -> char {
    if 'a' <= c && c <= 'z' {
        ((c as u8) - 32) as char
    } else {
        c
    }
}

pub open spec fn ascii_lower(c: char) -> char {
    if 'A' <= c && c <= 'Z' {
        ((c as u8) + 32) as char
    } else {
        c
    }
}

pub open spec fn upper_seq(s: Seq<char>) -> Seq<char> {
    s.map_values(|c: char| ascii_upper(c))
}

pub open spec fn lower_seq(s: Seq<char>) -> Seq<char> {
    s.map_values(|c: char| ascii_lower(c))
}

pub open spec fn is_digit(c: char) -> bool {
    '0' <= c && c <= '9'
}

pub open spec fn all_digits(d: Seq<char>) -> bool {
    forall|i: int| 0 <= i < d.len() ==> is_digit(#[trigger] d[i])
}

/// The decimal value of a run of digits.
pub open spec fn digits_value(s: Seq<char>) -> nat
    decreases s.len(),
{
    if s.len() == 0 {
        0
    } else {
        digits_value(s.drop_last()) * 10 + ((s.last() as u32) - ('0' as u32)) as nat
    }
}

/// What `str::parse::<u64>` gives: an optional `+`, then one or more ASCII
/// digits whose value fits in a `u64`.
pub open spec fn parse_u64(s: Seq<char>) -> Option<u64> {
    let d = if s.len() > 0 && s[0] == '+' {
        s.drop_first()
    } else {
        s
    };
    if d.len() > 0 && all_digits(d) && digits_value(d) <= u64::MAX {
        Some(digits_value(d) as u64)
    } else {
        None
    }
}

/// A line without the `\r` of a `\r\n` ending.
pub open spec fn strip_cr(l: Seq<char>) -> Seq<char> {
    if l.len() > 0 && l.last() == '\r' {
        l.drop_last()
    } else {
        l
    }
}

/// The lines of a text as `str::lines` gives them: split after each `\n`,
/// a `\r` before the `\n` dropped, no empty line after a final `\n`.
pub open spec fn lines(s: Seq<char>) -> Seq<Seq<char>>
    decreases s.len(),
{
    if s.len() == 0 {
        seq![]
    } else {
        let n = count_until(s, '\n');
        if n < s.len() {
            seq![strip_cr(s.take(n as int))] + lines(s.skip((n + 1) as int))
        } else {
            seq![s]
        }
    }
}

// ---------------------------------------------------------------------------
// Lemmas

pub proof fn lemma_count_until(t: Seq<char>, c: char, k: int)
    requires
        0 <= k <= t.len(),
        forall|i: int| 0 <= i < k ==> t[i] != c,
        k == t.len() || t[k] == c,
    ensures
        count_until(t, c) == k,
    decreases k,
{
    if k > 0 {
        lemma_count_until(t.drop_first(), c, k - 1);
    }
}

pub proof fn lemma_word_len(t: Seq<char>, k: int)
    requires
        0 <= k <= t.len(),
        forall|i: int| 0 <= i < k ==> !is_ws(t[i]),
        k == t.len() || is_ws(t[k]),
    ensures
        word_len(t) == k,
    decreases k,
{
    if k > 0 {
        lemma_word_len(t.drop_first(), k - 1);
    }
}

/// What `count_until` counts: no `c` before it, and a `c` at it unless the
/// text ends there.
pub proof fn lemma_count_until_props(t: Seq<char>, c: char)
    ensures
        count_until(t, c) <= t.len(),
        forall|i: int| 0 <= i < count_until(t, c) ==> t[i] != c,
        count_until(t, c) < t.len() ==> t[count_until(t, c) as int] == c,
    decreases t.len(),
{
    if t.len() > 0 && t[0] != c {
        lemma_count_until_props(t.drop_first(), c);
        assert forall|i: int| 0 <= i < count_until(t, c) implies t[i] != c by {
            if i > 0 {
                assert(t[i] == t.drop_first()[i - 1]);
            }
        }
    }
}

/// Joining two texts with a newline joins their lines, where the first is
/// not empty and does not end in `\n` or `\r`.
pub proof fn lemma_lines_join(a: Seq<char>, b: Seq<char>)
    requires
        a.len() > 0,
        a.last() != '\n',
        a.last() != '\r',
    ensures
        lines(a + seq!['\n'] + b) == lines(a) + lines(b),
    decreases a.len(),
{
    let s = a + seq!['\n'] + b;
    lemma_count_until_props(a, '\n');
    let n = count_until(a, '\n');
    if n < a.len() {
        lemma_count_until(s, '\n', n as int);
        assert(s.take(n as int) =~= a.take(n as int));
        let a2 = a.skip(n + 1int);
        assert(n + 1 < a.len());
        assert(a2.last() == a.last());
        assert(s.skip(n + 1int) =~= a2 + seq!['\n'] + b);
        lemma_lines_join(a2, b);
        assert(lines(a) == seq![strip_cr(a.take(n as int))] + lines(a2));
        assert(lines(s) =~= lines(a) + lines(b));
    } else {
        assert forall|i: int| 0 <= i < a.len() implies s[i] != '\n' by {
            assert(s[i] == a[i]);
        }
        lemma_count_until(s, '\n', a.len() as int);
        assert(s.take(a.len() as int) =~= a);
        assert(s.skip(a.len() + 1int) =~= b);
        assert(lines(a) == seq![a]);
        assert(strip_cr(a) == a);
        assert(lines(s) =~= lines(a) + lines(b));
    }
}

// ---------------------------------------------------------------------------
// Executable helpers

/// `std::string::String::push`: appends one character.
#[verifier::external_body]
fn string_push(s: &mut String, c: char)
    ensures
        final(s)@ == old(s)@.push(c),
{
    s.push(c);
}

/// The characters of a string.
pub fn to_chars(s: &str) -> (r: Vec<char>)
    ensures
        r@ == s@,
{
    let mut r: Vec<char> = Vec::new();
    for c in it: s.chars()
        invariant
            it.seq() == s@,
            r@ == s@.take(it.index() as int),
    {
        r.push(c);
    }
    assert(s@.take(s@.len() as int) == s@);
    r
}

/// A string made of the characters `s[lo..hi]`.
pub fn string_of(s: &Vec<char>, lo: usize, hi: usize) -> (r: String)
    requires
        lo <= hi <= s.len(),
    ensures
        r@ == s@.subrange(lo as int, hi as int),
{
    let mut r = String::new();
    let mut i = lo;
    while i < hi
        invariant
            lo <= i <= hi <= s.len(),
            r@ == s@.subrange(lo as int, i as int),
        decreases hi - i,
    {
        string_push(&mut r, s[i]);
        i = i + 1;
        assert(r@ =~= s@.subrange(lo as int, i as int));
    }
    r
}

pub fn is_whitespace(c: char) -> (r: bool)
    ensures
        r == is_ws(c),
{
    let u = c as u32;
    (0x09 <= u && u <= 0x0D) || u == 0x20 || u == 0x85 || u == 0xA0 || u == 0x1680 || (0x2000
        <= u && u <= 0x200A) || u == 0x2028 || u == 0x2029 || u == 0x202F || u == 0x205F || u
        == 0x3000
}

/// The position where the whitespace that starts `s[lo..hi]` ends.
pub fn skip_ws(s: &Vec<char>, lo: usize, hi: usize) -> (r: usize)
    requires
        lo <= hi <= s.len(),
    ensures
        lo <= r <= hi,
        s@.subrange(r as int, hi as int) == trim_start(s@.subrange(lo as int, hi as int)),
{
    let mut i = lo;
    while i < hi && is_whitespace(s[i])
        invariant
            lo <= i <= hi <= s.len(),
            trim_start(s@.subrange(i as int, hi as int)) == trim_start(
                s@.subrange(lo as int, hi as int),
            ),
        decreases hi - i,
    {
        assert(s@.subrange(i as int, hi as int).drop_first() =~= s@.subrange(
            i + 1,
            hi as int,
        ));
        i = i + 1;
    }
    i
}

/// The position where the whitespace that ends `s[lo..hi]` starts.
pub fn trim_end_pos(s: &Vec<char>, lo: usize, hi: usize) -> (r: usize)
    requires
        lo <= hi <= s.len(),
    ensures
        lo <= r <= hi,
        s@.subrange(lo as int, r as int) == trim_end(s@.subrange(lo as int, hi as int)),
{
    let mut j = hi;
    while j > lo && is_whitespace(s[j - 1])
        invariant
            lo <= j <= hi <= s.len(),
            trim_end(s@.subrange(lo as int, j as int)) == trim_end(
                s@.subrange(lo as int, hi as int),
            ),
        decreases j - lo,
    {
        assert(s@.subrange(lo as int, j as int).drop_last() =~= s@.subrange(
            lo as int,
            j - 1,
        ));
        j = j - 1;
    }
    j
}

/// The position where the run of `c` that starts `s[lo..hi]` ends.
pub fn skip_char(s: &Vec<char>, lo: usize, hi: usize, c: char) -> (r: usize)
    requires
        lo <= hi <= s.len(),
    ensures
        lo <= r <= hi,
        s@.subrange(r as int, hi as int) == strip_leading(s@.subrange(lo as int, hi as int), c),
{
    let mut i = lo;
    while i < hi && s[i] == c
        invariant
            lo <= i <= hi <= s.len(),
            strip_leading(s@.subrange(i as int, hi as int), c) == strip_leading(
                s@.subrange(lo as int, hi as int),
                c,
            ),
        decreases hi - i,
    {
        assert(s@.subrange(i as int, hi as int).drop_first() =~= s@.subrange(
            i + 1,
            hi as int,
        ));
        i = i + 1;
    }
    i
}

/// The position of the first `c` in `s[lo..hi]`, or `hi`.
pub fn find_char(s: &Vec<char>, lo: usize, hi: usize, c: char) -> (r: usize)
    requires
        lo <= hi <= s.len(),
    ensures
        lo <= r <= hi,
        r - lo == count_until(s@.subrange(lo as int, hi as int), c),
        r < hi ==> s@[r as int] == c,
{
    let mut i = lo;
    while i < hi && s[i] != c
        invariant
            lo <= i <= hi <= s.len(),
            forall|k: int| lo <= k < i ==> s@[k] != c,
        decreases hi - i,
    {
        i = i + 1;
    }
    proof {
        lemma_count_until(s@.subrange(lo as int, hi as int), c, i - lo);
    }
    i
}

/// The first word of `s[lo..hi]` as the range `(start, end)` of `s`.
pub fn next_word_at(s: &Vec<char>, lo: usize, hi: usize) -> (r: Option<(usize, usize)>)
    requires
        lo <= hi <= s.len(),
    ensures
        match next_word(s@.subrange(lo as int, hi as int)) {
            None => r is None,
            Some((w, rest)) => r matches Some((a, b)) && lo <= a <= b <= hi && w == s@.subrange(
                a as int,
                b as int,
            ) && rest == s@.subrange(b as int, hi as int),
        },
{
    let a = skip_ws(s, lo, hi);
    if a == hi {
        return None;
    }
    let mut b = a;
    while b < hi && !is_whitespace(s[b])
        invariant
            a <= b <= hi <= s.len(),
            forall|k: int| a <= k < b ==> !is_ws(s@[k]),
        decreases hi - b,
    {
        b = b + 1;
    }
    proof {
        let t = s@.subrange(a as int, hi as int);
        lemma_word_len(t, b - a);
        assert(t.take(b - a) =~= s@.subrange(a as int, b as int));
        assert(t.skip(b - a) =~= s@.subrange(b as int, hi as int));
    }
    Some((a, b))
}

/// Whether `s[lo..hi]`, with ASCII letters made upper case, is `lit`.
pub fn eq_upper(s: &Vec<char>, lo: usize, hi: usize, lit: &Vec<char>) -> (r: bool)
    requires
        lo <= hi <= s.len(),
    ensures
        r == (upper_seq(s@.subrange(lo as int, hi as int)) == lit@),
{
    let ghost t = upper_seq(s@.subrange(lo as int, hi as int));
    if hi - lo != lit.len() {
        assert(t.len() != lit@.len());
        return false;
    }
    let mut i: usize = 0;
    while i < lit.len()
        invariant
            hi - lo == lit.len(),
            lo <= hi <= s.len(),
            t == upper_seq(s@.subrange(lo as int, hi as int)),
            0 <= i <= lit.len(),
            forall|k: int| 0 <= k < i ==> t[k] == lit@[k],
        decreases lit.len() - i,
    {
        let u = upper_char(s[lo + i]);
        assert(t[i as int] == ascii_upper(s@[lo + i]));
        if u != lit[i] {
            assert(t[i as int] != lit@[i as int]);
            return false;
        }
        i = i + 1;
    }
    assert(t =~= lit@);
    true
}

/// Whether `s`, with ASCII letters made lower case, is `lit`.
pub fn eq_lower(s: &Vec<char>, lit: &Vec<char>) -> (r: bool)
    ensures
        r == (lower_seq(s@) == lit@),
{
    let ghost t = lower_seq(s@);
    if s.len() != lit.len() {
        assert(t.len() != lit@.len());
        return false;
    }
    let mut i: usize = 0;
    while i < lit.len()
        invariant
            s.len() == lit.len(),
            t == lower_seq(s@),
            0 <= i <= lit.len(),
            forall|k: int| 0 <= k < i ==> t[k] == lit@[k],
        decreases lit.len() - i,
    {
        let u = lower_char(s[i]);
        if u != lit[i] {
            assert(t[i as int] != lit@[i as int]);
            return false;
        }
        i = i + 1;
    }
    assert(t =~= lit@);
    true
}

pub fn lower_char(c: char) -> (r: char)
    ensures
        r == ascii_lower(c),
{
    if 'A' <= c && c <= 'Z' {
        ((c as u8) + 32) as char
    } else {
        c
    }
}

pub fn upper_char(c: char) -> (r: char)
    ensures
        r == ascii_upper(c),
{
    if 'a' <= c && c <= 'z' {
        ((c as u8) - 32) as char
    } else {
        c
    }
}

/// Whether `a` and `b` hold the same characters.
pub fn chars_eq(a: &Vec<char>, b: &Vec<char>) -> (r: bool)
    ensures
        r == (a@ == b@),
{
    if a.len() != b.len() {
        return false;
    }
    let mut i: usize = 0;
    while i < a.len()
        invariant
            a.len() == b.len(),
            0 <= i <= a.len(),
            forall|k: int| 0 <= k < i ==> a@[k] == b@[k],
        decreases a.len() - i,
    {
        if a[i] != b[i] {
            return false;
        }
        i = i + 1;
    }
    assert(a@ =~= b@);
    true
}

pub proof fn lemma_digits_mono(d: Seq<char>, k: int)
    requires
        0 <= k <= d.len(),
        forall|i: int| 0 <= i < d.len() ==> is_digit(#[trigger] d[i]),
    ensures
        digits_value(d.take(k)) <= digits_value(d),
    decreases d.len(),
{
    if k < d.len() {
        let p = d.drop_last();
        assert(p.take(k) =~= d.take(k));
        assert forall|i: int| 0 <= i < p.len() implies is_digit(#[trigger] p[i]) by {
            assert(p[i] == d[i]);
        }
        lemma_digits_mono(p, k);
    } else {
        assert(d.take(k) =~= d);
    }
}

/// A copy of `s[lo..hi]`.
pub fn copy_range(s: &Vec<char>, lo: usize, hi: usize) -> (r: Vec<char>)
    requires
        lo <= hi <= s.len(),
    ensures
        r@ == s@.subrange(lo as int, hi as int),
{
    let mut r: Vec<char> = Vec::new();
    let mut i = lo;
    while i < hi
        invariant
            lo <= i <= hi <= s.len(),
            r@ == s@.subrange(lo as int, i as int),
        decreases hi - i,
    {
        r.push(s[i]);
        i = i + 1;
        assert(r@ =~= s@.subrange(lo as int, i as int));
    }
    r
}

/// Whether `s[lo..hi]` is `lit`.
pub fn eq_range(s: &Vec<char>, lo: usize, hi: usize, lit: &Vec<char>) -> (r: bool)
    requires
        lo <= hi <= s.len(),
    ensures
        r == (s@.subrange(lo as int, hi as int) == lit@),
{
    let ghost t = s@.subrange(lo as int, hi as int);
    if hi - lo != lit.len() {
        assert(t.len() != lit@.len());
        return false;
    }
    let mut i: usize = 0;
    while i < lit.len()
        invariant
            hi - lo == lit.len(),
            lo <= hi <= s.len(),
            t == s@.subrange(lo as int, hi as int),
            0 <= i <= lit.len(),
            forall|k: int| 0 <= k < i ==> t[k] == lit@[k],
        decreases lit.len() - i,
    {
        if s[lo + i] != lit[i] {
            assert(t[i as int] != lit@[i as int]);
            return false;
        }
        i = i + 1;
    }
    assert(t =~= lit@);
    true
}

/// `str::parse::<u64>` on `s[lo..hi]`.
pub fn parse_u64_at(s: &Vec<char>, lo: usize, hi: usize) -> (r: Option<u64>)
    requires
        lo <= hi <= s.len(),
    ensures
        r == parse_u64(s@.subrange(lo as int, hi as int)),
{
    let ghost t = s@.subrange(lo as int, hi as int);
    let mut i = lo;
    if i < hi && s[i] == '+' {
        i = i + 1;
    }
    let d_lo = i;
    let ghost d = s@.subrange(d_lo as int, hi as int);
    assert(d =~= (if t.len() > 0 && t[0] == '+' {
        t.drop_first()
    } else {
        t
    }));
    if d_lo == hi {
        return None;
    }
    let mut v: u64 = 0;
    assert(s@.subrange(d_lo as int, d_lo as int) =~= Seq::<char>::empty());
    while i < hi
        invariant
            lo <= d_lo <= i <= hi <= s.len(),
            d == s@.subrange(d_lo as int, hi as int),
            t == s@.subrange(lo as int, hi as int),
            d == (if t.len() > 0 && t[0] == '+' {
                t.drop_first()
            } else {
                t
            }),
            d.len() > 0,
            forall|k: int| d_lo <= k < i ==> is_digit(#[trigger] s@[k]),
            v == digits_value(s@.subrange(d_lo as int, i as int)),
        decreases hi - i,
    {
        let c = s[i];
        if !('0' <= c && c <= '9') {
            assert(!is_digit(d[i - d_lo]));
            return None;
        }
        let dig = ((c as u32) - ('0' as u32)) as u64;
        let ghost p = s@.subrange(d_lo as int, i + 1);
        assert(p.drop_last() =~= s@.subrange(d_lo as int, i as int));
        assert(digits_value(p) == v * 10 + dig);
        if v > 1844674407370955161 || (v == 1844674407370955161 && dig > 5) {
            proof {
                if all_digits(d) {
                    assert(d.take(i + 1 - d_lo) =~= p);
                    lemma_digits_mono(d, i + 1 - d_lo);
                }
            }
            return None;
        }
        v = v * 10 + dig;
        i = i + 1;
    }
    assert(s@.subrange(d_lo as int, i as int) =~= d);
    Some(v)
}

/// The lines of `s`, as `lines` states them.
pub fn split_lines(s: &Vec<char>) -> (r: Vec<Vec<char>>)
    ensures
        r@.len() == lines(s@).len(),
        forall|i: int| 0 <= i < r@.len() ==> #[trigger] r@[i]@ == lines(s@)[i],
{
    let mut r: Vec<Vec<char>> = Vec::new();
    let mut pos: usize = 0;
    let n = s.len();
    assert(s@.skip(0) =~= s@);
    while pos < n
        invariant
            n == s.len(),
            pos <= n,
            lines(s@).len() == r@.len() + lines(s@.skip(pos as int)).len(),
            forall|i: int| 0 <= i < r@.len() ==> #[trigger] r@[i]@ == lines(s@)[i],
            forall|i: int|
                0 <= i < lines(s@.skip(pos as int)).len() ==> #[trigger] lines(
                    s@.skip(pos as int),
                )[i] == lines(s@)[r@.len() + i],
        decreases n - pos,
    {
        let ghost t = s@.skip(pos as int);
        assert(t =~= s@.subrange(pos as int, n as int));
        let e = find_char(s, pos, n, '\n');
        if e < n {
            let mut end = e;
            if e > pos && s[e - 1] == '\r' {
                end = e - 1;
            }
            let line = copy_range(s, pos, end);
            assert(line@ =~= strip_cr(t.take(e - pos)));
            assert(t.skip(e - pos + 1) =~= s@.skip(e + 1));
            assert(lines(t) == seq![strip_cr(t.take(e - pos))] + lines(s@.skip(e + 1)));
            assert(lines(t)[0] == line@);
            assert forall|i: int| 0 <= i < lines(s@.skip(e + 1)).len() implies #[trigger] lines(
                s@.skip(e + 1),
            )[i] == lines(s@)[r@.len() + 1 + i] by {
                assert(lines(t)[i + 1] == lines(s@.skip(e + 1))[i]);
            }
            r.push(line);
            pos = e + 1;
        } else {
            let line = copy_range(s, pos, n);
            assert(lines(t) == seq![t]);
            assert(s@.skip(n as int) =~= Seq::<char>::empty());
            assert(lines(t)[0] == line@);
            r.push(line);
            pos = n;
        }
    }
    assert(s@.skip(n as int) =~= Seq::<char>::empty());
    r
}

} // verus!
