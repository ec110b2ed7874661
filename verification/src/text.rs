use vstd::prelude::*;

verus! {

/// The characters of a string slice, in order.
pub fn chars_of(s: &str) -> (res: Vec<char>)
    ensures
        res@ == s@,
{
    let mut res: Vec<char> = Vec::new();
    for c in it: s.chars()
        invariant
            res@ == it.seq().take(it.index() as int),
            it.seq() == s@,
    {
        res.push(c);
    }
    res
}

/// `String::push`: appends one character.
#[verifier::external_body]
fn string_push(s: &mut String, c: char)
    ensures
        final(s)@ == old(s)@.push(c),
{
    s.push(c);
}

/// Builds an owned string holding exactly the given characters.
pub fn string_from_chars(v: &[char]) -> (res: String)
    ensures
        res@ == v@,
{
    let mut res = String::new();
    let mut i: usize = 0;
    while i < v.len()
        invariant
            i <= v.len(),
            res@ == v@.take(i as int),
        decreases v.len() - i,
    {
        string_push(&mut res, v[i]);
        i = i + 1;
        assert(res@ =~= v@.take(i as int));
    }
    assert(v@.take(v.len() as int) =~= v@);
    res
}

/// Appends the characters of `s` to `out`.
pub fn push_str(out: &mut Vec<char>, s: &str)
    ensures
        final(out)@ == old(out)@ + s@,
{
    let cs = chars_of(s);
    push_chars(out, &cs);
}

/// Appends the characters of `cs` to `out`.
pub fn push_chars(out: &mut Vec<char>, cs: &[char])
    ensures
        final(out)@ == old(out)@ + cs@,
{
    let ghost start = out@;
    let mut i: usize = 0;
    while i < cs.len()
        invariant
            i <= cs.len(),
            out@ == start + cs@.take(i as int),
        decreases cs.len() - i,
    {
        out.push(cs[i]);
        i = i + 1;
        assert(out@ =~= start + cs@.take(i as int));
    }
    assert(cs@.take(cs.len() as int) =~= cs@);
}

/// Whether two character sequences are equal.
pub fn chars_eq(a: &[char], b: &[char]) -> (res: bool)
    ensures
        res == (a@ == b@),
{
    if a.len() != b.len() {
        return false;
    }
    let mut i: usize = 0;
    while i < a.len()
        invariant
            a.len() == b.len(),
            i <= a.len(),
            forall|j: int| 0 <= j < i ==> a@[j] == b@[j],
        decreases a.len() - i,
    {
        if a[i] != b[i] {
            return false;
        }
        i = i + 1;
    }
    assert(a@ =~= b@);
    true
}

/// Whether the string `s` has the same characters as the literal `lit`.
pub fn chars_eq_str(s: &[char], lit: &str) -> (res: bool)
    ensures
        res == (s@ == lit@),
{
    let l = chars_of(lit);
    chars_eq(s, &l)
}

/// `c` has the Unicode `White_Space` property (the set that `char::is_whitespace` tests).
pub open spec fn is_white_space(c: char) -> bool {
    let u = c as u32;
    ||| (0x09 <= u <= 0x0D)
    ||| u == 0x20
    ||| u == 0x85
    ||| u == 0xA0
    ||| u == 0x1680
    ||| (0x2000 <= u <= 0x200A)
    ||| u == 0x2028
    ||| u == 0x2029
    ||| u == 0x202F
    ||| u == 0x205F
    ||| u == 0x3000
}

/// Executable test for [`is_white_space`].
pub fn is_whitespace_char(c: char) -> (res: bool)
    ensures
        res == is_white_space(c),
{
    let u = c as u32;
    (0x09 <= u && u <= 0x0D) || u == 0x20 || u == 0x85 || u == 0xA0 || u == 0x1680 || (0x2000
        <= u && u <= 0x200A) || u == 0x2028 || u == 0x2029 || u == 0x202F || u == 0x205F || u
        == 0x3000
}

/// Number of leading white-space characters of `s`.
pub open spec fn leading_ws(s: Seq<char>) -> nat
    decreases s.len(),
{
    if s.len() > 0 && is_white_space(s[0]) {
        1 + leading_ws(s.drop_first())
    } else {
        0
    }
}

/// Number of trailing white-space characters of `s`.
pub open spec fn trailing_ws(s: Seq<char>) -> nat
    decreases s.len(),
{
    if s.len() > 0 && is_white_space(s.last()) {
        1 + trailing_ws(s.drop_last())
    } else {
        0
    }
}

/// `s` without leading white space (`str::trim_start`).
pub open spec fn trim_start(s: Seq<char>) -> Seq<char> {
    s.skip(leading_ws(s) as int)
}

/// `s` without trailing white space (`str::trim_end`).
pub open spec fn trim_end(s: Seq<char>) -> Seq<char> {
    s.take(s.len() - trailing_ws(s))
}

/// `s` without leading and trailing white space (`str::trim`).
pub open spec fn trim(s: Seq<char>) -> Seq<char> {
    trim_end(trim_start(s))
}

pub proof fn lemma_leading_ws(s: Seq<char>)
    ensures
        leading_ws(s) <= s.len(),
        forall|j: int| 0 <= j < leading_ws(s) ==> is_white_space(#[trigger] s[j]),
        leading_ws(s) < s.len() ==> !is_white_space(s[leading_ws(s) as int]),
    decreases s.len(),
{
    if s.len() > 0 && is_white_space(s[0]) {
        lemma_leading_ws(s.drop_first());
        assert forall|j: int| 0 <= j < leading_ws(s) implies is_white_space(#[trigger] s[j]) by {
            if j > 0 {
                assert(s[j] == s.drop_first()[j - 1]);
            }
        }
    }
}

pub proof fn lemma_trailing_ws(s: Seq<char>)
    ensures
        trailing_ws(s) <= s.len(),
        forall|j: int|
            s.len() - trailing_ws(s) <= j < s.len() ==> is_white_space(#[trigger] s[j]),
        trailing_ws(s) < s.len() ==> !is_white_space(s[s.len() - trailing_ws(s) - 1]),
    decreases s.len(),
{
    if s.len() > 0 && is_white_space(s.last()) {
        lemma_trailing_ws(s.drop_last());
        assert forall|j: int|
            s.len() - trailing_ws(s) <= j < s.len() implies is_white_space(#[trigger] s[j]) by {
            if j < s.len() - 1 {
                assert(s[j] == s.drop_last()[j]);
            }
        }
    }
}

/// Characterizes `leading_ws` by its two defining facts.
pub proof fn lemma_leading_ws_unique(s: Seq<char>, n: int)
    requires
        0 <= n <= s.len(),
        forall|j: int| 0 <= j < n ==> is_white_space(#[trigger] s[j]),
        n < s.len() ==> !is_white_space(s[n]),
    ensures
        leading_ws(s) == n,
    decreases s.len(),
{
    if n > 0 {
        assert(is_white_space(s[0]));
        assert forall|j: int| 0 <= j < n - 1 implies is_white_space(
            #[trigger] s.drop_first()[j],
        ) by {
            assert(s.drop_first()[j] == s[j + 1]);
        }
        if n - 1 < s.drop_first().len() {
            assert(s.drop_first()[n - 1] == s[n]);
        }
        lemma_leading_ws_unique(s.drop_first(), n - 1);
    } else if s.len() > 0 {
        assert(!is_white_space(s[0]));
    }
}

/// Characterizes `trailing_ws` by its two defining facts.
pub proof fn lemma_trailing_ws_unique(s: Seq<char>, n: int)
    requires
        0 <= n <= s.len(),
        forall|j: int| s.len() - n <= j < s.len() ==> is_white_space(#[trigger] s[j]),
        n < s.len() ==> !is_white_space(s[s.len() - n - 1]),
    ensures
        trailing_ws(s) == n,
    decreases s.len(),
{
    if n > 0 {
        assert(is_white_space(s[s.len() - 1]));
        assert forall|j: int|
            s.drop_last().len() - (n - 1) <= j < s.drop_last().len() implies is_white_space(
            #[trigger] s.drop_last()[j],
        ) by {
            assert(s.drop_last()[j] == s[j]);
        }
        if n - 1 < s.drop_last().len() {
            assert(s.drop_last()[s.drop_last().len() - (n - 1) - 1] == s[s.len() - n - 1]);
        }
        lemma_trailing_ws_unique(s.drop_last(), n - 1);
    } else if s.len() > 0 {
        assert(!is_white_space(s.last()));
    }
}

/// Index of the first non-white-space character (`s.len()` if none).
pub fn count_leading_ws(s: &[char]) -> (n: usize)
    ensures
        n == leading_ws(s@),
{
    let mut i: usize = 0;
    while i < s.len() && is_whitespace_char(s[i])
        invariant
            i <= s.len(),
            forall|j: int| 0 <= j < i ==> is_white_space(#[trigger] s@[j]),
        decreases s.len() - i,
    {
        i = i + 1;
    }
    proof {
        lemma_leading_ws_unique(s@, i as int);
    }
    i
}

/// Number of trailing white-space characters.
pub fn count_trailing_ws(s: &[char]) -> (n: usize)
    ensures
        n == trailing_ws(s@),
{
    let mut n: usize = 0;
    while n < s.len() && is_whitespace_char(s[s.len() - 1 - n])
        invariant
            n <= s.len(),
            forall|j: int| s.len() - n <= j < s.len() ==> is_white_space(#[trigger] s@[j]),
        decreases s.len() - n,
    {
        n = n + 1;
    }
    proof {
        lemma_trailing_ws_unique(s@, n as int);
    }
    n
}

/// The sub-sequence `s[from..to]`.
pub fn slice_chars(s: &[char], from: usize, to: usize) -> (res: Vec<char>)
    requires
        from <= to <= s.len(),
    ensures
        res@ == s@.subrange(from as int, to as int),
{
    let mut res: Vec<char> = Vec::new();
    let mut i = from;
    while i < to
        invariant
            from <= i <= to <= s.len(),
            res@ == s@.subrange(from as int, i as int),
        decreases to - i,
    {
        res.push(s[i]);
        i = i + 1;
        assert(res@ =~= s@.subrange(from as int, i as int));
    }
    res
}

/// `str::trim_start`.
pub fn trim_start_chars(s: &[char]) -> (res: Vec<char>)
    ensures
        res@ == trim_start(s@),
{
    let n = count_leading_ws(s);
    proof {
        lemma_leading_ws(s@);
    }
    slice_chars(s, n, s.len())
}

/// `str::trim`.
pub fn trim_chars(s: &[char]) -> (res: Vec<char>)
    ensures
        res@ == trim(s@),
{
    let t = trim_start_chars(s);
    let n = count_trailing_ws(&t);
    proof {
        lemma_trailing_ws(t@);
    }
    slice_chars(&t, 0, t.len() - n)
}

/// Whether `s` begins with `prefix`.
pub open spec fn has_prefix(s: Seq<char>, prefix: Seq<char>) -> bool {
    prefix.len() <= s.len() && s.take(prefix.len() as int) == prefix
}

/// Whether `s` ends with `suffix`.
pub open spec fn has_suffix(s: Seq<char>, suffix: Seq<char>) -> bool {
    suffix.len() <= s.len() && s.skip(s.len() - suffix.len()) == suffix
}

/// `str::starts_with` for a literal prefix.
pub fn starts_with(s: &[char], prefix: &str) -> (res: bool)
    ensures
        res == has_prefix(s@, prefix@),
{
    let p = chars_of(prefix);
    if p.len() > s.len() {
        return false;
    }
    let head = slice_chars(s, 0, p.len());
    assert(head@ == s@.take(p@.len() as int));
    chars_eq(&head, &p)
}

/// `str::ends_with` for a literal suffix.
pub fn ends_with(s: &[char], suffix: &str) -> (res: bool)
    ensures
        res == has_suffix(s@, suffix@),
{
    let p = chars_of(suffix);
    if p.len() > s.len() {
        return false;
    }
    let tail = slice_chars(s, s.len() - p.len(), s.len());
    assert(tail@ =~= s@.skip(s@.len() - p@.len()));
    chars_eq(&tail, &p)
}

/// `str::contains` for a single character.
pub fn contains_char(s: &[char], c: char) -> (res: bool)
    ensures
        res == s@.contains(c),
{
    let mut i: usize = 0;
    while i < s.len()
        invariant
            i <= s.len(),
            forall|j: int| 0 <= j < i ==> s@[j] != c,
        decreases s.len() - i,
    {
        if s[i] == c {
            assert(s@[i as int] == c);
            return true;
        }
        i = i + 1;
    }
    false
}

/// Whether `needle` occurs in `s` starting at index `i`.
pub open spec fn occurs_at<T>(s: Seq<T>, needle: Seq<T>, i: int) -> bool {
    0 <= i && i + needle.len() <= s.len() && s.subrange(i, i + needle.len()) == needle
}

/// Whether `needle` occurs anywhere in `s` (`str::contains` for a pattern string).
pub open spec fn contains_seq<T>(s: Seq<T>, needle: Seq<T>) -> bool {
    exists|i: int| occurs_at(s, needle, i)
}

/// `str::contains` for a string pattern.
pub fn contains_chars(s: &[char], needle: &[char]) -> (res: bool)
    ensures
        res == contains_seq(s@, needle@),
{
    if needle.len() > s.len() {
        return false;
    }
    let mut i: usize = 0;
    while i <= s.len() - needle.len()
        invariant
            needle.len() <= s.len(),
            i <= s.len() - needle.len() + 1,
            forall|j: int| 0 <= j < i ==> !occurs_at(s@, needle@, j),
        decreases s.len() - needle.len() + 1 - i,
    {
        let w = slice_chars(s, i, i + needle.len());
        if chars_eq(&w, needle) {
            assert(occurs_at(s@, needle@, i as int));
            return true;
        }
        if i == s.len() - needle.len() {
            return false;
        }
        i = i + 1;
    }
    false
}

/// The pieces of `s` between occurrences of `sep` (`str::split` with a character).
pub open spec fn split_on(s: Seq<char>, sep: char) -> Seq<Seq<char>>
    decreases s.len(),
{
    if s.len() == 0 {
        seq![Seq::empty()]
    } else {
        let rest = split_on(s.drop_first(), sep);
        if s[0] == sep {
            seq![Seq::empty()] + rest
        } else {
            rest.update(0, seq![s[0]] + rest[0])
        }
    }
}

pub proof fn lemma_split_on_len(s: Seq<char>, sep: char)
    ensures
        split_on(s, sep).len() >= 1,
    decreases s.len(),
{
    if s.len() > 0 {
        lemma_split_on_len(s.drop_first(), sep);
    }
}

/// `str::split(sep).collect::<Vec<_>>()`.
pub fn split_chars(s: &[char], sep: char) -> (res: Vec<Vec<char>>)
    ensures
        res@.len() == split_on(s@, sep).len(),
        forall|k: int| 0 <= k < res@.len() ==> (#[trigger] res@[k])@ == split_on(s@, sep)[k],
{
    // Walk backwards so that each step prepends to the first piece, as the spec does.
    let mut res: Vec<Vec<char>> = Vec::new();
    let mut cur: Vec<char> = Vec::new();
    let mut i: usize = s.len();
    // `res` holds the pieces after the current one, in reverse order.
    while i > 0
        invariant
            i <= s.len(),
            split_on(s@.skip(i as int), sep).len() == res@.len() + 1,
            split_on(s@.skip(i as int), sep)[0] == cur@,
            forall|k: int|
                0 <= k < res@.len() ==> (#[trigger] res@[k])@ == split_on(
                    s@.skip(i as int),
                    sep,
                )[res@.len() - k],
        decreases i,
    {
        let ghost old_res = res@;
        let ghost old_cur = cur@;
        let ghost tail = s@.skip(i as int);
        i = i - 1;
        let c = s[i];
        assert(s@.skip(i as int).drop_first() =~= tail);
        assert(s@.skip(i as int)[0] == c);
        proof {
            lemma_split_on_len(tail, sep);
        }
        if c == sep {
            let done = cur;
            cur = Vec::new();
            res.push(done);
            assert(cur@ =~= Seq::<char>::empty());
        } else {
            let mut nc: Vec<char> = Vec::new();
            nc.push(c);
            push_chars(&mut nc, &cur);
            cur = nc;
            assert(cur@ =~= seq![c] + old_cur);
        }
    }
    assert(s@.skip(0) =~= s@);
    res.push(cur);
    // reverse into the final order
    let n = res.len();
    let mut out: Vec<Vec<char>> = Vec::new();
    let mut k: usize = n;
    while k > 0
        invariant
            k <= n == res@.len(),
            n == split_on(s@, sep).len(),
            out@.len() == n - k,
            forall|j: int| 0 <= j < res@.len() - 1 ==> (#[trigger] res@[j])@ == split_on(
                s@,
                sep,
            )[res@.len() - 1 - j],
            res@[res@.len() - 1]@ == split_on(s@, sep)[0],
            forall|j: int| 0 <= j < out@.len() ==> (#[trigger] out@[j])@ == split_on(s@, sep)[j],
        decreases k,
    {
        k = k - 1;
        let piece = slice_chars(&res[k], 0, res[k].len());
        assert(piece@ =~= res@[k as int]@);
        out.push(piece);
    }
    out
}

/// The decimal digits of `n` (`u64::to_string`).
pub open spec fn decimal(n: nat) -> Seq<char>
    decreases n,
{
    if n < 10 {
        seq![digit_char(n)]
    } else {
        decimal(n / 10).push(digit_char(n % 10))
    }
}

/// The ASCII digit for `d < 10`.
pub open spec fn digit_char(d: nat) -> char {
    ((d + 48) as u32) as char
}

pub fn digit_char_of(d: u64) -> (c: char)
    requires
        d < 10,
    ensures
        c == digit_char(d as nat),
{
    if d == 0 {
        '0'
    } else if d == 1 {
        '1'
    } else if d == 2 {
        '2'
    } else if d == 3 {
        '3'
    } else if d == 4 {
        '4'
    } else if d == 5 {
        '5'
    } else if d == 6 {
        '6'
    } else if d == 7 {
        '7'
    } else if d == 8 {
        '8'
    } else {
        '9'
    }
}

/// Appends the decimal digits of `n`.
pub fn push_decimal(out: &mut Vec<char>, n: u64)
    ensures
        final(out)@ == old(out)@ + decimal(n as nat),
    decreases n,
{
    if n < 10 {
        out.push(digit_char_of(n));
        assert(decimal(n as nat) =~= seq![digit_char(n as nat)]);
    } else {
        push_decimal(out, n / 10);
        out.push(digit_char_of(n % 10));
        assert(decimal(n as nat) == decimal((n / 10) as nat).push(digit_char((n % 10) as nat)));
    }
}

/// `n.to_string()`.
pub fn decimal_string(n: u64) -> (res: String)
    ensures
        res@ == decimal(n as nat),
{
    let mut v: Vec<char> = Vec::new();
    push_decimal(&mut v, n);
    assert(v@ =~= decimal(n as nat));
    string_from_chars(&v)
}

} // verus!
