//! Text primitives over `Seq<char>`: search, lines, trimming, padding and decimal rendering.
//! Every diagnostic and report in the crate is assembled from these.
use vstd::prelude::*;
use vstd::string::*;

verus! {

// ---------------------------------------------------------------- specs

/// `n` occurs in `s` starting at index `i`.
pub open spec fn occurs_at(s: Seq<char>, n: Seq<char>, i: int) -> bool {
    0 <= i && i + n.len() <= s.len() && s.subrange(i, i + n.len()) == n
}

/// First index `>= i` at which `n` occurs in `s`, or -1.
pub open spec fn find_from(s: Seq<char>, n: Seq<char>, i: int) -> int
    decreases s.len() + 1 - i,
{
    if i < 0 || i + n.len() > s.len() {
        -1
    } else if occurs_at(s, n, i) {
        i
    } else {
        find_from(s, n, i + 1)
    }
}

pub proof fn lemma_find_from_bound(s: Seq<char>, n: Seq<char>, i: int)
    ensures
        find_from(s, n, i) >= 0 ==> i <= find_from(s, n, i) && find_from(s, n, i) + n.len()
            <= s.len() && occurs_at(s, n, find_from(s, n, i)),
        find_from(s, n, i) >= -1,
    decreases s.len() + 1 - i,
{
    if i < 0 || i + n.len() > s.len() {
    } else if occurs_at(s, n, i) {
    } else {
        lemma_find_from_bound(s, n, i + 1);
    }
}

/// First index at which `n` occurs in `s`, or -1.
pub open spec fn find(s: Seq<char>, n: Seq<char>) -> int {
    find_from(s, n, 0)
}

pub open spec fn contains(s: Seq<char>, n: Seq<char>) -> bool {
    find(s, n) >= 0
}

/// `s` with the single trailing `'\r'` removed, if there is one.
pub open spec fn strip_cr(s: Seq<char>) -> Seq<char> {
    if s.len() > 0 && s.last() == '\r' {
        s.drop_last()
    } else {
        s
    }
}

/// The lines of a text, as `str::lines` yields them: split at `'\n'`, a `'\r'` right before
/// the `'\n'` is dropped, and a final line ending yields no empty last line.
pub open spec fn lines(s: Seq<char>) -> Seq<Seq<char>>
    decreases s.len(),
{
    if s.len() == 0 {
        seq![]
    } else {
        let i = find(s, seq!['\n']);
        proof {
            lemma_find_from_bound(s, seq!['\n'], 0);
        }
        if i < 0 {
            seq![s]
        } else {
            seq![strip_cr(s.take(i))] + lines(s.skip(i + 1))
        }
    }
}

/// Whether `c` has the Unicode `White_Space` property (what `char::is_whitespace` reports):
/// tab to carriage return, space, NEL, no-break space, ogham space mark, the en quad to hair
/// space range, the line and paragraph separators, narrow no-break space, medium mathematical
/// space and ideographic space.
pub open spec fn char_is_whitespace(c: char) -> bool {
    let n = c as u32;
    (0x9 <= n && n <= 0xd) || n == 0x20 || n == 0x85 || n == 0xa0 || n == 0x1680 || (0x2000 <= n
        && n <= 0x200a) || n == 0x2028 || n == 0x2029 || n == 0x202f || n == 0x205f || n == 0x3000
}

pub open spec fn trim_start(s: Seq<char>) -> Seq<char>
    decreases s.len(),
{
    if s.len() > 0 && char_is_whitespace(s[0]) {
        trim_start(s.drop_first())
    } else {
        s
    }
}

pub open spec fn trim_end(s: Seq<char>) -> Seq<char>
    decreases s.len(),
{
    if s.len() > 0 && char_is_whitespace(s.last()) {
        trim_end(s.drop_last())
    } else {
        s
    }
}

/// `s` without leading and trailing white space (`str::trim`).
pub open spec fn trim(s: Seq<char>) -> Seq<char> {
    trim_end(trim_start(s))
}

pub open spec fn ascii_lower(c: char) -> char {
    if 'A' <= c && c <= 'Z' {
        ((c as u32) + 32) as char
    } else {
        c
    }
}

/// `str::to_ascii_lowercase`.
pub open spec fn to_ascii_lower(s: Seq<char>) -> Seq<char> {
    s.map_values(|c: char| ascii_lower(c))
}

pub open spec fn digit_char(d: nat) -> char {
    (('0' as u32) + d) as char
}

/// Decimal rendering of a natural number (what `Display` prints for unsigned integers).
pub open spec fn decimal(n: nat) -> Seq<char>
    decreases n,
{
    if n < 10 {
        seq![digit_char(n)]
    } else {
        decimal(n / 10).push(digit_char(n % 10))
    }
}

/// Decimal rendering of an integer, with a leading `-` when negative.
pub open spec fn signed_decimal(n: int) -> Seq<char> {
    if n < 0 {
        seq!['-'] + decimal((-n) as nat)
    } else {
        decimal(n as nat)
    }
}

pub open spec fn spaces(n: nat) -> Seq<char> {
    Seq::new(n, |i: int| ' ')
}

/// `s` left-aligned in a field of `w` characters (`{:<w}`).
pub open spec fn pad_right(s: Seq<char>, w: nat) -> Seq<char> {
    if s.len() >= w {
        s
    } else {
        s + spaces((w - s.len()) as nat)
    }
}

/// The elements of `parts` separated by `sep`.
pub open spec fn join(parts: Seq<Seq<char>>, sep: Seq<char>) -> Seq<char>
    decreases parts.len(),
{
    if parts.len() == 0 {
        seq![]
    } else if parts.len() == 1 {
        parts[0]
    } else {
        join(parts.drop_last(), sep) + sep + parts.last()
    }
}

pub open spec fn views(v: Seq<String>) -> Seq<Seq<char>> {
    v.map_values(|s: String| s@)
}

pub open spec fn cviews(v: Seq<Vec<char>>) -> Seq<Seq<char>> {
    v.map_values(|s: Vec<char>| s@)
}

// ---------------------------------------------------------------- std calls

/// `String::push`: appends one character.
#[verifier::external_body]
pub(crate) fn push_char(s: &mut String, c: char)
    ensures
        final(s)@ == old(s)@.push(c),
{
    s.push(c);
}

/// `char::is_whitespace`: whether the character has the Unicode `White_Space` property, the
/// code points `char_is_whitespace` lists.
#[verifier::external_body]
pub(crate) fn is_whitespace(c: char) -> (b: bool)
    ensures
        b == char_is_whitespace(c),
{
    c.is_whitespace()
}

// ---------------------------------------------------------------- exec

pub fn chars_of(s: &str) -> (v: Vec<char>)
    ensures
        v@ == s@,
{
    let n = s.unicode_len();
    let mut v: Vec<char> = Vec::new();
    let mut i: usize = 0;
    while i < n
        invariant
            n == s@.len(),
            i <= n,
            v@ == s@.take(i as int),
        decreases n - i,
    {
        v.push(s.get_char(i));
        i = i + 1;
        assert(v@ =~= s@.take(i as int));
    }
    assert(v@ =~= s@);
    v
}

pub fn string_of(v: &[char]) -> (s: String)
    ensures
        s@ == v@,
{
    let mut s = String::new();
    let mut i: usize = 0;
    while i < v.len()
        invariant
            i <= v@.len(),
            s@ == v@.take(i as int),
        decreases v@.len() - i,
    {
        push_char(&mut s, v[i]);
        i = i + 1;
        assert(s@ =~= v@.take(i as int));
    }
    assert(s@ =~= v@);
    s
}

pub fn str_to_string(s: &str) -> (r: String)
    ensures
        r@ == s@,
{
    String::from_str(s)
}

pub fn copy_string(s: &String) -> (r: String)
    ensures
        r@ == s@,
{
    s.clone()
}

pub fn push_str(s: &mut String, t: &str)
    ensures
        final(s)@ == old(s)@ + t@,
{
    s.append(t);
}

pub fn cat(a: &str, b: &str) -> (r: String)
    ensures
        r@ == a@ + b@,
{
    let mut r = String::from_str(a);
    r.append(b);
    r
}

pub fn cat3(a: &str, b: &str, c: &str) -> (r: String)
    ensures
        r@ == a@ + b@ + c@,
{
    let mut r = String::from_str(a);
    r.append(b);
    r.append(c);
    r
}

pub fn string_eq(a: &str, b: &str) -> (r: bool)
    ensures
        r == (a@ == b@),
{
    let x = chars_of(a);
    let y = chars_of(b);
    chars_eq(&x, &y)
}

pub fn chars_eq(a: &[char], b: &[char]) -> (r: bool)
    ensures
        r == (a@ == b@),
{
    if a.len() != b.len() {
        return false;
    }
    let mut i: usize = 0;
    while i < a.len()
        invariant
            a@.len() == b@.len(),
            i <= a@.len(),
            forall|j: int| 0 <= j < i ==> a@[j] == b@[j],
        decreases a@.len() - i,
    {
        if a[i] != b[i] {
            return false;
        }
        i = i + 1;
    }
    assert(a@ =~= b@);
    true
}

/// Whether `n` occurs in `s` at position `i`.
pub fn occurs_at_exec(s: &[char], n: &[char], i: usize) -> (r: bool)
    ensures
        r == occurs_at(s@, n@, i as int),
{
    if i > s.len() || n.len() > s.len() - i {
        return false;
    }
    let mut j: usize = 0;
    while j < n.len()
        invariant
            i + n@.len() <= s@.len(),
            j <= n@.len(),
            forall|k: int| 0 <= k < j ==> s@[i + k] == n@[k],
        decreases n@.len() - j,
    {
        let sl = s.len();
        assert(i + j < sl);
        if s[i + j] != n[j] {
            assert(s@.subrange(i as int, i + n@.len())[j as int] != n@[j as int]);
            return false;
        }
        j = j + 1;
    }
    assert(s@.subrange(i as int, i + n@.len()) =~= n@);
    true
}

/// First index at which `n` occurs in `s`, if any.
pub fn find_exec(s: &[char], n: &[char]) -> (r: Option<usize>)
    ensures
        match r {
            Some(i) => find(s@, n@) == i as int,
            None => find(s@, n@) == -1,
        },
{
    if n.len() > s.len() {
        return None;
    }
    let last = s.len() - n.len();
    let mut i: usize = 0;
    loop
        invariant
            last + n@.len() == s@.len(),
            i <= last,
            find(s@, n@) == find_from(s@, n@, i as int),
        decreases last - i,
    {
        if occurs_at_exec(s, n, i) {
            return Some(i);
        }
        if i == last {
            assert(find_from(s@, n@, i + 1) == -1);
            return None;
        }
        i = i + 1;
    }
}

pub fn contains_exec(s: &[char], n: &[char]) -> (r: bool)
    ensures
        r == contains(s@, n@),
{
    find_exec(s, n).is_some()
}

/// Whether the text `s` contains `n`.
pub fn str_contains(s: &str, n: &str) -> (r: bool)
    ensures
        r == contains(s@, n@),
{
    let a = chars_of(s);
    let b = chars_of(n);
    contains_exec(&a, &b)
}

pub fn starts_with_exec(s: &[char], p: &[char]) -> (r: bool)
    ensures
        r == p@.is_prefix_of(s@),
{
    if p.len() > s.len() {
        return false;
    }
    let r = occurs_at_exec(s, p, 0);
    proof {
        if r {
            assert forall|i: int| 0 <= i < p@.len() implies p@[i] == s@[i] by {
                assert(s@.subrange(0, p@.len() as int)[i] == s@[i]);
            }
        } else {
            if p@.is_prefix_of(s@) {
                assert(s@.subrange(0, p@.len() as int) =~= p@);
            }
        }
    }
    r
}

pub fn ends_with_exec(s: &[char], p: &[char]) -> (r: bool)
    ensures
        r == p@.is_suffix_of(s@),
{
    if p.len() > s.len() {
        return false;
    }
    let start = s.len() - p.len();
    let r = occurs_at_exec(s, p, start);
    proof {
        if r {
            assert forall|i: int| 0 <= i < p@.len() implies p@[i] == s@[s@.len() - p@.len() + i] by {
                assert(s@.subrange(start as int, s@.len() as int)[i] == s@[start + i]);
            }
        } else {
            if p@.is_suffix_of(s@) {
                assert(s@.subrange(start as int, start + p@.len()) =~= p@);
            }
        }
    }
    r
}

pub fn slice_chars(s: &[char], from: usize, to: usize) -> (r: Vec<char>)
    requires
        from <= to <= s@.len(),
    ensures
        r@ == s@.subrange(from as int, to as int),
{
    let mut r: Vec<char> = Vec::new();
    let mut i = from;
    while i < to
        invariant
            from <= i <= to <= s@.len(),
            r@ == s@.subrange(from as int, i as int),
        decreases to - i,
    {
        r.push(s[i]);
        i = i + 1;
        assert(r@ =~= s@.subrange(from as int, i as int));
    }
    r
}

proof fn lemma_find_from_skip(s: Seq<char>, n: Seq<char>, i: int, base: int)
    requires
        0 <= base <= s.len(),
        0 <= i,
    ensures
        find_from(s.skip(base), n, i) == (if find_from(s, n, base + i) < 0 {
            -1
        } else {
            find_from(s, n, base + i) - base
        }),
    decreases s.len() + 1 - (base + i),
{
    let t = s.skip(base);
    if i + n.len() > t.len() {
    } else {
        assert(t.subrange(i, i + n.len()) =~= s.subrange(base + i, base + i + n.len()));
        if occurs_at(t, n, i) {
        } else {
            lemma_find_from_skip(s, n, i + 1, base);
        }
    }
}

pub proof fn lemma_find_from_none_before(s: Seq<char>, n: Seq<char>, i: int, k: int)
    requires
        0 <= i <= k,
        find_from(s, n, i) == -1 || find_from(s, n, i) > k,
        k + n.len() <= s.len(),
    ensures
        !occurs_at(s, n, k),
    decreases k - i,
{
    if i < k {
        lemma_find_from_none_before(s, n, i + 1, k);
    }
}

/// The lines of `s` (see `lines`).
pub fn lines_exec(s: &[char]) -> (r: Vec<Vec<char>>)
    ensures
        cviews(r@) == lines(s@),
{
    let mut out: Vec<Vec<char>> = Vec::new();
    let mut start: usize = 0;
    let mut i: usize = 0;
    let ghost nl: Seq<char> = seq!['\n'];
    assert(s@.skip(0) =~= s@);
    assert(cviews(out@) =~= Seq::<Seq<char>>::empty());
    while i < s.len()
        invariant
            start <= i <= s@.len(),
            nl == seq!['\n'],
            forall|k: int| start <= k < i ==> s@[k] != '\n',
            cviews(out@) + lines(s@.skip(start as int)) == lines(s@),
        decreases s@.len() - i,
    {
        if s[i] == '\n' {
            let mut line = slice_chars(s, start, i);
            if line.len() > 0 && line[line.len() - 1] == '\r' {
                line.pop();
            }
            proof {
                let t = s@.skip(start as int);
                let j = (i - start) as int;
                assert forall|k: int| 0 <= k < j implies !occurs_at(t, nl, k) by {
                    assert(t[k] == s@[start + k]);
                    if occurs_at(t, nl, k) {
                        assert(t.subrange(k, k + 1)[0] == t[k]);
                    }
                }
                assert(t.subrange(j, j + 1) =~= nl);
                assert(occurs_at(t, nl, j));
                lemma_find_first(t, nl, 0, j);
                assert(find(t, nl) == j);
                assert(t.take(j) =~= s@.subrange(start as int, i as int));
                assert(t.skip(j + 1) =~= s@.skip(i + 1));
                assert(line@ == strip_cr(t.take(j)));
                assert(cviews(out@.push(line)) =~= cviews(out@).push(line@));
            }
            out.push(line);
            start = i + 1;
        }
        i = i + 1;
    }
    if start < s.len() {
        let line = slice_chars(s, start, s.len());
        proof {
            let t = s@.skip(start as int);
            assert forall|k: int| 0 <= k < t.len() implies !occurs_at(t, nl, k) by {
                assert(t[k] == s@[start + k]);
                if occurs_at(t, nl, k) {
                    assert(t.subrange(k, k + 1)[0] == t[k]);
                }
            }
            lemma_find_none(t, nl, 0);
            assert(line@ =~= t);
            assert(lines(t) == seq![t]);
            assert(lines(s@.skip(s@.len() as int)) == Seq::<Seq<char>>::empty()) by {
                assert(s@.skip(s@.len() as int).len() == 0);
            }
            assert(cviews(out@.push(line)) =~= cviews(out@).push(line@));
        }
        out.push(line);
    } else {
        proof {
            assert(s@.skip(start as int).len() == 0);
        }
    }
    assert(cviews(out@) =~= lines(s@));
    out
}

pub proof fn lemma_find_first(s: Seq<char>, n: Seq<char>, i: int, j: int)
    requires
        0 <= i <= j,
        occurs_at(s, n, j),
        forall|k: int| i <= k < j ==> !occurs_at(s, n, k),
    ensures
        find_from(s, n, i) == j,
    decreases j - i,
{
    if i < j {
        lemma_find_first(s, n, i + 1, j);
    }
}

pub proof fn lemma_find_none(s: Seq<char>, n: Seq<char>, i: int)
    requires
        0 <= i,
        forall|k: int| i <= k ==> !occurs_at(s, n, k),
    ensures
        find_from(s, n, i) == -1,
    decreases s.len() + 1 - i,
{
    if i + n.len() <= s.len() {
        lemma_find_none(s, n, i + 1);
    }
}

/// `str::lines` over a text.
pub fn str_lines(s: &str) -> (r: Vec<Vec<char>>)
    ensures
        cviews(r@) == lines(s@),
{
    let v = chars_of(s);
    lines_exec(&v)
}

proof fn lemma_trim_start_skip(s: Seq<char>, i: int)
    requires
        0 <= i <= s.len(),
        forall|k: int| 0 <= k < i ==> char_is_whitespace(s[k]),
    ensures
        trim_start(s) == trim_start(s.skip(i)),
    decreases i,
{
    if i > 0 {
        assert(s.drop_first().skip(i - 1) =~= s.skip(i));
        lemma_trim_start_skip(s.drop_first(), i - 1);
    } else {
        assert(s.skip(0) =~= s);
    }
}

proof fn lemma_trim_end_take(s: Seq<char>, i: int)
    requires
        0 <= i <= s.len(),
        forall|k: int| i <= k < s.len() ==> char_is_whitespace(s[k]),
    ensures
        trim_end(s) == trim_end(s.take(i)),
    decreases s.len() - i,
{
    if i < s.len() {
        assert(s.drop_last().take(i) =~= s.take(i));
        lemma_trim_end_take(s.drop_last(), i);
    } else {
        assert(s.take(i) =~= s);
    }
}

/// `str::trim` over a character sequence.
pub fn trim_exec(s: &[char]) -> (r: Vec<char>)
    ensures
        r@ == trim(s@),
{
    let mut a: usize = 0;
    while a < s.len() && is_whitespace(s[a])
        invariant
            a <= s@.len(),
            forall|k: int| 0 <= k < a ==> char_is_whitespace(s@[k]),
        decreases s@.len() - a,
    {
        a = a + 1;
    }
    proof {
        lemma_trim_start_skip(s@, a as int);
        let t = s@.skip(a as int);
        if t.len() > 0 {
            assert(t[0] == s@[a as int]);
        }
    }
    let mut b: usize = s.len();
    while b > a && is_whitespace(s[b - 1])
        invariant
            a <= b <= s@.len(),
            forall|k: int| b <= k < s@.len() ==> char_is_whitespace(s@[k]),
        decreases b - a,
    {
        b = b - 1;
    }
    proof {
        let t = s@.skip(a as int);
        let m = (b - a) as int;
        assert forall|k: int| m <= k < t.len() implies char_is_whitespace(t[k]) by {
            assert(t[k] == s@[a + k]);
        }
        lemma_trim_end_take(t, m);
        let u = t.take(m);
        assert(u =~= s@.subrange(a as int, b as int));
        if u.len() > 0 {
            assert(u.last() == s@[b - 1]);
        }
    }
    slice_chars(s, a, b)
}

pub fn str_trim(s: &str) -> (r: String)
    ensures
        r@ == trim(s@),
{
    let v = chars_of(s);
    let t = trim_exec(&v);
    string_of(&t)
}

pub fn to_ascii_lower_exec(s: &[char]) -> (r: Vec<char>)
    ensures
        r@ == to_ascii_lower(s@),
{
    let mut r: Vec<char> = Vec::new();
    let mut i: usize = 0;
    while i < s.len()
        invariant
            i <= s@.len(),
            r@ == to_ascii_lower(s@.take(i as int)),
        decreases s@.len() - i,
    {
        let c = s[i];
        let l = if 'A' <= c && c <= 'Z' {
            let code: u32 = (c as u32) + 32;
            assert(code < 128);
            char_from_ascii_code(code)
        } else {
            c
        };
        r.push(l);
        i = i + 1;
        assert(r@ =~= to_ascii_lower(s@.take(i as int)));
    }
    assert(s@.take(s@.len() as int) =~= s@);
    r
}

/// The ASCII character with the given code.
pub(crate) fn char_from_ascii_code(code: u32) -> (c: char)
    requires
        code < 128,
    ensures
        c == code as char,
{
    let b: u8 = code as u8;
    b as char
}

pub proof fn lemma_decimal_nonempty(n: nat)
    ensures
        decimal(n).len() >= 1,
    decreases n,
{
    if n >= 10 {
        lemma_decimal_nonempty(n / 10);
    }
}

/// Appends the decimal rendering of `n`.
pub fn push_decimal(out: &mut String, n: u64)
    ensures
        final(out)@ == old(out)@ + decimal(n as nat),
    decreases n,
{
    if n >= 10 {
        push_decimal(out, n / 10);
    }
    let d: u64 = n % 10;
    let code: u32 = ('0' as u32) + (d as u32);
    let c = char_from_ascii_code(code);
    push_char(out, c);
    proof {
        if n >= 10 {
            assert(decimal(n as nat) == decimal((n / 10) as nat).push(digit_char((n % 10) as nat)));
        }
    }
    assert(final(out)@ =~= old(out)@ + decimal(n as nat));
}

/// Decimal rendering of `n` (`n.to_string()`).
pub fn decimal_string(n: u64) -> (r: String)
    ensures
        r@ == decimal(n as nat),
{
    let mut s = String::new();
    push_decimal(&mut s, n);
    assert(s@ =~= decimal(n as nat));
    s
}

/// Decimal rendering of a signed integer.
pub fn signed_decimal_string(n: i64) -> (r: String)
    ensures
        r@ == signed_decimal(n as int),
{
    if n < 0 {
        let mut s = String::new();
        push_char(&mut s, '-');
        let m: u64 = if n == i64::MIN {
            9223372036854775808u64
        } else {
            (-n) as u64
        };
        push_decimal(&mut s, m);
        assert(s@ =~= signed_decimal(n as int));
        s
    } else {
        decimal_string(n as u64)
    }
}

/// Appends `n` spaces.
pub fn push_spaces(out: &mut String, n: usize)
    ensures
        final(out)@ == old(out)@ + spaces(n as nat),
{
    let mut i: usize = 0;
    while i < n
        invariant
            i <= n,
            out@ == old(out)@ + spaces(i as nat),
        decreases n - i,
    {
        push_char(out, ' ');
        i = i + 1;
        assert(out@ =~= old(out)@ + spaces(i as nat));
    }
}

/// Appends `s` left-aligned in a field of `w` characters.
pub fn push_padded(out: &mut String, s: &str, w: usize)
    ensures
        final(out)@ == old(out)@ + pad_right(s@, w as nat),
{
    let n = s.unicode_len();
    out.append(s);
    if n < w {
        push_spaces(out, w - n);
    }
    assert(final(out)@ =~= old(out)@ + pad_right(s@, w as nat));
}

/// Joins `parts` with `sep` in between.
pub fn join_strings(parts: &Vec<String>, sep: &str) -> (r: String)
    ensures
        r@ == join(views(parts@), sep@),
{
    let mut r = String::new();
    let mut i: usize = 0;
    while i < parts.len()
        invariant
            i <= parts@.len(),
            r@ == join(views(parts@.take(i as int)), sep@),
        decreases parts@.len() - i,
    {
        proof {
            let a = views(parts@.take(i as int));
            let b = views(parts@.take(i + 1));
            assert(b.drop_last() =~= a);
            assert(b.last() == parts@[i as int]@);
        }
        if i > 0 {
            r.append(sep);
        }
        r.append(parts[i].as_str());
        i = i + 1;
        proof {
            let b = views(parts@.take(i as int));
            if i == 1 {
                assert(b.len() == 1);
                assert(r@ =~= b[0]);
            }
        }
    }
    assert(parts@.take(parts@.len() as int) =~= parts@);
    r
}

} // verus!

verus! {

/// The first of `ls` that contains `needle`, or the empty text.
pub open spec fn first_with(ls: Seq<Seq<char>>, needle: Seq<char>) -> Seq<char>
    decreases ls.len(),
{
    if ls.len() == 0 {
        seq![]
    } else if contains(ls[0], needle) {
        ls[0]
    } else {
        first_with(ls.drop_first(), needle)
    }
}

/// The first line of `text` that contains `needle`, or the empty text.
pub fn first_line_with(text: &str, needle: &str) -> (r: Vec<char>)
    ensures
        r@ == first_with(lines(text@), needle@),
{
    let ls = str_lines(text);
    let n = chars_of(needle);
    let mut i: usize = 0;
    assert(cviews(ls@).skip(0) =~= cviews(ls@));
    while i < ls.len()
        invariant
            i <= ls@.len(),
            n@ == needle@,
            cviews(ls@) == lines(text@),
            first_with(lines(text@), needle@) == first_with(cviews(ls@).skip(i as int), needle@),
        decreases ls@.len() - i,
    {
        let ghost rest = cviews(ls@).skip(i as int);
        assert(rest[0] == ls@[i as int]@);
        if contains_exec(&ls[i], &n) {
            return slice_chars(&ls[i], 0, ls[i].len());
        }
        assert(rest.drop_first() =~= cviews(ls@).skip(i + 1));
        i = i + 1;
    }
    Vec::new()
}

} // verus!

verus! {

/// Whether `Debug` writes character `i` of `s` as a `\u{..}` escape (a grapheme extender or
/// a character that is not printable); the six characters with a short escape are written
/// by those.
pub uninterp spec fn debug_unicode_escaped(s: Seq<char>, i: int) -> bool;

/// The lower-case hexadecimal digits of `n`, without leading zeros.
pub open spec fn hex_digits(n: nat) -> Seq<char>
    decreases n,
{
    let digits = seq!['0', '1', '2', '3', '4', '5', '6', '7', '8', '9', 'a', 'b', 'c', 'd', 'e', 'f'];
    if n < 16 {
        seq![digits[n as int]]
    } else {
        hex_digits(n / 16).push(digits[(n % 16) as int])
    }
}

/// How `Debug` writes character `i` of `s` inside a string literal (`char::escape_debug`
/// with double quotes escaped and single quotes not).
pub open spec fn debug_char(s: Seq<char>, i: int) -> Seq<char> {
    debug_char_with(s, i, |j: int| debug_unicode_escaped(s, j))
}

/// `debug_char` with the `\u{..}` choice given by `uni`.
pub open spec fn debug_char_with(s: Seq<char>, i: int, uni: spec_fn(int) -> bool) -> Seq<char> {
    let c = s[i];
    if c == '\0' {
        seq!['\\', '0']
    } else if c == '\t' {
        seq!['\\', 't']
    } else if c == '\r' {
        seq!['\\', 'r']
    } else if c == '\n' {
        seq!['\\', 'n']
    } else if c == '\\' {
        seq!['\\', '\\']
    } else if c == '"' {
        seq!['\\', '"']
    } else if uni(i) {
        seq!['\\', 'u', '{'] + hex_digits(c as nat) + seq!['}']
    } else {
        seq![c]
    }
}

/// The characters of `s` from index `i` on, as `Debug` writes them.
pub open spec fn debug_chars(s: Seq<char>, i: int) -> Seq<char>
    decreases s.len() - i,
{
    if i < 0 || i >= s.len() {
        seq![]
    } else {
        debug_char(s, i) + debug_chars(s, i + 1)
    }
}

/// How `Debug` renders a string: double-quoted, each character written by `debug_char`.
pub open spec fn debug_quoted(s: Seq<char>) -> Seq<char> {
    seq!['"'] + debug_chars(s, 0) + seq!['"']
}

/// `format!("{s:?}")` of a string: the characters as `char::escape_debug` writes them
/// between double quotes, where whether a character takes the `\u{..}` form is named
/// `debug_unicode_escaped`.
#[verifier::external_body]
pub(crate) fn debug_str(s: &str) -> (r: String)
    ensures
        r@ == debug_quoted(s@),
        forall|i: int| 0 <= i < s@.len() && #[trigger] debug_unicode_escaped(s@, i) ==> r@.len() >= 6,
{
    format!("{s:?}")
}

// ---------------------------------------------------------------- colons in generated text

/// Every `:` of `s` is followed, within `s`, by a character other than `h` (so `s` holds
/// no `:h`, and it stays so when anything is appended).
pub open spec fn colon_safe(s: Seq<char>) -> bool {
    forall|k: int| 0 <= k < s.len() && #[trigger] s[k] == ':' ==> k + 1 < s.len() && s[k + 1] != 'h'
}

/// How `Debug` renders a list of strings: `[` then the quoted items separated by `, ` then `]`.
pub open spec fn debug_list(v: Seq<Seq<char>>) -> Seq<char> {
    seq!['['] + join(v.map_values(|s: Seq<char>| debug_quoted(s)), ", "@) + seq![']']
}

pub fn debug_string_list(v: &Vec<String>) -> (r: String)
    ensures
        r@ == debug_list(views(v@)),
{
    let mut parts: Vec<String> = Vec::new();
    let mut i: usize = 0;
    while i < v.len()
        invariant
            i <= v@.len(),
            parts@.len() == i,
            forall|j: int| 0 <= j < i ==> #[trigger] parts@[j]@ == debug_quoted(v@[j]@),
        decreases v@.len() - i,
    {
        parts.push(debug_str(v[i].as_str()));
        i = i + 1;
    }
    let body = join_strings(&parts, ", ");
    assert(views(parts@) =~= views(v@).map_values(|s: Seq<char>| debug_quoted(s)));
    let mut r = String::from_str("[");
    r.append(body.as_str());
    r.append("]");
    proof {
        reveal_strlit("[");
        reveal_strlit("]");
    }
    r
}

} // verus!

verus! {

/// Lexicographic order by character code (the order of `String` comparison).
pub open spec fn lex_lt(a: Seq<char>, b: Seq<char>) -> bool
    decreases a.len(),
{
    if b.len() == 0 {
        false
    } else if a.len() == 0 {
        true
    } else if a[0] != b[0] {
        (a[0] as int) < (b[0] as int)
    } else {
        lex_lt(a.drop_first(), b.drop_first())
    }
}

pub proof fn lemma_lex_irreflexive(a: Seq<char>)
    ensures
        !lex_lt(a, a),
    decreases a.len(),
{
    if a.len() > 0 {
        lemma_lex_irreflexive(a.drop_first());
    }
}

pub proof fn lemma_lex_transitive(a: Seq<char>, b: Seq<char>, c: Seq<char>)
    requires
        lex_lt(a, b),
        lex_lt(b, c),
    ensures
        lex_lt(a, c),
    decreases a.len(),
{
    if a.len() > 0 && b.len() > 0 && c.len() > 0 {
        if a[0] == b[0] && b[0] == c[0] {
            lemma_lex_transitive(a.drop_first(), b.drop_first(), c.drop_first());
        }
    }
}

pub proof fn lemma_lex_total(a: Seq<char>, b: Seq<char>)
    requires
        a != b,
    ensures
        lex_lt(a, b) || lex_lt(b, a),
    decreases a.len(),
{
    if a.len() > 0 && b.len() > 0 && a[0] == b[0] {
        if a.drop_first() == b.drop_first() {
            assert(a =~= seq![a[0]] + a.drop_first());
            assert(b =~= seq![b[0]] + b.drop_first());
        }
        lemma_lex_total(a.drop_first(), b.drop_first());
    } else if a.len() > 0 && b.len() > 0 {
        assert((a[0] as int) != (b[0] as int));
    } else if a.len() == 0 && b.len() == 0 {
        assert(a =~= b);
    }
}

pub fn lex_less(a: &[char], b: &[char]) -> (r: bool)
    ensures
        r == lex_lt(a@, b@),
{
    let mut i: usize = 0;
    assert(a@.skip(0) =~= a@);
    assert(b@.skip(0) =~= b@);
    while i < a.len() && i < b.len() && a[i] == b[i]
        invariant
            i <= a@.len(),
            i <= b@.len(),
            lex_lt(a@, b@) == lex_lt(a@.skip(i as int), b@.skip(i as int)),
        decreases a@.len() - i,
    {
        proof {
            let x = a@.skip(i as int);
            let y = b@.skip(i as int);
            assert(x.drop_first() =~= a@.skip(i + 1));
            assert(y.drop_first() =~= b@.skip(i + 1));
        }
        i = i + 1;
    }
    proof {
        let x = a@.skip(i as int);
        let y = b@.skip(i as int);
        if x.len() > 0 {
            assert(x[0] == a@[i as int]);
        }
        if y.len() > 0 {
            assert(y[0] == b@[i as int]);
        }
    }
    if i == b.len() {
        false
    } else if i == a.len() {
        true
    } else {
        a[i] < b[i]
    }
}

fn less_at(v: &Vec<String>, p: usize, s: &Vec<char>) -> (r: bool)
    requires
        p < v@.len(),
    ensures
        r == lex_lt(v@[p as int]@, s@),
{
    let e = chars_of(v[p].as_str());
    lex_less(&e, s)
}

/// Strictly ascending in lexicographic order (so also free of duplicates).
pub open spec fn sorted_unique(v: Seq<Seq<char>>) -> bool {
    forall|i: int, j: int| 0 <= i < j < v.len() ==> lex_lt(v[i], v[j])
}

/// `s` with `x` put in its lexicographic place, unless it is there already: the ordered set
/// that `BTreeSet::insert` keeps.
pub open spec fn ins_name(s: Seq<Seq<char>>, x: Seq<char>) -> Seq<Seq<char>>
    decreases s.len(),
{
    if s.len() == 0 {
        seq![x]
    } else if s[0] == x {
        s
    } else if lex_lt(x, s[0]) {
        seq![x] + s
    } else {
        seq![s[0]] + ins_name(s.drop_first(), x)
    }
}

/// Every element of `xs`, in turn, put into the ordered set `s`.
pub open spec fn ins_all(s: Seq<Seq<char>>, xs: Seq<Seq<char>>) -> Seq<Seq<char>>
    decreases xs.len(),
{
    if xs.len() == 0 {
        s
    } else {
        ins_name(ins_all(s, xs.drop_last()), xs.last())
    }
}

proof fn lemma_ins_name_at(s: Seq<Seq<char>>, x: Seq<char>, p: int)
    requires
        0 <= p <= s.len(),
        forall|k: int| 0 <= k < p ==> lex_lt(#[trigger] s[k], x),
        p < s.len() ==> (s[p] == x || lex_lt(x, s[p])),
    ensures
        ins_name(s, x) == (if p < s.len() && s[p] == x { s } else { s.insert(p, x) }),
    decreases p,
{
    if p == 0 {
        if s.len() == 0 {
            assert(s.insert(0, x) =~= seq![x]);
        } else if s[0] != x {
            assert(s.insert(0, x) =~= seq![x] + s);
        }
    } else {
        let t = s.drop_first();
        assert(lex_lt(s[0], x));
        lemma_lex_irreflexive(x);
        if lex_lt(x, s[0]) {
            lemma_lex_transitive(x, s[0], x);
        }
        assert forall|k: int| 0 <= k < p - 1 implies lex_lt(#[trigger] t[k], x) by {
            assert(t[k] == s[k + 1]);
        }
        lemma_ins_name_at(t, x, p - 1);
        if p < s.len() && s[p] == x {
            assert(seq![s[0]] + t =~= s);
        } else {
            assert(seq![s[0]] + t.insert(p - 1, x) =~= s.insert(p, x));
        }
    }
}

/// Inserts `s` into a strictly ascending list, keeping it strictly ascending.
pub fn insert_sorted(v: &mut Vec<String>, s: String)
    requires
        sorted_unique(views(old(v)@)),
    ensures
        sorted_unique(views(final(v)@)),
        views(final(v)@) == ins_name(views(old(v)@), s@),
        forall|x: Seq<char>| views(final(v)@).contains(x) <==> (views(old(v)@).contains(x) || x == s@),
{
    let sc = chars_of(s.as_str());
    let mut p: usize = 0;
    let ghost old_views = views(v@);
    while p < v.len() && less_at(v, p, &sc)
        invariant
            p <= v@.len(),
            views(v@) == old_views,
            sc@ == s@,
            forall|k: int| 0 <= k < p ==> lex_lt(#[trigger] v@[k]@, s@),
        decreases v@.len() - p,
    {
        p = p + 1;
    }
    if p < v.len() {
        let e = chars_of(v[p].as_str());
        if chars_eq(&e, &sc) {
            proof {
                assert(views(v@)[p as int] == s@);
                lemma_ins_name_at(old_views, s@, p as int);
                assert forall|x: Seq<char>| views(v@).contains(x) <==> (old_views.contains(x) || x == s@) by {
                    if x == s@ {
                        assert(views(v@)[p as int] == x);
                    }
                }
            }
            return;
        }
        proof {
            lemma_lex_total(v@[p as int]@, s@);
        }
    }
    proof {
        assert forall|k: int| 0 <= k < p implies lex_lt(#[trigger] old_views[k], s@) by {
            assert(old_views[k] == v@[k]@);
        }
        if p < old_views.len() {
            assert(old_views[p as int] == v@[p as int]@);
        }
        lemma_ins_name_at(old_views, s@, p as int);
    }
    let ghost before = v@;
    let ghost sv = s@;
    v.insert(p, s);
    proof {
        let nv = views(v@);
        assert(sorted_unique(old_views));
        if p < old_views.len() {
            assert(old_views[p as int] == before[p as int]@);
            assert(lex_lt(sv, old_views[p as int]));
        }
        assert(nv =~= old_views.insert(p as int, s@));
        assert forall|i: int, j: int| 0 <= i < j < nv.len() implies lex_lt(nv[i], nv[j]) by {
            if j < p {
                assert(nv[i] == old_views[i] && nv[j] == old_views[j]);
            } else if j == p {
                assert(nv[i] == before[i]@);
            } else if i == p {
                assert(nv[j] == old_views[j - 1]);
                if j - 1 > p {
                    assert(lex_lt(old_views[p as int], old_views[j - 1]));
                    lemma_lex_transitive(s@, old_views[p as int], old_views[j - 1]);
                }
            } else if i < p {
                assert(nv[i] == old_views[i]);
                assert(nv[j] == old_views[j - 1]);
            } else {
                assert(nv[i] == old_views[i - 1]);
                assert(nv[j] == old_views[j - 1]);
            }
        }
        assert forall|x: Seq<char>| nv.contains(x) <==> (old_views.contains(x) || x == s@) by {
            if nv.contains(x) {
                let k = choose|k: int| 0 <= k < nv.len() && nv[k] == x;
                if k < p {
                    assert(old_views[k] == x);
                } else if k > p {
                    assert(old_views[k - 1] == x);
                }
            }
            if old_views.contains(x) {
                let k = choose|k: int| 0 <= k < old_views.len() && old_views[k] == x;
                if k < p {
                    assert(nv[k] == x);
                } else {
                    assert(nv[k + 1] == x);
                }
            }
            if x == s@ {
                assert(nv[p as int] == x);
            }
        }
    }
}

} // verus!
