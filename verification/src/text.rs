//! Character classes and small string operations the library is built on.
use vstd::prelude::*;

verus! {

/// `char::is_control`: the Unicode general category Cc, that is
/// U+0000..=U+001F and U+007F..=U+009F.
pub open spec fn is_control(c: char) -> bool {
    (c as u32) <= 0x1f || (0x7f <= (c as u32) && (c as u32) <= 0x9f)
}

pub fn char_is_control(c: char) -> (r: bool)
    ensures
        r == is_control(c),
{
    c <= '\u{1f}' || ('\u{7f}' <= c && c <= '\u{9f}')
}

/// Appends one character (`String::push`).
#[verifier::external_body]
pub(crate) fn push_char(s: &mut String, c: char)
    ensures
        final(s)@ == old(s)@.push(c),
{
    s.push(c);
}

/// String equality (`<str as PartialEq>::eq`): true exactly when both hold
/// the same characters.
#[verifier::external_body]
pub(crate) fn str_equal(a: &str, b: &str) -> (r: bool)
    ensures
        r == (a@ == b@),
{
    a == b
}

/// `char::is_whitespace`: the Unicode White_Space property.
pub open spec fn is_whitespace(c: char) -> bool {
    let u = c as u32;
    (0x09 <= u && u <= 0x0d) || u == 0x20 || u == 0x85 || u == 0xa0 || u == 0x1680 || (0x2000
        <= u && u <= 0x200a) || u == 0x2028 || u == 0x2029 || u == 0x202f || u == 0x205f || u
        == 0x3000
}

pub fn char_is_whitespace(c: char) -> (r: bool)
    ensures
        r == is_whitespace(c),
{
    ('\u{9}' <= c && c <= '\u{d}') || c == ' ' || c == '\u{85}' || c == '\u{a0}' || c
        == '\u{1680}' || ('\u{2000}' <= c && c <= '\u{200a}') || c == '\u{2028}' || c
        == '\u{2029}' || c == '\u{202f}' || c == '\u{205f}' || c == '\u{3000}'
}

/// `a` comes before `b` in `str`'s order: lexicographic by character code
/// point (the same order as by UTF-8 bytes), a proper prefix first.
pub open spec fn text_lt(a: Seq<char>, b: Seq<char>) -> bool
    decreases a.len(),
{
    if b.len() == 0 {
        false
    } else if a.len() == 0 {
        true
    } else if a[0] != b[0] {
        a[0] < b[0]
    } else {
        text_lt(a.drop_first(), b.drop_first())
    }
}

pub proof fn lemma_text_lt_irreflexive(a: Seq<char>)
    ensures
        !text_lt(a, a),
    decreases a.len(),
{
    if a.len() > 0 {
        lemma_text_lt_irreflexive(a.drop_first());
    }
}

pub proof fn lemma_text_lt_transitive(a: Seq<char>, b: Seq<char>, c: Seq<char>)
    requires
        text_lt(a, b),
        text_lt(b, c),
    ensures
        text_lt(a, c),
    decreases a.len(),
{
    if a.len() > 0 && b.len() > 0 && c.len() > 0 && a[0] == b[0] && b[0] == c[0] {
        lemma_text_lt_transitive(a.drop_first(), b.drop_first(), c.drop_first());
    }
}

pub proof fn lemma_text_lt_total(a: Seq<char>, b: Seq<char>)
    requires
        a != b,
    ensures
        text_lt(a, b) || text_lt(b, a),
    decreases a.len(),
{
    if a.len() > 0 && b.len() > 0 && a[0] == b[0] {
        if a.drop_first() == b.drop_first() {
            assert(a == seq![a[0]] + a.drop_first());
            assert(b == seq![b[0]] + b.drop_first());
        }
        lemma_text_lt_total(a.drop_first(), b.drop_first());
    } else if a.len() == 0 && b.len() == 0 {
        assert(a == b);
    }
}

/// Whether `a` comes before `b` in `str`'s order.
pub fn str_less(a: &str, b: &str) -> (r: bool)
    ensures
        r == text_lt(a@, b@),
{
    let n = a.unicode_len();
    let m = b.unicode_len();
    let mut i: usize = 0;
    proof {
        assert(a@.skip(0) == a@);
        assert(b@.skip(0) == b@);
    }
    while i < n && i < m
        invariant
            n == a@.len(),
            m == b@.len(),
            i <= n,
            i <= m,
            text_lt(a@, b@) == text_lt(a@.skip(i as int), b@.skip(i as int)),
        decreases n - i,
    {
        let x = a.get_char(i);
        let y = b.get_char(i);
        assert(a@.skip(i as int)[0] == x);
        assert(b@.skip(i as int)[0] == y);
        if x != y {
            return x < y;
        }
        proof {
            assert(a@.skip(i as int).drop_first() == a@.skip(i + 1));
            assert(b@.skip(i as int).drop_first() == b@.skip(i + 1));
        }
        i = i + 1;
    }
    i < m
}

/// Every character of `s` is whitespace (so `s.trim()` is empty).
pub open spec fn is_blank(s: Seq<char>) -> bool {
    forall|i: int| 0 <= i < s.len() ==> is_whitespace(#[trigger] s[i])
}

pub fn str_is_blank(s: &str) -> (r: bool)
    ensures
        r == is_blank(s@),
{
    let n = s.unicode_len();
    let mut i: usize = 0;
    while i < n
        invariant
            n == s@.len(),
            i <= n,
            forall|j: int| 0 <= j < i ==> is_whitespace(#[trigger] s@[j]),
        decreases n - i,
    {
        if !char_is_whitespace(s.get_char(i)) {
            return false;
        }
        i = i + 1;
    }
    true
}

/// The decimal digit character for `d < 10`.
pub open spec fn digit_char(d: int) -> char {
    (48 + d) as char
}

/// The decimal text of `n`, as `u64`'s `Display` writes it.
pub open spec fn decimal(n: u64) -> Seq<char>
    decreases n,
{
    if n < 10 {
        seq![digit_char(n as int)]
    } else {
        decimal(n / 10).push(digit_char((n % 10) as int))
    }
}

fn digit(d: u64) -> (c: char)
    requires
        d < 10,
    ensures
        c == digit_char(d as int),
{
    let b: u8 = 48u8 + (d as u8);
    b as char
}

/// Appends the decimal text of `n` to `out`.
pub fn push_decimal(out: &mut String, n: u64)
    ensures
        final(out)@ == old(out)@ + decimal(n),
    decreases n,
{
    if n >= 10 {
        push_decimal(out, n / 10);
    }
    push_char(out, digit(n % 10));
    proof {
        if n < 10 {
            assert(old(out)@ + decimal(n) == old(out)@.push(digit_char(n as int)));
        } else {
            assert(old(out)@ + decimal(n) == (old(out)@ + decimal(n / 10)).push(
                digit_char((n % 10) as int),
            ));
        }
    }
}

/// A line as `str::lines` gives it: without its `\n` and one `\r` before it.
pub open spec fn line_text(cur: Seq<char>) -> Seq<char> {
    if cur.len() > 0 && cur.last() == '\r' {
        cur.drop_last()
    } else {
        cur
    }
}

/// The complete lines of a text and the text after its last `\n`.
pub open spec fn split_lines(s: Seq<char>) -> (Seq<Seq<char>>, Seq<char>)
    decreases s.len(),
{
    if s.len() == 0 {
        (Seq::empty(), Seq::empty())
    } else {
        let (ls, cur) = split_lines(s.drop_last());
        if s.last() == '\n' {
            (ls.push(line_text(cur)), Seq::empty())
        } else {
            (ls, cur.push(s.last()))
        }
    }
}

/// The lines of a text, as `str::lines` gives them: a last line without
/// `\n` counts when it is not empty, and keeps any `\r` it ends with.
pub open spec fn text_lines(s: Seq<char>) -> Seq<Seq<char>> {
    let (ls, cur) = split_lines(s);
    if cur.len() > 0 {
        ls.push(cur)
    } else {
        ls
    }
}

/// Drops the last character (`String::pop`).
#[verifier::external_body]
pub(crate) fn pop_char(s: &mut String) -> (r: Option<char>)
    ensures
        old(s)@.len() == 0 ==> r is None && final(s)@ == old(s)@,
        old(s)@.len() > 0 ==> r == Some(old(s)@.last()) && final(s)@ == old(s)@.drop_last(),
{
    s.pop()
}

/// The lines of `s`, as `str::lines` gives them.
pub fn split_text_lines(s: &str) -> (r: Vec<String>)
    ensures
        r@.map_values(|l: String| l@) == text_lines(s@),
{
    let mut out: Vec<String> = Vec::new();
    let mut cur = String::new();
    proof {
        assert(s@.take(0) == Seq::<char>::empty());
        assert(out@.map_values(|l: String| l@) =~= Seq::<Seq<char>>::empty());
    }
    for c in it: s.chars()
        invariant
            it.seq() == s@,
            split_lines(s@.take(it.index())).1 == cur@,
            out@.map_values(|l: String| l@) == split_lines(s@.take(it.index())).0,
    {
        proof {
            assert(s@.take(it.index() + 1).drop_last() == s@.take(it.index()));
            assert(s@.take(it.index() + 1).last() == c);
        }
        if c == '\n' {
            if cur.unicode_len() > 0 && cur.get_char(cur.unicode_len() - 1) == '\r' {
                pop_char(&mut cur);
            }
            let ghost before = out@;
            out.push(cur);
            assert(out@.map_values(|l: String| l@) =~= before.map_values(|l: String| l@).push(out@.last()@));
            cur = String::new();
        } else {
            push_char(&mut cur, c);
        }
    }
    proof {
        assert(s@.take(s@.len() as int) == s@);
    }
    if cur.unicode_len() > 0 {
        let ghost before = out@;
        out.push(cur);
        assert(out@.map_values(|l: String| l@) =~= before.map_values(|l: String| l@).push(out@.last()@));
    }
    out
}

/// `s` without its leading whitespace.
pub open spec fn trim_start(s: Seq<char>) -> Seq<char>
    decreases s.len(),
{
    if s.len() > 0 && is_whitespace(s[0]) {
        trim_start(s.drop_first())
    } else {
        s
    }
}

/// `s` without its trailing whitespace.
pub open spec fn trim_end(s: Seq<char>) -> Seq<char>
    decreases s.len(),
{
    if s.len() > 0 && is_whitespace(s.last()) {
        trim_end(s.drop_last())
    } else {
        s
    }
}

/// `str::trim`: `s` without leading and trailing whitespace.
pub open spec fn trimmed(s: Seq<char>) -> Seq<char> {
    trim_end(trim_start(s))
}

proof fn lemma_trim_start_skip(s: Seq<char>, i: int)
    requires
        0 <= i <= s.len(),
        forall|j: int| 0 <= j < i ==> is_whitespace(#[trigger] s[j]),
    ensures
        trim_start(s) == trim_start(s.skip(i)),
    decreases i,
{
    if i > 0 {
        assert(s.drop_first().skip(i - 1) == s.skip(i));
        assert forall|j: int| 0 <= j < i - 1 implies is_whitespace(#[trigger] s.drop_first()[j]) by {
            assert(s.drop_first()[j] == s[j + 1]);
        }
        lemma_trim_start_skip(s.drop_first(), i - 1);
    } else {
        assert(s.skip(0) == s);
    }
}

proof fn lemma_trim_end_take(s: Seq<char>, i: int)
    requires
        0 <= i <= s.len(),
        forall|j: int| i <= j < s.len() ==> is_whitespace(#[trigger] s[j]),
    ensures
        trim_end(s) == trim_end(s.take(i)),
    decreases s.len() - i,
{
    if i < s.len() {
        assert(s.drop_last().take(i) == s.take(i));
        lemma_trim_end_take(s.drop_last(), i);
    } else {
        assert(s.take(i) == s);
    }
}

/// `s` with leading and trailing whitespace removed (`str::trim`).
pub fn trim(s: &str) -> (r: &str)
    ensures
        r@ == trimmed(s@),
{
    let n = s.unicode_len();
    let mut a: usize = 0;
    while a < n && char_is_whitespace(s.get_char(a))
        invariant
            n == s@.len(),
            a <= n,
            forall|j: int| 0 <= j < a ==> is_whitespace(#[trigger] s@[j]),
        decreases n - a,
    {
        a = a + 1;
    }
    proof {
        lemma_trim_start_skip(s@, a as int);
    }
    let ghost t = s@.skip(a as int);
    let mut b: usize = n;
    while b > a && char_is_whitespace(s.get_char(b - 1))
        invariant
            n == s@.len(),
            a <= b <= n,
            t == s@.skip(a as int),
            forall|j: int| b <= j < n ==> is_whitespace(#[trigger] s@[j]),
        decreases b,
    {
        b = b - 1;
    }
    proof {
        assert forall|j: int| (b - a) <= j < t.len() implies is_whitespace(#[trigger] t[j]) by {
            assert(t[j] == s@[j + a]);
        }
        lemma_trim_end_take(t, (b - a) as int);
        assert(t.take((b - a) as int) == s@.subrange(a as int, b as int));
        if a == b {
        } else {
            assert(!is_whitespace(t[0])) by {
                assert(t[0] == s@[a as int]);
            }
            assert(t.take((b - a) as int)[0] == t[0]);
            assert(!is_whitespace(t.take((b - a) as int).last()));
        }
        if a < n {
            assert(!is_whitespace(s@.skip(a as int)[0]));
        } else {
            assert(s@.skip(a as int).len() == 0);
        }
    }
    s.substring_char(a, b)
}

/// The text that `{:?}` gives for a string: quoted, with `str::escape_debug`
/// escapes.
pub uninterp spec fn debug_text(s: Seq<char>) -> Seq<char>;

/// Formats a string with `{:?}` (`<str as Debug>::fmt`). Trusted: the result
/// is the named debug text of the argument.
#[verifier::external_body]
pub(crate) fn debug_quoted(s: &str) -> (r: String)
    ensures
        r@ == debug_text(s@),
{
    format!("{:?}", s)
}

} // verus!
