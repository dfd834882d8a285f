//! Character-level views of strings, and the few `std` string operations the
//! library relies on.

use vstd::prelude::*;

verus! {

/// The characters of `s`, in order.
pub fn chars_of(s: &str) -> (chars: Vec<char>)
    ensures
        chars@ == s@,
{
    broadcast use vstd::string::axiom_spec_iter;
    let mut chars: Vec<char> = Vec::new();
    for c in it: s.chars()
        invariant
            it.seq() == s@,
            chars@ == it.seq().take(it.index() as int),
    {
        chars.push(c);
        proof {
            assert(chars@ =~= it.seq().take(it.index() + 1));
        }
    }
    proof {
        assert(chars@ =~= s@);
    }
    chars
}

/// A `String` holding exactly `chars` (`FromIterator<char>` for `String`).
#[verifier::external_body]
pub fn string_from_chars(chars: &Vec<char>) -> (s: String)
    ensures
        s@ == chars@,
{
    chars.iter().collect()
}

/// Appends one character (`String::push`).
#[verifier::external_body]
pub fn push_char(s: &mut String, c: char)
    ensures
        final(s)@ == old(s)@.push(c),
{
    s.push(c)
}

/// The characters of each string of `texts`.
pub open spec fn texts_of(texts: Seq<String>) -> Seq<Seq<char>> {
    texts.map_values(|t: String| t@)
}

pub open spec fn is_ascii_digit(c: char) -> bool {
    '0' <= c && c <= '9'
}

/// Whether `c` has the Unicode `White_Space` property: U+0009 to U+000D,
/// U+0020, U+0085, U+00A0, U+1680, U+2000 to U+200A, U+2028, U+2029, U+202F,
/// U+205F and U+3000.
pub open spec fn unicode_white_space(c: char) -> bool {
    let n = c as u32;
    ||| 0x09 <= n <= 0x0D
    ||| n == 0x20
    ||| n == 0x85
    ||| n == 0xA0
    ||| n == 0x1680
    ||| 0x2000 <= n <= 0x200A
    ||| n == 0x2028
    ||| n == 0x2029
    ||| n == 0x202F
    ||| n == 0x205F
    ||| n == 0x3000
}

/// Whether `c` is a `White_Space` character (the test of `char::is_whitespace`).
pub fn is_whitespace(c: char) -> (white: bool)
    ensures
        white == unicode_white_space(c),
{
    let n = c as u32;
    if n < 0x80 {
        (0x09 <= n && n <= 0x0D) || n == 0x20
    } else if n < 0x2000 {
        n == 0x85 || n == 0xA0 || n == 0x1680
    } else {
        n <= 0x200A || n == 0x2028 || n == 0x2029 || n == 0x202F || n == 0x205F || n == 0x3000
    }
}

/// `s` without its leading `White_Space` characters.
pub open spec fn trimmed_start(s: Seq<char>) -> Seq<char>
    decreases s.len(),
{
    if s.len() > 0 && unicode_white_space(s[0]) {
        trimmed_start(s.drop_first())
    } else {
        s
    }
}

/// `s` without its trailing `White_Space` characters.
pub open spec fn trimmed_end(s: Seq<char>) -> Seq<char>
    decreases s.len(),
{
    if s.len() > 0 && unicode_white_space(s.last()) {
        trimmed_end(s.drop_last())
    } else {
        s
    }
}

/// `s` without leading and trailing `White_Space` characters.
pub open spec fn trimmed(s: Seq<char>) -> Seq<char> {
    trimmed_end(trimmed_start(s))
}

proof fn lemma_trimmed_start_step(s: Seq<char>, start: int)
    requires
        0 <= start < s.len(),
        unicode_white_space(s[start]),
    ensures
        trimmed_start(s.subrange(start, s.len() as int)) == trimmed_start(s.subrange(start + 1, s.len() as int)),
{
    assert(s.subrange(start, s.len() as int).drop_first() =~= s.subrange(start + 1, s.len() as int));
}

proof fn lemma_trimmed_end_step(s: Seq<char>, start: int, end: int)
    requires
        0 <= start < end <= s.len(),
        unicode_white_space(s[end - 1]),
    ensures
        trimmed_end(s.subrange(start, end)) == trimmed_end(s.subrange(start, end - 1)),
{
    assert(s.subrange(start, end).drop_last() =~= s.subrange(start, end - 1));
}

/// `s` without its leading and trailing `White_Space` characters (what
/// `str::trim` gives).
pub fn trim(s: &str) -> (t: String)
    ensures
        t@ == trimmed(s@),
{
    let chars = chars_of(s);
    let ghost whole = s@;
    let n = chars.len();
    let mut start: usize = 0;
    assert(whole.subrange(0, n as int) =~= whole);
    while start < n && is_whitespace(chars[start])
        invariant
            chars@ == whole,
            n == whole.len(),
            start <= n,
            trimmed_start(whole) == trimmed_start(whole.subrange(start as int, n as int)),
        decreases n - start,
    {
        proof {
            lemma_trimmed_start_step(whole, start as int);
        }
        start = start + 1;
    }
    let ghost rest = whole.subrange(start as int, n as int);
    assert(trimmed_start(rest) == rest);
    assert(rest.subrange(0, rest.len() as int) =~= rest);
    let mut end: usize = n;
    while end > start && is_whitespace(chars[end - 1])
        invariant
            chars@ == whole,
            n == whole.len(),
            start <= end <= n,
            rest == whole.subrange(start as int, n as int),
            trimmed_end(rest) == trimmed_end(whole.subrange(start as int, end as int)),
        decreases end,
    {
        proof {
            lemma_trimmed_end_step(whole, start as int, end as int);
        }
        end = end - 1;
    }
    let ghost kept = whole.subrange(start as int, end as int);
    assert(trimmed_end(kept) == kept);
    let mut out: Vec<char> = Vec::new();
    let mut k: usize = start;
    while k < end
        invariant
            chars@ == whole,
            start <= k <= end <= n,
            n == whole.len(),
            out@ == whole.subrange(start as int, k as int),
        decreases end - k,
    {
        out.push(chars[k]);
        proof {
            assert(out@ =~= whole.subrange(start as int, k + 1));
        }
        k = k + 1;
    }
    string_from_chars(&out)
}

/// What `str::to_lowercase` gives for a string (Unicode lowercase mapping).
pub uninterp spec fn lowercased(s: Seq<char>) -> Seq<char>;

/// `str::to_lowercase`.
#[verifier::external_body]
pub fn to_lowercase(s: &str) -> (lower: String)
    ensures
        lower@ == lowercased(s@),
{
    s.to_lowercase()
}

/// The message of the `std::str::Utf8Error` that `std::str::from_utf8` gives for `bytes`.
pub uninterp spec fn utf8_error_text(bytes: Seq<u8>) -> Seq<char>;

/// `std::str::from_utf8`: the text that `bytes` encode when they are valid
/// UTF-8, and the error's message otherwise.
#[verifier::external_body]
pub fn str_from_utf8(bytes: &[u8]) -> (r: Result<&str, String>)
    ensures
        r is Ok <==> vstd::utf8::valid_utf8(bytes@),
        r matches Ok(text) ==> text@ == vstd::utf8::decode_utf8(bytes@),
        r matches Err(message) ==> message@ == utf8_error_text(bytes@),
{
    std::str::from_utf8(bytes).map_err(|error| error.to_string())
}

/// Whether two strings hold the same characters.
pub fn same_text(a: &str, b: &str) -> (same: bool)
    ensures
        same == (a@ == b@),
{
    let x = chars_of(a);
    let y = chars_of(b);
    if x.len() != y.len() {
        return false;
    }
    let mut i: usize = 0;
    while i < x.len()
        invariant
            x@ == a@,
            y@ == b@,
            x.len() == y.len(),
            i <= x.len(),
            forall|j: int| 0 <= j < i ==> x@[j] == y@[j],
        decreases x.len() - i,
    {
        if x[i] != y[i] {
            return false;
        }
        i = i + 1;
    }
    proof {
        assert(x@ =~= y@);
    }
    true
}

/// `needle` occurs in `hay` as a contiguous run.
pub open spec fn occurs_in(needle: Seq<char>, hay: Seq<char>) -> bool {
    exists|i: int| 0 <= i && i + needle.len() <= hay.len() && #[trigger] hay.subrange(i, i + needle.len()) == needle
}

/// Whether `needle` occurs in `hay` (`str::contains` with a string pattern).
pub fn contains_text(hay: &Vec<char>, needle: &str) -> (found: bool)
    ensures
        found == occurs_in(needle@, hay@),
{
    let pat = chars_of(needle);
    if pat.len() > hay.len() {
        proof {
            assert forall|i: int| 0 <= i && i + needle@.len() <= hay@.len() implies #[trigger] hay@.subrange(i, i + needle@.len()) != needle@ by {}
        }
        return false;
    }
    let last = hay.len() - pat.len();
    let mut at: usize = 0;
    while at <= last
        invariant
            pat@ == needle@,
            pat.len() <= hay.len(),
            last == hay.len() - pat.len(),
            at <= last + 1,
            forall|i: int| 0 <= i < at ==> #[trigger] hay@.subrange(i, i + needle@.len()) != needle@,
        decreases last + 1 - at,
    {
        let mut k: usize = 0;
        let mut matched = true;
        while k < pat.len()
            invariant
                pat@ == needle@,
                at + pat.len() <= hay.len(),
                k <= pat.len(),
                matched == (forall|j: int| 0 <= j < k ==> hay@[at + j] == pat@[j]),
            decreases pat.len() - k,
        {
            if hay[at + k] != pat[k] {
                matched = false;
            }
            k = k + 1;
        }
        if matched {
            proof {
                assert(hay@.subrange(at as int, at + needle@.len()) =~= needle@);
            }
            return true;
        }
        proof {
            let j = choose|j: int| 0 <= j < pat.len() && hay@[at + j] != pat@[j];
            assert(hay@.subrange(at as int, at + needle@.len())[j] != needle@[j]);
        }
        at = at + 1;
    }
    false
}

/// `text` with `prefix` removed from its front, when it starts with it (`str::strip_prefix`).
pub fn strip_prefix(text: &str, prefix: &str) -> (rest: Option<String>)
    ensures
        prefix@.is_prefix_of(text@) ==> rest is Some && rest->Some_0@ == text@.skip(prefix@.len() as int),
        !prefix@.is_prefix_of(text@) ==> rest is None,
{
    let t = chars_of(text);
    let p = chars_of(prefix);
    if p.len() > t.len() {
        return None;
    }
    let mut i: usize = 0;
    while i < p.len()
        invariant
            t@ == text@,
            p@ == prefix@,
            p.len() <= t.len(),
            i <= p.len(),
            forall|j: int| 0 <= j < i ==> t@[j] == p@[j],
        decreases p.len() - i,
    {
        if t[i] != p[i] {
            return None;
        }
        i = i + 1;
    }
    let mut rest: Vec<char> = Vec::new();
    let mut k: usize = p.len();
    while k < t.len()
        invariant
            t@ == text@,
            p.len() <= k <= t.len(),
            rest@ == t@.subrange(p.len() as int, k as int),
        decreases t.len() - k,
    {
        rest.push(t[k]);
        proof {
            assert(t@.subrange(p.len() as int, k + 1) =~= t@.subrange(p.len() as int, k as int).push(t@[k as int]));
        }
        k = k + 1;
    }
    proof {
        assert(rest@ =~= text@.skip(prefix@.len() as int));
    }
    Some(string_from_chars(&rest))
}

} // verus!
