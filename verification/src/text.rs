//! Character-level text handling for the SMTP dialogue: whitespace, word
//! splitting, affix stripping and line-ending normalisation.
//!
//! Every function here is specified over `Seq<char>`, the view of `str` and
//! `String`, so that the session logic can state exactly which text it
//! stores and which it sends.

use vstd::prelude::*;
use vstd::string::*;
use vstd::utf8::*;

verus! {

/// The characters with the Unicode `White_Space` property.
pub open spec fn is_space(c: char) -> bool {
    let n = c as u32;
    ||| 0x09 <= n <= 0x0D
    ||| n == 0x20
    ||| n == 0x85
    ||| n == 0xA0
    ||| n == 0x1680
    ||| 0x2000 <= n <= 0x200A
    ||| n == 0x2028
    ||| n == 0x2029
    ||| n == 0x202F
    ||| n == 0x205F
    ||| n == 0x3000
}

/// Whether `c` is whitespace.
pub fn is_whitespace(c: char) -> (b: bool)
    ensures
        b == is_space(c),
{
    let n: u32 = c as u32;
    (0x09 <= n && n <= 0x0D) || n == 0x20 || n == 0x85 || n == 0xA0 || n == 0x1680 || (0x2000 <= n
        && n <= 0x200A) || n == 0x2028 || n == 0x2029 || n == 0x202F || n == 0x205F || n == 0x3000
}

/// The characters of `s`, in a vector that can be indexed in constant time.
pub fn to_chars(s: &str) -> (v: Vec<char>)
    ensures
        v@ == s@,
{
    let mut v: Vec<char> = Vec::new();
    for c in it: s.chars()
        invariant
            v@ == it.seq().take(it.index() as int),
    {
        v.push(c);
    }
    v
}

/// Exact, case-sensitive equality of two strings.
pub fn str_equals(a: &str, b: &str) -> (eq: bool)
    ensures
        eq == (a@ == b@),
{
    let x = a.as_bytes();
    let y = b.as_bytes();
    if x.len() != y.len() {
        return false;
    }
    let mut i: usize = 0;
    while i < x.len()
        invariant
            i <= x.len(),
            x@ == encode_utf8(a@),
            y@ == encode_utf8(b@),
            x@.len() == y@.len(),
            forall|k: int| 0 <= k < i ==> x@[k] == y@[k],
        decreases x.len() - i,
    {
        if x[i] != y[i] {
            return false;
        }
        i += 1;
    }
    proof {
        // UTF-8 encoding is injective: decoding gives the characters back.
        assert(x@ =~= y@);
        encode_utf8_decode_utf8(a@);
        encode_utf8_decode_utf8(b@);
    }
    true
}

// ---------------------------------------------------------------------------
// Words
// ---------------------------------------------------------------------------

/// Length of the run of non-whitespace characters that `s` starts with.
pub open spec fn word_len(s: Seq<char>) -> nat
    decreases s.len(),
{
    if s.len() == 0 || is_space(s[0]) {
        0
    } else {
        1 + word_len(s.skip(1))
    }
}

/// The leading word is no longer than the text, and not empty where the
/// text starts with a character that is no whitespace.
pub proof fn lemma_word_len_bounds(s: Seq<char>)
    ensures
        word_len(s) <= s.len(),
        s.len() > 0 && !is_space(s[0]) ==> word_len(s) >= 1,
    decreases s.len(),
{
    if s.len() > 0 && !is_space(s[0]) {
        lemma_word_len_bounds(s.skip(1));
    }
}

/// The maximal runs of non-whitespace characters of `s`, in order.
pub open spec fn words(s: Seq<char>) -> Seq<Seq<char>>
    decreases s.len(),
{
    if s.len() == 0 {
        Seq::empty()
    } else if is_space(s[0]) {
        words(s.skip(1))
    } else {
        proof {
            lemma_word_len_bounds(s);
        }
        seq![s.take(word_len(s) as int)] + words(s.skip(word_len(s) as int))
    }
}

/// A run of `n` non-whitespace characters that ends the text or is followed
/// by whitespace is the leading word.
pub proof fn lemma_word_len_is(s: Seq<char>, n: int)
    requires
        0 <= n <= s.len(),
        forall|k: int| 0 <= k < n ==> !is_space(#[trigger] s[k]),
        n == s.len() || is_space(s[n]),
    ensures
        word_len(s) == n,
    decreases n,
{
    if n > 0 {
        lemma_word_len_is(s.skip(1), n - 1);
    }
}

/// No word is empty and none holds whitespace.
pub proof fn lemma_words_are_solid(s: Seq<char>)
    ensures
        forall|i: int| 0 <= i < words(s).len() ==> (#[trigger] words(s)[i]).len() > 0,
        forall|i: int, k: int|
            0 <= i < words(s).len() && 0 <= k < words(s)[i].len() ==> !is_space(
                #[trigger] words(s)[i][k],
            ),
    decreases s.len(),
{
    if s.len() == 0 {
        assert(words(s).len() == 0);
    } else if is_space(s[0]) {
        lemma_words_are_solid(s.skip(1));
        assert(words(s) == words(s.skip(1)));
    } else {
        lemma_word_len_bounds(s);
        let n = word_len(s) as int;
        lemma_words_are_solid(s.skip(n));
        lemma_word_is_solid(s);
        let head = s.take(n);
        let rest = words(s.skip(n));
        assert(words(s) == seq![head] + rest);
        assert forall|i: int| 0 <= i < words(s).len() implies (#[trigger] words(s)[i]).len()
            > 0 by {
            if i > 0 {
                assert(words(s)[i] == rest[i - 1]);
            }
        }
        assert forall|i: int, k: int|
            0 <= i < words(s).len() && 0 <= k < words(s)[i].len() implies !is_space(
            #[trigger] words(s)[i][k],
        ) by {
            if i == 0 {
                assert(head[k] == s[k]);
            } else {
                assert(words(s)[i] == rest[i - 1]);
            }
        }
    }
}

/// The leading word holds no whitespace.
proof fn lemma_word_is_solid(s: Seq<char>)
    ensures
        word_len(s) <= s.len(),
        forall|k: int| 0 <= k < word_len(s) ==> !is_space(#[trigger] s[k]),
    decreases s.len(),
{
    if s.len() > 0 && !is_space(s[0]) {
        lemma_word_is_solid(s.skip(1));
        assert forall|k: int| 0 <= k < word_len(s) implies !is_space(#[trigger] s[k]) by {
            if k > 0 {
                assert(s[k] == s.skip(1)[k - 1]);
            }
        }
    }
}

/// Splits a line at whitespace, as `str::split_whitespace` does: leading,
/// trailing and repeated whitespace yields no empty word.
pub fn split_words(line: &str) -> (out: Vec<String>)
    ensures
        out.deep_view() == words(line@),
        forall|i: int| 0 <= i < out.len() ==> (#[trigger] out[i])@.len() > 0,
{
    let chars = to_chars(line);
    let n = chars.len();
    let mut out: Vec<String> = Vec::new();
    let mut i: usize = 0;
    assert(line@.skip(0) =~= line@);
    while i < n
        invariant
            chars@ == line@,
            n == chars@.len(),
            i <= n,
            out.deep_view() + words(line@.skip(i as int)) == words(line@),
        decreases n - i,
    {
        let ghost rest = line@.skip(i as int);
        if is_whitespace(chars[i]) {
            assert(rest.skip(1) =~= line@.skip(i + 1));
            i += 1;
        } else {
            let start = i;
            while i < n && !is_whitespace(chars[i])
                invariant
                    chars@ == line@,
                    n == chars@.len(),
                    start <= i <= n,
                    forall|k: int| start <= k < i ==> !is_space(#[trigger] line@[k]),
                decreases n - i,
            {
                i += 1;
            }
            let word = String::from_str(line.substring_char(start, i));
            proof {
                let len = i - start;
                assert forall|k: int| 0 <= k < len implies !is_space(#[trigger] rest[k]) by {
                    assert(rest[k] == line@[start + k]);
                }
                lemma_word_len_is(rest, len);
                assert(rest.take(len) =~= line@.subrange(start as int, i as int));
                assert(rest.skip(len) =~= line@.skip(i as int));
                assert(words(rest) == seq![rest.take(len)] + words(rest.skip(len)));
            }
            let ghost before = out.deep_view();
            out.push(word);
            assert(out.deep_view() =~= before.push(word@));
            assert(before.push(word@) + words(line@.skip(i as int)) =~= before + (seq![word@]
                + words(line@.skip(i as int))));
        }
    }
    assert(words(line@.skip(n as int)) =~= Seq::<Seq<char>>::empty());
    assert(out.deep_view() + Seq::<Seq<char>>::empty() =~= out.deep_view());
    proof {
        lemma_words_are_solid(line@);
        assert forall|i: int| 0 <= i < out.len() implies (#[trigger] out[i])@.len() > 0 by {
            assert(out.deep_view()[i] == out[i]@);
        }
    }
    out
}

// ---------------------------------------------------------------------------
// Trimming and affixes
// ---------------------------------------------------------------------------

/// `s` without the whitespace it ends with.
pub open spec fn trim_end(s: Seq<char>) -> Seq<char>
    decreases s.len(),
{
    if s.len() > 0 && is_space(s.last()) {
        trim_end(s.drop_last())
    } else {
        s
    }
}

/// Whether `line`, without the whitespace that ends it, is exactly `word`.
pub fn trimmed_equals(line: &str, word: &str) -> (eq: bool)
    ensures
        eq == (trim_end(line@) == word@),
{
    let chars = to_chars(line);
    let mut end: usize = chars.len();
    assert(line@.take(end as int) =~= line@);
    while end > 0 && is_whitespace(chars[end - 1])
        invariant
            chars@ == line@,
            end <= chars@.len(),
            trim_end(line@) == trim_end(line@.take(end as int)),
        decreases end,
    {
        assert(line@.take(end as int).drop_last() =~= line@.take(end - 1));
        end -= 1;
    }
    str_equals(line.substring_char(0, end), word)
}

/// `s` without the prefix `p`, or `s` itself where it does not start with `p`.
pub open spec fn strip_prefix(s: Seq<char>, p: Seq<char>) -> Seq<char> {
    if p.is_prefix_of(s) {
        s.skip(p.len() as int)
    } else {
        s
    }
}

/// `s` without the suffix `p`, or `s` itself where it does not end with `p`.
pub open spec fn strip_suffix(s: Seq<char>, p: Seq<char>) -> Seq<char> {
    if p.is_suffix_of(s) {
        s.take(s.len() - p.len())
    } else {
        s
    }
}

/// Whether `chars[at..]` starts with `pattern`.
fn matches_at(chars: &Vec<char>, at: usize, pattern: &Vec<char>) -> (m: bool)
    requires
        at <= chars@.len(),
    ensures
        m == pattern@.is_prefix_of(chars@.skip(at as int)),
{
    let rest = chars.len() - at;
    if pattern.len() > rest {
        return false;
    }
    let mut k: usize = 0;
    while k < pattern.len()
        invariant
            at + pattern.len() <= chars.len(),
            k <= pattern.len(),
            forall|j: int| 0 <= j < k ==> chars@[at + j] == pattern@[j],
        decreases pattern.len() - k,
    {
        if chars[at + k] != pattern[k] {
            assert(chars@.skip(at as int)[k as int] != pattern@[k as int]);
            return false;
        }
        k += 1;
    }
    assert(pattern@ =~= chars@.skip(at as int).subrange(0, pattern@.len() as int));
    true
}

/// `s` without the prefix `prefix`, if it starts with it.
pub fn without_prefix(s: &str, prefix: &str) -> (rest: String)
    ensures
        rest@ == strip_prefix(s@, prefix@),
{
    let chars = to_chars(s);
    let pattern = to_chars(prefix);
    assert(chars@.skip(0) =~= chars@);
    if matches_at(&chars, 0, &pattern) {
        assert(s@.skip(pattern@.len() as int) =~= s@.subrange(
            pattern@.len() as int,
            s@.len() as int,
        ));
        String::from_str(s.substring_char(pattern.len(), chars.len()))
    } else {
        String::from_str(s)
    }
}

/// An address argument without its keyword and angle brackets: `keyword`
/// is removed from the front if it is there, then one `<` from the front
/// and one `>` from the end, each on its own.
pub open spec fn bare_address(arg: Seq<char>, keyword: Seq<char>) -> Seq<char> {
    strip_suffix(strip_prefix(strip_prefix(arg, keyword), seq!['<']), seq!['>'])
}

/// The address in the argument of `MAIL` or `RCPT`, with `FROM:` or `TO:`
/// as the keyword.
pub fn strip_address(arg: &str, keyword: &str) -> (address: String)
    ensures
        address@ == bare_address(arg@, keyword@),
{
    let chars = to_chars(arg);
    let key = to_chars(keyword);
    let mut start: usize = 0;
    let mut end: usize = chars.len();
    assert(chars@.skip(0) =~= chars@);
    if matches_at(&chars, 0, &key) {
        start = key.len();
    }
    let ghost unkeyed = strip_prefix(arg@, keyword@);
    assert(unkeyed =~= arg@.subrange(start as int, end as int));
    if start < end && chars[start] == '<' {
        assert(seq!['<'] =~= unkeyed.subrange(0, 1));
        assert(unkeyed.skip(1) =~= arg@.subrange(start + 1, end as int));
        start += 1;
    } else {
        assert(!seq!['<'].is_prefix_of(unkeyed)) by {
            if seq!['<'].is_prefix_of(unkeyed) {
                assert(unkeyed[0] == seq!['<'][0]);
            }
        }
    }
    let ghost opened = strip_prefix(unkeyed, seq!['<']);
    assert(opened =~= arg@.subrange(start as int, end as int));
    if start < end && chars[end - 1] == '>' {
        assert(seq!['>'] =~= opened.subrange(opened.len() - 1, opened.len() as int));
        assert(opened.take(opened.len() - 1) =~= arg@.subrange(start as int, end - 1));
        end -= 1;
    } else {
        assert(!seq!['>'].is_suffix_of(opened)) by {
            if seq!['>'].is_suffix_of(opened) {
                assert(opened[opened.len() - 1] == seq!['>'][0]);
            }
        }
    }
    String::from_str(arg.substring_char(start, end))
}

// ---------------------------------------------------------------------------
// Occurrence
// ---------------------------------------------------------------------------

/// Whether `pattern` stands in `s` from index `k` on.
pub open spec fn occurs_at(pattern: Seq<char>, s: Seq<char>, k: int) -> bool {
    0 <= k && k + pattern.len() <= s.len() && s.subrange(k, k + pattern.len()) == pattern
}

/// Whether `pattern` stands somewhere in `s`, character after character.
pub open spec fn occurs_in(pattern: Seq<char>, s: Seq<char>) -> bool {
    exists|k: int| occurs_at(pattern, s, k)
}

/// What stands between two texts occurs in the whole.
pub proof fn lemma_occurs_between(pattern: Seq<char>, before: Seq<char>, after: Seq<char>)
    ensures
        occurs_in(pattern, before + pattern + after),
{
    let whole = before + pattern + after;
    let k = before.len() as int;
    assert(whole.subrange(k, k + pattern.len()) =~= pattern);
    assert(occurs_at(pattern, whole, k));
}

/// What occurs in a text occurs in it behind any other text.
pub proof fn lemma_occurs_behind(pattern: Seq<char>, before: Seq<char>, s: Seq<char>)
    requires
        occurs_in(pattern, s),
    ensures
        occurs_in(pattern, before + s),
{
    let k = choose|k: int| occurs_at(pattern, s, k);
    let shifted = before.len() + k;
    assert((before + s).subrange(shifted, shifted + pattern.len()) =~= s.subrange(
        k,
        k + pattern.len(),
    ));
    assert(occurs_at(pattern, before + s, shifted));
}

/// A pattern with a character that a text lacks does not occur in it.
pub proof fn lemma_cannot_occur(pattern: Seq<char>, s: Seq<char>, m: int)
    requires
        0 <= m < pattern.len(),
        !s.contains(pattern[m]),
    ensures
        !occurs_in(pattern, s),
{
    if occurs_in(pattern, s) {
        let k = choose|k: int| occurs_at(pattern, s, k);
        assert(s.subrange(k, k + pattern.len())[m] == pattern[m]);
        assert(s[k + m] == pattern[m]);
    }
}

/// Texts that lack a character lack it when joined.
pub proof fn lemma_joined_lacks(a: Seq<char>, b: Seq<char>, c: char)
    requires
        !a.contains(c),
        !b.contains(c),
    ensures
        !(a + b).contains(c),
{
    if (a + b).contains(c) {
        let i = choose|i: int| 0 <= i < (a + b).len() && (a + b)[i] == c;
        if i < a.len() {
            assert(a[i] == c);
        } else {
            assert(b[i - a.len()] == c);
        }
    }
}

// ---------------------------------------------------------------------------
// Line endings
// ---------------------------------------------------------------------------

/// Whether a carriage return, line feed pair starts at index `i` of `s`.
pub open spec fn crlf_at(s: Seq<char>, i: int) -> bool {
    0 <= i && i + 1 < s.len() && s[i] == '\r' && s[i + 1] == '\n'
}

/// Whether `s` holds a carriage return, line feed pair.
pub open spec fn has_crlf(s: Seq<char>) -> bool {
    exists|i: int| crlf_at(s, i)
}

/// `s` with every carriage return, line feed pair replaced by a line feed.
pub open spec fn crlf_to_lf(s: Seq<char>) -> Seq<char>
    decreases s.len(),
{
    if s.len() == 0 {
        s
    } else if crlf_at(s, 0) {
        seq!['\n'] + crlf_to_lf(s.skip(2))
    } else {
        seq![s[0]] + crlf_to_lf(s.skip(1))
    }
}

/// Text that holds no pair before index `k` is kept as it is up to there.
pub proof fn lemma_crlf_free_prefix(s: Seq<char>, k: int)
    requires
        0 <= k <= s.len(),
        forall|j: int| 0 <= j < k ==> !crlf_at(s, j),
    ensures
        crlf_to_lf(s) == s.take(k) + crlf_to_lf(s.skip(k)),
    decreases k,
{
    if k == 0 {
        assert(s.skip(0) =~= s);
        assert(s.take(0) + crlf_to_lf(s) =~= crlf_to_lf(s));
    } else {
        assert(!crlf_at(s, 0));
        let t = s.skip(1);
        assert forall|j: int| 0 <= j < k - 1 implies !crlf_at(t, j) by {
            assert(!crlf_at(s, j + 1));
            if j + 1 < t.len() {
                assert(t[j] == s[j + 1]);
                assert(t[j + 1] == s[j + 2]);
            }
        }
        lemma_crlf_free_prefix(t, k - 1);
        assert(t.skip(k - 1) =~= s.skip(k));
        assert(seq![s[0]] + (t.take(k - 1) + crlf_to_lf(s.skip(k))) =~= s.take(k) + crlf_to_lf(
            s.skip(k),
        ));
    }
}

/// Text without any pair is left unchanged.
pub proof fn lemma_crlf_free(s: Seq<char>)
    requires
        !has_crlf(s),
    ensures
        crlf_to_lf(s) == s,
{
    lemma_crlf_free_prefix(s, s.len() as int);
    assert(s.take(s.len() as int) =~= s);
    assert(crlf_to_lf(s.skip(s.len() as int)) =~= Seq::<char>::empty());
    assert(s + Seq::<char>::empty() =~= s);
}

/// Appends `line` to `data`, each carriage return, line feed pair as one
/// line feed.
pub fn append_normalised(data: &mut String, line: &str)
    ensures
        final(data)@ == old(data)@ + crlf_to_lf(line@),
{
    let chars = to_chars(line);
    let n = chars.len();
    let mut from: usize = 0;
    let mut i: usize = 0;
    assert(line@.skip(0) =~= line@);
    assert(data@ + crlf_to_lf(line@) =~= old(data)@ + crlf_to_lf(line@));
    while i < n
        invariant
            chars@ == line@,
            n == chars@.len(),
            from <= i <= n,
            forall|j: int| from <= j < i ==> !crlf_at(line@, j),
            data@ + crlf_to_lf(line@.skip(from as int)) == old(data)@ + crlf_to_lf(line@),
        decreases n - i,
    {
        if chars[i] == '\r' && i + 1 < n && chars[i + 1] == '\n' {
            let ghost rest = line@.skip(from as int);
            let ghost before = data@;
            proof {
                let k = i - from;
                assert forall|j: int| 0 <= j < k implies !crlf_at(rest, j) by {
                    assert(!crlf_at(line@, from + j));
                    if j + 1 < rest.len() {
                        assert(rest[j] == line@[from + j]);
                        assert(rest[j + 1] == line@[from + j + 1]);
                    }
                }
                lemma_crlf_free_prefix(rest, k);
                assert(rest.take(k) =~= line@.subrange(from as int, i as int));
                assert(rest.skip(k) =~= line@.skip(i as int));
                assert(crlf_at(line@.skip(i as int), 0));
                assert(line@.skip(i as int).skip(2) =~= line@.skip(i + 2));
                reveal_strlit("\n");
                assert("\n"@ =~= seq!['\n']);
            }
            data.append(line.substring_char(from, i));
            data.append("\n");
            i += 2;
            from = i;
            assert(data@ + crlf_to_lf(line@.skip(from as int)) =~= before + crlf_to_lf(rest));
        } else {
            i += 1;
        }
    }
    let ghost rest = line@.skip(from as int);
    let ghost before = data@;
    proof {
        let k = n - from;
        assert forall|j: int| 0 <= j < k implies !crlf_at(rest, j) by {
            assert(!crlf_at(line@, from + j));
            if j + 1 < rest.len() {
                assert(rest[j] == line@[from + j]);
                assert(rest[j + 1] == line@[from + j + 1]);
            }
        }
        lemma_crlf_free_prefix(rest, k);
        assert(rest.take(k) =~= line@.subrange(from as int, n as int));
        assert(crlf_to_lf(rest.skip(k)) =~= Seq::<char>::empty());
    }
    data.append(line.substring_char(from, n));
    assert(data@ =~= before + crlf_to_lf(rest));
}

} // verus!
