//! Stable ALSA MIDI endpoint identities and deterministic matching.
//!
//! RtMidi/midir append a volatile numeric ALSA `client:port` address to the
//! meaningful `client-name:port-name` identity. Only the latter is persisted.

use vstd::prelude::*;
use crate::text::{push_decimal, spec_decimal};

verus! {

/// Unicode White_Space, the set `char::is_whitespace` tests.
pub open spec fn spec_is_whitespace(c: char) -> bool {
    ||| ('\u{9}' <= c && c <= '\u{d}')
    ||| c == ' '
    ||| c == '\u{85}'
    ||| c == '\u{a0}'
    ||| c == '\u{1680}'
    ||| ('\u{2000}' <= c && c <= '\u{200a}')
    ||| c == '\u{2028}'
    ||| c == '\u{2029}'
    ||| c == '\u{202f}'
    ||| c == '\u{205f}'
    ||| c == '\u{3000}'
}

pub fn is_whitespace(c: char) -> (white: bool)
    ensures
        white == spec_is_whitespace(c),
{
    ('\u{9}' <= c && c <= '\u{d}') || c == ' ' || c == '\u{85}' || c == '\u{a0}' || c == '\u{1680}' || ('\u{2000}'
        <= c && c <= '\u{200a}') || c == '\u{2028}' || c == '\u{2029}' || c == '\u{202f}' || c == '\u{205f}' || c
        == '\u{3000}'
}

/// Whether `c` is alphabetic or numeric in Unicode (`char::is_alphanumeric`).
pub uninterp spec fn char_is_alphanumeric(c: char) -> bool;

/// `char::is_alphanumeric`: Unicode Alphabetic or Numeric.
#[verifier::external_body]
fn is_alphanumeric(c: char) -> (alphanumeric: bool)
    ensures
        alphanumeric == char_is_alphanumeric(c),
{
    c.is_alphanumeric()
}

/// The `{:?}` rendering of a string: quoted, with special characters escaped.
pub uninterp spec fn debug_quoted(text: Seq<char>) -> Seq<char>;

/// `format!("{:?}", text)` for a string.
#[verifier::external_body]
fn debug_quote(text: &str) -> (quoted: String)
    ensures
        quoted@ == debug_quoted(text@),
{
    format!("{:?}", text)
}

/// `String::push`: append one character.
#[verifier::external_body]
fn push_char(text: &mut String, c: char)
    ensures
        final(text)@ == old(text)@.push(c),
{
    text.push(c)
}

pub open spec fn trim_end(s: Seq<char>) -> Seq<char>
    decreases s.len(),
{
    if s.len() > 0 && spec_is_whitespace(s.last()) {
        trim_end(s.drop_last())
    } else {
        s
    }
}

pub open spec fn trim_start(s: Seq<char>) -> Seq<char>
    decreases s.len(),
{
    if s.len() > 0 && spec_is_whitespace(s[0]) {
        trim_start(s.drop_first())
    } else {
        s
    }
}

/// `str::trim`: without leading and trailing whitespace.
pub open spec fn trim(s: Seq<char>) -> Seq<char> {
    trim_start(trim_end(s))
}

/// Index of the last whitespace character among the first `n`.
pub open spec fn last_whitespace(s: Seq<char>, n: int) -> Option<int>
    decreases n,
{
    if n <= 0 {
        None
    } else if spec_is_whitespace(s[n - 1]) {
        Some(n - 1)
    } else {
        last_whitespace(s, n - 1)
    }
}

/// Index of the first ':' at or after `from`.
pub open spec fn first_colon(s: Seq<char>, from: int) -> Option<int>
    decreases s.len() - from,
{
    if from < 0 || from >= s.len() {
        None
    } else if s[from] == ':' {
        Some(from)
    } else {
        first_colon(s, from + 1)
    }
}

pub open spec fn all_ascii_digits(s: Seq<char>) -> bool {
    forall|i: int| 0 <= i < s.len() ==> '0' <= #[trigger] s[i] && s[i] <= '9'
}

/// A volatile ALSA address: `client:port`, both non-empty and all digits.
pub open spec fn spec_numeric_address(token: Seq<char>) -> bool {
    match first_colon(token, 0) {
        None => false,
        Some(k) => 0 < k && k + 1 < token.len() && all_ascii_digits(token.subrange(0, k)) && all_ascii_digits(
            token.subrange(k + 1, token.len() as int),
        ),
    }
}

/// The name without one trailing whitespace-separated numeric ALSA address.
pub open spec fn spec_stable_identity(name: Seq<char>) -> Seq<char> {
    let trimmed = trim(name);
    match last_whitespace(trimmed, trimmed.len() as int) {
        None => trimmed,
        Some(k) => if spec_numeric_address(trimmed.subrange(k + 1, trimmed.len() as int)) {
            trim_end(trimmed.subrange(0, k))
        } else {
            trimmed
        },
    }
}

pub open spec fn ascii_lower(c: char) -> char {
    if 'A' <= c && c <= 'Z' { ((c as int) + 32) as char } else { c }
}

/// `eq_ignore_ascii_case`.
pub open spec fn equal_ignoring_ascii_case(a: Seq<char>, b: Seq<char>) -> bool {
    &&& a.len() == b.len()
    &&& forall|i: int| 0 <= i < a.len() ==> ascii_lower(#[trigger] a[i]) == ascii_lower(b[i])
}

/// Letters and digits lower-cased, everything else a space.
pub open spec fn legacy_char(c: char) -> char {
    if char_is_alphanumeric(c) { ascii_lower(c) } else { ' ' }
}

/// Words of `s` (split at whitespace) joined by single spaces; the flag says
/// whether whitespace followed the last word.
pub open spec fn joined_words(s: Seq<char>) -> (Seq<char>, bool)
    decreases s.len(),
{
    if s.len() == 0 {
        (Seq::empty(), false)
    } else {
        let (out, gap) = joined_words(s.drop_last());
        let c = s.last();
        if spec_is_whitespace(c) {
            (out, true)
        } else if gap && out.len() > 0 {
            (out.push(' ').push(c), false)
        } else {
            (out.push(c), false)
        }
    }
}

/// The compatibility key of old configuration, which replaced the meaningful
/// colon with whitespace: alphanumerics lower-cased, words joined by one space.
pub open spec fn spec_legacy_key(name: Seq<char>) -> Seq<char> {
    joined_words(spec_stable_identity(name).map_values(|c: char| legacy_char(c))).0
}

/// `char::to_ascii_lowercase`.
fn to_ascii_lower(c: char) -> (lower: char)
    ensures
        lower == ascii_lower(c),
{
    if 'A' <= c && c <= 'Z' {
        let code: u8 = c as u8;
        assert(code == c as int);
        ((code + 32) as char)
    } else {
        c
    }
}

pub(crate) fn chars_of(text: &str) -> (chars: Vec<char>)
    ensures
        chars@ == text@,
{
    let length = text.unicode_len();
    let mut chars: Vec<char> = Vec::new();
    let mut i: usize = 0;
    while i < length
        invariant
            length == text@.len(),
            i <= length,
            chars@ == text@.subrange(0, i as int),
        decreases length - i,
    {
        chars.push(text.get_char(i));
        i += 1;
        assert(chars@ =~= text@.subrange(0, i as int));
    }
    assert(chars@ =~= text@);
    chars
}

fn string_of(chars: &Vec<char>) -> (text: String)
    ensures
        text@ == chars@,
{
    let mut text = String::new();
    let mut i: usize = 0;
    while i < chars.len()
        invariant
            i <= chars@.len(),
            text@ == chars@.subrange(0, i as int),
        decreases chars@.len() - i,
    {
        push_char(&mut text, chars[i]);
        i += 1;
        assert(text@ =~= chars@.subrange(0, i as int));
    }
    assert(text@ =~= chars@);
    text
}

proof fn lemma_trim_end_prefix(s: Seq<char>)
    ensures
        exists|k: int| 0 <= k <= s.len() && trim_end(s) == s.subrange(0, k),
    decreases s.len(),
{
    if s.len() > 0 && spec_is_whitespace(s.last()) {
        lemma_trim_end_prefix(s.drop_last());
        let k = choose|k: int| 0 <= k <= s.drop_last().len() && trim_end(s.drop_last()) == s.drop_last().subrange(0, k);
        assert(s.drop_last().subrange(0, k) =~= s.subrange(0, k));
    } else {
        assert(s.subrange(0, s.len() as int) =~= s);
    }
}

/// The first `end` characters without trailing whitespace.
fn trim_end_len(chars: &Vec<char>, end: usize) -> (kept: usize)
    requires
        end <= chars@.len(),
    ensures
        kept <= end,
        chars@.subrange(0, kept as int) == trim_end(chars@.subrange(0, end as int)),
{
    let mut k = end;
    while k > 0 && is_whitespace(chars[k - 1])
        invariant
            k <= end <= chars@.len(),
            trim_end(chars@.subrange(0, k as int)) == trim_end(chars@.subrange(0, end as int)),
        decreases k,
    {
        assert(chars@.subrange(0, k as int).drop_last() =~= chars@.subrange(0, k - 1));
        k -= 1;
    }
    k
}

/// The characters from `start` on without leading whitespace begin at the result.
fn trim_start_from(chars: &Vec<char>, start: usize, end: usize) -> (first: usize)
    requires
        start <= end <= chars@.len(),
    ensures
        start <= first <= end,
        chars@.subrange(first as int, end as int) == trim_start(chars@.subrange(start as int, end as int)),
{
    let mut k = start;
    while k < end && is_whitespace(chars[k])
        invariant
            start <= k <= end <= chars@.len(),
            trim_start(chars@.subrange(k as int, end as int)) == trim_start(chars@.subrange(start as int, end as int)),
        decreases end - k,
    {
        assert(chars@.subrange(k as int, end as int).drop_first() =~= chars@.subrange(k + 1, end as int));
        k += 1;
    }
    k
}

proof fn lemma_trim_start_head(s: Seq<char>)
    ensures
        trim_start(s).len() > 0 ==> !spec_is_whitespace(trim_start(s)[0]),
    decreases s.len(),
{
    if s.len() > 0 && spec_is_whitespace(s[0]) {
        lemma_trim_start_head(s.drop_first());
    }
}

proof fn lemma_trim_start_of_trimmed_end(s: Seq<char>, k: int, first: int)
    requires
        0 <= first <= k <= s.len(),
        s.subrange(0, k) == trim_end(s),
        s.subrange(first, k) == trim_start(s.subrange(0, k)),
    ensures
        s.subrange(first, k) == trim(s),
{
}

fn numeric_address(token: &Vec<char>, start: usize, end: usize) -> (numeric: bool)
    requires
        start <= end <= token@.len(),
    ensures
        numeric == spec_numeric_address(token@.subrange(start as int, end as int)),
{
    let ghost t = token@.subrange(start as int, end as int);
    let mut colon = start;
    while colon < end && token[colon] != ':'
        invariant
            start <= colon <= end <= token@.len(),
            t == token@.subrange(start as int, end as int),
            first_colon(t, 0) == first_colon(t, colon - start),
        decreases end - colon,
    {
        colon += 1;
    }
    if colon == end {
        return false;
    }
    assert(first_colon(t, 0) == Some((colon - start) as int));
    if colon == start || colon + 1 == end {
        return false;
    }
    let mut i = start;
    while i < end
        invariant
            start <= i <= end <= token@.len(),
            start < colon < end - 1,
            t == token@.subrange(start as int, end as int),
            first_colon(t, 0) == Some((colon - start) as int),
            forall|j: int| start <= j < i && j != colon ==> '0' <= #[trigger] token@[j] && token@[j] <= '9',
        decreases end - i,
    {
        if i != colon && !('0' <= token[i] && token[i] <= '9') {
            proof {
                if i < colon {
                    assert(t.subrange(0, colon - start)[i - start] == token@[i as int]);
                } else {
                    assert(t.subrange(colon - start + 1, t.len() as int)[i - colon - 1] == token@[i as int]);
                }
            }
            return false;
        }
        i += 1;
    }
    proof {
        assert forall|j: int| 0 <= j < colon - start implies '0' <= #[trigger] t.subrange(0, colon - start)[j]
            && t.subrange(0, colon - start)[j] <= '9' by {
            assert(t.subrange(0, colon - start)[j] == token@[start + j]);
        }
        assert forall|j: int| 0 <= j < t.len() - (colon - start + 1) implies '0' <= #[trigger] t.subrange(
            colon - start + 1,
            t.len() as int,
        )[j] && t.subrange(colon - start + 1, t.len() as int)[j] <= '9' by {
            assert(t.subrange(colon - start + 1, t.len() as int)[j] == token@[colon + 1 + j]);
        }
    }
    true
}

/// Characters of the stable identity of `name`.
fn stable_chars(name: &str) -> (identity: Vec<char>)
    ensures
        identity@ == spec_stable_identity(name@),
{
    let chars = chars_of(name);
    let end = trim_end_len(&chars, chars.len());
    assert(chars@.subrange(0, chars@.len() as int) =~= chars@);
    let first = trim_start_from(&chars, 0, end);
    proof {
        lemma_trim_start_of_trimmed_end(chars@, end as int, first as int);
    }
    let ghost trimmed = chars@.subrange(first as int, end as int);
    assert(trimmed == trim(name@));
    let mut k = end;
    while k > first && !is_whitespace(chars[k - 1])
        invariant
            first <= k <= end <= chars@.len(),
            trimmed == chars@.subrange(first as int, end as int),
            last_whitespace(trimmed, trimmed.len() as int) == last_whitespace(trimmed, k - first),
        decreases k,
    {
        assert(trimmed[k - 1 - first] == chars@[k - 1]);
        k -= 1;
    }
    let mut identity: Vec<char> = Vec::new();
    if k == first {
        assert(last_whitespace(trimmed, 0) is None);
        copy_range(&chars, first, end, &mut identity);
        return identity;
    }
    assert(trimmed[k - 1 - first] == chars@[k - 1]);
    let space = k - 1;
    assert(last_whitespace(trimmed, trimmed.len() as int) == Some((space - first) as int));
    assert(trimmed.subrange(space - first + 1, trimmed.len() as int) =~= chars@.subrange(k as int, end as int));
    proof {
        lemma_trim_start_head(chars@.subrange(0, end as int));
        assert(trimmed[0] == chars@[first as int]);
    }
    if numeric_address(&chars, k, end) {
        let kept = trim_end_len(&chars, space);
        proof {
            assert(trimmed.subrange(0, space - first) =~= chars@.subrange(first as int, space as int));
            lemma_trim_end_after_start(chars@, first as int, space as int, kept as int);
        }
        if kept < first {
            return identity;
        }
        copy_range(&chars, first, kept, &mut identity);
        identity
    } else {
        copy_range(&chars, first, end, &mut identity);
        identity
    }
}

/// Trimming the end of a range that starts with a non-whitespace character
/// stops before the range start.
proof fn lemma_trim_end_after_start(s: Seq<char>, first: int, end: int, kept: int)
    requires
        0 <= first <= end <= s.len(),
        0 <= kept <= end,
        s.subrange(0, kept) == trim_end(s.subrange(0, end)),
        first < end ==> !spec_is_whitespace(s[first]),
    ensures
        first < end ==> first < kept,
        kept >= first ==> s.subrange(first, kept) == trim_end(s.subrange(first, end)),
        kept < first ==> trim_end(s.subrange(first, end)) == Seq::<char>::empty(),
    decreases end,
{
    if first < end {
        if spec_is_whitespace(s[end - 1]) {
            assert(s.subrange(0, end).drop_last() =~= s.subrange(0, end - 1));
            lemma_trim_end_prefix(s.subrange(0, end - 1));
            assert(s.subrange(first, end).drop_last() =~= s.subrange(first, end - 1));
            lemma_trim_end_after_start(s, first, end - 1, kept);
        } else {
            assert(s.subrange(first, end).last() == s[end - 1]);
        }
    }
}

fn copy_range(chars: &Vec<char>, start: usize, end: usize, out: &mut Vec<char>)
    requires
        start <= end <= chars@.len(),
    ensures
        final(out)@ == old(out)@ + chars@.subrange(start as int, end as int),
{
    let mut i = start;
    while i < end
        invariant
            start <= i <= end <= chars@.len(),
            out@ == old(out)@ + chars@.subrange(start as int, i as int),
        decreases end - i,
    {
        out.push(chars[i]);
        i += 1;
        assert(out@ =~= old(out)@ + chars@.subrange(start as int, i as int));
    }
}

proof fn lemma_trim_end_drops_white_space(s: Seq<char>)
    ensures
        trim_end(s).len() <= s.len(),
        trim_end(s) == s.subrange(0, trim_end(s).len() as int),
        forall|i: int| trim_end(s).len() <= i < s.len() ==> spec_is_whitespace(#[trigger] s[i]),
    decreases s.len(),
{
    if s.len() > 0 && spec_is_whitespace(s.last()) {
        lemma_trim_end_drops_white_space(s.drop_last());
        assert forall|i: int| trim_end(s).len() <= i < s.len() implies spec_is_whitespace(#[trigger] s[i]) by {
            if i < s.len() - 1 {
                assert(s.drop_last()[i] == s[i]);
            }
        }
        assert(s.drop_last().subrange(0, trim_end(s).len() as int) =~= s.subrange(0, trim_end(s).len() as int));
    } else {
        assert(s.subrange(0, s.len() as int) =~= s);
    }
}

proof fn lemma_last_whitespace(s: Seq<char>, n: int)
    requires
        0 <= n <= s.len(),
    ensures
        last_whitespace(s, n) matches Some(k) ==> 0 <= k < n && spec_is_whitespace(s[k]),
    decreases n,
{
    if n > 0 && !spec_is_whitespace(s[n - 1]) {
        lemma_last_whitespace(s, n - 1);
    }
}

proof fn lemma_first_colon(s: Seq<char>, from: int)
    ensures
        first_colon(s, from) matches Some(k) ==> from <= k < s.len() && s[k] == ':',
    decreases s.len() - from,
{
    if 0 <= from < s.len() && s[from] != ':' {
        lemma_first_colon(s, from + 1);
    }
}

/// Only a volatile address is ever removed: the stable identity is the
/// trimmed name or a prefix of it, and what is cut off is white space, digits
/// and a colon, ending in a digit, with a colon and digits on both sides of it.
pub proof fn lemma_identity_drops_only_an_address(name: Seq<char>)
    ensures
        ({
            let trimmed = trim(name);
            let identity = spec_stable_identity(name);
            &&& identity.len() <= trimmed.len()
            &&& identity == trimmed.subrange(0, identity.len() as int)
            &&& identity.len() < trimmed.len() ==> {
                &&& forall|i: int|
                    identity.len() <= i < trimmed.len() ==> spec_is_whitespace(#[trigger] trimmed[i]) || ('0'
                        <= trimmed[i] && trimmed[i] <= '9') || trimmed[i] == ':'
                &&& '0' <= trimmed.last() && trimmed.last() <= '9'
                &&& exists|colon: int|
                    identity.len() < colon < trimmed.len() - 1 && #[trigger] trimmed[colon] == ':' && '0' <= trimmed[colon
                        - 1] && trimmed[colon - 1] <= '9'
            }
        }),
{
    let trimmed = trim(name);
    let identity = spec_stable_identity(name);
    lemma_last_whitespace(trimmed, trimmed.len() as int);
    match last_whitespace(trimmed, trimmed.len() as int) {
        None => {
            assert(trimmed.subrange(0, trimmed.len() as int) =~= trimmed);
        },
        Some(k) => {
            let token = trimmed.subrange(k + 1, trimmed.len() as int);
            if spec_numeric_address(token) {
                let head = trimmed.subrange(0, k);
                lemma_trim_end_drops_white_space(head);
                lemma_first_colon(token, 0);
                let c = first_colon(token, 0)->Some_0;
                assert(identity == trim_end(head));
                assert(identity =~= trimmed.subrange(0, identity.len() as int));
                assert forall|i: int| identity.len() <= i < trimmed.len() implies spec_is_whitespace(#[trigger] trimmed[i])
                    || ('0' <= trimmed[i] && trimmed[i] <= '9') || trimmed[i] == ':' by {
                    if i < k {
                        assert(head[i] == trimmed[i]);
                    } else if i > k {
                        let j = i - k - 1;
                        assert(token[j] == trimmed[i]);
                        if j < c {
                            assert(token.subrange(0, c)[j] == token[j]);
                        } else if j > c {
                            assert(token.subrange(c + 1, token.len() as int)[j - c - 1] == token[j]);
                        }
                    }
                }
                let last = token.len() - 1 - c - 1;
                assert(token.subrange(c + 1, token.len() as int)[last] == token[token.len() - 1]);
                assert(token[token.len() - 1] == trimmed.last());
                assert(token.subrange(0, c)[c - 1] == token[c - 1]);
                assert(trimmed[k + 1 + c] == token[c]);
                assert(trimmed[k + 1 + c - 1] == token[c - 1]);
            } else {
                assert(trimmed.subrange(0, trimmed.len() as int) =~= trimmed);
            }
        },
    }
}

/// Remove one volatile trailing numeric ALSA address and otherwise preserve
/// punctuation, especially the meaningful client/port-name colon.
pub fn stable_identity(name: &str) -> (identity: String)
    ensures
        identity@ == spec_stable_identity(name@),
{
    let chars = stable_chars(name);
    string_of(&chars)
}

fn legacy_chars(name: &str) -> (key: Vec<char>)
    ensures
        key@ == spec_legacy_key(name@),
{
    let identity = stable_chars(name);
    let ghost mapped = identity@.map_values(|c: char| legacy_char(c));
    let mut key: Vec<char> = Vec::new();
    let mut gap = false;
    let mut i: usize = 0;
    while i < identity.len()
        invariant
            i <= identity@.len(),
            mapped == identity@.map_values(|c: char| legacy_char(c)),
            (key@, gap) == joined_words(mapped.subrange(0, i as int)),
        decreases identity@.len() - i,
    {
        let c = identity[i];
        let mapped_char = if is_alphanumeric(c) {
            to_ascii_lower(c)
        } else {
            ' '
        };
        assert(mapped_char == legacy_char(c));
        assert(mapped.subrange(0, i + 1).drop_last() =~= mapped.subrange(0, i as int));
        if is_whitespace(mapped_char) {
            gap = true;
        } else {
            if gap && key.len() > 0 {
                key.push(' ');
            }
            key.push(mapped_char);
            gap = false;
        }
        i += 1;
    }
    assert(mapped.subrange(0, identity@.len() as int) =~= mapped);
    key
}

/// Compatibility key for old configuration which replaced the meaningful
/// colon with whitespace. It deliberately performs no partial or fuzzy match.
pub fn legacy_key(name: &str) -> (key: String)
    ensures
        key@ == spec_legacy_key(name@),
{
    let chars = legacy_chars(name);
    string_of(&chars)
}

fn same_ignoring_ascii_case(a: &Vec<char>, b: &Vec<char>) -> (same: bool)
    ensures
        same == equal_ignoring_ascii_case(a@, b@),
{
    if a.len() != b.len() {
        return false;
    }
    let mut i: usize = 0;
    while i < a.len()
        invariant
            a@.len() == b@.len(),
            i <= a@.len(),
            forall|j: int| 0 <= j < i ==> ascii_lower(#[trigger] a@[j]) == ascii_lower(b@[j]),
        decreases a@.len() - i,
    {
        let x = a[i];
        let y = b[i];
        let lx = to_ascii_lower(x);
        let ly = to_ascii_lower(y);
        if lx != ly {
            return false;
        }
        i += 1;
    }
    true
}

fn same_chars(a: &Vec<char>, b: &Vec<char>) -> (same: bool)
    ensures
        same == (a@ == b@),
{
    if a.len() != b.len() {
        return false;
    }
    let mut i: usize = 0;
    while i < a.len()
        invariant
            a@.len() == b@.len(),
            i <= a@.len(),
            forall|j: int| 0 <= j < i ==> #[trigger] a@[j] == b@[j],
        decreases a@.len() - i,
    {
        if a[i] != b[i] {
            return false;
        }
        i += 1;
    }
    assert(a@ =~= b@);
    true
}

/// Why an endpoint identity did not resolve to exactly one live endpoint.
#[derive(Clone, Debug)]
pub enum EndpointError {
    /// The wanted identity is empty after trimming.
    EmptyIdentity { description: String },
    /// More than one endpoint matches; `legacy` tells which key matched.
    Ambiguous { description: String, wanted: String, matches: usize, legacy: bool },
    /// No endpoint matches.
    Offline { description: String, wanted: String },
}

impl EndpointError {
    pub open spec fn spec_message(&self) -> Seq<char> {
        match self {
            EndpointError::EmptyIdentity { description } => description@ + " identity cannot be empty"@,
            EndpointError::Ambiguous { description, wanted, matches, legacy } => description@ + " "@
                + debug_quoted(wanted@) + " is ambiguous ("@ + spec_decimal(*matches as nat) + (if *legacy {
                " legacy identity matches)"@
            } else {
                " stable identity matches)"@
            }),
            EndpointError::Offline { description, wanted } => description@ + " "@ + debug_quoted(wanted@)
                + " is offline"@,
        }
    }

    /// The error's text.
    pub fn message(&self) -> (message: String)
        ensures
            message@ == self.spec_message(),
    {
        let mut text = String::new();
        match self {
            EndpointError::EmptyIdentity { description } => {
                text.append(description.as_str());
                text.append(" identity cannot be empty");
            },
            EndpointError::Ambiguous { description, wanted, matches, legacy } => {
                text.append(description.as_str());
                text.append(" ");
                let quoted = debug_quote(wanted.as_str());
                text.append(quoted.as_str());
                text.append(" is ambiguous (");
                push_decimal(&mut text, *matches);
                if *legacy {
                    text.append(" legacy identity matches)");
                } else {
                    text.append(" stable identity matches)");
                }
            },
            EndpointError::Offline { description, wanted } => {
                text.append(description.as_str());
                text.append(" ");
                let quoted = debug_quote(wanted.as_str());
                text.append(quoted.as_str());
                text.append(" is offline");
            },
        }
        proof {
            assert(text@ =~= self.spec_message());
        }
        text
    }
}

/// Whether a name's stable identity equals `key` ignoring ASCII case.
pub open spec fn stable_match(name: Seq<char>, key: Seq<char>) -> bool {
    equal_ignoring_ascii_case(spec_stable_identity(name), key)
}

/// Whether a name's legacy key equals `key`.
pub open spec fn legacy_match(name: Seq<char>, key: Seq<char>) -> bool {
    spec_legacy_key(name) == key
}

/// How many of the first `n` names satisfy `pred`.
pub open spec fn count_names(names: Seq<String>, pred: spec_fn(Seq<char>) -> bool, n: int) -> nat
    decreases n,
{
    if n <= 0 {
        0
    } else {
        count_names(names, pred, n - 1) + if pred(names[n - 1]@) {
            1nat
        } else {
            0nat
        }
    }
}

/// The outcome of one pass over `names`: how many satisfy the key, and the
/// first that does.
pub open spec fn pass_result(
    names: Seq<String>,
    pred: spec_fn(Seq<char>) -> bool,
    count: usize,
    first: usize,
) -> bool {
    &&& count == count_names(names, pred, names.len() as int)
    &&& count >= 1 ==> first < names.len() && pred(names[first as int]@)
    &&& count == 0 ==> forall|j: int| 0 <= j < names.len() ==> !pred(#[trigger] names[j]@)
    &&& count == 1 ==> forall|j: int| 0 <= j < names.len() && pred(#[trigger] names[j]@) ==> j == first
}

fn count_stable(names: &[String], key: &Vec<char>) -> (result: (usize, usize))
    ensures
        pass_result(names@, |name: Seq<char>| stable_match(name, key@), result.0, result.1),
{
    let ghost pred = |name: Seq<char>| stable_match(name, key@);
    let mut count: usize = 0;
    let mut first: usize = 0;
    let mut i: usize = 0;
    while i < names.len()
        invariant
            i <= names@.len(),
            pred == (|name: Seq<char>| stable_match(name, key@)),
            count == count_names(names@, pred, i as int),
            count <= i,
            count >= 1 ==> first < i && pred(names@[first as int]@),
            count == 0 ==> forall|j: int| 0 <= j < i ==> !pred(#[trigger] names@[j]@),
            count == 1 ==> forall|j: int| 0 <= j < i && pred(#[trigger] names@[j]@) ==> j == first,
        decreases names@.len() - i,
    {
        let identity = stable_chars(names[i].as_str());
        let hit = same_ignoring_ascii_case(&identity, key);
        assert(hit == pred(names@[i as int]@));
        if hit {
            if count == 0 {
                first = i;
            }
            count += 1;
        }
        i += 1;
    }
    (count, first)
}

fn count_legacy(names: &[String], key: &Vec<char>) -> (result: (usize, usize))
    ensures
        pass_result(names@, |name: Seq<char>| legacy_match(name, key@), result.0, result.1),
{
    let ghost pred = |name: Seq<char>| legacy_match(name, key@);
    let mut count: usize = 0;
    let mut first: usize = 0;
    let mut i: usize = 0;
    while i < names.len()
        invariant
            i <= names@.len(),
            pred == (|name: Seq<char>| legacy_match(name, key@)),
            count == count_names(names@, pred, i as int),
            count <= i,
            count >= 1 ==> first < i && pred(names@[first as int]@),
            count == 0 ==> forall|j: int| 0 <= j < i ==> !pred(#[trigger] names@[j]@),
            count == 1 ==> forall|j: int| 0 <= j < i && pred(#[trigger] names@[j]@) ==> j == first,
        decreases names@.len() - i,
    {
        let candidate = legacy_chars(names[i].as_str());
        let hit = same_chars(&candidate, key);
        assert(hit == pred(names@[i as int]@));
        if hit {
            if count == 0 {
                first = i;
            }
            count += 1;
        }
        i += 1;
    }
    (count, first)
}

/// `str::trim` as a new string.
pub(crate) fn trimmed(text: &str) -> (result: String)
    ensures
        result@ == trim(text@),
{
    let chars = chars_of(text);
    let end = trim_end_len(&chars, chars.len());
    assert(chars@.subrange(0, chars@.len() as int) =~= chars@);
    let first = trim_start_from(&chars, 0, end);
    proof {
        lemma_trim_start_of_trimmed_end(chars@, end as int, first as int);
    }
    let mut kept: Vec<char> = Vec::new();
    copy_range(&chars, first, end, &mut kept);
    assert(kept@ =~= chars@.subrange(first as int, end as int));
    string_of(&kept)
}

/// The endpoint `matching_index` resolves, as a function of the names, the
/// wanted identity and the description used in errors.
pub open spec fn matching_outcome(
    names: Seq<String>,
    wanted: Seq<char>,
    description: Seq<char>,
    result: Result<usize, EndpointError>,
) -> bool {
    let w = trim(wanted);
    let exact = |name: Seq<char>| stable_match(name, spec_stable_identity(w));
    let legacy = |name: Seq<char>| legacy_match(name, spec_legacy_key(w));
    let n_exact = count_names(names, exact, names.len() as int);
    let n_legacy = count_names(names, legacy, names.len() as int);
    if w.len() == 0 {
        result matches Err(EndpointError::EmptyIdentity { description: d }) && d@ == description
    } else if n_exact == 1 {
        result matches Ok(index) && index < names.len() && exact(names[index as int]@)
    } else if n_exact >= 2 {
        result matches Err(EndpointError::Ambiguous { description: d, wanted: q, matches, legacy: l })
            && d@ == description && q@ == w && matches == n_exact && !l
    } else if n_legacy == 1 {
        result matches Ok(index) && index < names.len() && legacy(names[index as int]@)
    } else if n_legacy == 0 {
        result matches Err(EndpointError::Offline { description: d, wanted: q }) && d@ == description && q@ == w
    } else {
        result matches Err(EndpointError::Ambiguous { description: d, wanted: q, matches, legacy: l })
            && d@ == description && q@ == w && matches == n_legacy && l
    }
}

/// Resolve exactly one live endpoint. Stable canonical identity wins;
/// legacy punctuation/whitespace compatibility is accepted only when unique.
pub fn matching_index(names: &[String], wanted: &str, description: &str) -> (result: Result<
    usize,
    EndpointError,
>)
    ensures
        matching_outcome(names@, wanted@, description@, result),
        result matches Ok(index) ==> forall|j: int|
            0 <= j < names@.len() && (stable_match(#[trigger] names@[j]@, spec_stable_identity(trim(wanted@)))
                || (count_names(
                names@,
                |name: Seq<char>| stable_match(name, spec_stable_identity(trim(wanted@))),
                names@.len() as int,
            ) == 0 && legacy_match(names@[j]@, spec_legacy_key(trim(wanted@))))) ==> j == index,
{
    let wanted = trimmed(wanted);
    if wanted.unicode_len() == 0 {
        return Err(EndpointError::EmptyIdentity { description: description.to_owned() });
    }
    let stable_wanted = stable_chars(wanted.as_str());
    let (exact, first_exact) = count_stable(names, &stable_wanted);
    if exact == 1 {
        return Ok(first_exact);
    }
    if exact >= 2 {
        return Err(
            EndpointError::Ambiguous {
                description: description.to_owned(),
                wanted,
                matches: exact,
                legacy: false,
            },
        );
    }
    let compatibility = legacy_chars(wanted.as_str());
    let (legacy, first_legacy) = count_legacy(names, &compatibility);
    if legacy == 1 {
        Ok(first_legacy)
    } else if legacy == 0 {
        Err(EndpointError::Offline { description: description.to_owned(), wanted })
    } else {
        Err(
            EndpointError::Ambiguous {
                description: description.to_owned(),
                wanted,
                matches: legacy,
                legacy: true,
            },
        )
    }
}

/// Like `matching_index`, but an offline endpoint is `Ok(None)` rather than
/// an error.
pub fn matching_optional_index(names: &[String], wanted: &str, description: &str) -> (result: Result<
    Option<usize>,
    EndpointError,
>)
    ensures
        exists|inner: Result<usize, EndpointError>|
            #![trigger matching_outcome(names@, wanted@, description@, inner)]
            matching_outcome(names@, wanted@, description@, inner) && result == match inner {
                Ok(index) => Ok(Some(index)),
                Err(EndpointError::Offline { .. }) => Ok(None),
                Err(error) => Err(error),
            },
{
    let inner = matching_index(names, wanted, description);
    let result = match inner {
        Ok(index) => Ok(Some(index)),
        Err(EndpointError::Offline { .. }) => Ok(None),
        Err(error) => Err(error),
    };
    proof {
        assert(matching_outcome(names@, wanted@, description@, inner));
    }
    result
}

} // verus!
