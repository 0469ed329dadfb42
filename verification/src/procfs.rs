//! Readings of a process's kernel status files: the CPU time in its `stat`
//! line and the resident memory in its `status` text.
//!
//! The files are read elsewhere; these functions take their text.

use vstd::prelude::*;

use crate::installer_contract::{parse_u64, spec_parse_u64};
use crate::midi_endpoint::{chars_of, is_whitespace, spec_is_whitespace};

verus! {

/// Where the word that starts at `i` ends: the first white space at or
/// after `i`, or the end of the text.
pub open spec fn word_end(text: Seq<char>, i: int) -> int
    decreases text.len() - i,
{
    if i >= text.len() || spec_is_whitespace(text[i]) {
        i
    } else {
        word_end(text, i + 1)
    }
}

/// A word that starts at `i` ends after it and inside the text.
pub proof fn lemma_word_end(text: Seq<char>, i: int)
    requires
        0 <= i <= text.len(),
    ensures
        i <= word_end(text, i) <= text.len(),
        i < text.len() && !spec_is_whitespace(text[i]) ==> i < word_end(text, i),
    decreases text.len() - i,
{
    if i < text.len() && !spec_is_whitespace(text[i]) {
        lemma_word_end(text, i + 1);
    }
}

/// The words of `text` from `i` on: the maximal runs of characters other
/// than white space, in order.
pub open spec fn words_from(text: Seq<char>, i: int) -> Seq<Seq<char>>
    decreases text.len() - i,
{
    if i < 0 || i >= text.len() {
        Seq::empty()
    } else if spec_is_whitespace(text[i]) {
        words_from(text, i + 1)
    } else {
        proof {
            lemma_word_end(text, i);
        }
        seq![text.subrange(i, word_end(text, i))] + words_from(text, word_end(text, i))
    }
}

/// The words of `text`, as `str::split_whitespace` yields them.
pub open spec fn words(text: Seq<char>) -> Seq<Seq<char>> {
    words_from(text, 0)
}

/// The start and end, in `chars`, of each word of `chars[start..end]`.
fn word_ranges(chars: &Vec<char>, start: usize, end: usize) -> (ranges: Vec<(usize, usize)>)
    requires
        start <= end <= chars@.len(),
    ensures
        ranges@.len() == words(chars@.subrange(start as int, end as int)).len(),
        forall|k: int|
            0 <= k < ranges@.len() ==> start <= (#[trigger] ranges@[k]).0 <= ranges@[k].1 <= end
                && chars@.subrange(ranges@[k].0 as int, ranges@[k].1 as int) == words(
                chars@.subrange(start as int, end as int),
            )[k],
{
    let ghost text = chars@.subrange(start as int, end as int);
    let mut ranges: Vec<(usize, usize)> = Vec::new();
    let mut i = start;
    while i < end
        invariant
            start <= i <= end <= chars@.len(),
            text == chars@.subrange(start as int, end as int),
            words(text) == Seq::new(ranges@.len() as nat, |k: int| chars@.subrange(ranges@[k].0 as int, ranges@[k].1 as int))
                + words_from(text, i - start),
            forall|k: int| 0 <= k < ranges@.len() ==> start <= (#[trigger] ranges@[k]).0 <= ranges@[k].1 <= i,
        decreases end - i,
    {
        let ghost found = Seq::new(ranges@.len() as nat, |k: int| chars@.subrange(ranges@[k].0 as int, ranges@[k].1 as int));
        assert(text[i - start] == chars@[i as int]);
        if is_whitespace(chars[i]) {
            i += 1;
            proof {
                assert(words_from(text, i - 1 - start) == words_from(text, i - start));
            }
        } else {
            let first = i;
            while i < end && !is_whitespace(chars[i])
                invariant
                    start <= first <= i <= end <= chars@.len(),
                    text == chars@.subrange(start as int, end as int),
                    word_end(text, i - start) == word_end(text, first - start),
                decreases end - i,
            {
                assert(text[i - start] == chars@[i as int]);
                i += 1;
            }
            proof {
                if i < end {
                    assert(text[i - start] == chars@[i as int]);
                }
                lemma_word_end(text, first - start);
                assert(word_end(text, i - start) == i - start);
                assert(text.subrange(first - start, i - start) =~= chars@.subrange(first as int, i as int));
            }
            ranges.push((first, i));
            proof {
                let now = Seq::new(ranges@.len() as nat, |k: int| chars@.subrange(ranges@[k].0 as int, ranges@[k].1 as int));
                assert(now =~= found.push(chars@.subrange(first as int, i as int)));
                assert(found.push(chars@.subrange(first as int, i as int)) + words_from(text, i - start) =~= found + (
                seq![text.subrange(first - start, i - start)] + words_from(text, i - start)));
            }
        }
    }
    proof {
        assert(words_from(text, i - start) =~= Seq::<Seq<char>>::empty());
        let found = Seq::new(ranges@.len() as nat, |k: int| chars@.subrange(ranges@[k].0 as int, ranges@[k].1 as int));
        assert(words(text) =~= found);
        assert forall|k: int| 0 <= k < ranges@.len() implies chars@.subrange(
            (#[trigger] ranges@[k]).0 as int,
            ranges@[k].1 as int,
        ) == words(text)[k] by {
            assert(found[k] == chars@.subrange(ranges@[k].0 as int, ranges@[k].1 as int));
        }
    }
    ranges
}

/// The place of the last `c` among the first `n` characters of `text`.
pub open spec fn last_index_of(text: Seq<char>, c: char, n: int) -> Option<int>
    decreases n,
{
    if n <= 0 {
        None
    } else if text[n - 1] == c {
        Some(n - 1)
    } else {
        last_index_of(text, c, n - 1)
    }
}

/// The fields of a `stat` line that follow the command name: the words
/// after the last `)` and the character after it, which must be a single
/// byte (a space in a well-formed line); without both there are none. The
/// command name may itself hold spaces and parentheses.
pub open spec fn stat_fields(stat: Seq<char>) -> Option<Seq<Seq<char>>> {
    match last_index_of(stat, ')', stat.len() as int) {
        None => None,
        Some(close) => if close + 1 < stat.len() && (stat[close + 1] as u32) < 0x80 {
            Some(words(stat.subrange(close + 2, stat.len() as int)))
        } else {
            None
        },
    }
}

/// User and system CPU time, in clock ticks: the 14th and 15th fields of
/// the line, the 12th and 13th after the command name.
pub open spec fn spec_cpu_times(stat: Seq<char>) -> Option<(u64, u64)> {
    match stat_fields(stat) {
        Some(fields) => if fields.len() > 12 {
            match (spec_parse_u64(fields[11]), spec_parse_u64(fields[12])) {
                (Ok(user), Ok(system)) => Some((user as u64, system as u64)),
                _ => None,
            }
        } else {
            None
        },
        None => None,
    }
}

/// The user and system CPU ticks that a process's `stat` line reports.
pub fn cpu_times(stat: &str) -> (times: Option<(u64, u64)>)
    ensures
        times == spec_cpu_times(stat@),
{
    let chars = chars_of(stat);
    let ghost text = chars@;
    let mut n = chars.len();
    while n > 0 && chars[n - 1] != ')'
        invariant
            n <= text.len(),
            text == chars@,
            last_index_of(text, ')', n as int) == last_index_of(text, ')', text.len() as int),
        decreases n,
    {
        n -= 1;
    }
    if n == 0 {
        return None;
    }
    let close = n - 1;
    if close + 1 >= chars.len() || (chars[close + 1] as u32) >= 0x80 {
        return None;
    }
    let ranges = word_ranges(&chars, close + 2, chars.len());
    if ranges.len() <= 12 {
        return None;
    }
    let user = parse_u64(&chars, ranges[11].0, ranges[11].1);
    let system = parse_u64(&chars, ranges[12].0, ranges[12].1);
    match (user, system) {
        (Ok(user), Ok(system)) => Some((user, system)),
        _ => None,
    }
}

/// Whether a line of `text` starts at `i`.
pub open spec fn is_line_start(text: Seq<char>, i: int) -> bool {
    i == 0 || (0 < i <= text.len() && text[i - 1] == '\n')
}

/// The label of the resident-memory line.
pub open spec fn rss_label() -> Seq<char> {
    seq!['V', 'm', 'R', 'S', 'S', ':']
}

/// The first line, at or after `i`, that starts with the resident-memory label.
pub open spec fn rss_line_from(text: Seq<char>, i: int) -> Option<int>
    decreases text.len() - i,
{
    if i < 0 || i >= text.len() {
        None
    } else if is_line_start(text, i) && i + 6 <= text.len() && text.subrange(i, i + 6) == rss_label() {
        Some(i)
    } else {
        rss_line_from(text, i + 1)
    }
}

/// Where the line that holds `i` ends: the next newline, or the end of the text.
pub open spec fn line_end(text: Seq<char>, i: int) -> int
    decreases text.len() - i,
{
    if i >= text.len() || text[i] == '\n' {
        i
    } else {
        line_end(text, i + 1)
    }
}

/// Resident memory in KiB: the first word after the label on the first
/// line that starts with it.
pub open spec fn spec_resident_kib(status: Seq<char>) -> Option<u64> {
    match rss_line_from(status, 0) {
        None => None,
        Some(line) => {
            let rest = words(status.subrange(line + 6, line_end(status, line + 6)));
            if rest.len() == 0 {
                None
            } else {
                match spec_parse_u64(rest[0]) {
                    Ok(kib) => Some(kib as u64),
                    Err(_) => None,
                }
            }
        },
    }
}

proof fn lemma_line_end(text: Seq<char>, i: int)
    requires
        0 <= i <= text.len(),
    ensures
        i <= line_end(text, i) <= text.len(),
    decreases text.len() - i,
{
    if i < text.len() && text[i] != '\n' {
        lemma_line_end(text, i + 1);
    }
}

/// The resident memory, in KiB, that a process's `status` text reports.
pub fn resident_kib(status: &str) -> (kib: Option<u64>)
    ensures
        kib == spec_resident_kib(status@),
{
    let chars = chars_of(status);
    let ghost text = chars@;
    let mut i: usize = 0;
    let mut found = false;
    while i < chars.len() && !found
        invariant
            i <= text.len(),
            text == chars@,
            found ==> i + 6 <= text.len() && rss_line_from(text, 0) == Some(i as int),
            !found ==> rss_line_from(text, 0) == rss_line_from(text, i as int),
        decreases text.len() - i + if found { 0int } else { 1int },
    {
        let starts = i == 0 || chars[i - 1] == '\n';
        let mut labelled = starts && chars.len() - i >= 6;
        if labelled {
            labelled = chars[i] == 'V' && chars[i + 1] == 'm' && chars[i + 2] == 'R' && chars[i + 3] == 'S'
                && chars[i + 4] == 'S' && chars[i + 5] == ':';
            proof {
                if labelled {
                    assert(text.subrange(i as int, i + 6) =~= rss_label());
                } else {
                    if text.subrange(i as int, i + 6) == rss_label() {
                        assert(text.subrange(i as int, i + 6)[0] == text[i as int]);
                        assert(text.subrange(i as int, i + 6)[1] == text[i + 1]);
                        assert(text.subrange(i as int, i + 6)[2] == text[i + 2]);
                        assert(text.subrange(i as int, i + 6)[3] == text[i + 3]);
                        assert(text.subrange(i as int, i + 6)[4] == text[i + 4]);
                        assert(text.subrange(i as int, i + 6)[5] == text[i + 5]);
                    }
                }
            }
        }
        if labelled {
            found = true;
        } else {
            i += 1;
        }
    }
    if !found {
        return None;
    }
    let mut end = i + 6;
    proof {
        lemma_line_end(text, end as int);
    }
    while end < chars.len() && chars[end] != '\n'
        invariant
            i + 6 <= end <= text.len(),
            text == chars@,
            line_end(text, end as int) == line_end(text, i + 6),
        decreases text.len() - end,
    {
        end += 1;
    }
    let ranges = word_ranges(&chars, i + 6, end);
    if ranges.len() == 0 {
        return None;
    }
    match parse_u64(&chars, ranges[0].0, ranges[0].1) {
        Ok(kib) => Some(kib),
        Err(_) => None,
    }
}

} // verus!
