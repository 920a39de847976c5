//! Text as a sequence of characters: search, order, trimming and lines.

use vstd::prelude::*;

verus! {

/// `needle` stands in `haystack` at position `at`.
pub open spec fn occurs_at(haystack: Seq<char>, needle: Seq<char>, at: int) -> bool {
    &&& 0 <= at
    &&& at + needle.len() <= haystack.len()
    &&& haystack.subrange(at, at + needle.len()) == needle
}

/// `needle` is a contiguous part of `haystack`.
pub open spec fn occurs_in(haystack: Seq<char>, needle: Seq<char>) -> bool {
    exists|at: int| occurs_at(haystack, needle, at)
}

/// `suffix` stands at the end of `s`.
pub open spec fn has_suffix(s: Seq<char>, suffix: Seq<char>) -> bool {
    occurs_at(s, suffix, s.len() - suffix.len())
}

/// The characters of `s`, in order.
pub fn chars_of(s: &str) -> (chars: Vec<char>)
    ensures
        chars@ == s@,
{
    let mut chars: Vec<char> = Vec::new();
    for c in iter: s.chars()
        invariant
            iter.seq() == s@,
            chars@ == s@.take(iter.index()),
    {
        assert(s@.take(iter.index() + 1) == s@.take(iter.index()).push(c));
        chars.push(c);
    }
    assert(s@.take(s@.len() as int) == s@);
    chars
}

/// Whether `needle` stands in `haystack` at position `at`.
fn matches_at(haystack: &Vec<char>, needle: &Vec<char>, at: usize) -> (found: bool)
    requires
        at + needle.len() <= haystack.len(),
    ensures
        found == occurs_at(haystack@, needle@, at as int),
{
    let mut i: usize = 0;
    while i < needle.len()
        invariant
            i <= needle.len(),
            at + needle.len() <= haystack.len(),
            forall|j: int| 0 <= j < i ==> haystack@[at + j] == #[trigger] needle@[j],
        decreases needle.len() - i,
    {
        if haystack[at + i] != needle[i] {
            assert(haystack@.subrange(at as int, at + needle@.len())[i as int] != needle@[i as int]);
            return false;
        }
        i += 1;
    }
    assert(haystack@.subrange(at as int, at + needle@.len()) =~= needle@);
    true
}

/// Whether `needle` is a contiguous part of `haystack`.
pub fn contains(haystack: &str, needle: &str) -> (found: bool)
    ensures
        found == occurs_in(haystack@, needle@),
{
    let text: Vec<char> = chars_of(haystack);
    let part: Vec<char> = chars_of(needle);
    if part.len() > text.len() {
        return false;
    }
    let last: usize = text.len() - part.len();
    let mut at: usize = 0;
    while at <= last
        invariant
            text@ == haystack@,
            part@ == needle@,
            last == text.len() - part.len(),
            at <= last + 1,
            forall|j: int| 0 <= j < at ==> !occurs_at(text@, part@, j),
        decreases last + 1 - at,
    {
        if matches_at(&text, &part, at) {
            return true;
        }
        if at == last {
            return false;
        }
        at += 1;
    }
    false
}

/// Whether `s` ends in `suffix`.
pub fn ends_with(s: &str, suffix: &str) -> (found: bool)
    ensures
        found == has_suffix(s@, suffix@),
{
    let s: Vec<char> = chars_of(s);
    let suffix: Vec<char> = chars_of(suffix);
    if suffix.len() > s.len() {
        return false;
    }
    matches_at(&s, &suffix, s.len() - suffix.len())
}

/// Whether `a` and `b` hold the same characters.
pub fn same_text(a: &str, b: &str) -> (same: bool)
    ensures
        same == (a@ == b@),
{
    let a: Vec<char> = chars_of(a);
    let b: Vec<char> = chars_of(b);
    if a.len() != b.len() {
        return false;
    }
    let same = matches_at(&a, &b, 0);
    assert(a@.subrange(0, b@.len() as int) =~= a@);
    same
}

/// The lexicographic order on texts, by the code point of each character.
pub open spec fn text_less(a: Seq<char>, b: Seq<char>) -> bool
    decreases a.len(),
{
    if b.len() == 0 {
        false
    } else if a.len() == 0 {
        true
    } else if a[0] != b[0] {
        a[0] < b[0]
    } else {
        text_less(a.drop_first(), b.drop_first())
    }
}

/// No text stands before itself.
pub proof fn lemma_text_less_irreflexive(a: Seq<char>)
    ensures
        !text_less(a, a),
    decreases a.len(),
{
    if a.len() > 0 {
        lemma_text_less_irreflexive(a.drop_first());
    }
}

/// Of two different texts one stands before the other.
pub proof fn lemma_text_less_total(a: Seq<char>, b: Seq<char>)
    ensures
        text_less(a, b) || text_less(b, a) || a == b,
    decreases a.len(),
{
    if a.len() > 0 && b.len() > 0 && a[0] == b[0] {
        lemma_text_less_total(a.drop_first(), b.drop_first());
        if a.drop_first() == b.drop_first() {
            assert(a =~= seq![a[0]] + a.drop_first());
            assert(b =~= seq![b[0]] + b.drop_first());
        }
    } else if a.len() == 0 && b.len() == 0 {
        assert(a =~= b);
    }
}

/// The order on texts is transitive.
pub proof fn lemma_text_less_transitive(a: Seq<char>, b: Seq<char>, c: Seq<char>)
    requires
        text_less(a, b),
        text_less(b, c),
    ensures
        text_less(a, c),
    decreases a.len(),
{
    if a.len() > 0 && a[0] == b[0] && b[0] == c[0] {
        lemma_text_less_transitive(a.drop_first(), b.drop_first(), c.drop_first());
    }
}

/// Whether `a` stands before `b` in the order on texts.
pub fn is_text_less(a: &str, b: &str) -> (less: bool)
    ensures
        less == text_less(a@, b@),
{
    let left: Vec<char> = chars_of(a);
    let right: Vec<char> = chars_of(b);
    let mut i: usize = 0;
    assert(a@.skip(0) =~= a@ && b@.skip(0) =~= b@);
    while i < left.len() && i < right.len()
        invariant
            left@ == a@,
            right@ == b@,
            i <= left.len(),
            i <= right.len(),
            text_less(a@, b@) == text_less(a@.skip(i as int), b@.skip(i as int)),
        decreases left.len() - i,
    {
        if left[i] != right[i] {
            return left[i] < right[i];
        }
        assert(a@.skip(i as int).drop_first() =~= a@.skip(i + 1));
        assert(b@.skip(i as int).drop_first() =~= b@.skip(i + 1));
        i += 1;
    }
    i < right.len()
}

/// The position of the first `c` in `s`, or the length of `s` where there is none.
pub open spec fn first_index(s: Seq<char>, c: char) -> int
    decreases s.len(),
{
    if s.len() == 0 || s[0] == c {
        0
    } else {
        1 + first_index(s.drop_first(), c)
    }
}

/// The first `c` is found: it stands there, and none before it.
proof fn lemma_first_index(s: Seq<char>, c: char, at: int)
    requires
        0 <= at <= s.len(),
        at < s.len() ==> s[at] == c,
        forall|i: int| 0 <= i < at ==> s[i] != c,
    ensures
        first_index(s, c) == at,
    decreases s.len(),
{
    if s.len() > 0 && s[0] != c {
        assert forall|i: int| 0 <= i < at - 1 implies s.drop_first()[i] != c by {
            assert(s[i + 1] != c);
        }
        lemma_first_index(s.drop_first(), c, at - 1);
    }
}

/// The position of the first `c` from `from` on, before `to`; `to` where there is none.
pub fn find(chars: &Vec<char>, c: char, from: usize, to: usize) -> (at: usize)
    requires
        from <= to <= chars.len(),
    ensures
        from <= at <= to,
        at < to ==> chars@[at as int] == c,
        at - from == first_index(chars@.subrange(from as int, to as int), c),
{
    let ghost range = chars@.subrange(from as int, to as int);
    let mut at: usize = from;
    while at < to && chars[at] != c
        invariant
            from <= at <= to <= chars.len(),
            range == chars@.subrange(from as int, to as int),
            forall|i: int| 0 <= i < at - from ==> range[i] != c,
        decreases to - at,
    {
        at += 1;
    }
    proof {
        lemma_first_index(range, c, at - from);
    }
    at
}

/// The lines of a text: what stands between its line feeds. The last is empty where the text ends
/// in a line feed.
pub open spec fn lines_of(text: Seq<char>) -> Seq<Seq<char>>
    decreases text.len(),
{
    let end = first_index(text, '\n');
    if 0 <= end < text.len() {
        seq![text.take(end)] + lines_of(text.skip(end + 1))
    } else {
        seq![text]
    }
}

/// The characters with the Unicode property `White_Space`.
pub open spec fn is_white_space(c: char) -> bool {
    ||| 0x9 <= c as int <= 0xd
    ||| c as int == 0x20
    ||| c as int == 0x85
    ||| c as int == 0xa0
    ||| c as int == 0x1680
    ||| 0x2000 <= c as int <= 0x200a
    ||| c as int == 0x2028
    ||| c as int == 0x2029
    ||| c as int == 0x202f
    ||| c as int == 0x205f
    ||| c as int == 0x3000
}

/// Whether a character has the Unicode property `White_Space`.
pub fn is_space(c: char) -> (space: bool)
    ensures
        space == is_white_space(c),
{
    let code: u32 = c as u32;
    (0x9 <= code && code <= 0xd) || code == 0x20 || code == 0x85 || code == 0xa0 || code == 0x1680
        || (0x2000 <= code && code <= 0x200a) || code == 0x2028 || code == 0x2029 || code == 0x202f
        || code == 0x205f || code == 0x3000
}

/// `s` without the white space that it begins with.
pub open spec fn trimmed_start(s: Seq<char>) -> Seq<char>
    decreases s.len(),
{
    if s.len() > 0 && is_white_space(s[0]) {
        trimmed_start(s.drop_first())
    } else {
        s
    }
}

/// `s` without the white space that it ends with.
pub open spec fn trimmed_end(s: Seq<char>) -> Seq<char>
    decreases s.len(),
{
    if s.len() > 0 && is_white_space(s.last()) {
        trimmed_end(s.drop_last())
    } else {
        s
    }
}

/// `s` without the white space at both ends.
pub open spec fn trimmed(s: Seq<char>) -> Seq<char> {
    trimmed_end(trimmed_start(s))
}

/// Trims the part of `chars` from `from` to `to`: gives back where what is left begins and ends.
pub fn trim(chars: &Vec<char>, from: usize, to: usize) -> (range: (usize, usize))
    requires
        from <= to <= chars.len(),
    ensures
        from <= range.0 <= range.1 <= to,
        chars@.subrange(range.0 as int, range.1 as int) == trimmed(
            chars@.subrange(from as int, to as int),
        ),
{
    let ghost whole = chars@.subrange(from as int, to as int);
    let mut start: usize = from;
    while start < to && is_space(chars[start])
        invariant
            from <= start <= to <= chars.len(),
            trimmed_start(chars@.subrange(start as int, to as int)) == trimmed_start(whole),
        decreases to - start,
    {
        assert(chars@.subrange(start as int, to as int).drop_first() =~= chars@.subrange(
            start + 1,
            to as int,
        ));
        start += 1;
    }
    let mut end: usize = to;
    while start < end && is_space(chars[end - 1])
        invariant
            from <= start <= end <= to <= chars.len(),
            trimmed_end(chars@.subrange(start as int, end as int)) == trimmed(whole),
        decreases end - start,
    {
        assert(chars@.subrange(start as int, end as int).drop_last() =~= chars@.subrange(
            start as int,
            end - 1,
        ));
        end -= 1;
    }
    (start, end)
}

/// Whether the part of `chars` from `from` to `to` is `text`.
pub fn is_at(chars: &Vec<char>, from: usize, to: usize, text: &str) -> (same: bool)
    requires
        from <= to <= chars.len(),
    ensures
        same == (chars@.subrange(from as int, to as int) == text@),
{
    let expected: Vec<char> = chars_of(text);
    if expected.len() != to - from {
        return false;
    }
    matches_at(chars, &expected, from)
}

/// A text holds another exactly where it is that text with something before and after it.
pub proof fn law_occurrence_is_a_part(haystack: Seq<char>, needle: Seq<char>)
    ensures
        occurs_in(haystack, needle) <==> exists|before: Seq<char>, after: Seq<char>|
            haystack == #[trigger] (before + needle + after),
{
    if occurs_in(haystack, needle) {
        let at = choose|at: int| occurs_at(haystack, needle, at);
        let before = haystack.take(at);
        let after = haystack.skip(at + needle.len());
        assert(haystack =~= before + needle + after);
    }
    if exists|before: Seq<char>, after: Seq<char>| haystack == #[trigger] (before + needle + after) {
        let (before, after) = choose|before: Seq<char>, after: Seq<char>|
            haystack == #[trigger] (before + needle + after);
        let at = before.len() as int;
        assert(haystack.subrange(at, at + needle.len()) =~= needle);
        assert(occurs_at(haystack, needle, at));
    }
}

/// A text ends in another exactly where it is that text with something before it.
pub proof fn law_suffix_is_the_end(s: Seq<char>, suffix: Seq<char>)
    ensures
        has_suffix(s, suffix) <==> exists|before: Seq<char>| s == #[trigger] (before + suffix),
{
    if has_suffix(s, suffix) {
        let before = s.take(s.len() - suffix.len());
        assert(s =~= before + suffix);
    }
    if exists|before: Seq<char>| s == #[trigger] (before + suffix) {
        let before = choose|before: Seq<char>| s == #[trigger] (before + suffix);
        assert(s.subrange(s.len() - suffix.len(), s.len() as int) =~= suffix);
    }
}

/// The first `c` of a text stands after as many characters as come before it.
pub proof fn law_first_index(before: Seq<char>, c: char, after: Seq<char>)
    requires
        !before.contains(c),
    ensures
        first_index(before, c) == before.len(),
        first_index(before.push(c) + after, c) == before.len(),
{
    let s = before.push(c) + after;
    assert forall|i: int| 0 <= i < before.len() implies s[i] != c && before[i] != c by {
        assert(before.contains(before[i]));
    }
    lemma_first_index(before, c, before.len() as int);
    lemma_first_index(s, c, before.len() as int);
}

/// Text is ordered by the first character in which two texts differ, and a text stands before every
/// longer one that begins with it.
pub proof fn law_text_order(
    common: Seq<char>,
    a: char,
    b: char,
    rest: Seq<char>,
    other_rest: Seq<char>,
)
    requires
        a < b,
    ensures
        text_less(common + (seq![a] + rest), common + (seq![b] + other_rest)),
        !text_less(common + (seq![b] + other_rest), common + (seq![a] + rest)),
        text_less(common, common + (seq![b] + other_rest)),
        !text_less(common + (seq![b] + other_rest), common),
    decreases common.len(),
{
    let less = common + (seq![a] + rest);
    let more = common + (seq![b] + other_rest);
    if common.len() > 0 {
        let fewer = common.drop_first();
        law_text_order(fewer, a, b, rest, other_rest);
        assert(less.drop_first() =~= fewer + (seq![a] + rest));
        assert(more.drop_first() =~= fewer + (seq![b] + other_rest));
    } else {
        assert(less =~= seq![a] + rest);
        assert(more =~= seq![b] + other_rest);
    }
}

/// Texts joined by line feeds: the text that has these lines.
pub open spec fn joined(lines: Seq<Seq<char>>) -> Seq<char>
    decreases lines.len(),
{
    if lines.len() == 0 {
        Seq::empty()
    } else if lines.len() == 1 {
        lines[0]
    } else {
        lines[0].push('\n') + joined(lines.drop_first())
    }
}

/// A text that is made of lines without line feeds in them has exactly these lines.
pub proof fn law_lines_are_those_that_were_joined(lines: Seq<Seq<char>>)
    requires
        lines.len() > 0,
        forall|i: int| 0 <= i < lines.len() ==> !(#[trigger] lines[i]).contains('\n'),
    ensures
        lines_of(joined(lines)) == lines,
    decreases lines.len(),
{
    let first = lines[0];
    if lines.len() == 1 {
        law_first_index(first, '\n', Seq::empty());
        assert(lines =~= seq![first]);
    } else {
        let rest = lines.drop_first();
        assert forall|i: int| 0 <= i < rest.len() implies !(#[trigger] rest[i]).contains('\n') by {
            assert(rest[i] == lines[i + 1]);
        }
        law_lines_are_those_that_were_joined(rest);
        let text = joined(lines);
        law_first_index(first, '\n', joined(rest));
        assert(text.take(first.len() as int) =~= first);
        assert(text.skip(first.len() as int + 1) =~= joined(rest));
        assert(lines =~= seq![first] + rest);
    }
}

/// White space and nothing else.
pub open spec fn is_blank(s: Seq<char>) -> bool {
    forall|i: int| 0 <= i < s.len() ==> is_white_space(#[trigger] s[i])
}

proof fn lemma_trimmed_start(before: Seq<char>, s: Seq<char>)
    requires
        is_blank(before),
    ensures
        trimmed_start(before + s) == trimmed_start(s),
    decreases before.len(),
{
    if before.len() > 0 {
        let all = before + s;
        assert(all[0] == before[0]);
        assert(all.drop_first() =~= before.drop_first() + s);
        assert forall|i: int| 0 <= i < before.len() - 1 implies is_white_space(
            #[trigger] before.drop_first()[i],
        ) by {
            assert(before.drop_first()[i] == before[i + 1]);
        }
        lemma_trimmed_start(before.drop_first(), s);
    } else {
        assert(before + s =~= s);
    }
}

proof fn lemma_trimmed_end(s: Seq<char>, after: Seq<char>)
    requires
        is_blank(after),
    ensures
        trimmed_end(s + after) == trimmed_end(s),
    decreases after.len(),
{
    if after.len() > 0 {
        let all = s + after;
        assert(all.last() == after.last());
        assert(all.drop_last() =~= s + after.drop_last());
        assert forall|i: int| 0 <= i < after.len() - 1 implies is_white_space(
            #[trigger] after.drop_last()[i],
        ) by {
            assert(after.drop_last()[i] == after[i]);
        }
        lemma_trimmed_end(s, after.drop_last());
    } else {
        assert(s + after =~= s);
    }
}

/// Trimming takes the white space at both ends away, and nothing else: what begins and ends with
/// other characters stays as it is.
pub proof fn law_trimming_takes_white_space_away(
    before: Seq<char>,
    core: Seq<char>,
    after: Seq<char>,
)
    requires
        is_blank(before),
        is_blank(after),
        core.len() > 0 ==> !is_white_space(core[0]) && !is_white_space(core.last()),
    ensures
        trimmed(before + core + after) == core,
{
    let rest = core + after;
    assert(before + core + after =~= before + rest);
    lemma_trimmed_start(before, rest);
    if core.len() > 0 {
        assert(rest[0] == core[0]);
        lemma_trimmed_end(core, after);
    } else {
        assert(rest =~= after);
        lemma_trimmed_start(after, Seq::empty());
        assert(after + Seq::<char>::empty() =~= after);
        assert(trimmed_start(after) == Seq::<char>::empty());
    }
}

/// The code points of white space, in order.
pub open spec fn white_space_codes() -> Seq<int> {
    seq![
        0x9, 0xa, 0xb, 0xc, 0xd, 0x20, 0x85, 0xa0, 0x1680, 0x2000, 0x2001, 0x2002, 0x2003, 0x2004,
        0x2005, 0x2006, 0x2007, 0x2008, 0x2009, 0x200a, 0x2028, 0x2029, 0x202f, 0x205f, 0x3000,
    ]
}

/// White space is the tabulator, the line and page breaks, the spaces of every width, and the
/// separators of lines and paragraphs; no visible character is.
pub proof fn law_white_space(c: char)
    ensures
        is_white_space(' ') && is_white_space('\t') && is_white_space('\n') && is_white_space('\r'),
        0x21 <= c as int <= 0x7e ==> !is_white_space(c),
        is_white_space(c) <==> white_space_codes().contains(c as int),
{
    let codes = white_space_codes();
    let code = c as int;
    if 0x9 <= code <= 0xd {
        assert(codes[code - 0x9] == code);
    }
    if 0x2000 <= code <= 0x200a {
        assert(codes[code - 0x2000 + 9] == code);
    }
    assert(codes[5] == 0x20 && codes[6] == 0x85 && codes[7] == 0xa0 && codes[8] == 0x1680);
    assert(codes[20] == 0x2028 && codes[21] == 0x2029 && codes[22] == 0x202f);
    assert(codes[23] == 0x205f && codes[24] == 0x3000);
}

} // verus!
