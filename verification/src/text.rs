//! Text as sequences of characters: trimming, searching, numbers in and out.

use vstd::prelude::*;
use vstd::slice::slice_subrange;

verus! {

/// `String::push` appends one character at the end of the string.
pub assume_specification[ String::push ](s: &mut String, c: char)
    ensures
        final(s)@ == old(s)@.push(c),
;

/// What `str::to_lowercase` makes of a text: the Unicode lower-case mapping.
pub uninterp spec fn lowercase_of(s: Seq<char>) -> Seq<char>;

/// Calls `str::to_lowercase`. The mapping itself is Unicode's and is not
/// spelled out here; the result depends on the text alone.
#[verifier::external_body]
pub(crate) fn lowercase(s: &str) -> (lower: String)
    ensures
        lower@ == lowercase_of(s@),
{
    s.to_lowercase()
}

// --- Characters -------------------------------------------------------------

/// Unicode's `White_Space` property, as `char::is_whitespace` decides it.
pub open spec fn is_space(c: char) -> bool {
    ||| '\u{9}' <= c <= '\u{D}'
    ||| c == ' '
    ||| c == '\u{85}'
    ||| c == '\u{A0}'
    ||| c == '\u{1680}'
    ||| '\u{2000}' <= c <= '\u{200A}'
    ||| c == '\u{2028}'
    ||| c == '\u{2029}'
    ||| c == '\u{202F}'
    ||| c == '\u{205F}'
    ||| c == '\u{3000}'
}

pub fn space(c: char) -> (yes: bool)
    ensures
        yes == is_space(c),
{
    ('\u{9}' <= c && c <= '\u{D}') || c == ' ' || c == '\u{85}' || c == '\u{A0}' || c == '\u{1680}'
        || ('\u{2000}' <= c && c <= '\u{200A}') || c == '\u{2028}' || c == '\u{2029}'
        || c == '\u{202F}' || c == '\u{205F}' || c == '\u{3000}'
}

/// A character is its number, and a small one.
pub proof fn lemma_char_number(c: char)
    ensures
        c as u32 == c as int,
        0 <= c as int <= 0x10FFFF,
{
}

/// Unicode's category `Cc`, as `char::is_control` decides it.
pub open spec fn is_control(c: char) -> bool {
    c <= '\u{1F}' || '\u{7F}' <= c <= '\u{9F}'
}

pub fn control(c: char) -> (yes: bool)
    ensures
        yes == is_control(c),
{
    c <= '\u{1F}' || ('\u{7F}' <= c && c <= '\u{9F}')
}

pub open spec fn is_digit(c: char) -> bool {
    '0' <= c <= '9'
}

pub fn digit(c: char) -> (yes: bool)
    ensures
        yes == is_digit(c),
{
    '0' <= c && c <= '9'
}

/// An ASCII capital as its small letter, anything else as it is.
pub open spec fn ascii_lower(c: char) -> char {
    if 'A' <= c <= 'Z' {
        ((c as u32) + 32) as char
    } else {
        c
    }
}

pub fn to_ascii_lower(c: char) -> (lower: char)
    ensures
        lower == ascii_lower(c),
{
    if 'A' <= c && c <= 'Z' {
        (c as u8 + 32) as char
    } else {
        c
    }
}

/// Two texts equal but for the case of ASCII letters.
pub open spec fn same_but_case(a: Seq<char>, b: Seq<char>) -> bool {
    a.len() == b.len() && forall|i: int|
        0 <= i < a.len() ==> ascii_lower(#[trigger] a[i]) == ascii_lower(b[i])
}

pub fn eq_ignore_case(a: &[char], b: &[char]) -> (same: bool)
    ensures
        same == same_but_case(a@, b@),
{
    if a.len() != b.len() {
        return false;
    }
    let mut i: usize = 0;
    while i < a.len()
        invariant
            i <= a@.len(),
            a@.len() == b@.len(),
            forall|j: int| 0 <= j < i ==> ascii_lower(#[trigger] a@[j]) == ascii_lower(b@[j]),
        decreases a.len() - i,
    {
        if to_ascii_lower(a[i]) != to_ascii_lower(b[i]) {
            assert(ascii_lower(a@[i as int]) != ascii_lower(b@[i as int]));
            return false;
        }
        i = i + 1;
    }
    true
}

/// One text comes before another, or is the same, whatever the case of ASCII
/// letters.
pub open spec fn folded_at_most(a: Seq<char>, b: Seq<char>) -> bool
    decreases a.len(),
{
    if a.len() == 0 {
        true
    } else if b.len() == 0 {
        false
    } else if ascii_lower(a[0]) != ascii_lower(b[0]) {
        ascii_lower(a[0]) < ascii_lower(b[0])
    } else {
        folded_at_most(a.skip(1), b.skip(1))
    }
}

pub fn in_front(a: &[char], b: &[char]) -> (yes: bool)
    ensures
        yes == folded_at_most(a@, b@),
{
    let mut i: usize = 0;
    assert(a@.skip(0) =~= a@ && b@.skip(0) =~= b@);
    while i < a.len() && i < b.len()
        invariant
            i <= a@.len(),
            i <= b@.len(),
            folded_at_most(a@, b@) == folded_at_most(a@.skip(i as int), b@.skip(i as int)),
        decreases a.len() - i,
    {
        let x = to_ascii_lower(a[i]);
        let y = to_ascii_lower(b[i]);
        if x != y {
            return x < y;
        }
        assert(a@.skip(i as int).skip(1) =~= a@.skip(i + 1));
        assert(b@.skip(i as int).skip(1) =~= b@.skip(i + 1));
        i = i + 1;
    }
    i == a.len()
}

/// Of two texts one may stand in front of the other.
pub proof fn lemma_folded_total(a: Seq<char>, b: Seq<char>)
    ensures
        folded_at_most(a, b) || folded_at_most(b, a),
    decreases a.len(),
{
    if a.len() > 0 && b.len() > 0 && ascii_lower(a[0]) == ascii_lower(b[0]) {
        lemma_folded_total(a.skip(1), b.skip(1));
    }
}

/// And in front of whatever stands behind that.
pub proof fn lemma_folded_chain(a: Seq<char>, b: Seq<char>, c: Seq<char>)
    requires
        folded_at_most(a, b),
        folded_at_most(b, c),
    ensures
        folded_at_most(a, c),
    decreases a.len(),
{
    if a.len() > 0 && b.len() > 0 && c.len() > 0 && ascii_lower(a[0]) == ascii_lower(b[0])
        && ascii_lower(b[0]) == ascii_lower(c[0]) {
        lemma_folded_chain(a.skip(1), b.skip(1), c.skip(1));
    }
}

/// One text comes before another, or is the same, character by character.
pub open spec fn plain_at_most(a: Seq<char>, b: Seq<char>) -> bool
    decreases a.len(),
{
    if a.len() == 0 {
        true
    } else if b.len() == 0 {
        false
    } else if a[0] != b[0] {
        a[0] < b[0]
    } else {
        plain_at_most(a.skip(1), b.skip(1))
    }
}

pub fn goes_first(a: &[char], b: &[char]) -> (yes: bool)
    ensures
        yes == plain_at_most(a@, b@),
{
    let mut i: usize = 0;
    assert(a@.skip(0) =~= a@ && b@.skip(0) =~= b@);
    while i < a.len() && i < b.len()
        invariant
            i <= a@.len(),
            i <= b@.len(),
            plain_at_most(a@, b@) == plain_at_most(a@.skip(i as int), b@.skip(i as int)),
        decreases a.len() - i,
    {
        if a[i] != b[i] {
            return a[i] < b[i];
        }
        assert(a@.skip(i as int).skip(1) =~= a@.skip(i + 1));
        assert(b@.skip(i as int).skip(1) =~= b@.skip(i + 1));
        i = i + 1;
    }
    i == a.len()
}

pub proof fn lemma_plain_total(a: Seq<char>, b: Seq<char>)
    ensures
        plain_at_most(a, b) || plain_at_most(b, a),
    decreases a.len(),
{
    if a.len() > 0 && b.len() > 0 && a[0] == b[0] {
        lemma_plain_total(a.skip(1), b.skip(1));
    }
}

pub proof fn lemma_plain_chain(a: Seq<char>, b: Seq<char>, c: Seq<char>)
    requires
        plain_at_most(a, b),
        plain_at_most(b, c),
    ensures
        plain_at_most(a, c),
    decreases a.len(),
{
    if a.len() > 0 && b.len() > 0 && c.len() > 0 && a[0] == b[0] && b[0] == c[0] {
        lemma_plain_chain(a.skip(1), b.skip(1), c.skip(1));
    }
}

// --- Between strings and characters -----------------------------------------

pub fn chars_of(s: &str) -> (chars: Vec<char>)
    ensures
        chars@ == s@,
{
    let mut out: Vec<char> = Vec::new();
    for c in it: s.chars()
        invariant
            out@ == s@.subrange(0, it.index() as int),
            it.seq() == s@,
    {
        out.push(c);
        assert(s@.subrange(0, it.index() as int + 1) =~= s@.subrange(0, it.index() as int).push(c));
    }
    assert(s@.subrange(0, s@.len() as int) =~= s@);
    out
}

pub fn text_of(chars: &[char]) -> (s: String)
    ensures
        s@ == chars@,
{
    let mut out = String::new();
    let mut i: usize = 0;
    while i < chars.len()
        invariant
            i <= chars@.len(),
            out@ == chars@.subrange(0, i as int),
        decreases chars.len() - i,
    {
        out.push(chars[i]);
        assert(chars@.subrange(0, i + 1) =~= chars@.subrange(0, i as int).push(chars@[i as int]));
        i = i + 1;
    }
    assert(chars@.subrange(0, chars@.len() as int) =~= chars@);
    out
}


/// Whether two texts are the same, character for character.
pub fn same(a: &[char], b: &[char]) -> (yes: bool)
    ensures
        yes == (a@ == b@),
{
    if a.len() != b.len() {
        return false;
    }
    let mut i: usize = 0;
    while i < a.len()
        invariant
            i <= a@.len(),
            a@.len() == b@.len(),
            forall|j: int| 0 <= j < i ==> a@[j] == b@[j],
        decreases a.len() - i,
    {
        if a[i] != b[i] {
            return false;
        }
        i = i + 1;
    }
    assert(a@ =~= b@);
    true
}

/// Whether two strings are the same text.
pub fn same_text(a: &str, b: &str) -> (yes: bool)
    ensures
        yes == (a@ == b@),
{
    let a = chars_of(a);
    let b = chars_of(b);
    same(&a, &b)
}

// --- Trimming and searching -------------------------------------------------

/// `s` without the white space it starts with.
pub open spec fn trim_start(s: Seq<char>) -> Seq<char>
    decreases s.len(),
{
    if s.len() > 0 && is_space(s[0]) {
        trim_start(s.skip(1))
    } else {
        s
    }
}

/// `s` without the white space it ends with.
pub open spec fn trim_end(s: Seq<char>) -> Seq<char>
    decreases s.len(),
{
    if s.len() > 0 && is_space(s.last()) {
        trim_end(s.drop_last())
    } else {
        s
    }
}

/// `s` without white space at either end, as `str::trim` leaves it.
pub open spec fn trimmed(s: Seq<char>) -> Seq<char> {
    trim_end(trim_start(s))
}

pub fn trim(s: &[char]) -> (rest: &[char])
    ensures
        rest@ == trimmed(s@),
{
    let mut from: usize = 0;
    assert(s@.skip(0) =~= s@);
    while from < s.len() && space(s[from])
        invariant
            from <= s@.len(),
            trim_start(s@) == trim_start(s@.skip(from as int)),
        decreases s.len() - from,
    {
        assert(s@.skip(from as int).skip(1) =~= s@.skip(from as int + 1));
        from = from + 1;
    }
    let ghost started = s@.skip(from as int);
    assert(trim_start(s@) == started);
    let mut to: usize = s.len();
    assert(s@.subrange(from as int, to as int) =~= started);
    while from < to && space(s[to - 1])
        invariant
            from <= to <= s@.len(),
            trim_end(started) == trim_end(s@.subrange(from as int, to as int)),
        decreases to,
    {
        assert(s@.subrange(from as int, to as int).drop_last() =~= s@.subrange(
            from as int,
            to - 1,
        ));
        to = to - 1;
    }
    slice_subrange(s, from, to)
}

/// `str::trim`, on a string.
pub fn trim_text(s: &str) -> (rest: String)
    ensures
        rest@ == trimmed(s@),
{
    let chars = chars_of(s);
    text_of(trim(&chars))
}

/// Trimming takes off, at most: what is left is a stretch of the text.
pub proof fn lemma_trimmed_within(s: Seq<char>)
    ensures
        trimmed(s).len() <= s.len(),
        forall|i: int| 0 <= i < trimmed(s).len() ==> s.contains(#[trigger] trimmed(s)[i]),
{
    lemma_trim_start_within(s);
    lemma_trim_end_within(trim_start(s));
    assert forall|i: int| 0 <= i < trimmed(s).len() implies s.contains(
        #[trigger] trimmed(s)[i],
    ) by {
        assert(trim_start(s).contains(trimmed(s)[i]));
        let j = choose|j: int| 0 <= j < trim_start(s).len() && trim_start(s)[j] == trimmed(s)[i];
        assert(s.contains(trim_start(s)[j]));
    }
}

proof fn lemma_trim_start_within(s: Seq<char>)
    ensures
        trim_start(s).len() <= s.len(),
        forall|i: int| 0 <= i < trim_start(s).len() ==> s.contains(#[trigger] trim_start(s)[i]),
    decreases s.len(),
{
    if s.len() > 0 && is_space(s[0]) {
        lemma_trim_start_within(s.skip(1));
        assert forall|i: int| 0 <= i < trim_start(s).len() implies s.contains(
            #[trigger] trim_start(s)[i],
        ) by {
            assert(s.skip(1).contains(trim_start(s.skip(1))[i]));
            let j = choose|j: int|
                0 <= j < s.skip(1).len() && s.skip(1)[j] == trim_start(s.skip(1))[i];
            assert(s[j + 1] == trim_start(s)[i]);
        }
    }
}

proof fn lemma_trim_end_within(s: Seq<char>)
    ensures
        trim_end(s).len() <= s.len(),
        forall|i: int| 0 <= i < trim_end(s).len() ==> s.contains(#[trigger] trim_end(s)[i]),
    decreases s.len(),
{
    if s.len() > 0 && is_space(s.last()) {
        lemma_trim_end_within(s.drop_last());
        assert forall|i: int| 0 <= i < trim_end(s).len() implies s.contains(
            #[trigger] trim_end(s)[i],
        ) by {
            assert(s.drop_last().contains(trim_end(s.drop_last())[i]));
            let j = choose|j: int|
                0 <= j < s.drop_last().len() && s.drop_last()[j] == trim_end(s.drop_last())[i];
            assert(s[j] == trim_end(s)[i]);
        }
    }
}

/// A text with no white space at either end stays as it is.
pub proof fn lemma_trimmed_fixed(s: Seq<char>)
    requires
        s.len() > 0,
        !is_space(s[0]),
        !is_space(s.last()),
    ensures
        trimmed(s) == s,
{
}

/// A text that does not start with white space keeps its first character.
pub proof fn lemma_trimmed_starts(s: Seq<char>)
    requires
        s.len() > 0,
        !is_space(s[0]),
    ensures
        trimmed(s).len() > 0,
        trimmed(s)[0] == s[0],
    decreases s.len(),
{
    if is_space(s.last()) {
        lemma_trimmed_starts(s.drop_last());
        assert(trim_start(s) == s);
        assert(trim_start(s.drop_last()) == s.drop_last());
    }
}

/// Trimming twice is trimming once.
pub proof fn lemma_trimmed_twice(s: Seq<char>)
    ensures
        trimmed(trimmed(s)) == trimmed(s),
{
    lemma_trim_start_clean(s);
    lemma_trim_end_clean(trim_start(s));
}

/// What is left of a text is one part of it, and what is not is white space.
pub proof fn lemma_trimmed_is_a_part(s: Seq<char>) -> (part: (int, int))
    ensures
        0 <= part.0 <= part.1 <= s.len(),
        trimmed(s) == s.subrange(part.0, part.1),
        forall|i: int| 0 <= i < part.0 || part.1 <= i < s.len() ==> is_space(#[trigger] s[i]),
{
    let from = lemma_trim_start_is_the_rest(s);
    let rest = trim_start(s);
    let many = lemma_trim_end_is_the_start(rest);
    assert(trimmed(s) =~= s.subrange(from, from + many));
    assert forall|i: int| 0 <= i < from || from + many <= i < s.len() implies is_space(
        #[trigger] s[i],
    ) by {
        if i >= from {
            assert(rest[i - from] == s[i]);
        }
    }
    (from, from + many)
}

proof fn lemma_trim_start_is_the_rest(s: Seq<char>) -> (from: int)
    ensures
        0 <= from <= s.len(),
        trim_start(s) == s.skip(from),
        forall|i: int| 0 <= i < from ==> is_space(#[trigger] s[i]),
    decreases s.len(),
{
    if s.len() > 0 && is_space(s[0]) {
        let from = lemma_trim_start_is_the_rest(s.skip(1));
        assert(s.skip(1).skip(from) =~= s.skip(from + 1));
        assert forall|i: int| 0 <= i < from + 1 implies is_space(#[trigger] s[i]) by {
            if i > 0 {
                assert(s.skip(1)[i - 1] == s[i]);
            }
        }
        from + 1
    } else {
        assert(s.skip(0) =~= s);
        0
    }
}

proof fn lemma_trim_end_is_the_start(s: Seq<char>) -> (many: int)
    ensures
        0 <= many <= s.len(),
        trim_end(s) == s.take(many),
        forall|i: int| many <= i < s.len() ==> is_space(#[trigger] s[i]),
    decreases s.len(),
{
    if s.len() > 0 && is_space(s.last()) {
        let many = lemma_trim_end_is_the_start(s.drop_last());
        assert(s.drop_last().take(many) =~= s.take(many));
        assert forall|i: int| many <= i < s.len() implies is_space(#[trigger] s[i]) by {
            if i < s.len() - 1 {
                assert(s.drop_last()[i] == s[i]);
            }
        }
        many
    } else {
        assert(s.take(s.len() as int) =~= s);
        s.len() as int
    }
}

/// No white space is left at either end.
pub proof fn lemma_trimmed_ends(s: Seq<char>)
    ensures
        trimmed(s).len() > 0 ==> !is_space(trimmed(s)[0]) && !is_space(trimmed(s).last()),
{
    lemma_trim_start_clean(s);
    lemma_trim_end_clean(trim_start(s));
}

proof fn lemma_trim_start_clean(s: Seq<char>)
    ensures
        trim_start(s).len() > 0 ==> !is_space(trim_start(s)[0]),
    decreases s.len(),
{
    if s.len() > 0 && is_space(s[0]) {
        lemma_trim_start_clean(s.skip(1));
    }
}

proof fn lemma_trim_end_clean(s: Seq<char>)
    ensures
        trim_end(s).len() > 0 ==> !is_space(trim_end(s).last()) && trim_end(s)[0] == s[0],
    decreases s.len(),
{
    if s.len() > 0 && is_space(s.last()) {
        lemma_trim_end_clean(s.drop_last());
    }
}

/// Where `c` first stands in `s`, from place `from` on; the length of `s`
/// where it does not.
pub open spec fn index_from(s: Seq<char>, c: char, from: int) -> int
    decreases s.len() - from,
{
    if from >= s.len() {
        s.len() as int
    } else if s[from] == c {
        from
    } else {
        index_from(s, c, from + 1)
    }
}

pub proof fn lemma_index_from(s: Seq<char>, c: char, from: int)
    requires
        0 <= from <= s.len(),
    ensures
        from <= index_from(s, c, from) <= s.len(),
        index_from(s, c, from) < s.len() ==> s[index_from(s, c, from)] == c,
        forall|i: int| from <= i < index_from(s, c, from) ==> s[i] != c,
    decreases s.len() - from,
{
    if from < s.len() && s[from] != c {
        lemma_index_from(s, c, from + 1);
    }
}

pub fn find(s: &[char], c: char, from: usize) -> (at: usize)
    requires
        from <= s@.len(),
    ensures
        at == index_from(s@, c, from as int),
        from <= at <= s@.len(),
{
    let mut i: usize = from;
    while i < s.len() && s[i] != c
        invariant
            from <= i <= s@.len(),
            index_from(s@, c, from as int) == index_from(s@, c, i as int),
        decreases s.len() - i,
    {
        i = i + 1;
    }
    i
}

/// `s` up to the first `c`.
pub open spec fn before(s: Seq<char>, c: char) -> Seq<char> {
    s.take(index_from(s, c, 0))
}

/// `s` behind the first `c`; empty where there is none.
pub open spec fn after(s: Seq<char>, c: char) -> Seq<char> {
    if index_from(s, c, 0) < s.len() {
        s.skip(index_from(s, c, 0) + 1)
    } else {
        Seq::empty()
    }
}

/// `s` in pieces, as `sep` parts it: one more than there are separators.
pub open spec fn pieces(s: Seq<char>, sep: char) -> Seq<Seq<char>>
    decreases s.len(),
{
    if s.len() == 0 {
        seq![Seq::empty()]
    } else {
        let rest = pieces(s.drop_last(), sep);
        if s.last() == sep {
            rest.push(Seq::empty())
        } else {
            rest.drop_last().push(rest.last().push(s.last()))
        }
    }
}

/// What each of several texts holds.
pub open spec fn texts(parts: Seq<Vec<char>>) -> Seq<Seq<char>> {
    Seq::new(parts.len(), |i: int| parts[i]@)
}

pub fn split(s: &[char], sep: char) -> (parts: Vec<Vec<char>>)
    ensures
        texts(parts@) == pieces(s@, sep),
        parts@.len() >= 1,
{
    let mut parts: Vec<Vec<char>> = Vec::new();
    let mut current: Vec<char> = Vec::new();
    let mut i: usize = 0;
    assert(texts(parts@).push(current@) =~= pieces(s@.take(0), sep));
    while i < s.len()
        invariant
            i <= s@.len(),
            texts(parts@).push(current@) == pieces(s@.take(i as int), sep),
        decreases s.len() - i,
    {
        assert(s@.take(i + 1).drop_last() =~= s@.take(i as int));
        let ghost before = texts(parts@);
        let ghost held = current@;
        if s[i] == sep {
            parts.push(current);
            current = Vec::new();
            assert(texts(parts@) =~= before.push(held));
        } else {
            current.push(s[i]);
            assert(before.push(held).drop_last() =~= before);
        }
        assert(texts(parts@).push(current@) =~= pieces(s@.take(i + 1), sep));
        i = i + 1;
    }
    assert(s@.take(i as int) =~= s@);
    let ghost before = texts(parts@);
    let ghost held = current@;
    parts.push(current);
    assert(texts(parts@) =~= before.push(held));
    parts
}

/// `s` starts with `prefix`.
pub open spec fn starts(s: Seq<char>, prefix: Seq<char>) -> bool {
    prefix.len() <= s.len() && s.take(prefix.len() as int) == prefix
}

pub fn starts_with(s: &[char], prefix: &[char]) -> (yes: bool)
    ensures
        yes == starts(s@, prefix@),
{
    if prefix.len() > s.len() {
        return false;
    }
    let head = slice_subrange(s, 0, prefix.len());
    assert(head@ =~= s@.take(prefix@.len() as int));
    same(head, prefix)
}

/// `part` stands in `s` somewhere.
pub open spec fn holds(s: Seq<char>, part: Seq<char>) -> bool {
    exists|i: int| 0 <= i <= s.len() - part.len() && #[trigger] s.subrange(i, i + part.len()) == part
}

pub fn contains(s: &[char], part: &[char]) -> (yes: bool)
    ensures
        yes == holds(s@, part@),
{
    if part.len() > s.len() {
        return false;
    }
    let mut i: usize = 0;
    while i <= s.len() - part.len()
        invariant
            part@.len() <= s@.len(),
            i <= s@.len() - part@.len() + 1,
            forall|j: int| 0 <= j < i ==> #[trigger] s@.subrange(j, j + part@.len()) != part@,
        decreases s.len() + 1 - i,
    {
        let here = slice_subrange(s, i, i + part.len());
        if same(here, part) {
            assert(s@.subrange(i as int, i + part@.len()) == part@);
            return true;
        }
        if i == s.len() - part.len() {
            assert forall|j: int| 0 <= j <= s@.len() - part@.len() implies #[trigger] s@.subrange(
                j,
                j + part@.len(),
            ) != part@ by {}
            return false;
        }
        i = i + 1;
    }
    false
}

// --- Columns ----------------------------------------------------------------

pub open spec fn spaces(n: int) -> Seq<char> {
    Seq::new(
        (if n < 0 {
            0
        } else {
            n
        }) as nat,
        |i: int| ' ',
    )
}

/// `s`, filled up to `width` characters.
pub open spec fn column(s: Seq<char>, width: int) -> Seq<char> {
    s + spaces(width - s.len())
}

pub fn push_column(out: &mut String, s: &str, width: usize)
    ensures
        final(out)@ == old(out)@ + column(s@, width as int),
{
    out.append(s);
    let n: usize = s.unicode_len();
    let mut i: usize = n;
    assert(out@ =~= old(out)@ + s@ + spaces(0));
    while i < width
        invariant
            n == s@.len(),
            i >= n,
            i == n || i <= width,
            out@ == old(out)@ + s@ + spaces(i - n),
        decreases width - i,
    {
        out.push(' ');
        assert(spaces(i + 1 - n) =~= spaces(i - n).push(' '));
        assert(out@ =~= old(out)@ + s@ + spaces(i + 1 - n));
        i = i + 1;
    }
    assert(spaces(i - n) =~= spaces(width - n));
    assert(out@ =~= old(out)@ + column(s@, width as int));
}

/// `s` at the end of a column so many characters wide, or as it is if it is
/// wider.
pub open spec fn right_column(s: Seq<char>, width: int) -> Seq<char> {
    spaces(width - s.len()) + s
}

pub fn push_right_column(out: &mut String, s: &str, width: usize)
    ensures
        final(out)@ == old(out)@ + right_column(s@, width as int),
{
    let n: usize = s.unicode_len();
    let mut i: usize = n;
    assert(out@ =~= old(out)@ + spaces(0));
    while i < width
        invariant
            n == s@.len(),
            i >= n,
            i == n || i <= width,
            out@ == old(out)@ + spaces(i - n),
        decreases width - i,
    {
        out.push(' ');
        assert(spaces(i + 1 - n) =~= spaces(i - n).push(' '));
        assert(out@ =~= old(out)@ + spaces(i + 1 - n));
        i = i + 1;
    }
    assert(spaces(i - n) =~= spaces(width - n));
    out.append(s);
    assert(out@ =~= old(out)@ + right_column(s@, width as int));
}

// --- Numbers ----------------------------------------------------------------

/// The digit for `0..=9`.
pub open spec fn digit_char(d: int) -> char {
    (48 + d) as char
}

/// `n` in decimal, without leading zeros.
pub open spec fn decimal(n: nat) -> Seq<char>
    decreases n,
{
    if n < 10 {
        seq![digit_char(n as int)]
    } else {
        decimal(n / 10).push(digit_char((n % 10) as int))
    }
}

pub fn push_decimal(out: &mut String, n: u64)
    ensures
        final(out)@ == old(out)@ + decimal(n as nat),
    decreases n,
{
    if n < 10 {
        out.push((48 + n as u8) as char);
        assert(out@ =~= old(out)@ + decimal(n as nat));
    } else {
        push_decimal(out, n / 10);
        out.push((48 + (n % 10) as u8) as char);
        assert(out@ =~= old(out)@ + decimal(n as nat));
    }
}

pub fn decimal_text(n: u64) -> (s: String)
    ensures
        s@ == decimal(n as nat),
{
    let mut out = String::new();
    push_decimal(&mut out, n);
    assert(out@ =~= decimal(n as nat));
    out
}

/// A whole number with its sign, as `i64` is written.
pub open spec fn signed(n: int) -> Seq<char> {
    if n < 0 {
        seq!['-'] + decimal((-n) as nat)
    } else {
        decimal(n as nat)
    }
}

pub fn signed_text(n: i64) -> (s: String)
    ensures
        s@ == signed(n as int),
{
    if n >= 0 {
        decimal_text(n as u64)
    } else {
        let mut out = String::new();
        out.push('-');
        let m: u64 = if n == i64::MIN {
            0x8000_0000_0000_0000
        } else {
            (-n) as u64
        };
        push_decimal(&mut out, m);
        assert(out@ =~= signed(n as int));
        out
    }
}

pub open spec fn all_digits(s: Seq<char>) -> bool {
    forall|i: int| 0 <= i < s.len() ==> is_digit(#[trigger] s[i])
}

/// The number that a row of digits writes.
pub open spec fn number(s: Seq<char>) -> nat
    decreases s.len(),
{
    if s.len() == 0 {
        0
    } else {
        number(s.drop_last()) * 10 + (s.last() as nat - 48) as nat
    }
}

/// `s` without one leading plus sign.
pub open spec fn unsigned_part(s: Seq<char>) -> Seq<char> {
    if s.len() > 0 && s[0] == '+' {
        s.skip(1)
    } else {
        s
    }
}

/// What parsing an unsigned number of at most `max` gives: digits, at least
/// one, behind at most one plus sign.
pub open spec fn parsed(s: Seq<char>, max: nat) -> Option<nat> {
    let digits = unsigned_part(s);
    if digits.len() > 0 && all_digits(digits) && number(digits) <= max {
        Some(number(digits))
    } else {
        None
    }
}

/// More digits write no smaller number.
pub proof fn lemma_number_grows(s: Seq<char>, i: int)
    requires
        0 <= i <= s.len(),
        all_digits(s),
    ensures
        number(s.take(i)) <= number(s),
    decreases s.len() - i,
{
    if i == s.len() {
        assert(s.take(i) =~= s);
    } else {
        assert(s.take(i + 1).drop_last() =~= s.take(i));
        assert(is_digit(s[i]));
        lemma_number_grows(s, i + 1);
    }
}

/// Parses as `u64::from_str` does, but refuses what is above `max`.
pub fn parse_up_to(s: &[char], max: u64) -> (n: Option<u64>)
    ensures
        match n {
            Some(v) => parsed(s@, max as nat) == Some(v as nat),
            None => parsed(s@, max as nat) is None,
        },
{
    let from: usize = if s.len() > 0 && s[0] == '+' {
        1
    } else {
        0
    };
    let digits = slice_subrange(s, from, s.len());
    assert(digits@ =~= unsigned_part(s@));
    if digits.len() == 0 {
        return None;
    }
    let mut k: usize = 0;
    while k < digits.len()
        invariant
            k <= digits@.len(),
            forall|j: int| 0 <= j < k ==> is_digit(#[trigger] digits@[j]),
            digits@ == unsigned_part(s@),
        decreases digits.len() - k,
    {
        if !digit(digits[k]) {
            assert(!is_digit(digits@[k as int]));
            return None;
        }
        k = k + 1;
    }
    let mut value: u64 = 0;
    let mut i: usize = 0;
    assert(digits@.take(0) =~= Seq::<char>::empty());
    while i < digits.len()
        invariant
            i <= digits@.len(),
            all_digits(digits@),
            value == number(digits@.take(i as int)),
            value <= max,
            digits@ == unsigned_part(s@),
        decreases digits.len() - i,
    {
        assert(is_digit(digits@[i as int]));
        let d: u64 = (digits[i] as u64) - 48;
        proof {
            assert(digits@.take(i + 1).drop_last() =~= digits@.take(i as int));
            assert(number(digits@.take(i + 1)) == value * 10 + d);
            lemma_number_grows(digits@, i + 1);
        }
        if value > (u64::MAX - d) / 10 {
            return None;
        }
        value = value * 10 + d;
        if value > max {
            return None;
        }
        i = i + 1;
    }
    assert(digits@.take(i as int) =~= digits@);
    Some(value)
}

/// What parsing an `i64` gives: digits behind at most one sign.
pub open spec fn parsed_signed(s: Seq<char>) -> Option<int> {
    if s.len() > 0 && s[0] == '-' {
        let digits = s.skip(1);
        if digits.len() > 0 && all_digits(digits) && number(digits) <= 0x8000_0000_0000_0000 {
            Some(-(number(digits) as int))
        } else {
            None
        }
    } else {
        match parsed(s, 0x7fff_ffff_ffff_ffff) {
            Some(n) => Some(n as int),
            None => None,
        }
    }
}

/// Parses as `i64::from_str` does.
pub fn parse_signed(s: &[char]) -> (n: Option<i64>)
    ensures
        match n {
            Some(v) => parsed_signed(s@) == Some(v as int),
            None => parsed_signed(s@) is None,
        },
{
    if s.len() > 0 && s[0] == '-' {
        let digits = slice_subrange(s, 1, s.len());
        assert(digits@ =~= s@.skip(1));
        if digits.len() == 0 {
            return None;
        }
        if digits[0] == '+' {
            assert(!is_digit(digits@[0]));
            return None;
        }
        assert(unsigned_part(digits@) == digits@);
        match parse_up_to(digits, 0x8000_0000_0000_0000) {
            Some(v) => {
                if v == 0x8000_0000_0000_0000 {
                    Some(i64::MIN)
                } else {
                    Some(-(v as i64))
                }
            },
            None => None,
        }
    } else {
        match parse_up_to(s, 0x7fff_ffff_ffff_ffff) {
            Some(v) => Some(v as i64),
            None => None,
        }
    }
}

/// Decimal digits are digits, and write the number they came from.
pub proof fn lemma_decimal_reads_back(n: nat)
    ensures
        decimal(n).len() > 0,
        all_digits(decimal(n)),
        number(decimal(n)) == n,
        unsigned_part(decimal(n)) == decimal(n),
    decreases n,
{
    if n < 10 {
        let s = decimal(n);
        assert(s.drop_last() =~= Seq::<char>::empty());
        assert(number(s.drop_last()) == 0);
    } else {
        lemma_decimal_reads_back(n / 10);
        assert(decimal(n).drop_last() =~= decimal(n / 10));
        assert(decimal(n)[0] == decimal(n / 10)[0]);
        assert(is_digit(decimal(n / 10)[0]));
    }
}

// --- What these come to -----------------------------------------------------------

/// The capital letters are their small ones, and nothing else changes.
pub proof fn lemma_small_letters(i: int, c: char)
    ensures
        0 <= i < 26 ==> ascii_lower("ABCDEFGHIJKLMNOPQRSTUVWXYZ"@[i])
            == "abcdefghijklmnopqrstuvwxyz"@[i],
        !('A' <= c <= 'Z') ==> ascii_lower(c) == c,
{
    reveal_strlit("ABCDEFGHIJKLMNOPQRSTUVWXYZ");
    reveal_strlit("abcdefghijklmnopqrstuvwxyz");
    if 0 <= i < 26 {
        let upper = "ABCDEFGHIJKLMNOPQRSTUVWXYZ"@[i];
        assert('A' <= upper <= 'Z');
    }
}

/// The first characters in which two texts differ, whatever the case of their
/// letters, decide which stands in front; where one ends first, that one does.
pub proof fn lemma_folded_order(a: Seq<char>, b: Seq<char>, k: int)
    requires
        0 <= k <= a.len() && k <= b.len(),
        forall|i: int| 0 <= i < k ==> ascii_lower(#[trigger] a[i]) == ascii_lower(b[i]),
    ensures
        k < a.len() && k < b.len() && ascii_lower(a[k]) < ascii_lower(b[k]) ==> folded_at_most(a, b)
            && !folded_at_most(b, a),
        k == a.len() ==> folded_at_most(a, b),
        k == a.len() && k < b.len() ==> !folded_at_most(b, a),
    decreases k,
{
    if k > 0 {
        let (x, y) = (a.skip(1), b.skip(1));
        assert(ascii_lower(a[0]) == ascii_lower(b[0]));
        assert forall|i: int| 0 <= i < k - 1 implies ascii_lower(#[trigger] x[i]) == ascii_lower(
            y[i],
        ) by {
            assert(x[i] == a[i + 1] && y[i] == b[i + 1]);
        }
        lemma_folded_order(x, y, k - 1);
    }
}

/// The same of two texts as they are.
pub proof fn lemma_plain_order(a: Seq<char>, b: Seq<char>, k: int)
    requires
        0 <= k <= a.len() && k <= b.len(),
        forall|i: int| 0 <= i < k ==> #[trigger] a[i] == b[i],
    ensures
        k < a.len() && k < b.len() && a[k] < b[k] ==> plain_at_most(a, b) && !plain_at_most(b, a),
        k == a.len() ==> plain_at_most(a, b),
        k == a.len() && k < b.len() ==> !plain_at_most(b, a),
    decreases k,
{
    if k > 0 {
        let (x, y) = (a.skip(1), b.skip(1));
        assert(a[0] == b[0]);
        assert forall|i: int| 0 <= i < k - 1 implies #[trigger] x[i] == y[i] by {
            assert(x[i] == a[i + 1] && y[i] == b[i + 1]);
        }
        lemma_plain_order(x, y, k - 1);
    }
}

/// Texts with a separator between each two.
pub open spec fn rejoined(parts: Seq<Seq<char>>, sep: char) -> Seq<char>
    decreases parts.len(),
{
    if parts.len() == 0 {
        Seq::empty()
    } else if parts.len() == 1 {
        parts[0]
    } else {
        rejoined(parts.drop_last(), sep).push(sep) + parts.last()
    }
}

/// The pieces of a text make it up, with the separator between them, and none
/// of them holds it.
pub proof fn lemma_pieces_make_up_the_text(s: Seq<char>, sep: char)
    ensures
        pieces(s, sep).len() >= 1,
        rejoined(pieces(s, sep), sep) == s,
        forall|i: int, j: int|
            0 <= i < pieces(s, sep).len() && 0 <= j < pieces(s, sep)[i].len() ==> #[trigger] pieces(
                s,
                sep,
            )[i][j] != sep,
    decreases s.len(),
{
    if s.len() == 0 {
        assert(rejoined(pieces(s, sep), sep) =~= s);
    } else {
        let less = s.drop_last();
        let c = s.last();
        let rest = pieces(less, sep);
        let all = pieces(s, sep);
        lemma_pieces_make_up_the_text(less, sep);
        assert(less.push(c) =~= s);
        if c == sep {
            assert(all.drop_last() =~= rest);
            assert(rejoined(all, sep) =~= s);
            assert forall|i: int, j: int|
                0 <= i < all.len() && 0 <= j < all[i].len() implies #[trigger] all[i][j] != sep by {
                assert(all[i] == rest[i]);
            }
        } else {
            assert(all.drop_last() =~= rest.drop_last());
            assert(rejoined(all, sep) =~= s) by {
                if rest.len() > 1 {
                    assert(rejoined(all, sep) =~= rejoined(rest, sep).push(c));
                }
            }
            assert forall|i: int, j: int|
                0 <= i < all.len() && 0 <= j < all[i].len() implies #[trigger] all[i][j] != sep by {
                if i < all.len() - 1 {
                    assert(all[i] == rest[i]);
                } else if j < rest.last().len() {
                    assert(all[i][j] == rest[i][j]);
                }
            }
        }
    }
}

/// A number is written with its digits, the highest first and without noughts
/// in front, and a sign before it if it is below nought.
pub proof fn lemma_numbers_are_written(n: nat, m: int)
    ensures
        n < 10 ==> decimal(n) == seq![("0123456789"@)[n as int]],
        n >= 10 ==> decimal(n) == decimal(n / 10).push("0123456789"@[(n % 10) as int]),
        m < 0 ==> signed(m) == seq!['-'] + decimal((-m) as nat),
        m >= 0 ==> signed(m) == decimal(m as nat),
{
    reveal_strlit("0123456789");
    if n < 10 {
        assert(decimal(n) =~= seq![digit_char(n as int)]);
    }
}

/// A text without a separator is one piece.
pub proof fn lemma_one_piece(s: Seq<char>, sep: char)
    requires
        !s.contains(sep),
    ensures
        pieces(s, sep) == seq![s],
    decreases s.len(),
{
    if s.len() > 0 {
        assert(s[s.len() - 1] == s.last());
        assert forall|i: int| 0 <= i < s.len() - 1 implies s.drop_last()[i] != sep by {
            assert(s[i] != sep);
        }
        lemma_one_piece(s.drop_last(), sep);
        assert(s.drop_last().push(s.last()) =~= s);
        assert(pieces(s, sep) =~= seq![s]);
    } else {
        assert(s =~= Seq::empty());
    }
}

/// What stands in front of the first separator, and behind it.
pub proof fn lemma_parted(left: Seq<char>, c: char, right: Seq<char>)
    requires
        !left.contains(c),
    ensures
        index_from(left.push(c) + right, c, 0) == left.len(),
        before(left.push(c) + right, c) == left,
        after(left.push(c) + right, c) == right,
{
    let s = left.push(c) + right;
    lemma_index_from(s, c, 0);
    let i = index_from(s, c, 0);
    assert(s[left.len() as int] == c);
    if i < left.len() {
        assert(left[i] == c);
    }
    assert(before(s, c) =~= left);
    assert(after(s, c) =~= right);
}

/// A text in a column stands at its start, or at its end, with nothing but
/// spaces beside it, and is never cut.
pub proof fn lemma_columns_are_filled(s: Seq<char>, width: int)
    ensures
        starts(column(s, width), s),
        right_column(s, width).skip(right_column(s, width).len() - s.len()) == s,
        column(s, width).len() == (if s.len() < width {
            width
        } else {
            s.len() as int
        }),
        right_column(s, width).len() == column(s, width).len(),
        forall|i: int| s.len() <= i < column(s, width).len() ==> #[trigger] column(s, width)[i] == ' ',
        forall|i: int|
            0 <= i < right_column(s, width).len() - s.len() ==> #[trigger] right_column(s, width)[i]
                == ' ',
{
    assert(column(s, width).take(s.len() as int) =~= s);
    assert(right_column(s, width).skip(right_column(s, width).len() - s.len()) =~= s);
}

/// What stands behind the last separator is the last piece.
pub proof fn lemma_last_piece(head: Seq<char>, sep: char, last: Seq<char>)
    requires
        !last.contains(sep),
    ensures
        pieces(head.push(sep) + last, sep) == pieces(head, sep).push(last),
    decreases last.len(),
{
    let s = head.push(sep) + last;
    if last.len() == 0 {
        assert(s =~= head.push(sep));
        assert(s.drop_last() =~= head);
        assert(last =~= Seq::empty());
    } else {
        let less = last.drop_last();
        assert forall|i: int| 0 <= i < less.len() implies less[i] != sep by {
            assert(last[i] != sep);
        }
        lemma_last_piece(head, sep, less);
        assert(last[last.len() - 1] != sep);
        assert(s.last() == last.last());
        assert(s.drop_last() =~= head.push(sep) + less);
        let rest = pieces(s.drop_last(), sep);
        assert(rest.drop_last() =~= pieces(head, sep));
        assert(less.push(last.last()) =~= last);
    }
}

/// A number that is written out is read as that number up to the most there may
/// be, and not beyond it; with a plus sign too, and with a minus sign as what is
/// below nought.
pub proof fn lemma_numbers_are_read_up_to_a_limit(n: nat, max: nat)
    ensures
        n <= max ==> parsed(decimal(n), max) == Some(n),
        n > max ==> parsed(decimal(n), max) is None,
        n <= max ==> parsed(seq!['+'] + decimal(n), max) == Some(n),
        n <= 0x7fff_ffff_ffff_ffff ==> parsed_signed(signed(n as int)) == Some(n as int),
        0 < n <= 0x8000_0000_0000_0000 ==> parsed_signed(signed(-n)) == Some(-n),
        n > 0x7fff_ffff_ffff_ffff ==> parsed_signed(signed(n as int)) is None,
        n > 0x8000_0000_0000_0000 ==> parsed_signed(signed(-n)) is None,
        parsed(Seq::empty(), max) is None,
{
    lemma_decimal_reads_back(n);
    let s = decimal(n);
    assert(is_digit(s[0]));
    let plus = seq!['+'] + s;
    assert(unsigned_part(plus) =~= s);
    if n > 0 {
        let minus = signed(-n);
        assert(minus =~= seq!['-'] + s);
        assert(minus.skip(1) =~= s);
    }
    assert(unsigned_part(Seq::empty()).len() == 0);
}

/// A text with anything but digits behind its sign is no number.
pub proof fn lemma_only_digits_are_numbers(s: Seq<char>, max: nat, i: int)
    requires
        1 <= i < s.len(),
        !is_digit(s[i]),
    ensures
        parsed(s, max) is None,
        parsed_signed(s) is None,
{
    let digits = unsigned_part(s);
    if s[0] == '+' {
        assert(digits =~= s.skip(1));
        assert(digits[i - 1] == s[i]);
    } else {
        assert(digits =~= s);
        assert(digits[i] == s[i]);
    }
    if s[0] == '-' {
        assert(s.skip(1)[i - 1] == s[i]);
    }
}

/// What is white space: the usual characters are, and letters, digits and signs
/// are not.
pub proof fn lemma_what_is_space(c: char)
    ensures
        is_space(' ') && is_space('\t') && is_space('\n') && is_space('\r') && is_space('\u{B}')
            && is_space('\u{C}'),
        is_space('\u{85}') && is_space('\u{A0}') && is_space('\u{1680}') && is_space('\u{2000}')
            && is_space('\u{200A}') && is_space('\u{2028}') && is_space('\u{2029}')
            && is_space('\u{202F}') && is_space('\u{205F}') && is_space('\u{3000}'),
        '!' <= c <= '~' ==> !is_space(c),
        c < '\t' ==> !is_space(c),
        !is_space('\u{200B}') && !is_space('\u{FEFF}') && !is_space('\u{180E}'),
        is_control(c) <==> (c as int) < 32 || 127 <= c as int <= 159,
{
}

}
