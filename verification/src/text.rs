//! Texts as sequences of characters: searching, trimming, splitting, numbers.

use vstd::prelude::*;
use vstd::utf8::*;

verus! {

broadcast use vstd::utf8::group_utf8_lib;

/// `String::push`: appends one character at the end.
pub assume_specification[ String::push ](s: &mut String, c: char)
    ensures
        final(s)@ == old(s)@.push(c),
;

// ---------------------------------------------------------------------------
// What the words below mean
// ---------------------------------------------------------------------------

/// `needle` stands in `hay` from position `at` on.
pub open spec fn occurs_at(hay: Seq<char>, needle: Seq<char>, at: int) -> bool {
    &&& 0 <= at
    &&& at + needle.len() <= hay.len()
    &&& hay.subrange(at, at + needle.len()) == needle
}

/// `needle` stands somewhere in `hay`.
pub open spec fn occurs(hay: Seq<char>, needle: Seq<char>) -> bool {
    exists|at: int| occurs_at(hay, needle, at)
}

/// The first place where `needle` stands in `hay` is `at`.
pub open spec fn first_at(hay: Seq<char>, needle: Seq<char>, at: int) -> bool {
    &&& occurs_at(hay, needle, at)
    &&& forall|before: int| 0 <= before < at ==> !occurs_at(hay, needle, before)
}

/// `s` begins with `prefix`.
pub open spec fn has_prefix(s: Seq<char>, prefix: Seq<char>) -> bool {
    occurs_at(s, prefix, 0)
}

/// The characters with the Unicode property `White_Space`.
pub open spec fn white_space(c: char) -> bool {
    ||| '\u{9}' <= c <= '\u{d}'
    ||| c == '\u{20}'
    ||| c == '\u{85}'
    ||| c == '\u{a0}'
    ||| c == '\u{1680}'
    ||| '\u{2000}' <= c <= '\u{200a}'
    ||| c == '\u{2028}'
    ||| c == '\u{2029}'
    ||| c == '\u{202f}'
    ||| c == '\u{205f}'
    ||| c == '\u{3000}'
}

/// `s` without the white space it begins with.
pub open spec fn without_leading_space(s: Seq<char>) -> Seq<char>
    decreases s.len(),
{
    if s.len() > 0 && white_space(s[0]) {
        without_leading_space(s.drop_first())
    } else {
        s
    }
}

/// `s` without the white space it ends with.
pub open spec fn without_trailing_space(s: Seq<char>) -> Seq<char>
    decreases s.len(),
{
    if s.len() > 0 && white_space(s.last()) {
        without_trailing_space(s.drop_last())
    } else {
        s
    }
}

/// `s` without white space on either side.
pub open spec fn trimmed(s: Seq<char>) -> Seq<char> {
    without_trailing_space(without_leading_space(s))
}

/// `s` without the run of `c` it begins with.
pub open spec fn without_leading(s: Seq<char>, c: char) -> Seq<char>
    decreases s.len(),
{
    if s.len() > 0 && s[0] == c {
        without_leading(s.drop_first(), c)
    } else {
        s
    }
}

/// `s` without the run of `c` it ends with.
pub open spec fn without_trailing(s: Seq<char>, c: char) -> Seq<char>
    decreases s.len(),
{
    if s.len() > 0 && s.last() == c {
        without_trailing(s.drop_last(), c)
    } else {
        s
    }
}

/// The pieces of `s` between the characters `sep`: one more than there are
/// separators.
pub open spec fn pieces(s: Seq<char>, sep: char) -> Seq<Seq<char>>
    decreases s.len(),
{
    if s.len() == 0 {
        seq![s]
    } else if s.last() == sep {
        pieces(s.drop_last(), sep).push(Seq::empty())
    } else {
        let head = pieces(s.drop_last(), sep);
        head.drop_last().push(head.last().push(s.last()))
    }
}

/// The maximal runs of `s` without white space, from left to right.
pub open spec fn words(s: Seq<char>) -> Seq<Seq<char>>
    decreases s.len(),
{
    if s.len() == 0 {
        Seq::empty()
    } else if white_space(s.last()) {
        words(s.drop_last())
    } else if s.len() == 1 || white_space(s[s.len() - 2]) {
        words(s.drop_last()).push(seq![s.last()])
    } else {
        let head = words(s.drop_last());
        head.drop_last().push(head.last().push(s.last()))
    }
}

/// The texts of `parts`, with `sep` between neighbours.
pub open spec fn joined(parts: Seq<Seq<char>>, sep: Seq<char>) -> Seq<char>
    decreases parts.len(),
{
    if parts.len() == 0 {
        Seq::empty()
    } else if parts.len() == 1 {
        parts[0]
    } else {
        joined(parts.drop_last(), sep) + sep + parts.last()
    }
}

/// An ASCII capital becomes the small letter, anything else stays.
pub open spec fn ascii_lower(c: char) -> char {
    if 'A' <= c <= 'Z' {
        ((c as u32) + 32) as char
    } else {
        c
    }
}

/// `s` with every ASCII capital made small.
pub open spec fn lowered(s: Seq<char>) -> Seq<char> {
    s.map_values(|c: char| ascii_lower(c))
}

/// A text of ASCII characters alone.
pub open spec fn all_ascii(s: Seq<char>) -> bool {
    forall|i: int| 0 <= i < s.len() ==> (#[trigger] s[i]) <= '\x7f'
}

/// A text in lower case, as Unicode defines it.
pub uninterp spec fn unicode_lowercase(s: Seq<char>) -> Seq<char>;

/// `s` with every `from` replaced by `to`.
pub open spec fn swapped(s: Seq<char>, from: char, to: char) -> Seq<char> {
    s.map_values(
        |c: char|
            if c == from {
                to
            } else {
                c
            },
    )
}

/// An ASCII digit.
pub open spec fn is_digit(c: char) -> bool {
    '0' <= c <= '9'
}

/// The number a digit stands for.
pub open spec fn digit_value(c: char) -> nat {
    ((c as int) - ('0' as int)) as nat
}

/// The digit of a number below ten.
pub open spec fn digit_char(d: nat) -> char {
    (('0' as int) + d) as char
}

/// `n` in decimal, without leading zeros.
pub open spec fn decimal(n: nat) -> Seq<char>
    decreases n,
{
    if n < 10 {
        seq![digit_char(n)]
    } else {
        decimal(n / 10).push(digit_char(n % 10))
    }
}

/// The number that a run of digits stands for.
pub open spec fn digits_value(s: Seq<char>) -> nat
    decreases s.len(),
{
    if s.len() == 0 {
        0
    } else {
        digits_value(s.drop_last()) * 10 + digit_value(s.last())
    }
}

/// Every character of `s` is a digit.
pub open spec fn all_digits(s: Seq<char>) -> bool {
    forall|i: int| 0 <= i < s.len() ==> is_digit(#[trigger] s[i])
}

/// The digits of a number as it may be typed: one `+` in front is allowed.
pub open spec fn unsigned_digits(s: Seq<char>) -> Seq<char> {
    if s.len() > 0 && s[0] == '+' {
        s.drop_first()
    } else {
        s
    }
}

/// The unsigned number that `s` spells, if it spells one.
pub open spec fn spelled(s: Seq<char>) -> Option<nat> {
    let digits = unsigned_digits(s);
    if digits.len() > 0 && all_digits(digits) {
        Some(digits_value(digits))
    } else {
        None
    }
}

/// The unsigned number that `s` spells, if it is at most `max`.
pub open spec fn spelled_up_to(s: Seq<char>, max: nat) -> Option<nat> {
    match spelled(s) {
        Some(n) => if n <= max {
            Some(n)
        } else {
            None
        },
        None => None,
    }
}

/// The contents of a list of texts.
pub open spec fn texts(list: Seq<String>) -> Seq<Seq<char>> {
    list.map_values(|s: String| s@)
}

/// The contents of a borrowed text that may be missing.
pub open spec fn named(text: Option<&str>) -> Option<Seq<char>> {
    match text {
        Some(text) => Some(text@),
        None => None,
    }
}

/// The contents of a text that may be missing.
pub open spec fn maybe(text: Option<String>) -> Option<Seq<char>> {
    match text {
        Some(given) => Some(given@),
        None => None,
    }
}

// ---------------------------------------------------------------------------
// Comparing and converting
// ---------------------------------------------------------------------------

/// Whether two texts hold the same characters.
pub fn str_eq(a: &str, b: &str) -> (same: bool)
    ensures
        same == (a@ == b@),
{
    let x: &[u8] = a.as_bytes();
    let y: &[u8] = b.as_bytes();
    proof {
        encode_utf8_decode_utf8(a@);
        encode_utf8_decode_utf8(b@);
    }
    if x.len() != y.len() {
        return false;
    }
    let mut i: usize = 0;
    while i < x.len()
        invariant
            i <= x@.len(),
            x@.len() == y@.len(),
            x@ == encode_utf8(a@),
            y@ == encode_utf8(b@),
            forall|j: int| 0 <= j < i ==> x@[j] == y@[j],
        decreases x@.len() - i,
    {
        if x[i] != y[i] {
            assert(x@[i as int] != y@[i as int]);
            return false;
        }
        i = i + 1;
    }
    assert(x@ =~= y@);
    true
}

/// The characters of a text, one by one.
pub fn chars_of(s: &str) -> (out: Vec<char>)
    ensures
        out@ == s@,
{
    let mut out: Vec<char> = Vec::new();
    for c in it: s.chars()
        invariant
            out@ == s@.take(it.index() as int),
            it.seq() == s@,
    {
        out.push(c);
    }
    out
}

/// The text of the characters from `from` up to, not including, `to`.
pub fn text_of(chars: &Vec<char>, from: usize, to: usize) -> (out: String)
    requires
        from <= to <= chars@.len(),
    ensures
        out@ == chars@.subrange(from as int, to as int),
{
    let mut out: String = String::new();
    let mut i: usize = from;
    while i < to
        invariant
            from <= i <= to <= chars@.len(),
            out@ == chars@.subrange(from as int, i as int),
        decreases to - i,
    {
        out.push(chars[i]);
        i = i + 1;
        assert(out@ =~= chars@.subrange(from as int, i as int));
    }
    out
}

/// A copy of a text that may be missing.
pub fn copy_maybe(text: &Option<String>) -> (copy: Option<String>)
    ensures
        copy == *text,
        maybe(copy) == maybe(*text),
{
    match text {
        Some(given) => Some(given.clone()),
        None => None,
    }
}

/// A fresh copy of every text of a list.
pub fn copy_texts(list: &Vec<String>) -> (out: Vec<String>)
    ensures
        out@ == list@,
{
    let mut out: Vec<String> = Vec::new();
    let mut i: usize = 0;
    while i < list.len()
        invariant
            i <= list@.len(),
            out@ == list@.take(i as int),
        decreases list@.len() - i,
    {
        out.push(list[i].clone());
        i = i + 1;
        assert(out@ =~= list@.take(i as int));
    }
    out
}

/// Whether a character is white space.
pub fn is_white_space(c: char) -> (yes: bool)
    ensures
        yes == white_space(c),
{
    ('\u{9}' <= c && c <= '\u{d}') || c == '\u{20}' || c == '\u{85}' || c == '\u{a0}' || c
        == '\u{1680}' || ('\u{2000}' <= c && c <= '\u{200a}') || c == '\u{2028}' || c == '\u{2029}'
        || c == '\u{202f}' || c == '\u{205f}' || c == '\u{3000}'
}

// ---------------------------------------------------------------------------
// Searching
// ---------------------------------------------------------------------------

/// Whether `needle` stands in `hay` at `at`.
fn occurs_here(hay: &Vec<char>, needle: &Vec<char>, at: usize) -> (yes: bool)
    requires
        at <= hay@.len(),
    ensures
        yes == occurs_at(hay@, needle@, at as int),
{
    let end: usize = hay.len();
    if needle.len() > end - at {
        return false;
    }
    let mut i: usize = 0;
    while i < needle.len()
        invariant
            i <= needle@.len(),
            at + needle@.len() <= hay@.len(),
            end == hay@.len(),
            forall|j: int| 0 <= j < i ==> hay@[at + j] == needle@[j],
        decreases needle@.len() - i,
    {
        if hay[at + i] != needle[i] {
            assert(hay@.subrange(at as int, at + needle@.len())[i as int] != needle@[i as int]);
            return false;
        }
        i = i + 1;
    }
    assert(hay@.subrange(at as int, at + needle@.len()) =~= needle@);
    true
}

/// Where `needle` stands in `hay` for the first time.
pub fn find_chars(hay: &Vec<char>, needle: &Vec<char>) -> (found: Option<usize>)
    ensures
        match found {
            Some(at) => first_at(hay@, needle@, at as int),
            None => !occurs(hay@, needle@),
        },
{
    let mut at: usize = 0;
    while at < hay.len()
        invariant
            at <= hay@.len(),
            forall|before: int| 0 <= before < at ==> !occurs_at(hay@, needle@, before),
        decreases hay@.len() - at,
    {
        if occurs_here(hay, needle, at) {
            return Some(at);
        }
        at = at + 1;
    }
    if occurs_here(hay, needle, at) {
        return Some(at);
    }
    None
}

/// Whether `needle` stands somewhere in `hay`.
pub fn contains(hay: &str, needle: &str) -> (yes: bool)
    ensures
        yes == occurs(hay@, needle@),
{
    let h: Vec<char> = chars_of(hay);
    let n: Vec<char> = chars_of(needle);
    find_chars(&h, &n).is_some()
}

/// The text before and the text after the first `needle`.
pub fn split_once(hay: &str, needle: &str) -> (parts: Option<(String, String)>)
    ensures
        match parts {
            Some((before, after)) => exists|at: int|
                {
                    &&& #[trigger] first_at(hay@, needle@, at)
                    &&& before@ == hay@.take(at)
                    &&& after@ == hay@.skip(at + needle@.len())
                },
            None => !occurs(hay@, needle@),
        },
{
    let h: Vec<char> = chars_of(hay);
    let n: Vec<char> = chars_of(needle);
    match find_chars(&h, &n) {
        Some(at) => {
            let end: usize = h.len();
            let before: String = text_of(&h, 0, at);
            let after: String = text_of(&h, at + n.len(), end);
            assert(before@ =~= hay@.take(at as int));
            assert(after@ =~= hay@.skip(at + needle@.len()));
            Some((before, after))
        },
        None => None,
    }
}

/// What follows `prefix`, if the text begins with it.
pub fn strip_prefix(s: &str, prefix: &str) -> (rest: Option<String>)
    ensures
        match rest {
            Some(r) => has_prefix(s@, prefix@) && r@ == s@.skip(prefix@.len() as int),
            None => !has_prefix(s@, prefix@),
        },
{
    let h: Vec<char> = chars_of(s);
    let n: Vec<char> = chars_of(prefix);
    if occurs_here(&h, &n, 0) {
        let rest: String = text_of(&h, n.len(), h.len());
        assert(rest@ =~= s@.skip(prefix@.len() as int));
        Some(rest)
    } else {
        None
    }
}

// ---------------------------------------------------------------------------
// Trimming and splitting
// ---------------------------------------------------------------------------

/// The text without white space on either side.
pub fn trim(s: &str) -> (out: String)
    ensures
        out@ == trimmed(s@),
{
    let chars: Vec<char> = chars_of(s);
    let mut from: usize = 0;
    assert(chars@.skip(0) =~= chars@);
    while from < chars.len() && is_white_space(chars[from])
        invariant
            from <= chars@.len(),
            without_leading_space(chars@) == without_leading_space(chars@.skip(from as int)),
        decreases chars@.len() - from,
    {
        assert(chars@.skip(from as int).drop_first() =~= chars@.skip(from + 1));
        from = from + 1;
    }
    let ghost kept = chars@.skip(from as int);
    assert(without_leading_space(chars@) == kept);
    let mut to: usize = chars.len();
    assert(kept =~= chars@.subrange(from as int, to as int));
    while from < to && is_white_space(chars[to - 1])
        invariant
            from <= to <= chars@.len(),
            without_trailing_space(kept) == without_trailing_space(
                chars@.subrange(from as int, to as int),
            ),
        decreases to - from,
    {
        assert(chars@.subrange(from as int, to as int).drop_last() =~= chars@.subrange(
            from as int,
            to - 1,
        ));
        to = to - 1;
    }
    text_of(&chars, from, to)
}

/// The text without the run of `c` it ends with.
pub fn trim_end_matches(s: &str, c: char) -> (out: String)
    ensures
        out@ == without_trailing(s@, c),
{
    let chars: Vec<char> = chars_of(s);
    let mut to: usize = chars.len();
    assert(chars@.take(to as int) =~= chars@);
    while 0 < to && chars[to - 1] == c
        invariant
            to <= chars@.len(),
            without_trailing(chars@, c) == without_trailing(chars@.take(to as int), c),
        decreases to,
    {
        assert(chars@.take(to as int).drop_last() =~= chars@.take(to - 1));
        to = to - 1;
    }
    assert(chars@.subrange(0, to as int) =~= chars@.take(to as int));
    text_of(&chars, 0, to)
}

/// The text without the runs of `c` at both ends.
pub fn trim_matches(s: &str, c: char) -> (out: String)
    ensures
        out@ == without_trailing(without_leading(s@, c), c),
{
    let chars: Vec<char> = chars_of(s);
    let mut from: usize = 0;
    assert(chars@.skip(0) =~= chars@);
    while from < chars.len() && chars[from] == c
        invariant
            from <= chars@.len(),
            without_leading(chars@, c) == without_leading(chars@.skip(from as int), c),
        decreases chars@.len() - from,
    {
        assert(chars@.skip(from as int).drop_first() =~= chars@.skip(from + 1));
        from = from + 1;
    }
    assert(chars@.subrange(from as int, chars@.len() as int) =~= chars@.skip(from as int));
    let rest: String = text_of(&chars, from, chars.len());
    trim_end_matches(rest.as_str(), c)
}

/// The pieces of the text between the characters `sep`.
pub fn split(s: &str, sep: char) -> (out: Vec<String>)
    ensures
        texts(out@) == pieces(s@, sep),
        out@.len() > 0,
{
    let chars: Vec<char> = chars_of(s);
    let mut out: Vec<String> = Vec::new();
    let mut current: String = String::new();
    let mut i: usize = 0;
    assert(chars@.take(0) =~= Seq::<char>::empty());
    assert(texts(out@).push(current@) =~= seq![Seq::<char>::empty()]);
    while i < chars.len()
        invariant
            i <= chars@.len(),
            texts(out@).push(current@) == pieces(chars@.take(i as int), sep),
        decreases chars@.len() - i,
    {
        let c: char = chars[i];
        let ghost before = texts(out@).push(current@);
        assert(chars@.take(i + 1).drop_last() =~= chars@.take(i as int));
        assert(before.last() == current@);
        assert(before.drop_last() =~= texts(out@));
        if c == sep {
            let ghost done = out@;
            out.push(current);
            current = String::new();
            assert(texts(out@) =~= texts(done).push(before.last()));
            assert(texts(out@).push(current@) =~= before.push(Seq::empty()));
        } else {
            current.push(c);
        }
        i = i + 1;
    }
    assert(chars@.take(i as int) =~= s@);
    let ghost done = out@;
    let ghost last = current@;
    out.push(current);
    assert(texts(out@) =~= texts(done).push(last));
    out
}

/// The words of the text: its maximal runs without white space.
pub fn split_whitespace(s: &str) -> (out: Vec<String>)
    ensures
        texts(out@) == words(s@),
{
    let chars: Vec<char> = chars_of(s);
    let mut out: Vec<String> = Vec::new();
    let mut current: String = String::new();
    let mut i: usize = 0;
    assert(texts(out@) =~= words(chars@.take(0)));
    while i < chars.len()
        invariant
            i <= chars@.len(),
            current@.len() == 0 <==> (i == 0 || white_space(chars@[i - 1])),
            current@.len() == 0 ==> texts(out@) == words(chars@.take(i as int)),
            current@.len() > 0 ==> texts(out@).push(current@) == words(chars@.take(i as int)),
        decreases chars@.len() - i,
    {
        let c: char = chars[i];
        let ghost done = out@;
        let ghost word = current@;
        let ghost upto = chars@.take(i + 1);
        assert(upto.drop_last() =~= chars@.take(i as int));
        assert(upto.last() == c);
        assert(i > 0 ==> upto[upto.len() - 2] == chars@[i - 1]);
        if is_white_space(c) {
            if !current.as_str().is_empty() {
                out.push(current);
                current = String::new();
                assert(texts(out@) =~= texts(done).push(word));
            }
        } else {
            current.push(c);
            proof {
                if word.len() == 0 {
                    assert(current@ =~= seq![c]);
                } else {
                    assert(texts(done).push(word).drop_last() =~= texts(done));
                }
            }
        }
        i = i + 1;
    }
    assert(chars@.take(i as int) =~= s@);
    if !current.as_str().is_empty() {
        let ghost done = out@;
        let ghost word = current@;
        out.push(current);
        assert(texts(out@) =~= texts(done).push(word));
    }
    out
}

/// The texts of a list, with `sep` between neighbours.
pub fn join(parts: &Vec<String>, sep: &str) -> (out: String)
    ensures
        out@ == joined(texts(parts@), sep@),
{
    let mut out: String = String::new();
    let mut i: usize = 0;
    assert(out@ =~= joined(texts(parts@).take(0), sep@));
    while i < parts.len()
        invariant
            i <= parts@.len(),
            out@ == joined(texts(parts@).take(i as int), sep@),
        decreases parts@.len() - i,
    {
        if i > 0 {
            out.append(sep);
        }
        out.append(parts[i].as_str());
        assert(texts(parts@).take(i + 1).drop_last() =~= texts(parts@).take(i as int));
        i = i + 1;
        assert(out@ =~= joined(texts(parts@).take(i as int), sep@));
    }
    assert(texts(parts@).take(i as int) =~= texts(parts@));
    out
}

/// `str::to_lowercase`: what it returns is a function of the text. Of ASCII characters the capitals
/// are made small.
#[verifier::external_body]
pub(crate) fn to_lowercase(s: &str) -> (out: String)
    ensures
        out@ == unicode_lowercase(s@),
        all_ascii(s@) ==> out@ == lowered(s@),
{
    s.to_lowercase()
}

/// The text with every ASCII capital made small.
pub fn to_ascii_lowercase(s: &str) -> (out: String)
    ensures
        out@ == lowered(s@),
{
    let chars: Vec<char> = chars_of(s);
    let mut out: String = String::new();
    let mut i: usize = 0;
    while i < chars.len()
        invariant
            i <= chars@.len(),
            out@ == lowered(chars@.take(i as int)),
        decreases chars@.len() - i,
    {
        let c: char = chars[i];
        if 'A' <= c && c <= 'Z' {
            out.push(((c as u8) + 32) as char);
        } else {
            out.push(c);
        }
        i = i + 1;
        assert(out@ =~= lowered(chars@.take(i as int)));
    }
    assert(chars@.take(i as int) =~= s@);
    out
}

/// The text with every `from` replaced by `to`.
pub fn replace_char(s: &str, from: char, to: char) -> (out: String)
    ensures
        out@ == swapped(s@, from, to),
{
    let chars: Vec<char> = chars_of(s);
    let mut out: String = String::new();
    let mut i: usize = 0;
    while i < chars.len()
        invariant
            i <= chars@.len(),
            out@ == swapped(chars@.take(i as int), from, to),
        decreases chars@.len() - i,
    {
        if chars[i] == from {
            out.push(to);
        } else {
            out.push(chars[i]);
        }
        i = i + 1;
        assert(out@ =~= swapped(chars@.take(i as int), from, to));
    }
    assert(chars@.take(i as int) =~= s@);
    out
}

// ---------------------------------------------------------------------------
// Numbers
// ---------------------------------------------------------------------------

/// A number in decimal.
pub fn decimal_text(n: u128) -> (out: String)
    ensures
        out@ == decimal(n as nat),
    decreases n,
{
    let digit: char = (48 + (n % 10) as u8) as char;
    if n < 10 {
        let mut out: String = String::new();
        out.push(digit);
        assert(out@ =~= decimal(n as nat));
        out
    } else {
        let mut out: String = decimal_text(n / 10);
        out.push(digit);
        out
    }
}

/// The number that `s` spells, if it is at most `max`.
pub fn parse_up_to(s: &str, max: u128) -> (n: Option<u128>)
    ensures
        match n {
            Some(v) => spelled_up_to(s@, max as nat) == Some(v as nat),
            None => spelled_up_to(s@, max as nat) is None,
        },
{
    let chars: Vec<char> = chars_of(s);
    let mut i: usize = 0;
    if chars.len() > 0 && chars[0] == '+' {
        i = 1;
    }
    let ghost digits = unsigned_digits(s@);
    let ghost start = i as int;
    assert(chars@.skip(start) =~= digits);
    if i == chars.len() {
        return None;
    }
    let mut value: u128 = 0;
    let mut fits: bool = true;
    while i < chars.len()
        invariant
            0 <= start <= i <= chars@.len(),
            chars@ == s@,
            start < chars@.len(),
            digits == chars@.skip(start),
            digits == unsigned_digits(s@),
            all_digits(digits.take(i - start)),
            fits ==> value == digits_value(digits.take(i - start)) && value <= max,
            !fits ==> digits_value(digits.take(i - start)) > max,
        decreases chars@.len() - i,
    {
        let c: char = chars[i];
        assert(digits[i - start] == c);
        if !('0' <= c && c <= '9') {
            return None;
        }
        let d: u128 = ((c as u8) - 48) as u128;
        assert(digits.take(i + 1 - start).drop_last() =~= digits.take(i - start));
        if fits {
            if value > max / 10 || d > max || value * 10 > max - d {
                fits = false;
            } else {
                value = value * 10 + d;
            }
        }
        i = i + 1;
    }
    assert(digits.take(i - start) =~= digits);
    if fits {
        Some(value)
    } else {
        None
    }
}

/// The `u64` that `s` spells.
pub fn parse_u64(s: &str) -> (n: Option<u64>)
    ensures
        match n {
            Some(v) => spelled_up_to(s@, u64::MAX as nat) == Some(v as nat),
            None => spelled_up_to(s@, u64::MAX as nat) is None,
        },
{
    match parse_up_to(s, u64::MAX as u128) {
        Some(v) => Some(v as u64),
        None => None,
    }
}

/// The `usize` that `s` spells.
pub fn parse_index(s: &str) -> (n: Option<usize>)
    ensures
        match n {
            Some(v) => spelled_up_to(s@, usize::MAX as nat) == Some(v as nat),
            None => spelled_up_to(s@, usize::MAX as nat) is None,
        },
{
    match parse_up_to(s, usize::MAX as u128) {
        Some(v) => Some(v as usize),
        None => None,
    }
}

/// Reading a number back gives the number that was written.
pub proof fn law_decimal_reads_back(n: nat)
    ensures
        spelled(decimal(n)) == Some(n),
        all_digits(decimal(n)),
        digits_value(decimal(n)) == n,
        decimal(n).len() > 0,
    decreases n,
{
    let digits = decimal(n);
    assert(digits.last() == digit_char(n % 10));
    assert(digit_value(digit_char(n % 10)) == n % 10);
    assert(is_digit(digit_char(n % 10)));
    if n < 10 {
        assert(digits.drop_last() =~= Seq::empty());
        assert(digits_value(digits.drop_last()) == 0);
    } else {
        law_decimal_reads_back(n / 10);
        assert(digits.drop_last() =~= decimal(n / 10));
    }
    assert(is_digit(digits[0]));
}

// ---------------------------------------------------------------------------
// Words
// ---------------------------------------------------------------------------

/// A text without white space.
pub open spec fn one_word(s: Seq<char>) -> bool {
    forall|i: int| 0 <= i < s.len() ==> !white_space(#[trigger] s[i])
}

/// A text that ends with another character than white space has words.
proof fn lemma_has_words(s: Seq<char>)
    requires
        s.len() > 0,
        !white_space(s.last()),
    ensures
        words(s).len() > 0,
{
}

/// The words of two texts with a blank between them are the words of both.
pub proof fn lemma_words_apart(a: Seq<char>, b: Seq<char>)
    ensures
        words(a + seq![' '] + b) == words(a) + words(b),
    decreases b.len(),
{
    let s = a + seq![' '] + b;
    if b.len() == 0 {
        assert(s.drop_last() =~= a);
        assert(words(a) + words(b) =~= words(a));
    } else {
        let front = b.drop_last();
        assert(s.drop_last() =~= a + seq![' '] + front);
        assert(s.last() == b.last());
        lemma_words_apart(a, front);
        if white_space(b.last()) {
        } else if b.len() == 1 || white_space(b[b.len() - 2]) {
            assert(s[s.len() - 2] == (if b.len() == 1 {
                ' '
            } else {
                b[b.len() - 2]
            }));
            assert(words(a) + words(front).push(seq![b.last()]) =~= (words(a) + words(front)).push(
                seq![b.last()],
            ));
        } else {
            assert(s[s.len() - 2] == b[b.len() - 2]);
            assert(front.last() == b[b.len() - 2]);
            lemma_has_words(front);
            let head = words(a) + words(front);
            assert(head.last() == words(front).last());
            assert(head.drop_last() =~= words(a) + words(front).drop_last());
            let longer = words(front).last().push(b.last());
            assert(words(a) + words(front).drop_last().push(longer) =~= (words(a) + words(
                front,
            ).drop_last()).push(longer));
        }
    }
}

/// A text without white space is one word.
pub proof fn lemma_word(s: Seq<char>)
    requires
        s.len() > 0,
        one_word(s),
    ensures
        words(s) == seq![s],
    decreases s.len(),
{
    let front = s.drop_last();
    assert(!white_space(s[s.len() - 1]));
    if s.len() == 1 {
        assert(words(front) =~= Seq::<Seq<char>>::empty());
        assert(s =~= seq![s.last()]);
    } else {
        assert(!white_space(s[s.len() - 2]));
        assert forall|i: int| 0 <= i < front.len() implies !white_space(#[trigger] front[i]) by {
            assert(front[i] == s[i]);
        }
        lemma_word(front);
        assert(front.push(s.last()) =~= s);
        assert(words(front).drop_last() =~= Seq::<Seq<char>>::empty());
    }
    assert(words(s) =~= seq![s]);
}

/// Words that are put together with blanks are those words.
pub proof fn lemma_words_joined(parts: Seq<Seq<char>>)
    requires
        forall|i: int| 0 <= i < parts.len() ==> (#[trigger] parts[i]).len() > 0 && one_word(parts[i]),
    ensures
        words(joined(parts, seq![' '])) == parts,
    decreases parts.len(),
{
    if parts.len() == 0 {
    } else if parts.len() == 1 {
        lemma_word(parts[0]);
        assert(seq![parts[0]] =~= parts);
    } else {
        let front = parts.drop_last();
        assert forall|i: int| 0 <= i < front.len() implies (#[trigger] front[i]).len() > 0
            && one_word(front[i]) by {
            assert(front[i] == parts[i]);
        }
        lemma_words_joined(front);
        lemma_words_apart(joined(front, seq![' ']), parts.last());
        assert(parts.last() == parts[parts.len() - 1]);
        lemma_word(parts.last());
        assert(front + seq![parts.last()] =~= parts);
    }
}

/// Nothing is trimmed off a text without white space.
pub proof fn lemma_trimmed_word(s: Seq<char>)
    requires
        one_word(s),
    ensures
        trimmed(s) == s,
{
    if s.len() > 0 {
        assert(!white_space(s[0]));
        assert(!white_space(s[s.len() - 1]));
    }
}

/// Digits are no white space.
pub proof fn lemma_digits_are_a_word(s: Seq<char>)
    requires
        all_digits(s),
    ensures
        one_word(s),
{
    assert forall|i: int| 0 <= i < s.len() implies !white_space(#[trigger] s[i]) by {
        assert(is_digit(s[i]));
    }
}

// ---------------------------------------------------------------------------
// Pieces
// ---------------------------------------------------------------------------

/// A text has at least one piece.
proof fn lemma_has_pieces(s: Seq<char>, sep: char)
    ensures
        pieces(s, sep).len() > 0,
{
}

/// The pieces of two texts with a separator between them are the pieces of both.
pub proof fn lemma_pieces_apart(a: Seq<char>, b: Seq<char>, sep: char)
    ensures
        pieces(a + seq![sep] + b, sep) == pieces(a, sep) + pieces(b, sep),
    decreases b.len(),
{
    let s = a + seq![sep] + b;
    lemma_has_pieces(a, sep);
    if b.len() == 0 {
        assert(s.drop_last() =~= a);
        assert(b =~= Seq::<char>::empty());
        assert(pieces(a, sep).push(Seq::empty()) =~= pieces(a, sep) + pieces(b, sep));
    } else {
        let front = b.drop_last();
        assert(s.drop_last() =~= a + seq![sep] + front);
        assert(s.last() == b.last());
        lemma_pieces_apart(a, front, sep);
        lemma_has_pieces(front, sep);
        let head = pieces(a, sep) + pieces(front, sep);
        if b.last() == sep {
            assert(head.push(Seq::empty()) =~= pieces(a, sep) + pieces(front, sep).push(
                Seq::empty(),
            ));
        } else {
            let longer = pieces(front, sep).last().push(b.last());
            assert(head.last() == pieces(front, sep).last());
            assert(head.drop_last().push(longer) =~= pieces(a, sep) + pieces(
                front,
                sep,
            ).drop_last().push(longer));
        }
    }
}

/// A text without the separator is one piece.
pub proof fn lemma_piece(s: Seq<char>, sep: char)
    requires
        !s.contains(sep),
    ensures
        pieces(s, sep) == seq![s],
    decreases s.len(),
{
    if s.len() > 0 {
        let front = s.drop_last();
        assert(s[s.len() - 1] != sep);
        assert forall|i: int| 0 <= i < front.len() implies front[i] != sep by {
            assert(front[i] == s[i]);
        }
        lemma_piece(front, sep);
        assert(front.push(s.last()) =~= s);
        assert(pieces(s, sep) =~= seq![s]);
    }
}

/// Pieces that are put together with the separator are those pieces.
pub proof fn lemma_pieces_joined(parts: Seq<Seq<char>>, sep: char)
    requires
        parts.len() > 0,
        forall|i: int| 0 <= i < parts.len() ==> !(#[trigger] parts[i]).contains(sep),
    ensures
        pieces(joined(parts, seq![sep]), sep) == parts,
    decreases parts.len(),
{
    if parts.len() == 1 {
        lemma_piece(parts[0], sep);
        assert(seq![parts[0]] =~= parts);
    } else {
        let front = parts.drop_last();
        assert forall|i: int| 0 <= i < front.len() implies !(#[trigger] front[i]).contains(sep) by {
            assert(front[i] == parts[i]);
        }
        lemma_pieces_joined(front, sep);
        lemma_pieces_apart(joined(front, seq![sep]), parts.last(), sep);
        assert(parts.last() == parts[parts.len() - 1]);
        lemma_piece(parts.last(), sep);
        assert(front + seq![parts.last()] =~= parts);
    }
}

} // verus!
