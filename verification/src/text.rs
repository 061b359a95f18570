//! Characters, strings and byte offsets: the small vocabulary shared by both
//! schema dialects.

use vstd::prelude::*;
use vstd::string::StringExecFns;
use vstd::utf8::*;

verus! {

/// Whether `c` is alphanumeric in Unicode's sense.
pub uninterp spec fn alphanumeric(c: char) -> bool;

/// Whether `c` is white space in Unicode's sense.
pub uninterp spec fn whitespace(c: char) -> bool;

/// The lowercase equivalent of a string, as Unicode defines it.
pub uninterp spec fn lowercase(s: Seq<char>) -> Seq<char>;

/// Trusted: `char::is_alphanumeric`. The result is the Unicode property of the
/// character, which [`alphanumeric`] names.
#[verifier::external_body]
pub(crate) fn is_alphanumeric(c: char) -> (b: bool)
    ensures
        b == alphanumeric(c),
{
    c.is_alphanumeric()
}

/// Trusted: `char::is_whitespace`. The result is the Unicode property of the
/// character, which [`whitespace`] names.
#[verifier::external_body]
pub(crate) fn is_whitespace(c: char) -> (b: bool)
    ensures
        b == whitespace(c),
{
    c.is_whitespace()
}

/// Trusted: `str::to_lowercase`. The result depends on the characters of `s`
/// alone; [`lowercase`] names it.
#[verifier::external_body]
pub(crate) fn to_lowercase(s: &str) -> (r: String)
    ensures
        r@ == lowercase(s@),
{
    s.to_lowercase()
}

/// Trusted: `String::push`. Appends one character and changes nothing else.
#[verifier::external_body]
pub(crate) fn push_char(s: &mut String, c: char)
    ensures
        final(s)@ == old(s)@.push(c),
{
    s.push(c)
}

/// Trusted: `PartialEq::eq` of `str`. Two string slices are equal exactly if
/// they hold the same characters.
#[verifier::external_body]
pub(crate) fn str_eq(a: &str, b: &str) -> (r: bool)
    ensures
        r == (a@ == b@),
{
    a == b
}

/// Number of bytes that `c` takes in UTF-8.
pub open spec fn utf8_width(c: char) -> nat {
    encode_scalar(c as u32).len()
}

/// Number of bytes that the first `n` characters of `chars` take in UTF-8:
/// the byte offset of the character at index `n`.
pub open spec fn byte_offset(chars: Seq<char>, n: int) -> nat {
    encode_utf8(chars.take(n)).len()
}

proof fn lemma_encode_len_concat(a: Seq<char>, b: Seq<char>)
    ensures
        encode_utf8(a + b).len() == encode_utf8(a).len() + encode_utf8(b).len(),
    decreases a.len(),
{
    if a.len() == 0 {
        assert(a + b =~= b);
    } else {
        assert((a + b).drop_first() =~= a.drop_first() + b);
        lemma_encode_len_concat(a.drop_first(), b);
    }
}

/// Stepping over one character advances the byte offset by that character's
/// width.
pub proof fn lemma_byte_offset_step(chars: Seq<char>, n: int)
    requires
        0 <= n < chars.len(),
    ensures
        byte_offset(chars, n + 1) == byte_offset(chars, n) + utf8_width(chars[n]),
{
    let one = seq![chars[n]];
    assert(chars.take(n + 1) =~= chars.take(n) + one);
    lemma_encode_len_concat(chars.take(n), one);
    assert(one.drop_first() =~= Seq::<char>::empty());
    assert(encode_utf8(one) =~= encode_scalar(chars[n] as u32)) by {
        reveal_with_fuel(encode_utf8, 2);
    }
}

/// Byte offsets grow with the index and never pass the encoded length.
pub proof fn lemma_byte_offset_monotonic(chars: Seq<char>, m: int, n: int)
    requires
        0 <= m <= n <= chars.len(),
    ensures
        byte_offset(chars, m) <= byte_offset(chars, n) <= encode_utf8(chars).len(),
{
    assert(chars.take(n) =~= chars.take(m) + chars.subrange(m, n));
    lemma_encode_len_concat(chars.take(m), chars.subrange(m, n));
    assert(chars =~= chars.take(n) + chars.skip(n));
    lemma_encode_len_concat(chars.take(n), chars.skip(n));
}

pub proof fn lemma_byte_offset_zero(chars: Seq<char>)
    ensures
        byte_offset(chars, 0) == 0,
{
    assert(chars.take(0) =~= Seq::<char>::empty());
}

/// The width of `c` in UTF-8, in bytes.
pub fn char_width(c: char) -> (n: usize)
    ensures
        n == utf8_width(c),
        1 <= n <= 4,
{
    let u: u32 = c as u32;
    proof {
        char_is_scalar(c);
    }
    if u < 0x80 {
        1
    } else if u < 0x800 {
        2
    } else if u < 0x10000 {
        3
    } else {
        4
    }
}

/// The characters of `s`, in order.
pub fn chars_of(s: &str) -> (v: Vec<char>)
    ensures
        v@ == s@,
        encode_utf8(s@).len() <= usize::MAX,
{
    // The bytes of a slice are counted in a `usize`; this bounds the length of
    // the encoding.
    let bytes = s.as_bytes();
    let _count: usize = bytes.len();
    let mut v: Vec<char> = Vec::new();
    for c in it: s.chars()
        invariant
            v@ == it.seq().take(it.index() as int),
            it.seq() == s@,
    {
        v.push(c);
    }
    v
}

/// The characters `chars[from..to]` as a string.
pub fn string_of(chars: &Vec<char>, from: usize, to: usize) -> (s: String)
    requires
        from <= to <= chars@.len(),
    ensures
        s@ == chars@.subrange(from as int, to as int),
{
    let mut s = String::new();
    let mut i: usize = from;
    while i < to
        invariant
            from <= i <= to <= chars@.len(),
            s@ == chars@.subrange(from as int, i as int),
        decreases to - i,
    {
        push_char(&mut s, chars[i]);
        i += 1;
        assert(chars@.subrange(from as int, i as int) =~= chars@.subrange(
            from as int,
            i - 1,
        ).push(chars@[i - 1]));
    }
    assert(chars@.subrange(from as int, from as int) =~= Seq::<char>::empty());
    s
}

/// The string that holds `c` alone.
pub fn char_string(c: char) -> (s: String)
    ensures
        s@ == seq![c],
{
    let mut s = String::new();
    push_char(&mut s, c);
    assert(Seq::<char>::empty().push(c) =~= seq![c]);
    s
}

/// The parts written one after the other, with `separator` between each two.
pub open spec fn joined(parts: Seq<Seq<char>>, separator: Seq<char>) -> Seq<char>
    decreases parts.len(),
{
    if parts.len() == 0 {
        Seq::empty()
    } else if parts.len() == 1 {
        parts[0]
    } else {
        joined(parts.drop_last(), separator) + separator + parts.last()
    }
}

/// Joining one part more.
pub proof fn lemma_joined_push(parts: Seq<Seq<char>>, separator: Seq<char>, part: Seq<char>)
    ensures
        joined(parts.push(part), separator) == if parts.len() == 0 {
            part
        } else {
            joined(parts, separator) + separator + part
        },
{
    assert(parts.push(part).drop_last() =~= parts);
    assert(Seq::<char>::empty() + part =~= part);
}

/// The views of a sequence of strings, in order.
pub open spec fn strings_view(strings: Seq<String>) -> Seq<Seq<char>> {
    Seq::new(strings.len(), |i: int| strings[i]@)
}

/// The strings written one after the other, with `separator` between each
/// two.
pub fn join(parts: &Vec<String>, separator: &str) -> (text: String)
    ensures
        text@ == joined(strings_view(parts@), separator@),
{
    let mut text = String::new();
    let mut i: usize = 0;
    let ghost all = strings_view(parts@);
    assert(all.take(0) =~= Seq::<Seq<char>>::empty());
    while i < parts.len()
        invariant
            i <= parts@.len(),
            all == strings_view(parts@),
            text@ == joined(all.take(i as int), separator@),
        decreases parts@.len() - i,
    {
        proof {
            lemma_joined_push(all.take(i as int), separator@, parts@[i as int]@);
            assert(all.take(i as int).push(parts@[i as int]@) =~= all.take(i + 1));
        }
        if i > 0 {
            text.append(separator);
        }
        text.append(parts[i].as_str());
        i += 1;
    }
    assert(all.take(parts@.len() as int) =~= all);
    text
}

/// The parts of `s` between the occurrences of `separator`, the last of them
/// still open: a text without separator is one part, and an empty part stands
/// between two separators, before a leading and after a trailing one.
pub open spec fn split(s: Seq<char>, separator: char) -> Seq<Seq<char>>
    decreases s.len(),
{
    if s.len() == 0 {
        seq![Seq::empty()]
    } else {
        let parts = split(s.drop_last(), separator);
        if s.last() == separator {
            parts.push(Seq::empty())
        } else {
            parts.drop_last().push(parts.last().push(s.last()))
        }
    }
}

/// The parts of `chars` between the occurrences of `separator`.
pub fn split_at(chars: &Vec<char>, separator: char) -> (parts: Vec<String>)
    ensures
        strings_view(parts@) == split(chars@, separator),
{
    let mut parts: Vec<String> = Vec::new();
    let mut current = String::new();
    let mut i: usize = 0;
    assert(chars@.take(0) =~= Seq::<char>::empty());
    assert(strings_view(parts@).push(current@) =~= seq![Seq::<char>::empty()]);
    while i < chars.len()
        invariant
            i <= chars@.len(),
            strings_view(parts@).push(current@) == split(chars@.take(i as int), separator),
        decreases chars@.len() - i,
    {
        let ghost done = strings_view(parts@);
        let ghost open = current@;
        assert(chars@.take(i + 1).drop_last() =~= chars@.take(i as int));
        if chars[i] == separator {
            parts.push(current);
            current = String::new();
            assert(strings_view(parts@) =~= done.push(open));
        } else {
            push_char(&mut current, chars[i]);
            assert(done.push(open).drop_last() =~= done);
        }
        i += 1;
    }
    assert(chars@.take(chars@.len() as int) =~= chars@);
    let ghost done = strings_view(parts@);
    parts.push(current);
    assert(strings_view(parts@) =~= done.push(current@));
    parts
}

/// Whether the marks hold one at index `i`, and it is set.
pub open spec fn marked(marks: Seq<bool>, i: int) -> bool {
    0 <= i < marks.len() && marks[i]
}

/// For each character of `s`, whether it is white space.
pub open spec fn white(s: Seq<char>) -> Seq<bool> {
    Seq::new(s.len(), |i: int| whitespace(s[i]))
}

/// The fields of `s` read so far, where `blank` marks the characters that
/// part them: the fields that a blank has closed, and the run of other
/// characters that stands open at the end.
pub open spec fn fields_scan(s: Seq<char>, blank: Seq<bool>) -> (Seq<Seq<char>>, Seq<char>)
    decreases s.len(),
{
    if s.len() == 0 {
        (Seq::empty(), Seq::empty())
    } else {
        let (closed, open) = fields_scan(s.drop_last(), blank);
        if !marked(blank, s.len() - 1) {
            (closed, open.push(s.last()))
        } else if open.len() > 0 {
            (closed.push(open), Seq::empty())
        } else {
            (closed, open)
        }
    }
}

/// The fields of `s` where `blank` marks the characters that part them: the
/// maximal runs of characters that are not marked, in order. None is empty.
pub open spec fn fields_where(s: Seq<char>, blank: Seq<bool>) -> Seq<Seq<char>> {
    let (closed, open) = fields_scan(s, blank);
    if open.len() > 0 {
        closed.push(open)
    } else {
        closed
    }
}

/// The fields of `s`: its maximal runs of characters that are not white
/// space, in order.
pub open spec fn fields(s: Seq<char>) -> Seq<Seq<char>> {
    fields_where(s, white(s))
}

/// For each character, whether it is white space.
pub fn white_of(chars: &Vec<char>) -> (marks: Vec<bool>)
    ensures
        marks@ == white(chars@),
{
    let mut marks: Vec<bool> = Vec::new();
    let mut i: usize = 0;
    while i < chars.len()
        invariant
            i <= chars@.len(),
            marks@.len() == i,
            forall|k: int| 0 <= k < i ==> marks@[k] == whitespace(chars@[k]),
        decreases chars@.len() - i,
    {
        marks.push(is_whitespace(chars[i]));
        i += 1;
    }
    assert(marks@ =~= white(chars@));
    marks
}

/// The fields of `chars`, parted by the characters that `blank` marks.
pub fn fields_by(chars: &Vec<char>, blank: &Vec<bool>) -> (parts: Vec<String>)
    ensures
        strings_view(parts@) == fields_where(chars@, blank@),
{
    let mut parts: Vec<String> = Vec::new();
    let mut current = String::new();
    let mut filled: bool = false;
    let mut i: usize = 0;
    assert(chars@.take(0) =~= Seq::<char>::empty());
    assert(strings_view(parts@) =~= Seq::<Seq<char>>::empty());
    while i < chars.len()
        invariant
            i <= chars@.len(),
            (strings_view(parts@), current@) == fields_scan(chars@.take(i as int), blank@),
            filled == (current@.len() > 0),
        decreases chars@.len() - i,
    {
        let ghost done = strings_view(parts@);
        assert(chars@.take(i + 1).drop_last() =~= chars@.take(i as int));
        if !(i < blank.len() && blank[i]) {
            push_char(&mut current, chars[i]);
            filled = true;
        } else if filled {
            let ghost open = current@;
            parts.push(current);
            current = String::new();
            filled = false;
            assert(strings_view(parts@) =~= done.push(open));
        }
        i += 1;
    }
    assert(chars@.take(chars@.len() as int) =~= chars@);
    if filled {
        let ghost done = strings_view(parts@);
        parts.push(current);
        assert(strings_view(parts@) =~= done.push(current@));
    }
    parts
}

/// The fields of `chars`: its maximal runs of characters that are not white
/// space.
pub fn fields_of(chars: &Vec<char>) -> (parts: Vec<String>)
    ensures
        strings_view(parts@) == fields(chars@),
{
    let blank = white_of(chars);
    fields_by(chars, &blank)
}

} // verus!
