//! The wire format: a command is trimmed of surrounding whitespace and closed
//! with CR LF. Nothing else is added: no length prefix, no checksum.

use vstd::prelude::*;
use vstd::utf8::encode_utf8;

verus! {

/// The characters that count as whitespace: those with the Unicode property
/// `White_Space`.
pub open spec fn is_whitespace(c: char) -> bool {
    let u = c as u32;
    ||| 0x0009 <= u <= 0x000D
    ||| u == 0x0020
    ||| u == 0x0085
    ||| u == 0x00A0
    ||| u == 0x1680
    ||| 0x2000 <= u <= 0x200A
    ||| u == 0x2028
    ||| u == 0x2029
    ||| u == 0x202F
    ||| u == 0x205F
    ||| u == 0x3000
}

/// `s` without the whitespace it starts with.
pub open spec fn trim_start(s: Seq<char>) -> Seq<char>
    decreases s.len(),
{
    if s.len() > 0 && is_whitespace(s.first()) {
        trim_start(s.drop_first())
    } else {
        s
    }
}

/// `s` without the whitespace it ends with.
pub open spec fn trim_end(s: Seq<char>) -> Seq<char>
    decreases s.len(),
{
    if s.len() > 0 && is_whitespace(s.last()) {
        trim_end(s.drop_last())
    } else {
        s
    }
}

/// `s` without the whitespace around it. Whitespace inside stays.
pub open spec fn trim(s: Seq<char>) -> Seq<char> {
    trim_end(trim_start(s))
}

/// The line terminator, as text.
pub open spec fn terminator() -> Seq<char> {
    seq!['\r', '\n']
}

/// The text that goes on the wire for `message`.
pub open spec fn framed_text(message: Seq<char>) -> Seq<char> {
    trim(message) + terminator()
}

/// The bytes that go on the wire for `message`: its framed text in UTF-8.
pub open spec fn framed(message: Seq<char>) -> Seq<u8> {
    encode_utf8(framed_text(message))
}

/// Whether a CR LF pair starts at position `i` of `text`.
pub open spec fn crlf_at(text: Seq<char>, i: int) -> bool {
    &&& 0 <= i
    &&& i + 1 < text.len()
    &&& text[i] == '\r'
    &&& text[i + 1] == '\n'
}

/// Tells whether `c` is whitespace.
pub fn char_is_whitespace(c: char) -> (b: bool)
    ensures
        b == is_whitespace(c),
{
    let u: u32 = c as u32;
    (0x0009 <= u && u <= 0x000D) || u == 0x0020 || u == 0x0085 || u == 0x00A0 || u == 0x1680 || (
    0x2000 <= u && u <= 0x200A) || u == 0x2028 || u == 0x2029 || u == 0x202F || u == 0x205F || u
        == 0x3000
}

/// Trimming from the front drops exactly the whitespace before the first
/// character that is none.
proof fn lemma_trim_start_at(s: Seq<char>, i: int)
    requires
        0 <= i <= s.len(),
        forall|k: int| 0 <= k < i ==> is_whitespace(#[trigger] s[k]),
        i < s.len() ==> !is_whitespace(s[i]),
    ensures
        trim_start(s) == s.subrange(i, s.len() as int),
    decreases i,
{
    if i == 0 {
        assert(s.subrange(0, s.len() as int) =~= s);
    } else {
        let rest = s.drop_first();
        assert forall|k: int| 0 <= k < i - 1 implies is_whitespace(#[trigger] rest[k]) by {
            assert(rest[k] == s[k + 1]);
        }
        lemma_trim_start_at(rest, i - 1);
        assert(rest.subrange(i - 1, rest.len() as int) =~= s.subrange(i, s.len() as int));
    }
}

/// Trimming from the back drops exactly the whitespace after the last
/// character that is none.
proof fn lemma_trim_end_at(s: Seq<char>, j: int)
    requires
        0 <= j <= s.len(),
        forall|k: int| j <= k < s.len() ==> is_whitespace(#[trigger] s[k]),
        0 < j ==> !is_whitespace(s[j - 1]),
    ensures
        trim_end(s) == s.subrange(0, j),
    decreases s.len() - j,
{
    if j == s.len() {
        assert(s.subrange(0, j) =~= s);
    } else {
        let rest = s.drop_last();
        lemma_trim_end_at(rest, j);
        assert(rest.subrange(0, j) =~= s.subrange(0, j));
    }
}

/// Where the trimmed text lies: `trim(s)` is the stretch of `s` from `i` to
/// `j` whenever only whitespace lies outside that stretch and, unless it is
/// empty, it begins and ends with a character that is no whitespace.
pub proof fn lemma_trim_is_subrange(s: Seq<char>, i: int, j: int)
    requires
        0 <= i <= j <= s.len(),
        forall|k: int| 0 <= k < i ==> is_whitespace(#[trigger] s[k]),
        forall|k: int| j <= k < s.len() ==> is_whitespace(#[trigger] s[k]),
        i < j ==> !is_whitespace(s[i]) && !is_whitespace(s[j - 1]),
    ensures
        trim(s) == s.subrange(i, j),
{
    if i < j {
        lemma_trim_start_at(s, i);
        let t = s.subrange(i, s.len() as int);
        lemma_trim_end_at(t, j - i);
        assert(t.subrange(0, j - i) =~= s.subrange(i, j));
    } else {
        // only whitespace: the front pass already eats everything
        lemma_trim_start_at(s, s.len() as int);
        let t = s.subrange(s.len() as int, s.len() as int);
        assert(t.len() == 0);
        assert(trim_end(t) == t);
        assert(t =~= s.subrange(i, j));
    }
}

/// The stretch of `s` that trimming keeps, as a pair of positions.
pub open spec fn is_trim_bounds(s: Seq<char>, i: int, j: int) -> bool {
    &&& 0 <= i <= j <= s.len()
    &&& forall|k: int| 0 <= k < i ==> is_whitespace(#[trigger] s[k])
    &&& forall|k: int| j <= k < s.len() ==> is_whitespace(#[trigger] s[k])
    &&& i < j ==> !is_whitespace(s[i]) && !is_whitespace(s[j - 1])
}

/// Every text has a stretch that trimming keeps, so a trimmed text neither
/// starts nor ends with whitespace, and it is a stretch of `s`.
pub proof fn lemma_trim_shape(s: Seq<char>) -> (bounds: (int, int))
    ensures
        is_trim_bounds(s, bounds.0, bounds.1),
        trim(s) == s.subrange(bounds.0, bounds.1),
        trim(s).len() > 0 ==> !is_whitespace(trim(s).first()) && !is_whitespace(trim(s).last()),
{
    let i = first_kept(s, 0);
    lemma_first_kept(s, 0);
    let j = if i < s.len() {
        lemma_last_kept(s, s.len() as int, i);
        last_kept(s, s.len() as int)
    } else {
        i
    };
    lemma_trim_is_subrange(s, i, j);
    (i, j)
}

/// The first position at or after `from` that holds no whitespace, or the
/// length of `s` if there is none.
spec fn first_kept(s: Seq<char>, from: int) -> int
    decreases s.len() - from,
{
    if 0 <= from < s.len() && is_whitespace(s[from]) {
        first_kept(s, from + 1)
    } else {
        from
    }
}

/// One past the last position before `to` that holds no whitespace, or 0 if
/// there is none.
spec fn last_kept(s: Seq<char>, to: int) -> int
    decreases to,
{
    if 0 < to <= s.len() && is_whitespace(s[to - 1]) {
        last_kept(s, to - 1)
    } else {
        to
    }
}

proof fn lemma_first_kept(s: Seq<char>, from: int)
    requires
        0 <= from <= s.len(),
    ensures
        from <= first_kept(s, from) <= s.len(),
        forall|k: int| from <= k < first_kept(s, from) ==> is_whitespace(#[trigger] s[k]),
        first_kept(s, from) < s.len() ==> !is_whitespace(s[first_kept(s, from)]),
    decreases s.len() - from,
{
    if from < s.len() && is_whitespace(s[from]) {
        lemma_first_kept(s, from + 1);
    }
}

proof fn lemma_last_kept(s: Seq<char>, to: int, floor: int)
    requires
        0 <= floor < to <= s.len(),
        !is_whitespace(s[floor]),
    ensures
        floor < last_kept(s, to) <= to,
        forall|k: int| last_kept(s, to) <= k < to ==> is_whitespace(#[trigger] s[k]),
        !is_whitespace(s[last_kept(s, to) - 1]),
    decreases to,
{
    if is_whitespace(s[to - 1]) {
        lemma_last_kept(s, to - 1, floor);
    }
}

/// Trimming twice is trimming once.
pub proof fn lemma_trim_idempotent(s: Seq<char>)
    ensures
        trim(trim(s)) == trim(s),
{
    let (i, j) = lemma_trim_shape(s);
    let t = trim(s);
    lemma_trim_is_subrange(t, 0, t.len() as int);
    assert(t.subrange(0, t.len() as int) =~= t);
}

/// Text that neither starts nor ends with whitespace is its own trimming.
pub proof fn lemma_trim_keeps_clean_text(s: Seq<char>)
    requires
        s.len() > 0 ==> !is_whitespace(s.first()) && !is_whitespace(s.last()),
    ensures
        trim(s) == s,
{
    lemma_trim_is_subrange(s, 0, s.len() as int);
    assert(s.subrange(0, s.len() as int) =~= s);
}

/// UTF-8 encodes a text piece by piece.
pub proof fn lemma_encode_utf8_concat(a: Seq<char>, b: Seq<char>)
    ensures
        encode_utf8(a + b) == encode_utf8(a) + encode_utf8(b),
    decreases a.len(),
{
    if a.len() == 0 {
        assert(a + b =~= b);
        assert(encode_utf8(a) + encode_utf8(b) =~= encode_utf8(b));
    } else {
        lemma_encode_utf8_concat(a.drop_first(), b);
        assert((a + b).drop_first() =~= a.drop_first() + b);
        assert((a + b)[0] == a[0]);
        assert(encode_utf8(a + b) =~= encode_utf8(a) + encode_utf8(b));
    }
}

/// CR LF is the two bytes 13 and 10.
pub proof fn lemma_terminator_bytes()
    ensures
        encode_utf8(terminator()) == seq![13u8, 10u8],
{
    let t = terminator();
    let cr: u32 = 13;
    let lf: u32 = 10;
    assert(vstd::utf8::has_width_1_encoding(cr) && vstd::utf8::leading_byte_width_1(cr) == 13u8)
        by (bit_vector)
        requires
            cr == 13,
    ;
    assert(vstd::utf8::has_width_1_encoding(lf) && vstd::utf8::leading_byte_width_1(lf) == 10u8)
        by (bit_vector)
        requires
            lf == 10,
    ;
    assert(t[0] as u32 == cr);
    assert(t[1] as u32 == lf);
    let t1 = t.drop_first();
    assert(t1.len() == 1 && t1[0] == '\n');
    assert(t1.drop_first().len() == 0);
    assert(encode_utf8(t1.drop_first()) =~= Seq::<u8>::empty());
    assert(encode_utf8(t1) =~= seq![10u8]);
    assert(encode_utf8(t) =~= seq![13u8, 10u8]);
}

/// What framing adds: the frame is the trimmed text in UTF-8 followed by the
/// bytes 13 and 10, so it is two bytes longer than the trimmed text.
pub proof fn lemma_frame_bytes(message: Seq<char>)
    ensures
        framed(message) == encode_utf8(trim(message)) + seq![13u8, 10u8],
        framed(message).len() == encode_utf8(trim(message)).len() + 2,
{
    lemma_encode_utf8_concat(trim(message), terminator());
    lemma_terminator_bytes();
}

/// The wire-format rule. A frame's text ends with CR LF, and no CR LF pair
/// is made by framing other than that one: any pair that starts earlier lies
/// wholly inside the trimmed command. A command that holds no CR LF of its
/// own therefore yields a frame with exactly one, at its end.
pub proof fn lemma_frame_terminator(message: Seq<char>, i: int)
    ensures
        crlf_at(framed_text(message), framed_text(message).len() - 2),
        framed(message).len() >= 2,
        framed(message)[framed(message).len() - 2] == 13u8,
        framed(message)[framed(message).len() - 1] == 10u8,
        crlf_at(framed_text(message), i) && i != framed_text(message).len() - 2 ==> crlf_at(
            trim(message),
            i,
        ),
{
    let t = trim(message);
    let text = framed_text(message);
    lemma_frame_bytes(message);
    assert(text.len() == t.len() + 2);
    assert(text[t.len() as int] == '\r');
    assert(text[t.len() as int + 1] == '\n');
    if crlf_at(text, i) && i != text.len() - 2 {
        if i == t.len() - 1 {
            // the pair would end on the terminator's CR
            assert(text[i + 1] == '\r');
        } else if i == t.len() + 1 {
        } else {
            assert(text[i] == t[i]);
            assert(text[i + 1] == t[i + 1]);
        }
    }
}

/// Finds the stretch of `message` that trimming keeps, in characters.
pub fn trim_bounds(message: &str) -> (bounds: (usize, usize))
    ensures
        is_trim_bounds(message@, bounds.0 as int, bounds.1 as int),
        message@.subrange(bounds.0 as int, bounds.1 as int) == trim(message@),
{
    let total: usize = message.unicode_len();
    let mut start: usize = 0;
    let mut end: usize = 0;
    let mut index: usize = 0;
    for c in it: message.chars()
        invariant
            it.seq() == message@,
            index == it.index(),
            total == message@.len(),
            start <= end <= index <= total,
            forall|k: int| 0 <= k < start ==> is_whitespace(#[trigger] message@[k]),
            forall|k: int| end <= k < index ==> is_whitespace(#[trigger] message@[k]),
            start < end ==> !is_whitespace(message@[start as int]) && !is_whitespace(
                message@[end - 1],
            ),
            start == end ==> start == index,
    {
        if char_is_whitespace(c) {
            if start == end {
                start = index + 1;
                end = index + 1;
            }
        } else {
            if start == end {
                start = index;
            }
            end = index + 1;
        }
        index = index + 1;
    }
    proof {
        lemma_trim_is_subrange(message@, start as int, end as int);
    }
    (start, end)
}

/// Frames a command for the wire: trims it and appends CR LF.
pub fn frame_message(message: &str) -> (frame: Vec<u8>)
    ensures
        frame@ == framed(message@),
        frame@.len() == encode_utf8(trim(message@)).len() + 2,
{
    let (start, end) = trim_bounds(message);
    let trimmed: &str = message.substring_char(start, end);
    let mut frame: Vec<u8> = trimmed.as_bytes_vec();
    frame.push(13u8);
    frame.push(10u8);
    proof {
        lemma_frame_bytes(message@);
        assert(frame@ =~= encode_utf8(trim(message@)) + seq![13u8, 10u8]);
    }
    frame
}

} // verus!
