//! Reading and building text by byte offset.
//!
//! Source positions are byte offsets, while the text itself is a sequence of characters. The
//! functions here are the only place the two meet: a region of a text is named by two byte
//! offsets, and it is readable exactly when both fall between characters.
use vstd::prelude::*;
use vstd::utf8::*;

verus! {

/// Whether `at` falls between two characters of `text`, or at either end of it.
pub open spec fn is_cut(text: Seq<char>, at: int) -> bool {
    is_char_boundary(encode_utf8(text), at)
}

/// The number of bytes `text` occupies.
pub open spec fn byte_len(text: Seq<char>) -> int {
    encode_utf8(text).len() as int
}

/// Whether the bytes from `from` up to `to` are a whole number of characters of `text`.
pub open spec fn sliceable(text: Seq<char>, from: int, to: int) -> bool {
    &&& 0 <= from <= to <= byte_len(text)
    &&& is_cut(text, from)
    &&& is_cut(text, to)
}

/// The characters between two byte offsets, or nothing where the offsets name no region.
pub open spec fn slice(text: Seq<char>, from: int, to: int) -> Seq<char> {
    if sliceable(text, from, to) {
        decode_utf8(encode_utf8(text).subrange(from, to))
    } else {
        Seq::empty()
    }
}

/// The start of a suffix is a cut of the whole exactly where it is one of the suffix.
proof fn lemma_cut_of_suffix(bytes: Seq<u8>, from: int, to: int)
    requires
        valid_utf8(bytes),
        0 <= from <= to <= bytes.len(),
        is_char_boundary(bytes, from),
        is_char_boundary(bytes, to),
    ensures
        valid_utf8(bytes.subrange(from, bytes.len() as int)),
        is_char_boundary(bytes.subrange(from, bytes.len() as int), to - from),
{
    let rest = bytes.subrange(from, bytes.len() as int);
    valid_utf8_split(bytes, from);
    if to == bytes.len() {
        is_char_boundary_start_end_of_seq(rest);
    } else {
        is_char_boundary_iff_not_is_continuation_byte(bytes, to);
        is_char_boundary_iff_not_is_continuation_byte(rest, to - from);
        assert(rest[to - from] == bytes[to]);
    }
}

/// What a readable region holds encodes to exactly the bytes of the region.
pub proof fn lemma_slice_bytes(text: Seq<char>, from: int, to: int)
    requires
        sliceable(text, from, to),
    ensures
        encode_utf8(slice(text, from, to)) == encode_utf8(text).subrange(from, to),
        byte_len(slice(text, from, to)) == to - from,
{
    let bytes = encode_utf8(text);
    encode_utf8_valid_utf8(text);
    lemma_cut_of_suffix(bytes, from, to);
    let rest = bytes.subrange(from, bytes.len() as int);
    valid_utf8_split(rest, to - from);
    assert(rest.subrange(0, to - from) =~= bytes.subrange(from, to));
    decode_utf8_encode_utf8(bytes.subrange(from, to));
}

/// Two regions that meet are one region, and it holds what the two hold.
pub proof fn lemma_slice_join(text: Seq<char>, from: int, mid: int, to: int)
    requires
        sliceable(text, from, mid),
        sliceable(text, mid, to),
    ensures
        sliceable(text, from, to),
        slice(text, from, to) == slice(text, from, mid) + slice(text, mid, to),
{
    let bytes = encode_utf8(text);
    encode_utf8_valid_utf8(text);
    lemma_cut_of_suffix(bytes, from, to);
    lemma_cut_of_suffix(bytes, from, mid);
    let rest = bytes.subrange(from, bytes.len() as int);
    let whole = rest.subrange(0, to - from);
    valid_utf8_split(rest, to - from);
    assert(whole =~= bytes.subrange(from, to));
    if mid == to {
        is_char_boundary_start_end_of_seq(whole);
    } else {
        is_char_boundary_iff_not_is_continuation_byte(bytes, mid);
        is_char_boundary_iff_not_is_continuation_byte(whole, mid - from);
        assert(whole[mid - from] == bytes[mid]);
    }
    decode_utf8_split(whole, mid - from);
    assert(whole.subrange(0, mid - from) =~= bytes.subrange(from, mid));
    assert(whole.subrange(mid - from, whole.len() as int) =~= bytes.subrange(mid, to));
}

/// The region from one end of a text to the other is the text.
pub proof fn lemma_slice_whole(text: Seq<char>)
    ensures
        sliceable(text, 0, byte_len(text)),
        slice(text, 0, byte_len(text)) == text,
{
    let bytes = encode_utf8(text);
    encode_utf8_valid_utf8(text);
    is_char_boundary_start_end_of_seq(bytes);
    assert(bytes.subrange(0, bytes.len() as int) =~= bytes);
    encode_utf8_decode_utf8(text);
}

/// The number of bytes a text occupies, which the machine can always count.
pub fn length(text: &str) -> (r: usize)
    ensures
        r == byte_len(text@),
{
    text.as_bytes().len()
}

/// The characters between two byte offsets, where the offsets name a region.
pub fn get(text: &str, from: usize, to: usize) -> (r: Option<&str>)
    ensures
        r is Some <==> sliceable(text@, from as int, to as int),
        r matches Some(part) ==> part@ == slice(text@, from as int, to as int),
{
    let size: usize = length(text);
    if from > to || to > size || !text.is_char_boundary(from) || !text.is_char_boundary(to) {
        return None;
    }
    proof {
        encode_utf8_valid_utf8(text@);
        lemma_cut_of_suffix(encode_utf8(text@), from as int, to as int);
    }
    let (_, rest) = text.split_at(from);
    let (part, _) = rest.split_at(to - from);
    proof {
        assert(encode_utf8(part@) =~= encode_utf8(text@).subrange(from as int, to as int));
        encode_utf8_decode_utf8(part@);
    }
    Some(part)
}

/// The characters between two byte offsets, or nothing where the offsets name no region.
pub fn between(text: &str, from: usize, to: usize) -> (r: &str)
    ensures
        r@ == slice(text@, from as int, to as int),
{
    match get(text, from, to) {
        Some(part) => part,
        None => {
            let empty = "";
            proof {
                reveal_strlit("");
                assert(empty@ =~= Seq::<char>::empty());
            }
            empty
        },
    }
}

/// What there is to read, if there is a text.
pub open spec fn viewed(text: Option<&str>) -> Option<Seq<char>> {
    match text {
        Some(text) => Some(text@),
        None => None,
    }
}

/// What there is to read, if there is a text.
pub open spec fn viewed_string(text: Option<String>) -> Option<Seq<char>> {
    match text {
        Some(text) => Some(text@),
        None => None,
    }
}

/// What there is to read in each of several texts.
pub open spec fn strings(parts: Seq<String>) -> Seq<Seq<char>> {
    parts.map_values(|part: String| part@)
}

/// Whether two texts hold the same characters.
pub fn same(left: &str, right: &str) -> (r: bool)
    ensures
        r == (left@ == right@),
{
    let a = left.as_bytes();
    let b = right.as_bytes();
    proof {
        encode_utf8_decode_utf8(left@);
        encode_utf8_decode_utf8(right@);
    }
    if a.len() != b.len() {
        return false;
    }
    let mut at: usize = 0;
    while at < a.len()
        invariant
            at <= a@.len(),
            a@.len() == b@.len(),
            a@ == encode_utf8(left@),
            b@ == encode_utf8(right@),
            forall|i: int| 0 <= i < at ==> a@[i] == b@[i],
        decreases a@.len() - at,
    {
        if a[at] != b[at] {
            return false;
        }
        at += 1;
    }
    proof {
        assert(a@ =~= b@);
    }
    true
}

/// The parts of a text are cut out of it where they lie.
pub proof fn lemma_slice_of_parts(front: Seq<char>, part: Seq<char>, back: Seq<char>)
    ensures
        ({
            let text = front + part + back;
            let from = byte_len(front);
            let to = byte_len(front) + byte_len(part);
            &&& sliceable(text, from, to)
            &&& sliceable(text, 0, from)
            &&& sliceable(text, to, byte_len(text))
            &&& from < to <==> part.len() > 0
            &&& slice(text, 0, from) == front
            &&& slice(text, from, to) == part
            &&& slice(text, to, byte_len(text)) == back
        }),
{
    let text = front + part + back;
    lemma_encode_join(front + part, back);
    lemma_encode_join(front, part);
    assert(text =~= front + (part + back));
    lemma_prefix_slice(text, front.len() as int);
    lemma_prefix_slice(text, (front.len() + part.len()) as int);
    assert(text.take(front.len() as int) =~= front);
    assert(text.take((front.len() + part.len()) as int) =~= front + part);
    assert(text.skip(front.len() as int) =~= part + back);
    assert(text.skip((front.len() + part.len()) as int) =~= back);
    let bytes = encode_utf8(text);
    let from = byte_len(front);
    let to = byte_len(front) + byte_len(part);
    assert(bytes.subrange(0, from) =~= encode_utf8(front));
    assert(bytes.subrange(from, to) =~= encode_utf8(part));
    assert(bytes.subrange(to, bytes.len() as int) =~= encode_utf8(back));
    encode_utf8_decode_utf8(front);
    encode_utf8_decode_utf8(part);
    encode_utf8_decode_utf8(back);
    encode_utf8_valid_utf8(text);
    is_char_boundary_start_end_of_seq(bytes);
    if part.len() > 0 {
        if encode_utf8(part).len() == 0 {
            assert(decode_utf8(encode_utf8(part)) == part);
            assert(encode_utf8(part) =~= encode_utf8(Seq::<char>::empty()));
            encode_utf8_decode_utf8(Seq::<char>::empty());
        }
    } else {
        assert(part =~= Seq::<char>::empty());
    }
}

/// The decimal digits of a number, most significant first.
pub open spec fn decimal(n: nat) -> Seq<char>
    decreases n,
{
    if n < 10 {
        seq![digit(n)]
    } else {
        decimal(n / 10).push(digit(n % 10))
    }
}

/// The character a digit is written as.
pub open spec fn digit(n: nat) -> char {
    (48 + n) as char
}

/// The text of one digit.
fn digit_text(n: u64) -> (r: &'static str)
    requires
        n < 10,
    ensures
        r@ == seq![digit(n as nat)],
{
    proof {
        reveal_strlit("0");
        reveal_strlit("1");
        reveal_strlit("2");
        reveal_strlit("3");
        reveal_strlit("4");
        reveal_strlit("5");
        reveal_strlit("6");
        reveal_strlit("7");
        reveal_strlit("8");
        reveal_strlit("9");
    }
    let r = if n == 0 {
        "0"
    } else if n == 1 {
        "1"
    } else if n == 2 {
        "2"
    } else if n == 3 {
        "3"
    } else if n == 4 {
        "4"
    } else if n == 5 {
        "5"
    } else if n == 6 {
        "6"
    } else if n == 7 {
        "7"
    } else if n == 8 {
        "8"
    } else {
        "9"
    };
    proof {
        assert(r@ =~= seq![digit(n as nat)]);
    }
    r
}

/// Appends the decimal digits of a number.
pub fn push_decimal(out: &mut String, n: u64)
    ensures
        final(out)@ == old(out)@ + decimal(n as nat),
    decreases n,
{
    if n >= 10 {
        push_decimal(out, n / 10);
    }
    out.append(digit_text(n % 10));
    proof {
        assert(out@ =~= old(out)@ + decimal(n as nat));
    }
}

/// Whether a character is a control character: one that a terminal may act on.
pub open spec fn is_control(c: char) -> bool {
    c <= '\u{1f}' || '\u{7f}' <= c <= '\u{9f}'
}

/// The hexadecimal digits of a number, most significant first.
pub open spec fn hexadecimal(n: nat) -> Seq<char>
    decreases n,
{
    if n < 16 {
        seq![hex_digit(n)]
    } else {
        hexadecimal(n / 16).push(hex_digit(n % 16))
    }
}

/// The character a hexadecimal digit is written as.
pub open spec fn hex_digit(n: nat) -> char {
    if n < 10 {
        (48 + n) as char
    } else {
        (87 + n) as char
    }
}

/// The characters a character is shown as: itself, unless it is a control character.
pub open spec fn shown(c: char) -> Seq<char> {
    if is_control(c) {
        "\\u{"@ + hexadecimal((c as u32) as nat) + "}"@
    } else {
        seq![c]
    }
}

/// A text as it can be shown on a terminal, with its control characters written out.
pub open spec fn escaped(text: Seq<char>) -> Seq<char>
    decreases text.len(),
{
    if text.len() == 0 {
        Seq::empty()
    } else {
        escaped(text.drop_last()) + shown(text.last())
    }
}

/// Appends the hexadecimal digits of a number.
fn push_hexadecimal(out: &mut String, n: u32)
    ensures
        final(out)@ == old(out)@ + hexadecimal(n as nat),
    decreases n,
{
    if n >= 16 {
        push_hexadecimal(out, n / 16);
    }
    let digits = "0123456789abcdef";
    proof {
        reveal_strlit("0123456789abcdef");
    }
    let digit: usize = (n % 16) as usize;
    out.append(digits.substring_char(digit, digit + 1));
    proof {
        assert(digits@.subrange(digit as int, digit + 1) =~= seq![hex_digit((n % 16) as nat)]);
        assert(out@ =~= old(out)@ + hexadecimal(n as nat));
    }
}

/// Writes out the control characters of a text, so that showing it cannot act on a terminal.
pub fn escape(text: &str) -> (r: String)
    ensures
        r@ == escaped(text@),
{
    let chars = characters(text);
    let mut out = String::new();
    let mut at: usize = 0;
    while at < chars.len()
        invariant
            at <= chars@.len(),
            chars@ == text@,
            out@ == escaped(text@.take(at as int)),
        decreases chars@.len() - at,
    {
        let c = chars[at];
        if c <= '\u{1f}' || ('\u{7f}' <= c && c <= '\u{9f}') {
            let code: u32 = c as u32;
            out.append("\\u{");
            push_hexadecimal(&mut out, code);
            out.append("}");
            proof {
                assert(code == c as u32);
                assert(is_control(c));
                assert(out@ =~= escaped(text@.take(at as int)) + shown(c));
            }
        } else {
            out.append(text.substring_char(at, at + 1));
            proof {
                assert(text@.subrange(at as int, at + 1) =~= seq![c]);
            }
        }
        proof {
            let next = text@.take(at + 1);
            assert(next.drop_last() =~= text@.take(at as int));
            assert(next.last() == c);
            assert(out@ =~= escaped(text@.take(at as int)) + shown(c));
        }
        at += 1;
    }
    proof {
        assert(text@.take(at as int) =~= text@);
    }
    out
}

/// A copy of a text.
pub fn owned(text: &str) -> (r: String)
    ensures
        r@ == text@,
{
    text.to_owned()
}

/// Two texts, one after the other.
pub fn joined(left: &str, right: &str) -> (r: String)
    ensures
        r@ == left@ + right@,
{
    let mut out = left.to_owned();
    out.append(right);
    out
}

/// How many line breaks a text holds.
pub open spec fn breaks(text: Seq<char>) -> nat
    decreases text.len(),
{
    if text.len() == 0 {
        0
    } else {
        breaks(text.drop_last()) + (if text.last() == '\n' {
            1nat
        } else {
            0nat
        })
    }
}

/// How many characters follow the last line break of a text.
pub open spec fn tail(text: Seq<char>) -> nat
    decreases text.len(),
{
    if text.len() == 0 || text.last() == '\n' {
        0
    } else {
        tail(text.drop_last()) + 1
    }
}

/// What a text encodes to is what its parts encode to, in order.
pub proof fn lemma_encode_join(left: Seq<char>, right: Seq<char>)
    ensures
        encode_utf8(left + right) == encode_utf8(left) + encode_utf8(right),
    decreases left.len(),
{
    if left.len() == 0 {
        assert(left + right =~= right);
        assert(encode_utf8(left) + encode_utf8(right) =~= encode_utf8(right));
    } else {
        assert((left + right).drop_first() =~= left.drop_first() + right);
        lemma_encode_join(left.drop_first(), right);
        assert(encode_utf8(left + right) =~= encode_utf8(left) + encode_utf8(right));
    }
}

/// A character added to a text adds the bytes it is encoded as.
pub proof fn lemma_encode_push(text: Seq<char>, c: char)
    ensures
        encode_utf8(text.push(c)) == encode_utf8(text) + encode_scalar(c as u32),
{
    let one = seq![c];
    assert(text.push(c) =~= text + one);
    lemma_encode_join(text, one);
    assert(one.drop_first() =~= Seq::<char>::empty());
    assert(encode_utf8(one) =~= encode_scalar(c as u32)) by {
        reveal_with_fuel(encode_utf8, 2);
    }
}

/// A prefix of a text, counted in characters, ends between two characters.
pub proof fn lemma_prefix_slice(text: Seq<char>, k: int)
    requires
        0 <= k <= text.len(),
    ensures
        sliceable(text, 0, byte_len(text.take(k))),
        slice(text, 0, byte_len(text.take(k))) == text.take(k),
        encode_utf8(text).subrange(0, byte_len(text.take(k))) == encode_utf8(text.take(k)),
        byte_len(text.take(k)) <= byte_len(text),
        k < text.len() ==> byte_len(text.take(k)) < byte_len(text),
{
    let front = text.take(k);
    let back = text.skip(k);
    assert(text =~= front + back);
    lemma_encode_join(front, back);
    let bytes = encode_utf8(text);
    let at = byte_len(front);
    encode_utf8_valid_utf8(text);
    encode_utf8_valid_utf8(front);
    encode_utf8_valid_utf8(back);
    assert(bytes.subrange(0, at) =~= encode_utf8(front));
    is_char_boundary_start_end_of_seq(bytes);
    if k < text.len() {
        assert(encode_utf8(back) == encode_scalar(back[0] as u32) + encode_utf8(back.drop_first()));
        is_char_boundary_start_end_of_seq(encode_utf8(back));
        is_char_boundary_iff_not_is_continuation_byte(encode_utf8(back), 0);
        assert(bytes[at] == encode_utf8(back)[0]);
        is_char_boundary_iff_not_is_continuation_byte(bytes, at);
    } else {
        assert(back =~= Seq::<char>::empty());
    }
    encode_utf8_decode_utf8(front);
}

/// The characters of a text, one by one.
pub fn characters(text: &str) -> (r: Vec<char>)
    ensures
        r@ == text@,
{
    let mut out: Vec<char> = Vec::new();
    for c in it: text.chars()
        invariant
            it.seq() == text@,
            out@ == text@.take(it.index() as int),
    {
        out.push(c);
        proof {
            assert(out@ =~= text@.take(it.index() as int + 1));
        }
    }
    proof {
        assert(text@.take(text@.len() as int) =~= text@);
    }
    out
}

/// Whether a character is white space, as Unicode has it.
pub open spec fn is_white(c: char) -> bool {
    let n = c as u32;
    ||| 0x9 <= n <= 0xd
    ||| n == 0x20
    ||| n == 0x85
    ||| n == 0xa0
    ||| n == 0x1680
    ||| 0x2000 <= n <= 0x200a
    ||| n == 0x2028
    ||| n == 0x2029
    ||| n == 0x202f
    ||| n == 0x205f
    ||| n == 0x3000
}

/// Whether a character is white space.
pub fn is_whitespace(c: char) -> (r: bool)
    ensures
        r == is_white(c),
{
    let n: u32 = c as u32;
    (0x9 <= n && n <= 0xd) || n == 0x20 || n == 0x85 || n == 0xa0 || n == 0x1680 || (0x2000 <= n && n <= 0x200a) || n
        == 0x2028 || n == 0x2029 || n == 0x202f || n == 0x205f || n == 0x3000
}

/// A text without the white space in front of it.
pub open spec fn trim_front(text: Seq<char>) -> Seq<char>
    decreases text.len(),
{
    if text.len() > 0 && is_white(text[0]) {
        trim_front(text.drop_first())
    } else {
        text
    }
}

/// A text without the white space behind it.
pub open spec fn trim_back(text: Seq<char>) -> Seq<char>
    decreases text.len(),
{
    if text.len() > 0 && is_white(text.last()) {
        trim_back(text.drop_last())
    } else {
        text
    }
}

/// A text without the white space around it.
pub open spec fn trim(text: Seq<char>) -> Seq<char> {
    trim_back(trim_front(text))
}

/// A text without the run of `c` in front of it.
pub open spec fn strip_front(text: Seq<char>, c: char) -> Seq<char>
    decreases text.len(),
{
    if text.len() > 0 && text[0] == c {
        strip_front(text.drop_first(), c)
    } else {
        text
    }
}

/// A text without the run of `c` behind it.
pub open spec fn strip_back(text: Seq<char>, c: char) -> Seq<char>
    decreases text.len(),
{
    if text.len() > 0 && text.last() == c {
        strip_back(text.drop_last(), c)
    } else {
        text
    }
}

/// Narrows a region of `chars` past the run of `c` it begins with.
pub fn past_front(chars: &Vec<char>, from: usize, to: usize, c: char) -> (r: usize)
    requires
        from <= to <= chars@.len(),
    ensures
        from <= r <= to,
        chars@.subrange(r as int, to as int) == strip_front(chars@.subrange(from as int, to as int), c),
{
    let mut at: usize = from;
    while at < to && chars[at] == c
        invariant
            from <= at <= to <= chars@.len(),
            strip_front(chars@.subrange(at as int, to as int), c) == strip_front(
                chars@.subrange(from as int, to as int),
                c,
            ),
        decreases to - at,
    {
        proof {
            assert(chars@.subrange(at as int, to as int).drop_first() =~= chars@.subrange(at + 1, to as int));
        }
        at += 1;
    }
    at
}

/// Narrows a region of `chars` before the run of `c` it ends with.
pub fn before_back(chars: &Vec<char>, from: usize, to: usize, c: char) -> (r: usize)
    requires
        from <= to <= chars@.len(),
    ensures
        from <= r <= to,
        chars@.subrange(from as int, r as int) == strip_back(chars@.subrange(from as int, to as int), c),
{
    let mut at: usize = to;
    while at > from && chars[at - 1] == c
        invariant
            from <= at <= to <= chars@.len(),
            strip_back(chars@.subrange(from as int, at as int), c) == strip_back(
                chars@.subrange(from as int, to as int),
                c,
            ),
        decreases at,
    {
        proof {
            assert(chars@.subrange(from as int, at as int).drop_last() =~= chars@.subrange(from as int, at - 1));
        }
        at -= 1;
    }
    at
}

/// Narrows a region of `chars` to what is left without the white space around it.
pub fn trimmed_ends(chars: &Vec<char>, from: usize, to: usize) -> (r: (usize, usize))
    requires
        from <= to <= chars@.len(),
    ensures
        from <= r.0 <= r.1 <= to,
        chars@.subrange(r.0 as int, r.1 as int) == trim(chars@.subrange(from as int, to as int)),
{
    let mut lo: usize = from;
    while lo < to && is_whitespace(chars[lo])
        invariant
            from <= lo <= to <= chars@.len(),
            trim_front(chars@.subrange(lo as int, to as int)) == trim_front(chars@.subrange(from as int, to as int)),
        decreases to - lo,
    {
        proof {
            assert(chars@.subrange(lo as int, to as int).drop_first() =~= chars@.subrange(lo + 1, to as int));
        }
        lo += 1;
    }
    let mut hi: usize = to;
    while hi > lo && is_whitespace(chars[hi - 1])
        invariant
            lo <= hi <= to <= chars@.len(),
            trim_back(chars@.subrange(lo as int, hi as int)) == trim_back(chars@.subrange(lo as int, to as int)),
        decreases hi,
    {
        proof {
            assert(chars@.subrange(lo as int, hi as int).drop_last() =~= chars@.subrange(lo as int, hi - 1));
        }
        hi -= 1;
    }
    (lo, hi)
}

/// Whether a text begins with another.
pub open spec fn begins(text: Seq<char>, prefix: Seq<char>) -> bool {
    prefix.len() <= text.len() && text.take(prefix.len() as int) == prefix
}

/// Whether a text begins with another.
pub fn starts_with(text: &str, prefix: &str) -> (r: bool)
    ensures
        r == begins(text@, prefix@),
{
    let chars = characters(text);
    let wanted = characters(prefix);
    if wanted.len() > chars.len() {
        return false;
    }
    let mut at: usize = 0;
    while at < wanted.len()
        invariant
            at <= wanted@.len() <= chars@.len(),
            chars@ == text@,
            wanted@ == prefix@,
            forall|i: int| 0 <= i < at ==> chars@[i] == wanted@[i],
        decreases wanted@.len() - at,
    {
        if chars[at] != wanted[at] {
            proof {
                assert(text@.take(prefix@.len() as int)[at as int] != prefix@[at as int]);
            }
            return false;
        }
        at += 1;
    }
    proof {
        assert(text@.take(prefix@.len() as int) =~= prefix@);
    }
    true
}

/// The number of bytes a character is encoded as.
pub open spec fn width(c: char) -> int {
    encode_scalar(c as u32).len() as int
}

/// The number of bytes a character is encoded as.
pub fn char_width(c: char) -> (r: usize)
    ensures
        r == width(c),
        1 <= r <= 4,
{
    let n: u32 = c as u32;
    proof {
        char_is_scalar(c);
    }
    if n <= 0x7f {
        1
    } else if n <= 0x7ff {
        2
    } else if n <= 0xffff {
        3
    } else {
        4
    }
}

/// The character that begins at a byte offset, if one does.
pub open spec fn char_from(text: Seq<char>, at: int) -> Option<char> {
    if sliceable(text, at, byte_len(text)) && at < byte_len(text) {
        Some(slice(text, at, byte_len(text))[0])
    } else {
        None
    }
}

/// The character at an offset reaches no further than the text, and ends between two characters.
pub proof fn lemma_char_from(text: Seq<char>, at: int)
    ensures
        char_from(text, at) matches Some(c) ==> {
            &&& at + width(c) <= byte_len(text)
            &&& 1 <= width(c) <= 4
            &&& is_cut(text, at + width(c))
        },
{
    if let Some(c) = char_from(text, at) {
        let rest = slice(text, at, byte_len(text));
        lemma_slice_bytes(text, at, byte_len(text));
        if rest.len() == 0 {
            assert(encode_utf8(rest).len() == 0);
        }
        assert(encode_utf8(rest) == encode_scalar(rest[0] as u32) + encode_utf8(rest.drop_first()));
        lemma_prefix_slice(rest, 1);
        lemma_encode_push(Seq::empty(), c);
        assert(rest.take(1) =~= Seq::<char>::empty().push(c));
        let bytes = encode_utf8(text);
        let end = at + width(c);
        encode_utf8_valid_utf8(text);
        encode_utf8_valid_utf8(rest);
        if end < bytes.len() {
            is_char_boundary_iff_not_is_continuation_byte(bytes, end);
            is_char_boundary_iff_not_is_continuation_byte(encode_utf8(rest), width(c));
            assert(encode_utf8(rest)[width(c)] == bytes[end]);
        } else {
            is_char_boundary_start_end_of_seq(bytes);
        }
    }
}

/// The character that begins at a byte offset, if one does.
pub fn char_at(text: &str, at: usize) -> (r: Option<char>)
    ensures
        r == char_from(text@, at as int),
{
    let size: usize = length(text);
    if at >= size || !text.is_char_boundary(at) {
        return None;
    }
    proof {
        lemma_slice_whole(text@);
        encode_utf8_valid_utf8(text@);
        is_char_boundary_start_end_of_seq(encode_utf8(text@));
    }
    let (_, rest) = text.split_at(at);
    proof {
        encode_utf8_decode_utf8(rest@);
        assert(rest@ == slice(text@, at as int, size as int));
        if rest@.len() == 0 {
            assert(encode_utf8(rest@).len() == 0);
        }
    }
    let mut chars = rest.chars();
    chars.next()
}

/// Where a character first occurs at or after `from`, or the length.
pub open spec fn index_from(text: Seq<char>, c: char, from: int) -> int
    decreases text.len() - from,
{
    if 0 <= from < text.len() && text[from] != c {
        index_from(text, c, from + 1)
    } else {
        from
    }
}

/// A character is found within the text, or at its end.
pub proof fn lemma_index_from(text: Seq<char>, c: char, from: int)
    requires
        0 <= from <= text.len(),
    ensures
        from <= index_from(text, c, from) <= text.len(),
        index_from(text, c, from) < text.len() ==> text[index_from(text, c, from)] == c,
    decreases text.len() - from,
{
    if from < text.len() && text[from] != c {
        lemma_index_from(text, c, from + 1);
    }
}

/// The part of a text before the first occurrence of a character, or all of it.
pub open spec fn until(text: Seq<char>, c: char) -> Seq<char> {
    text.take(index_from(text, c, 0))
}

/// Where a character first occurs at or after `from`, or the length.
pub fn find_char(chars: &Vec<char>, c: char, from: usize) -> (r: usize)
    requires
        from <= chars@.len(),
    ensures
        r == index_from(chars@, c, from as int),
        from <= r <= chars@.len(),
{
    let mut at: usize = from;
    while at < chars.len() && chars[at] != c
        invariant
            from <= at <= chars@.len(),
            index_from(chars@, c, at as int) == index_from(chars@, c, from as int),
        decreases chars@.len() - at,
    {
        at += 1;
    }
    at
}

/// The part of a text before the first occurrence of a character, or all of it.
pub fn before_char<'a>(text: &'a str, c: char) -> (r: &'a str)
    ensures
        r@ == until(text@, c),
{
    let chars = characters(text);
    let end = find_char(&chars, c, 0);
    text.substring_char(0, end)
}

/// The pieces of a text between the occurrences of a separator, from `from` on.
pub open spec fn pieces_from(text: Seq<char>, c: char, from: int) -> Seq<Seq<char>>
    decreases text.len() - from,
{
    proof {
        if 0 <= from <= text.len() {
            lemma_index_from(text, c, from);
        }
    }
    let end = index_from(text, c, from);
    if 0 <= from <= text.len() && end < text.len() {
        seq![text.subrange(from, end)] + pieces_from(text, c, end + 1)
    } else {
        seq![text.subrange(from, text.len() as int)]
    }
}

/// The texts that slices hold.
pub open spec fn texts(parts: Seq<&str>) -> Seq<Seq<char>> {
    parts.map_values(|part: &str| part@)
}

/// The pieces of a text between the occurrences of a separator.
pub fn split<'a>(text: &'a str, c: char) -> (r: Vec<&'a str>)
    ensures
        texts(r@) == pieces_from(text@, c, 0),
{
    let chars = characters(text);
    let mut parts: Vec<&'a str> = Vec::new();
    let mut from: usize = 0;
    let ghost all = pieces_from(text@, c, 0);
    proof {
        assert(texts(parts@) + all =~= all);
    }
    loop
        invariant
            from <= chars@.len(),
            chars@ == text@,
            all == pieces_from(text@, c, 0),
            texts(parts@) + pieces_from(text@, c, from as int) == all,
        decreases chars@.len() - from,
    {
        let end = find_char(&chars, c, from);
        let ghost earlier = texts(parts@);
        let part = text.substring_char(from, end);
        parts.push(part);
        proof {
            assert(texts(parts@) =~= earlier.push(part@));
        }
        if end >= chars.len() {
            proof {
                assert(texts(parts@) =~= earlier + pieces_from(text@, c, from as int));
            }
            return parts;
        }
        proof {
            assert(texts(parts@) + pieces_from(text@, c, end + 1) =~= earlier + pieces_from(text@, c, from as int));
        }
        from = end + 1;
    }
}

/// A text without the white space around it.
pub fn trimmed<'a>(text: &'a str) -> (r: &'a str)
    ensures
        r@ == trim(text@),
{
    let chars = characters(text);
    let (lo, hi) = trimmed_ends(&chars, 0, chars.len());
    proof {
        assert(chars@.subrange(0, chars@.len() as int) =~= chars@);
    }
    text.substring_char(lo, hi)
}

/// A text without its first character, where that is the given one.
pub open spec fn without_first(text: Seq<char>, c: char) -> Option<Seq<char>> {
    if text.len() > 0 && text[0] == c {
        Some(text.drop_first())
    } else {
        None
    }
}

/// A text without its first character, where that is the given one.
pub fn strip_first<'a>(text: &'a str, c: char) -> (r: Option<&'a str>)
    ensures
        r is Some <==> without_first(text@, c) is Some,
        r matches Some(rest) ==> without_first(text@, c) == Some(rest@),
{
    let chars = characters(text);
    if chars.len() > 0 && chars[0] == c {
        let rest = text.substring_char(1, chars.len());
        proof {
            assert(rest@ =~= text@.drop_first());
        }
        Some(rest)
    } else {
        None
    }
}

/// Whether a text comes before another in the order of its characters.
pub open spec fn sorts_before(left: Seq<char>, right: Seq<char>) -> bool
    decreases left.len(),
{
    if right.len() == 0 {
        false
    } else if left.len() == 0 {
        true
    } else if left[0] != right[0] {
        left[0] < right[0]
    } else {
        sorts_before(left.drop_first(), right.drop_first())
    }
}

/// Of two different texts exactly one comes before the other.
pub proof fn lemma_sorts_one_way(left: Seq<char>, right: Seq<char>)
    ensures
        !(sorts_before(left, right) && sorts_before(right, left)),
        left != right ==> sorts_before(left, right) || sorts_before(right, left),
        left == right ==> !sorts_before(left, right),
    decreases left.len(),
{
    if left.len() > 0 && right.len() > 0 && left[0] == right[0] {
        lemma_sorts_one_way(left.drop_first(), right.drop_first());
        if left.drop_first() == right.drop_first() {
            assert(left =~= seq![left[0]] + left.drop_first());
            assert(right =~= seq![right[0]] + right.drop_first());
        }
    } else if left.len() == 0 && right.len() == 0 {
        assert(left =~= right);
    }
}

/// What comes before a text comes before everything that text comes before.
pub proof fn lemma_sorts_on(left: Seq<char>, middle: Seq<char>, right: Seq<char>)
    requires
        sorts_before(left, middle),
        sorts_before(middle, right),
    ensures
        sorts_before(left, right),
    decreases left.len(),
{
    if left.len() > 0 && middle.len() > 0 && right.len() > 0 && left[0] == middle[0] && middle[0] == right[0] {
        lemma_sorts_on(left.drop_first(), middle.drop_first(), right.drop_first());
    }
}

/// Whether a text comes before another in the order of its characters.
pub fn is_before(left: &str, right: &str) -> (r: bool)
    ensures
        r == sorts_before(left@, right@),
{
    let a = characters(left);
    let b = characters(right);
    let mut at: usize = 0;
    proof {
        assert(a@.skip(0) =~= a@);
        assert(b@.skip(0) =~= b@);
    }
    loop
        invariant
            at <= a@.len(),
            at <= b@.len(),
            a@ == left@,
            b@ == right@,
            sorts_before(a@.skip(at as int), b@.skip(at as int)) == sorts_before(left@, right@),
        decreases a@.len() - at,
    {
        if at >= b.len() {
            return false;
        }
        if at >= a.len() {
            return true;
        }
        if a[at] != b[at] {
            return a[at] < b[at];
        }
        proof {
            assert(a@.skip(at as int).drop_first() =~= a@.skip(at + 1));
            assert(b@.skip(at as int).drop_first() =~= b@.skip(at + 1));
        }
        at += 1;
    }
}

/// An ASCII letter in lower case, and any other character as it is.
pub open spec fn ascii_lower(c: char) -> char {
    if 'A' <= c <= 'Z' {
        (c as u32 + 32) as char
    } else {
        c
    }
}

/// Whether two texts are the same but for the case of ASCII letters.
pub open spec fn same_but_case(left: Seq<char>, right: Seq<char>) -> bool {
    left.len() == right.len() && forall|i: int|
        0 <= i < left.len() ==> ascii_lower(#[trigger] left[i]) == ascii_lower(right[i])
}

fn lower_code(c: char) -> (r: u32)
    ensures
        r == ascii_lower(c) as u32,
{
    let n: u32 = c as u32;
    if 65 <= n && n <= 90 {
        n + 32
    } else {
        n
    }
}

/// Whether two texts are the same but for the case of ASCII letters.
pub fn is_same_but_case(left: &str, right: &str) -> (r: bool)
    ensures
        r == same_but_case(left@, right@),
{
    let a = characters(left);
    let b = characters(right);
    if a.len() != b.len() {
        return false;
    }
    let mut at: usize = 0;
    while at < a.len()
        invariant
            at <= a@.len(),
            a@.len() == b@.len(),
            a@ == left@,
            b@ == right@,
            forall|i: int| 0 <= i < at ==> ascii_lower(#[trigger] left@[i]) == ascii_lower(right@[i]),
        decreases a@.len() - at,
    {
        if lower_code(a[at]) != lower_code(b[at]) {
            proof {
                assert(ascii_lower(left@[at as int]) != ascii_lower(right@[at as int]));
            }
            return false;
        }
        at += 1;
    }
    true
}

// ---- What texts of numbers and characters promise. ----

/// The number that digits stand for in a base, most significant first.
pub open spec fn number_in(digits: Seq<nat>, base: nat) -> nat
    decreases digits.len(),
{
    if digits.len() == 0 {
        0
    } else {
        number_in(digits.drop_last(), base) * base + digits.last()
    }
}

/// The value of a character as a digit.
pub open spec fn digit_value(c: char) -> Option<nat> {
    if '0' <= c <= '9' {
        Some((c as u32 - '0' as u32) as nat)
    } else if 'a' <= c <= 'f' {
        Some((c as u32 - 'a' as u32 + 10) as nat)
    } else {
        None
    }
}

/// Whether a text is a number, written out in a base without a needless zero in front.
pub open spec fn stands_for(text: Seq<char>, n: nat, base: nat) -> bool {
    &&& text.len() > 0
    &&& forall|i: int| 0 <= i < text.len() ==> (#[trigger] digit_value(text[i]) matches Some(value) && value < base)
    &&& number_in(text.map_values(|c: char| digit_value(c)->0), base) == n
    &&& text.len() > 1 ==> text[0] != '0'
}

/// A number is written in decimal digits that stand for it.
pub proof fn law_decimals_stand_for_their_number(n: nat)
    ensures
        stands_for(decimal(n), n, 10),
    decreases n,
{
    if n >= 10 {
        law_decimals_stand_for_their_number(n / 10);
        lemma_one_more_digit(decimal(n / 10), n / 10, 10, digit(n % 10));
    } else {
        lemma_one_digit(n, 10, digit(n));
    }
}

/// A number is written in hexadecimal digits that stand for it.
pub proof fn law_hexadecimals_stand_for_their_number(n: nat)
    ensures
        stands_for(hexadecimal(n), n, 16),
    decreases n,
{
    if n >= 16 {
        law_hexadecimals_stand_for_their_number(n / 16);
        lemma_one_more_digit(hexadecimal(n / 16), n / 16, 16, hex_digit(n % 16));
    } else {
        lemma_one_digit(n, 16, hex_digit(n));
    }
}

proof fn lemma_one_digit(n: nat, base: nat, last: char)
    requires
        n < base,
        digit_value(last) == Some(n),
    ensures
        stands_for(seq![last], n, base),
{
    let values = seq![last].map_values(|c: char| digit_value(c)->0);
    assert(values.drop_last() =~= Seq::<nat>::empty());
    assert(values.last() == n);
    assert(number_in(Seq::<nat>::empty(), base) == 0);
    assert(number_in(values, base) == n) by (nonlinear_arith)
        requires
            number_in(values, base) == 0 * base + n,
    {
    }
}

proof fn lemma_one_more_digit(front: Seq<char>, before: nat, base: nat, last: char)
    requires
        stands_for(front, before, base),
        before > 0,
        digit_value(last) matches Some(value) && value < base,
    ensures
        stands_for(front.push(last), before * base + digit_value(last)->0, base),
{
    let text = front.push(last);
    let values = text.map_values(|c: char| digit_value(c)->0);
    let less = front.map_values(|c: char| digit_value(c)->0);
    assert(values.drop_last() =~= less);
    assert(values.last() == digit_value(last)->0);
    assert(text[0] == front[0]);
    assert forall|i: int| 0 <= i < text.len() implies (#[trigger] digit_value(text[i]) matches Some(value) && value < base) by {
        if i < front.len() {
            assert(text[i] == front[i]);
            assert(digit_value(front[i]) is Some);
        }
    }
    if front.len() == 1 && front[0] == '0' {
        assert(less.drop_last() =~= Seq::<nat>::empty());
        assert(less.last() == 0);
        assert(number_in(Seq::<nat>::empty(), base) == 0);
        assert(number_in(less, base) == 0 * base + 0);
        assert(0 * base == 0) by (nonlinear_arith);
    }
}

/// Whether a character only shows itself on a terminal.
pub open spec fn is_plain(c: char) -> bool {
    ' ' <= c && !('\u{7f}' <= c <= '\u{9f}')
}

/// What is shown of a text on a terminal holds no control character, and a text without one is shown as
/// it is.
pub proof fn law_nothing_shown_acts_on_a_terminal(text: Seq<char>)
    ensures
        forall|i: int| 0 <= i < escaped(text).len() ==> is_plain(#[trigger] escaped(text)[i]),
        (forall|i: int| 0 <= i < text.len() ==> is_plain(#[trigger] text[i])) ==> escaped(text) == text,
    decreases text.len(),
{
    if text.len() > 0 {
        let front = text.drop_last();
        let last = text.last();
        law_nothing_shown_acts_on_a_terminal(front);
        let hex = hexadecimal((last as u32) as nat);
        law_hexadecimals_stand_for_their_number((last as u32) as nat);
        reveal_strlit("\\u{");
        reveal_strlit("}");
        assert forall|i: int| 0 <= i < hex.len() implies is_plain(#[trigger] hex[i]) by {
            assert(digit_value(hex[i]) is Some);
        }
        let open = "\\u{"@;
        assert forall|i: int| 0 <= i < shown(last).len() implies is_plain(#[trigger] shown(last)[i]) by {
            if is_control(last) {
                if i < open.len() {
                    assert(shown(last)[i] == open[i]);
                } else if i < open.len() + hex.len() {
                    assert(shown(last)[i] == hex[i - open.len()]);
                } else {
                    assert(shown(last)[i] == "}"@[0]);
                }
            }
        }
        assert forall|i: int| 0 <= i < escaped(text).len() implies is_plain(#[trigger] escaped(text)[i]) by {
            if i < escaped(front).len() {
                assert(escaped(text)[i] == escaped(front)[i]);
            } else {
                assert(escaped(text)[i] == shown(last)[i - escaped(front).len()]);
            }
        }
        if forall|i: int| 0 <= i < text.len() ==> is_plain(#[trigger] text[i]) {
            assert forall|i: int| 0 <= i < front.len() implies is_plain(#[trigger] front[i]) by {
                assert(front[i] == text[i]);
            }
            assert(is_plain(text[text.len() - 1]));
            assert(escaped(text) =~= text);
        }
    } else {
        assert(escaped(text) =~= text);
    }
}

/// A control character is shown by its number, in hexadecimal.
pub proof fn law_a_control_character_is_shown_by_its_number(text: Seq<char>, c: char)
    requires
        !is_plain(c),
    ensures
        exists|digits: Seq<char>|
            stands_for(digits, (c as u32) as nat, 16) && escaped(text.push(c)) == #[trigger] (escaped(text) + ("\\u{"@ + digits + "}"@)),
{
    law_hexadecimals_stand_for_their_number((c as u32) as nat);
    assert(text.push(c).drop_last() =~= text);
    let digits = hexadecimal((c as u32) as nat);
    assert(escaped(text.push(c)) == escaped(text) + ("\\u{"@ + digits + "}"@));
}

/// Two texts are the same but for case where each letter of ASCII is the same letter, and every other
/// character is the same.
pub proof fn law_case_concerns_the_letters_of_ascii(left: char, right: char)
    ensures
        same_but_case(seq![left], seq![right]) <==> left == right || 'A' <= left <= 'Z' && right as u32 == left as u32 + 32 || 'A' <= right
            <= 'Z' && left as u32 == right as u32 + 32,
{
    let (a, b) = (seq![left], seq![right]);
    if same_but_case(a, b) {
        assert(ascii_lower(a[0]) == ascii_lower(b[0]));
    }
}

/// White space within ASCII is a blank, a tab, or what ends or separates lines, and nothing else.
pub proof fn law_white_space(c: char)
    requires
        (c as u32) < 128,
    ensures
        is_white(c) <==> c == ' ' || c == '\t' || c == '\n' || c == '\r' || c as u32 == 0x0b || c as u32 == 0x0c,
{
}

/// Trimming a text takes away white space at its ends, all of it and nothing else.
pub proof fn law_trimming_takes_the_white_space_at_the_ends(text: Seq<char>)
    ensures
        exists|front: Seq<char>, back: Seq<char>|
            text == #[trigger] (front + trim(text) + back) && (forall|i: int| 0 <= i < front.len() ==> is_white(#[trigger] front[i])) && (
            forall|i: int| 0 <= i < back.len() ==> is_white(#[trigger] back[i])),
        trim(text).len() > 0 ==> !is_white(trim(text)[0]) && !is_white(trim(text).last()),
{
    let front = lemma_trim_front(text);
    let rest = trim_front(text);
    let back = lemma_trim_back(rest);
    assert(text =~= front + trim(text) + back);
    if trim(text).len() > 0 {
        assert(rest[0] == trim(text)[0]);
    }
}

proof fn lemma_trim_front(text: Seq<char>) -> (front: Seq<char>)
    ensures
        text == front + trim_front(text),
        forall|i: int| 0 <= i < front.len() ==> is_white(#[trigger] front[i]),
        trim_front(text).len() > 0 ==> !is_white(trim_front(text)[0]),
    decreases text.len(),
{
    if text.len() > 0 && is_white(text[0]) {
        let more = lemma_trim_front(text.drop_first());
        let front = seq![text[0]] + more;
        assert(trim_front(text) == trim_front(text.drop_first()));
        assert(text =~= seq![text[0]] + text.drop_first());
        assert(seq![text[0]] + (more + trim_front(text)) =~= front + trim_front(text));
        front
    } else {
        assert(text =~= Seq::<char>::empty() + text);
        Seq::empty()
    }
}

proof fn lemma_trim_back(text: Seq<char>) -> (back: Seq<char>)
    ensures
        text == trim_back(text) + back,
        forall|i: int| 0 <= i < back.len() ==> is_white(#[trigger] back[i]),
        trim_back(text).len() > 0 ==> !is_white(trim_back(text).last()),
    decreases text.len(),
{
    if text.len() > 0 && is_white(text.last()) {
        let more = lemma_trim_back(text.drop_last());
        let back = more.push(text.last());
        assert(trim_back(text) == trim_back(text.drop_last()));
        assert(text =~= text.drop_last().push(text.last()));
        assert((trim_back(text) + more).push(text.last()) =~= trim_back(text) + back);
        back
    } else {
        assert(text =~= text + Seq::<char>::empty());
        Seq::empty()
    }
}

/// Whether a character is nowhere in a text.
pub open spec fn is_free_of(text: Seq<char>, c: char) -> bool {
    forall|i: int| 0 <= i < text.len() ==> #[trigger] text[i] != c
}

proof fn lemma_index_behind(front: Seq<char>, c: char, back: Seq<char>, from: int)
    requires
        0 <= from <= back.len(),
    ensures
        index_from(front + back, c, front.len() + from) == front.len() + index_from(back, c, from),
    decreases back.len() - from,
{
    if from < back.len() && back[from] != c {
        lemma_index_behind(front, c, back, from + 1);
    }
}

proof fn lemma_pieces_behind(front: Seq<char>, c: char, back: Seq<char>, from: int)
    requires
        0 <= from <= back.len(),
    ensures
        pieces_from(front + back, c, front.len() + from) == pieces_from(back, c, from),
    decreases back.len() - from,
{
    let all = front + back;
    let end = index_from(back, c, from);
    lemma_index_behind(front, c, back, from);
    lemma_index_from(back, c, from);
    if end < back.len() {
        lemma_pieces_behind(front, c, back, end + 1);
        assert(all.subrange(front.len() + from, front.len() + end) =~= back.subrange(from, end));
    } else {
        assert(all.subrange(front.len() + from, all.len() as int) =~= back.subrange(from, back.len() as int));
    }
}

proof fn lemma_index_free(front: Seq<char>, c: char, back: Seq<char>, from: int)
    requires
        0 <= from <= front.len(),
        is_free_of(front, c),
        back.len() > 0 ==> back[0] == c,
    ensures
        index_from(front + back, c, from) == front.len(),
    decreases front.len() - from,
{
    if from < front.len() {
        lemma_index_free(front, c, back, from + 1);
    }
}

/// The pieces of a text are what is between the marks in it, in order and with nothing left out.
pub proof fn law_pieces_are_between_the_marks(front: Seq<char>, c: char, back: Seq<char>)
    requires
        is_free_of(front, c),
    ensures
        pieces_from(front, c, 0) == seq![front],
        pieces_from(front + seq![c] + back, c, 0) == seq![front] + pieces_from(back, c, 0),
{
    let mark = seq![c];
    let all = front + mark + back;
    lemma_index_free(front, c, Seq::empty(), 0);
    assert(front + Seq::<char>::empty() =~= front);
    assert(front.subrange(0, front.len() as int) =~= front);
    lemma_index_free(front, c, mark + back, 0);
    assert(front + (mark + back) =~= all);
    lemma_pieces_behind(front + mark, c, back, 0);
    assert(all.subrange(0, front.len() as int) =~= front);
}

/// Texts sort as in a dictionary: by the first character that differs, and a text in front of what goes on with it.
pub proof fn law_texts_sort_as_in_a_dictionary(front: Seq<char>, left: Seq<char>, right: Seq<char>)
    ensures
        !sorts_before(front, front),
        left.len() > 0 && right.len() > 0 && left[0] != right[0] ==> (sorts_before(front + left, front + right) <==> left[0] < right[0]),
        right.len() > 0 ==> sorts_before(front, front + right) && !sorts_before(front + right, front),
    decreases front.len(),
{
    if front.len() > 0 {
        let behind = front.drop_first();
        law_texts_sort_as_in_a_dictionary(behind, left, right);
        assert((front + left).drop_first() =~= behind + left);
        assert((front + right).drop_first() =~= behind + right);
    } else {
        assert(front + left =~= left);
        assert(front + right =~= right);
    }
}

} // verus!
