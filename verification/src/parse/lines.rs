//! Lines: where each one starts, and which one an offset is on.
use crate::text;
use crate::text::{breaks, byte_len, lemma_encode_push, slice, sliceable, tail};
use vstd::prelude::*;
use vstd::utf8::*;

verus! {

/// Where lines start in the first `n` bytes, counting what follows a final line break.
pub open spec fn all_starts(bytes: Seq<u8>, n: nat) -> Seq<int>
    decreases n,
{
    if n == 0 {
        seq![0]
    } else if bytes[n - 1] == 10u8 {
        all_starts(bytes, (n - 1) as nat).push(n as int)
    } else {
        all_starts(bytes, (n - 1) as nat)
    }
}

/// Where the lines of a text start.
///
/// A trailing line break does not open a line that anything can be on.
pub open spec fn starts_of(bytes: Seq<u8>) -> Seq<int> {
    let all = all_starts(bytes, bytes.len());
    if bytes.len() > 0 && all.last() == bytes.len() {
        all.drop_last()
    } else {
        all
    }
}

/// The starts a vector holds.
pub open spec fn offsets(starts: Seq<usize>) -> Seq<int> {
    starts.map_values(|start: usize| start as int)
}

/// Whether starts come in order, the first of them at the very beginning.
pub open spec fn in_order(starts: Seq<int>) -> bool {
    &&& starts.len() > 0
    &&& starts[0] == 0
    &&& forall|i: int, j: int| 0 <= i < j < starts.len() ==> #[trigger] starts[i] < #[trigger] starts[j]
}

/// The starts of a text come in order, the first of them at the very beginning.
pub proof fn lemma_all_starts(bytes: Seq<u8>, n: nat)
    requires
        n <= bytes.len(),
    ensures
        in_order(all_starts(bytes, n)),
        all_starts(bytes, n).last() <= n,
        all_starts(bytes, n).len() <= n + 1,
        forall|i: int| 0 <= i < all_starts(bytes, n).len() ==> 0 <= #[trigger] all_starts(bytes, n)[i] <= n,
    decreases n,
{
    if n > 0 {
        lemma_all_starts(bytes, (n - 1) as nat);
        let before = all_starts(bytes, (n - 1) as nat);
        assert forall|i: int| 0 <= i < before.len() implies #[trigger] before[i] < n by {}
    }
}

/// The starts of a text come in order, and none lies past the text.
pub proof fn lemma_starts(bytes: Seq<u8>)
    ensures
        in_order(starts_of(bytes)),
        starts_of(bytes).len() <= bytes.len() + 1,
        forall|i: int| 0 <= i < starts_of(bytes).len() ==> 0 <= #[trigger] starts_of(bytes)[i] <= bytes.len(),
{
    lemma_all_starts(bytes, bytes.len());
    let all = all_starts(bytes, bytes.len());
    if bytes.len() > 0 && all.last() == bytes.len() {
        assert(all[0] == 0);
        let kept = all.drop_last();
        assert forall|i: int, j: int| 0 <= i < j < kept.len() implies #[trigger] kept[i] < #[trigger] kept[j] by {
            assert(all[i] < all[j]);
        }
        assert forall|i: int| 0 <= i < kept.len() implies 0 <= #[trigger] kept[i] <= bytes.len() by {
            assert(0 <= all[i] <= bytes.len());
        }
    }
}

/// Byte offset of the start of each line.
pub fn line_starts(text: &str) -> (r: Vec<usize>)
    ensures
        offsets(r@) == starts_of(encode_utf8(text@)),
        r@.len() > 0,
{
    let bytes = text.as_bytes();
    let size: usize = bytes.len();
    let mut starts: Vec<usize> = Vec::new();
    starts.push(0);
    let mut at: usize = 0;
    proof {
        assert(offsets(starts@) =~= all_starts(bytes@, 0));
    }
    while at < size
        invariant
            at <= size,
            size == bytes@.len(),
            offsets(starts@) == all_starts(bytes@, at as nat),
        decreases size - at,
    {
        let ghost before = starts@;
        if bytes[at] == 10u8 {
            starts.push(at + 1);
            proof {
                assert(offsets(starts@) =~= offsets(before).push(at + 1));
            }
        }
        at += 1;
    }
    proof {
        lemma_all_starts(bytes@, bytes@.len());
        lemma_starts(bytes@);
        assert(starts@.len() == offsets(starts@).len());
        assert(offsets(starts@).last() == starts@.last());
    }
    if size > 0 && starts[starts.len() - 1] == size {
        let ghost before = starts@;
        let _ = starts.pop();
        proof {
            assert(offsets(starts@) =~= offsets(before).drop_last());
        }
    }
    proof {
        assert(offsets(starts@) == starts_of(bytes@));
        assert(starts@.len() == offsets(starts@).len());
    }
    starts
}

/// The last of the first `n` starts that does not lie behind `at`.
pub open spec fn last_upto(starts: Seq<int>, at: int, n: int) -> int
    decreases n,
{
    if n <= 1 {
        0
    } else if starts[n - 1] <= at {
        n - 1
    } else {
        last_upto(starts, at, n - 1)
    }
}

/// Which line an offset is on, counted from zero.
pub open spec fn line_index(starts: Seq<int>, at: int) -> int {
    last_upto(starts, at, starts.len() as int)
}

/// The line an offset is on is the one that starts last before it.
pub proof fn lemma_line_index(starts: Seq<int>, at: int, index: int)
    requires
        in_order(starts),
        0 <= index < starts.len(),
        index > 0 ==> starts[index] <= at,
        index + 1 < starts.len() ==> at < starts[index + 1],
    ensures
        line_index(starts, at) == index,
{
    lemma_last_upto(starts, at, index, starts.len() as int);
}

proof fn lemma_last_upto(starts: Seq<int>, at: int, index: int, n: int)
    requires
        in_order(starts),
        0 <= index < n <= starts.len(),
        index > 0 ==> starts[index] <= at,
        index + 1 < starts.len() ==> at < starts[index + 1],
    ensures
        last_upto(starts, at, n) == index,
    decreases n,
{
    if n > index + 1 {
        if n - 1 > index + 1 {
            assert(starts[index + 1] < starts[n - 1]);
        }
        lemma_last_upto(starts, at, index, n - 1);
    }
}

/// Which line an offset is on, counted from zero.
pub fn index_of(starts: &Vec<usize>, at: usize) -> (r: usize)
    requires
        in_order(offsets(starts@)),
    ensures
        r == line_index(offsets(starts@), at as int),
        r < starts@.len(),
{
    let ghost all = offsets(starts@);
    let mut lo: usize = 0;
    let mut hi: usize = starts.len();
    while hi - lo > 1
        invariant
            lo < hi <= starts@.len(),
            all == offsets(starts@),
            lo > 0 ==> all[lo as int] <= at,
            hi < starts@.len() ==> at < all[hi as int],
        decreases hi - lo,
    {
        let mid: usize = lo + (hi - lo) / 2;
        proof {
            assert(all[mid as int] == starts@[mid as int]);
        }
        if starts[mid] <= at {
            lo = mid;
        } else {
            hi = mid;
        }
    }
    proof {
        lemma_line_index(all, at as int, lo as int);
    }
    lo
}

/// The one-based line and column of an offset.
///
/// The column is counted in characters, because it is shown to humans beside the line.
pub open spec fn location_of(text: Seq<char>, starts: Seq<int>, at: int) -> (int, int) {
    let index = line_index(starts, at);
    let end = if at <= byte_len(text) {
        at
    } else {
        byte_len(text)
    };
    (index + 1, slice(text, starts[index], end).len() as int + 1)
}

/// The one-based line and column of an offset.
pub fn locate(text: &str, starts: &Vec<usize>, at: usize) -> (r: (usize, usize))
    requires
        offsets(starts@) == starts_of(encode_utf8(text@)),
        byte_len(text@) < usize::MAX,
    ensures
        (r.0 as int, r.1 as int) == location_of(text@, offsets(starts@), at as int),
{
    let size: usize = text::length(text);
    proof {
        lemma_starts(encode_utf8(text@));
    }
    let index = index_of(starts, at);
    let end: usize = if at <= size {
        at
    } else {
        size
    };
    proof {
        assert(offsets(starts@)[index as int] == starts@[index as int]);
    }
    let column = count(text::between(text, starts[index], end));
    proof {
        lemma_fits(slice(text@, starts@[index as int] as int, end as int));
        if sliceable(text@, starts@[index as int] as int, end as int) {
            text::lemma_slice_bytes(text@, starts@[index as int] as int, end as int);
        }
    }
    (index + 1, column + 1)
}

/// A text has no more characters than bytes.
proof fn lemma_fits(text: Seq<char>)
    ensures
        text.len() <= byte_len(text),
    decreases text.len(),
{
    if text.len() > 0 {
        lemma_fits(text.drop_first());
        assert(encode_utf8(text) == encode_scalar(text[0] as u32) + encode_utf8(text.drop_first()));
    }
}

/// How many characters a text has.
pub fn count(text: &str) -> (r: usize)
    ensures
        r == text@.len(),
{
    let chars = text::characters(text);
    chars.len()
}

// ---- An offset is where walking the text says it is. ----

/// Starts in a prefix depend on the prefix alone.
proof fn lemma_starts_of_prefix(bytes: Seq<u8>, n: nat, whole: nat)
    requires
        n <= whole <= bytes.len(),
    ensures
        all_starts(bytes.take(whole as int), n) == all_starts(bytes, n),
    decreases n,
{
    if n > 0 {
        lemma_starts_of_prefix(bytes, (n - 1) as nat, whole);
    }
}

/// Only a line break is encoded with a line break.
proof fn lemma_break_bytes(c: char)
    ensures
        c == '\n' ==> encode_scalar(c as u32) == seq![10u8],
        c != '\n' ==> forall|i: int|
            0 <= i < encode_scalar(c as u32).len() ==> #[trigger] encode_scalar(c as u32)[i] != 10u8,
{
    let u = c as u32;
    char_is_scalar(c);
    if has_width_1_encoding(u) {
        assert(u <= 0x7f ==> (u & 0x7f) as u8 == u as u8) by (bit_vector);
    } else {
        assert(0xc0u8 | ((u >> 6) & 0x1F) as u8 != 10u8) by (bit_vector);
        assert(0x80u8 | (u & 0x3F) as u8 != 10u8) by (bit_vector);
        assert(0x80u8 | ((u >> 6) & 0x3F) as u8 != 10u8) by (bit_vector);
        assert(0x80u8 | ((u >> 12) & 0x3F) as u8 != 10u8) by (bit_vector);
        assert(0xe0u8 | ((u >> 12) & 0x0F) as u8 != 10u8) by (bit_vector);
        assert(0xf0u8 | ((u >> 18) & 0x07) as u8 != 10u8) by (bit_vector);
    }
}

/// Bytes that hold no line break start no line.
proof fn lemma_starts_skip(bytes: Seq<u8>, n: nat, m: nat)
    requires
        n <= m <= bytes.len(),
        forall|i: int| n <= i < m ==> bytes[i] != 10u8,
    ensures
        all_starts(bytes, m) == all_starts(bytes, n),
    decreases m - n,
{
    if n < m {
        lemma_starts_skip(bytes, n, (m - 1) as nat);
    }
}

/// Walking a text to its end passes one start per line break, the last of them where the
/// characters behind the last line break begin.
proof fn lemma_walked(text: Seq<char>)
    ensures
        all_starts(encode_utf8(text), encode_utf8(text).len()).len() == breaks(text) + 1,
        tail(text) <= text.len(),
        all_starts(encode_utf8(text), encode_utf8(text).len()).last() == byte_len(text.take(text.len() - tail(text))),
    decreases text.len(),
{
    let bytes = encode_utf8(text);
    if text.len() == 0 {
        assert(text.take(0) =~= text);
    } else {
        let front = text.drop_last();
        let c = text.last();
        let before = encode_utf8(front);
        lemma_walked(front);
        lemma_encode_push(front, c);
        assert(front.push(c) =~= text);
        lemma_break_bytes(c);
        assert(bytes.take(before.len() as int) =~= before);
        lemma_starts_of_prefix(bytes, before.len(), before.len());
        if c == '\n' {
            assert(bytes.len() == before.len() + 1);
            assert(bytes[before.len() as int] == 10u8);
            assert(text.take(text.len() as int) =~= text);
        } else {
            assert forall|i: int| before.len() <= i < bytes.len() implies bytes[i] != 10u8 by {
                assert(bytes[i] == encode_scalar(c as u32)[i - before.len()]);
            }
            lemma_starts_skip(bytes, before.len(), bytes.len());
            assert(text.take(text.len() - tail(text)) =~= front.take(front.len() - tail(front)));
        }
    }
}

/// Starts behind `n` bytes lie behind them.
proof fn lemma_starts_behind(bytes: Seq<u8>, n: nat, m: nat)
    requires
        n <= m <= bytes.len(),
    ensures
        all_starts(bytes, n).len() <= all_starts(bytes, m).len(),
        forall|i: int|
            0 <= i < all_starts(bytes, n).len() ==> all_starts(bytes, m)[i] == #[trigger] all_starts(bytes, n)[i],
        forall|i: int|
            all_starts(bytes, n).len() <= i < all_starts(bytes, m).len() ==> n < #[trigger] all_starts(bytes, m)[i],
    decreases m - n,
{
    if n < m {
        lemma_starts_behind(bytes, n, (m - 1) as nat);
    }
}

/// The location of an offset is the line and the column that walking the text up to it counts.
///
/// `k` characters are walked, and at least one is left, so that the offset is on a line.
pub proof fn law_location_agrees_with_walking(text: Seq<char>, k: int)
    requires
        0 <= k < text.len(),
    ensures
        location_of(text, starts_of(encode_utf8(text)), byte_len(text.take(k))) == (
            breaks(text.take(k)) as int + 1,
            tail(text.take(k)) as int + 1,
        ),
{
    lemma_line_walked(text, k);
}

/// The line that the character behind the first `k` is on, and what is in front of it there.
pub(crate) proof fn lemma_line_walked(text: Seq<char>, k: int)
    requires
        0 <= k < text.len(),
    ensures
        ({
            let starts = starts_of(encode_utf8(text));
            let at = byte_len(text.take(k));
            let index = line_index(starts, at);
            &&& index == breaks(text.take(k))
            &&& tail(text.take(k)) <= k
            &&& slice(text, starts[index], at) == text.take(k).skip(k - tail(text.take(k)))
            &&& location_of(text, starts, at) == (breaks(text.take(k)) as int + 1, tail(text.take(k)) as int + 1)
        }),
{
    let bytes = encode_utf8(text);
    let walked = text.take(k);
    let at = byte_len(walked);
    let starts = starts_of(bytes);
    let all = all_starts(bytes, bytes.len());
    text::lemma_prefix_slice(text, k);
    lemma_walked(walked);
    lemma_starts(bytes);
    lemma_all_starts(bytes, bytes.len());
    let here = all_starts(bytes, at as nat);
    assert(bytes.take(at) =~= bytes.subrange(0, at));
    lemma_starts_of_prefix(bytes, at as nat, at as nat);
    lemma_starts_behind(bytes, at as nat, bytes.len());
    lemma_all_starts(bytes, at as nat);
    let index = here.len() - 1;
    assert(all[index] == here[index]);
    assert(here.last() <= at);
    if all.last() == bytes.len() {
        assert(starts =~= all.drop_last());
        assert(index < all.len() - 1);
    }
    assert(starts[index] == here.last());
    if index + 1 < starts.len() {
        assert(starts[index + 1] == all[index + 1]);
    }
    lemma_line_index(starts, at, index);
    // The characters behind the last line break are the ones the column counts.
    let lead = walked.take(walked.len() - tail(walked));
    assert(lead =~= text.take(walked.len() - tail(walked)));
    text::lemma_prefix_slice(text, walked.len() - tail(walked));
    let from = byte_len(lead);
    text::lemma_slice_join(text, 0, from, at);
    assert(slice(text, 0, at) == walked);
    assert(slice(text, 0, from) == lead);
    assert(slice(text, from, at) =~= walked.skip(lead.len() as int));
}

} // verus!
