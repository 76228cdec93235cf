use vstd::prelude::*;

verus! {

/// A UTF-8 continuation byte.
pub open spec fn is_cont(x: u8) -> bool {
    0x80 <= x && x <= 0xbf
}

/// Length of the well-formed UTF-8 sequence that starts at `i`, or 0 where
/// none does (overlong forms, surrogates and values past U+10FFFF excluded).
pub open spec fn utf8_width(b: Seq<u8>, i: int) -> int {
    let n = b.len();
    let x = b[i];
    if x < 0x80 {
        1
    } else if 0xc2 <= x && x <= 0xdf && i + 1 < n && is_cont(b[i + 1]) {
        2
    } else if 0xe0 <= x && x <= 0xef && i + 2 < n && is_cont(b[i + 1]) && is_cont(b[i + 2])
        && (x != 0xe0 || b[i + 1] >= 0xa0) && (x != 0xed || b[i + 1] <= 0x9f) {
        3
    } else if 0xf0 <= x && x <= 0xf4 && i + 3 < n && is_cont(b[i + 1]) && is_cont(b[i + 2])
        && is_cont(b[i + 3]) && (x != 0xf0 || b[i + 1] >= 0x90) && (x != 0xf4 || b[i + 1]
        <= 0x8f) {
        4
    } else {
        0
    }
}

/// The code point of the sequence that starts at `i`.
pub open spec fn code_point_at(b: Seq<u8>, i: int) -> int {
    let w = utf8_width(b, i);
    if w == 1 {
        b[i] as int
    } else if w == 2 {
        (b[i] - 0xc0) * 64 + (b[i + 1] - 0x80)
    } else if w == 3 {
        (b[i] - 0xe0) * 4096 + (b[i + 1] - 0x80) * 64 + (b[i + 2] - 0x80)
    } else {
        (b[i] - 0xf0) * 262144 + (b[i + 1] - 0x80) * 4096 + (b[i + 2] - 0x80) * 64 + (b[i
            + 3] - 0x80)
    }
}

pub open spec fn is_utf8_from(b: Seq<u8>, i: int) -> bool
    decreases b.len() - i,
{
    if i >= b.len() {
        true
    } else if utf8_width(b, i) == 0 {
        false
    } else {
        is_utf8_from(b, i + utf8_width(b, i))
    }
}

pub open spec fn code_points_from(b: Seq<u8>, i: int) -> Seq<int>
    decreases b.len() - i,
{
    if i >= b.len() || i < 0 || utf8_width(b, i) == 0 {
        seq![]
    } else {
        seq![code_point_at(b, i)] + code_points_from(b, i + utf8_width(b, i))
    }
}

/// `b` is well-formed UTF-8.
pub open spec fn is_utf8(b: Seq<u8>) -> bool {
    is_utf8_from(b, 0)
}

/// The code points that well-formed UTF-8 bytes encode, in order.
pub open spec fn code_points(b: Seq<u8>) -> Seq<int> {
    code_points_from(b, 0)
}

/// The bytes from `i` to `e` are a whole number of well-formed sequences.
pub open spec fn is_utf8_between(b: Seq<u8>, i: int, e: int) -> bool
    decreases e - i,
{
    if i >= e {
        i == e
    } else {
        utf8_width(b, i) > 0 && i + utf8_width(b, i) <= e && is_utf8_between(
            b,
            i + utf8_width(b, i),
            e,
        )
    }
}

/// Whole sequences between `i` and `e` make the bytes `s..e` well-formed from
/// `i` on.
proof fn lemma_between_sub(b: Seq<u8>, s: int, i: int, e: int)
    requires
        0 <= s <= i <= e <= b.len(),
        is_utf8_between(b, i, e),
    ensures
        is_utf8_from(b.subrange(s, e), i - s),
    decreases e - i,
{
    let sub = b.subrange(s, e);
    if i < e {
        let w = utf8_width(b, i);
        assert(utf8_width(sub, i - s) == w);
        lemma_between_sub(b, s, i + w, e);
    }
}

/// Bytes `s..e` that are whole sequences form well-formed UTF-8.
pub proof fn lemma_between_is_utf8(b: Seq<u8>, s: int, e: int)
    requires
        0 <= s <= e <= b.len(),
        is_utf8_between(b, s, e),
    ensures
        is_utf8(b.subrange(s, e)),
{
    lemma_between_sub(b, s, s, e);
}

/// From a sequence start `j`, walking whole sequences reaches any later
/// position `e` that holds no continuation byte (or is the end).
pub proof fn lemma_walk_to(b: Seq<u8>, j: int, e: int)
    requires
        0 <= j <= e <= b.len(),
        is_utf8_from(b, j),
        e == b.len() || !is_cont(b[e]),
    ensures
        is_utf8_between(b, j, e),
        is_utf8_from(b, e),
    decreases e - j,
{
    if j < e {
        let w = utf8_width(b, j);
        if j + w > e {
            assert(is_cont(b[e]));
        }
        lemma_walk_to(b, j + w, e);
    }
}

} // verus!
