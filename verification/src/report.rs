//! How figures and rows are shown to an operator.
use vstd::prelude::*;
use vstd::string::*;

use crate::text::chars_of;
use crate::time::{
    format_time, time_text, Timestamp, MAX_TIMESTAMP, MINUTE_PATTERN, MIN_TIMESTAMP,
    SECOND_PATTERN,
};

verus! {

/// The bytes that a character takes up.
pub open spec fn char_width(c: char) -> nat {
    if (c as u32) < 0x80 {
        1
    } else if (c as u32) < 0x800 {
        2
    } else if (c as u32) < 0x1_0000 {
        3
    } else {
        4
    }
}

/// The bytes that a text takes up.
pub open spec fn width(text: Seq<char>) -> nat
    decreases text.len(),
{
    if text.len() == 0 {
        0
    } else {
        width(text.drop_last()) + char_width(text.last())
    }
}

/// Whether the first `count` characters are the first `bytes` bytes.
pub open spec fn cut_at(text: Seq<char>, count: int, bytes: nat) -> bool {
    0 <= count <= text.len() && width(text.take(count)) == bytes
}

/// Whether a text can be cut where a preview ends.
pub open spec fn can_preview(text: Seq<char>) -> bool {
    width(text) > 80 ==> exists|count: int| cut_at(text, count, 77)
}

/// Whether `shown` is the preview of a text: a text of more than 80 bytes is cut after 77.
pub open spec fn is_preview(text: Seq<char>, shown: Seq<char>) -> bool {
    if width(text) > 80 {
        exists|count: int| cut_at(text, count, 77) && shown == #[trigger] text.take(count) + "..."@
    } else {
        shown == text
    }
}

/// A longer start of a text takes up more bytes.
pub proof fn longer_start_is_wider(text: Seq<char>, a: int, b: int)
    requires
        0 <= a < b <= text.len(),
    ensures
        width(text.take(a)) < width(text.take(b)),
    decreases b - a,
{
    assert(text.take(b).drop_last() =~= text.take(b - 1));
    if a < b - 1 {
        longer_start_is_wider(text, a, b - 1);
    }
}

/// The start of a text that is long.
pub fn preview(text: &str) -> (r: String)
    requires
        can_preview(text@),
    ensures
        is_preview(text@, r@),
{
    let chars: Vec<char> = chars_of(text);
    let n: usize = chars.len();
    let mut bytes: usize = 0;
    let mut cut: usize = 0;
    let mut i: usize = 0;
    assert(text@.take(0) =~= Seq::<char>::empty());
    while i < n && bytes <= 80
        invariant
            n == chars.len(),
            chars@ == text@,
            i <= n,
            bytes <= 84,
            bytes == width(text@.take(i as int)),
            cut <= i,
            bytes >= 77 ==> width(text@.take(cut as int)) >= 77,
            bytes < 77 ==> cut == i,
            forall|k: int| 0 <= k < cut ==> width(#[trigger] text@.take(k)) < 77,
        decreases n - i,
    {
        let c: u32 = chars[i] as u32;
        let wide: usize = if c < 0x80 {
            1
        } else if c < 0x800 {
            2
        } else if c < 0x1_0000 {
            3
        } else {
            4
        };
        proof {
            assert(text@.take(i + 1).drop_last() =~= text@.take(i as int));
            assert(text@.take(i + 1).last() == text@[i as int]);
        }
        let before: usize = bytes;
        bytes = bytes + wide;
        i = i + 1;
        if before < 77 {
            cut = i;
        }
    }
    if bytes <= 80 {
        assert(text@.take(n as int) =~= text@);
        return text.to_owned();
    }
    proof {
        assert(text@.take(n as int) =~= text@);
        if i < n {
            longer_start_is_wider(text@, i as int, n as int);
        }
        let count = choose|count: int| cut_at(text@, count, 77);
        if count < cut {
            assert(width(text@.take(count)) < 77);
        } else if cut < count {
            longer_start_is_wider(text@, cut as int, count);
        }
        assert(cut_at(text@, cut as int, 77));
        assert(text@.subrange(0, cut as int) =~= text@.take(cut as int));
    }
    text.substring_char(0, cut).to_owned().concat("...")
}

/// How a point in time is shown, or nothing if there is none.
pub fn shown_time(at: Option<Timestamp>) -> (r: String)
    requires
        at matches Some(at) ==> MIN_TIMESTAMP <= at <= MAX_TIMESTAMP,
    ensures
        r@ == match at {
            Some(at) => time_text(at as int / 1_000_000, SECOND_PATTERN@),
            None => Seq::empty(),
        },
{
    proof {
        reveal_strlit("%Y%m%d%H%M");
        reveal_strlit("%Y-%m-%d %H:%M:%S");
        assert(MINUTE_PATTERN@.len() == 10 && SECOND_PATTERN@.len() == 17);
    }
    match at {
        Some(at) => format_time(at, SECOND_PATTERN),
        None => String::new(),
    }
}

} // verus!
