//! Text helpers: whitespace, prefixes, splitting and decimal numbers.
use vstd::prelude::*;
use vstd::string::*;

verus! {

/// The characters with the Unicode property `White_Space`.
pub open spec fn is_space(c: char) -> bool {
    ||| '\u{9}' <= c <= '\u{d}'
    ||| c == ' '
    ||| c == '\u{85}'
    ||| c == '\u{a0}'
    ||| c == '\u{1680}'
    ||| '\u{2000}' <= c <= '\u{200a}'
    ||| c == '\u{2028}'
    ||| c == '\u{2029}'
    ||| c == '\u{202f}'
    ||| c == '\u{205f}'
    ||| c == '\u{3000}'
}

/// Whether `c` is whitespace.
pub fn is_space_char(c: char) -> (r: bool)
    ensures
        r == is_space(c),
{
    ('\u{9}' <= c && c <= '\u{d}') || c == ' ' || c == '\u{85}' || c == '\u{a0}' || c == '\u{1680}'
        || ('\u{2000}' <= c && c <= '\u{200a}') || c == '\u{2028}' || c == '\u{2029}'
        || c == '\u{202f}' || c == '\u{205f}' || c == '\u{3000}'
}

/// `s` without its leading whitespace.
pub open spec fn trim_start(s: Seq<char>) -> Seq<char>
    decreases s.len(),
{
    if s.len() > 0 && is_space(s[0]) {
        trim_start(s.drop_first())
    } else {
        s
    }
}

/// `s` without its trailing whitespace.
pub open spec fn trim_end(s: Seq<char>) -> Seq<char>
    decreases s.len(),
{
    if s.len() > 0 && is_space(s.last()) {
        trim_end(s.drop_last())
    } else {
        s
    }
}

/// `s` without whitespace at either end.
pub open spec fn trimmed(s: Seq<char>) -> Seq<char> {
    trim_end(trim_start(s))
}

/// Whether every character of `s` is whitespace.
pub open spec fn is_blank(s: Seq<char>) -> bool {
    forall|i: int| 0 <= i < s.len() ==> is_space(#[trigger] s[i])
}

/// Compares two texts.
pub fn same_text(a: &str, b: &str) -> (r: bool)
    ensures
        r == (a@ == b@),
{
    a.to_owned() == b.to_owned()
}

/// The characters of `s`, in order.
pub fn chars_of(s: &str) -> (r: Vec<char>)
    ensures
        r@ == s@,
{
    let mut out: Vec<char> = Vec::new();
    for c in it: s.chars()
        invariant
            it.seq() == s@,
            out@ == s@.take(it.index()),
    {
        proof {
            assert(s@.take(it.index() + 1) =~= s@.take(it.index()).push(s@[it.index()]));
        }
        out.push(c);
    }
    proof {
        assert(s@.take(s@.len() as int) =~= s@);
    }
    out
}

/// `trim_start` of a suffix whose first character is kept is that suffix.
proof fn lemma_trim_start_at(s: Seq<char>, from: int)
    requires
        0 <= from <= s.len(),
        forall|i: int| 0 <= i < from ==> is_space(#[trigger] s[i]),
        from < s.len() ==> !is_space(s[from]),
    ensures
        trim_start(s) == s.skip(from),
    decreases from,
{
    if from == 0 {
        assert(s.skip(0) =~= s);
    } else {
        let rest = s.drop_first();
        assert forall|i: int| 0 <= i < from - 1 implies is_space(#[trigger] rest[i]) by {
            assert(rest[i] == s[i + 1]);
        }
        lemma_trim_start_at(rest, from - 1);
        assert(rest.skip(from - 1) =~= s.skip(from));
        assert(is_space(s[0]));
    }
}

/// `trim_end` of a prefix whose last character is kept is that prefix.
proof fn lemma_trim_end_at(s: Seq<char>, to: int)
    requires
        0 <= to <= s.len(),
        forall|i: int| to <= i < s.len() ==> is_space(#[trigger] s[i]),
        to > 0 ==> !is_space(s[to - 1]),
    ensures
        trim_end(s) == s.take(to),
    decreases s.len() - to,
{
    if to == s.len() {
        assert(s.take(to) =~= s);
    } else {
        let rest = s.drop_last();
        assert forall|i: int| to <= i < rest.len() implies is_space(#[trigger] rest[i]) by {
            assert(rest[i] == s[i]);
        }
        lemma_trim_end_at(rest, to);
        assert(rest.take(to) =~= s.take(to));
        assert(is_space(s.last()));
    }
}

/// Removes the whitespace at both ends.
pub fn trim(s: &str) -> (r: &str)
    ensures
        r@ == trimmed(s@),
{
    let chars: Vec<char> = chars_of(s);
    let n: usize = chars.len();
    let mut from: usize = 0;
    while from < n && is_space_char(chars[from])
        invariant
            n == chars.len(),
            from <= n,
            forall|i: int| 0 <= i < from ==> is_space(#[trigger] chars@[i]),
        decreases n - from,
    {
        from = from + 1;
    }
    let mut to: usize = n;
    while to > from && is_space_char(chars[to - 1])
        invariant
            n == chars.len(),
            from <= to <= n,
            forall|i: int| to <= i < n ==> is_space(#[trigger] chars@[i]),
        decreases to,
    {
        to = to - 1;
    }
    proof {
        lemma_trim_start_at(s@, from as int);
        let rest = s@.skip(from as int);
        assert forall|i: int| to - from <= i < rest.len() implies is_space(#[trigger] rest[i]) by {
            assert(rest[i] == s@[i + from]);
        }
        lemma_trim_end_at(rest, to - from);
        assert(rest.take(to - from) =~= s@.subrange(from as int, to as int));
    }
    s.substring_char(from, to)
}

/// A text is blank exactly when nothing of it is left after trimming.
pub proof fn blank_iff_trimmed_empty(s: Seq<char>)
    ensures
        is_blank(s) <==> trimmed(s).len() == 0,
    decreases s.len(),
{
    if s.len() > 0 && is_space(s[0]) {
        let rest = s.drop_first();
        blank_iff_trimmed_empty(rest);
        if is_blank(rest) {
            assert forall|i: int| 0 <= i < s.len() implies is_space(#[trigger] s[i]) by {
                if i > 0 {
                    assert(rest[i - 1] == s[i]);
                }
            }
        }
        if is_blank(s) {
            assert forall|i: int| 0 <= i < rest.len() implies is_space(#[trigger] rest[i]) by {
                assert(rest[i] == s[i + 1]);
            }
        }
    } else if s.len() > 0 {
        lemma_trim_end_keeps_first(s);
    }
}

proof fn lemma_trim_end_keeps_first(s: Seq<char>)
    requires
        s.len() > 0,
        !is_space(s[0]),
    ensures
        trim_end(s).len() > 0,
    decreases s.len(),
{
    if is_space(s.last()) {
        lemma_trim_end_keeps_first(s.drop_last());
    }
}

proof fn lemma_first_kept(s: Seq<char>) -> (from: int)
    requires
        !is_blank(s),
    ensures
        0 <= from < s.len(),
        !is_space(s[from]),
        forall|i: int| 0 <= i < from ==> is_space(#[trigger] s[i]),
    decreases s.len(),
{
    if is_space(s[0]) {
        let rest = s.drop_first();
        let bad = choose|i: int| 0 <= i < s.len() && !is_space(#[trigger] s[i]);
        assert(rest[bad - 1] == s[bad]);
        let k = lemma_first_kept(rest);
        assert(rest[k] == s[k + 1]);
        assert forall|i: int| 0 <= i < k + 1 implies is_space(#[trigger] s[i]) by {
            if i > 0 {
                assert(rest[i - 1] == s[i]);
            }
        }
        k + 1
    } else {
        0
    }
}

proof fn lemma_last_kept(s: Seq<char>) -> (to: int)
    requires
        !is_blank(s),
    ensures
        0 < to <= s.len(),
        !is_space(s[to - 1]),
        forall|i: int| to <= i < s.len() ==> is_space(#[trigger] s[i]),
    decreases s.len(),
{
    if is_space(s.last()) {
        let rest = s.drop_last();
        let bad = choose|i: int| 0 <= i < s.len() && !is_space(#[trigger] s[i]);
        assert(rest[bad] == s[bad]);
        let k = lemma_last_kept(rest);
        assert(rest[k - 1] == s[k - 1]);
        assert forall|i: int| k <= i < s.len() implies is_space(#[trigger] s[i]) by {
            if i < rest.len() {
                assert(rest[i] == s[i]);
            }
        }
        k
    } else {
        s.len() as int
    }
}

/// Trimming cuts out the part from the first to the last character that is no whitespace.
pub proof fn lemma_trim_bounds(s: Seq<char>) -> (bounds: (int, int))
    requires
        !is_blank(s),
    ensures
        0 <= bounds.0 < bounds.1 <= s.len(),
        !is_space(s[bounds.0]),
        !is_space(s[bounds.1 - 1]),
        trim_start(s) == s.skip(bounds.0),
        trim_end(s) == s.take(bounds.1),
        trimmed(s) == s.subrange(bounds.0, bounds.1),
{
    let from = lemma_first_kept(s);
    let to = lemma_last_kept(s);
    lemma_trim_start_at(s, from);
    lemma_trim_end_at(s, to);
    let rest = s.skip(from);
    assert forall|i: int| to - from <= i < rest.len() implies is_space(#[trigger] rest[i]) by {
        assert(rest[i] == s[i + from]);
    }
    assert(rest[to - from - 1] == s[to - 1]);
    lemma_trim_end_at(rest, to - from);
    assert(rest.take(to - from) =~= s.subrange(from, to));
    (from, to)
}

/// Trimming a second time changes nothing, nor does trimming the end before.
pub proof fn trimming_repeats(s: Seq<char>)
    ensures
        trimmed(trimmed(s)) == trimmed(s),
        trimmed(trim_end(s)) == trimmed(s),
{
    if is_blank(s) {
        blank_iff_trimmed_empty(s);
        lemma_blank_end(s);
    } else {
        let (from, to) = lemma_trim_bounds(s);
        let t = trimmed(s);
        assert(t[0] == s[from]);
        assert(t.last() == s[to - 1]);
        let e = trim_end(s);
        assert(e[from] == s[from]);
        assert forall|i: int| 0 <= i < from implies is_space(#[trigger] e[i]) by {
            let first = lemma_first_kept(s);
            if first < from {
                assert(trim_start(s) == s.skip(from));
                lemma_trim_start_at(s, first);
                assert(s.skip(first).len() == s.skip(from).len());
            } else if first > from {
                assert(is_space(s[from]));
            }
            assert(e[i] == s[i]);
        }
        lemma_trim_start_at(e, from);
        assert(e.skip(from) =~= t);
    }
}

proof fn lemma_blank_end(s: Seq<char>)
    requires
        is_blank(s),
    ensures
        trim_end(s).len() == 0,
    decreases s.len(),
{
    if s.len() > 0 {
        let rest = s.drop_last();
        assert forall|i: int| 0 <= i < rest.len() implies is_space(#[trigger] rest[i]) by {
            assert(rest[i] == s[i]);
        }
        lemma_blank_end(rest);
    }
}

/// Whether a text holds no whitespace but around it: one word, or none.
pub open spec fn is_one_word(s: Seq<char>) -> bool {
    let t = trimmed(s);
    forall|i: int| 0 <= i < t.len() ==> !is_space(#[trigger] t[i])
}

/// Whether a text is one word, or none.
pub fn one_word(s: &str) -> (r: bool)
    ensures
        r == is_one_word(s@),
{
    let chars: Vec<char> = chars_of(trim(s));
    let n: usize = chars.len();
    let mut i: usize = 0;
    while i < n
        invariant
            n == chars.len(),
            chars@ == trimmed(s@),
            i <= n,
            forall|j: int| 0 <= j < i ==> !is_space(#[trigger] trimmed(s@)[j]),
        decreases n - i,
    {
        if is_space_char(chars[i]) {
            assert(is_space(trimmed(s@)[i as int]));
            return false;
        }
        i = i + 1;
    }
    true
}

/// Whether `prefix` starts `s`.
pub open spec fn has_prefix(s: Seq<char>, prefix: Seq<char>) -> bool {
    prefix.len() <= s.len() && s.take(prefix.len() as int) == prefix
}

/// The part of `s` behind `prefix`, if `s` starts with it.
pub fn strip_prefix<'a>(s: &'a str, prefix: &str) -> (r: Option<&'a str>)
    ensures
        r is Some <==> has_prefix(s@, prefix@),
        r matches Some(rest) ==> rest@ == s@.skip(prefix@.len() as int),
{
    let n: usize = s.unicode_len();
    let k: usize = prefix.unicode_len();
    if k > n {
        return None;
    }
    let head: &str = s.substring_char(0, k);
    if same_text(head, prefix) {
        let rest: &str = s.substring_char(k, n);
        assert(s@.subrange(k as int, n as int) =~= s@.skip(k as int));
        assert(s@.subrange(0, k as int) =~= s@.take(k as int));
        Some(rest)
    } else {
        assert(s@.subrange(0, k as int) =~= s@.take(k as int));
        None
    }
}

/// Whether `s` starts with `prefix`.
pub fn starts_with(s: &str, prefix: &str) -> (r: bool)
    ensures
        r == has_prefix(s@, prefix@),
{
    strip_prefix(s, prefix).is_some()
}

/// The part of `s` before a last character `c`, if `s` ends with it.
pub fn strip_last<'a>(s: &'a str, c: char) -> (r: Option<&'a str>)
    ensures
        r is Some <==> s@.len() > 0 && s@.last() == c,
        r matches Some(rest) ==> rest@ == s@.drop_last(),
{
    let n: usize = s.unicode_len();
    if n == 0 {
        return None;
    }
    if s.get_char(n - 1) == c {
        let rest: &str = s.substring_char(0, n - 1);
        assert(s@.subrange(0, n - 1) =~= s@.drop_last());
        Some(rest)
    } else {
        None
    }
}

} // verus!
