//! Matching of text against `LIKE` patterns.
use vstd::prelude::*;

use crate::text::{chars_of, has_prefix};

verus! {

/// Whether a pattern matches the whole of a text. `%` stands for any text, `_` for any one
/// character, and a backslash takes the character behind it literally.
pub open spec fn like(pattern: Seq<char>, text: Seq<char>) -> bool
    decreases pattern.len(), text.len(),
{
    if pattern.len() == 0 {
        text.len() == 0
    } else if pattern[0] == '%' {
        ||| like(pattern.drop_first(), text)
        ||| text.len() > 0 && like(pattern, text.drop_first())
    } else if pattern[0] == '_' {
        text.len() > 0 && like(pattern.drop_first(), text.drop_first())
    } else if pattern[0] == '\\' {
        pattern.len() > 1 && text.len() > 0 && text[0] == pattern[1] && like(
            pattern.skip(2),
            text.drop_first(),
        )
    } else {
        text.len() > 0 && text[0] == pattern[0] && like(pattern.drop_first(), text.drop_first())
    }
}

fn like_from(pattern: &Vec<char>, i: usize, text: &Vec<char>, j: usize) -> (r: bool)
    requires
        i <= pattern.len(),
        j <= text.len(),
    ensures
        r == like(pattern@.skip(i as int), text@.skip(j as int)),
    decreases pattern.len() - i, text.len() - j,
{
    let ghost p = pattern@.skip(i as int);
    let ghost t = text@.skip(j as int);
    if i == pattern.len() {
        return j == text.len();
    }
    assert(p.drop_first() =~= pattern@.skip(i + 1));
    if j < text.len() {
        assert(t.drop_first() =~= text@.skip(j + 1));
    }
    let c: char = pattern[i];
    if c == '%' {
        like_from(pattern, i + 1, text, j) || (j < text.len() && like_from(pattern, i, text, j + 1))
    } else if c == '_' {
        j < text.len() && like_from(pattern, i + 1, text, j + 1)
    } else if c == '\\' {
        if i + 1 < pattern.len() && j < text.len() && text[j] == pattern[i + 1] {
            assert(p.skip(2) =~= pattern@.skip(i + 2));
            like_from(pattern, i + 2, text, j + 1)
        } else {
            false
        }
    } else {
        j < text.len() && text[j] == c && like_from(pattern, i + 1, text, j + 1)
    }
}

/// Whether a pattern matches a text.
pub fn matches_like(pattern: &str, text: &str) -> (r: bool)
    ensures
        r == like(pattern@, text@),
{
    let p: Vec<char> = chars_of(pattern);
    let t: Vec<char> = chars_of(text);
    assert(p@.skip(0) =~= p@);
    assert(t@.skip(0) =~= t@);
    like_from(&p, 0, &t, 0)
}

/// Whether a text has no character that is special in a pattern.
pub open spec fn is_plain(s: Seq<char>) -> bool {
    forall|i: int| 0 <= i < s.len() ==> {
        let c = #[trigger] s[i];
        c != '%' && c != '_' && c != '\\'
    }
}

/// A plain text with `%` behind it matches exactly the texts that start with it.
pub proof fn plain_pattern_is_prefix(prefix: Seq<char>, text: Seq<char>)
    requires
        is_plain(prefix),
    ensures
        like(prefix + "%"@, text) <==> has_prefix(text, prefix),
    decreases prefix.len(),
{
    reveal_strlit("%");
    let pattern = prefix + "%"@;
    if prefix.len() == 0 {
        assert(pattern =~= "%"@);
        lemma_percent(text);
        assert(text.take(0) =~= prefix);
    } else {
        assert(pattern[0] == prefix[0]);
        let rest = prefix.drop_first();
        assert forall|i: int| 0 <= i < rest.len() implies {
            let c = #[trigger] rest[i];
            c != '%' && c != '_' && c != '\\'
        } by {
            assert(rest[i] == prefix[i + 1]);
        }
        assert(pattern.drop_first() =~= rest + "%"@);
        if text.len() > 0 && text[0] == prefix[0] {
            let tail = text.drop_first();
            plain_pattern_is_prefix(rest, tail);
            if has_prefix(tail, rest) {
                assert(text.take(prefix.len() as int) =~= prefix) by {
                    assert forall|i: int| 0 <= i < prefix.len() implies text[i] == prefix[i] by {
                        if i > 0 {
                            assert(tail.take(rest.len() as int)[i - 1] == tail[i - 1]);
                        }
                    }
                }
            }
            if has_prefix(text, prefix) {
                assert(tail.take(rest.len() as int) =~= rest) by {
                    assert forall|i: int| 0 <= i < rest.len() implies tail[i] == rest[i] by {
                        assert(text.take(prefix.len() as int)[i + 1] == text[i + 1]);
                    }
                }
            }
        } else if has_prefix(text, prefix) {
            assert(text.take(prefix.len() as int)[0] == text[0]);
        }
    }
}

proof fn lemma_percent(text: Seq<char>)
    ensures
        like("%"@, text),
    decreases text.len(),
{
    reveal_strlit("%");
    if text.len() > 0 {
        lemma_percent(text.drop_first());
    } else {
        assert(like("%"@.drop_first(), text));
    }
}

} // verus!
