//! How texts are read: numbers, versions, patterns, keys and previews.
use std::cmp::Ordering;
use vstd::prelude::*;

use crate::error::{DbError, StrunkError};
use crate::like::like;
use crate::number::{
    as_ordering, digits_value, i64_of, is_digit, lexicographic, number, numbers, pieces, u64_of,
    unsigned_body, version_order, version_parts,
};
use crate::report::{is_preview, width};
use crate::text::{has_prefix, is_blank, is_one_word, is_space, trim_end, trim_start, trimmed};
use crate::types::split_key;

verus! {

/// A number in decimal digits.
pub open spec fn decimal(n: nat) -> Seq<char>
    decreases n,
{
    if n < 10 {
        seq![('0' as int + n) as char]
    } else {
        decimal(n / 10).push(('0' as int + n % 10) as char)
    }
}

proof fn lemma_decimal(n: nat)
    ensures
        decimal(n).len() > 0,
        forall|i: int| 0 <= i < decimal(n).len() ==> is_digit(#[trigger] decimal(n)[i]),
        digits_value(decimal(n)) == n,
    decreases n,
{
    let last = ('0' as int + n % 10) as char;
    assert('0' <= last <= '9');
    assert(last as int - '0' as int == n % 10);
    if n < 10 {
        let s = decimal(n);
        assert(s.drop_last() =~= Seq::<char>::empty());
        assert(digits_value(s.drop_last()) == 0);
        assert(s.last() == last);
    } else {
        lemma_decimal(n / 10);
        let s = decimal(n);
        assert(s.drop_last() =~= decimal(n / 10));
        assert(s.last() == last);
    }
}

/// Every number reads back from its decimal digits, with or without a sign in front, as far as its
/// type goes; beyond that it is refused.
pub proof fn numbers_read_back(n: nat)
    ensures
        i64_of(decimal(n)) == (if n <= i64::MAX {
            Some(n as i64)
        } else {
            None
        }),
        i64_of(seq!['+'] + decimal(n)) == i64_of(decimal(n)),
        i64_of(seq!['-'] + decimal(n)) == (if n <= i64::MAX + 1 {
            Some((-(n as int)) as i64)
        } else {
            None
        }),
        u64_of(decimal(n)) == (if n <= u64::MAX {
            Some(n as u64)
        } else {
            None
        }),
        u64_of(seq!['+'] + decimal(n)) == u64_of(decimal(n)),
{
    let s = decimal(n);
    lemma_decimal(n);
    assert(is_digit(s[0]));
    assert((seq!['+'] + s).skip(1) =~= s);
    assert((seq!['-'] + s).skip(1) =~= s);
    assert(unsigned_body(s) == s);
    assert(number(s) == Some(n));
}

/// What is read as a number is nothing but decimal digits, at least one, behind a sign or none.
pub proof fn only_digits_are_a_number(s: Seq<char>)
    ensures
        i64_of(s) is Some ==> {
            let digits = if s.len() > 0 && (s[0] == '-' || s[0] == '+') {
                s.skip(1)
            } else {
                s
            };
            digits.len() > 0 && forall|i: int|
                0 <= i < digits.len() ==> '0' <= #[trigger] digits[i] <= '9'
        },
        i64_of(s) matches Some(n) ==> (n < 0 ==> s[0] == '-') && (s[0] == '-' ==> n <= 0),
        u64_of(s) is Some ==> {
            let digits = if s.len() > 0 && s[0] == '+' {
                s.skip(1)
            } else {
                s
            };
            digits.len() > 0 && forall|i: int|
                0 <= i < digits.len() ==> '0' <= #[trigger] digits[i] <= '9'
        },
{
}

/// A digit behind a number makes it ten times as large and adds the digit. Zeros in front change
/// nothing.
pub proof fn digits_count_by_tens(s: Seq<char>, digit: char)
    requires
        u64_of(s) is Some,
        '0' <= digit <= '9',
        u64_of(s)->0 * 10 + 9 <= u64::MAX,
    ensures
        u64_of(s.push(digit)) == Some(
            (u64_of(s)->0 * 10 + (digit as int - '0' as int)) as u64,
        ),
        s[0] != '+' ==> u64_of(seq!['0'] + s) == u64_of(s),
{
    let body = unsigned_body(s);
    assert(unsigned_body(s.push(digit)) =~= body.push(digit));
    let longer = body.push(digit);
    assert(longer.drop_last() =~= body);
    assert forall|i: int| 0 <= i < longer.len() implies is_digit(#[trigger] longer[i]) by {
        if i < body.len() {
            assert(longer[i] == body[i]);
        }
    }
    if s[0] != '+' {
        let padded = seq!['0'] + s;
        assert(unsigned_body(padded) == padded);
        assert forall|i: int| 0 <= i < padded.len() implies is_digit(#[trigger] padded[i]) by {
            if i > 0 {
                assert(padded[i] == s[i - 1]);
            }
        }
        lemma_leading_zero(s);
    }
}

proof fn lemma_leading_zero(s: Seq<char>)
    ensures
        digits_value(seq!['0'] + s) == digits_value(s),
    decreases s.len(),
{
    let padded = seq!['0'] + s;
    if s.len() == 0 {
        assert(padded.drop_last() =~= Seq::<char>::empty());
        assert(padded.last() == '0');
        assert(digits_value(padded.drop_last()) == 0);
    } else {
        assert(padded.drop_last() =~= seq!['0'] + s.drop_last());
        assert(padded.last() == s.last());
        lemma_leading_zero(s.drop_last());
    }
}

/// A version is read part by part: what stands between two dots is one number if it is one, and is
/// passed over if it is none.
pub proof fn version_is_read_part_by_part(version: Seq<char>, part: Seq<char>)
    requires
        !part.contains('.'),
    ensures
        version_parts(version + seq!['.'] + part) == (match u64_of(part) {
            Some(n) => version_parts(version).push(n),
            None => version_parts(version),
        }),
        version_parts(part) == (match u64_of(part) {
            Some(n) => seq![n],
            None => Seq::empty(),
        }),
{
    let before = version + seq!['.'];
    assert(before.drop_last() =~= version);
    assert(before.last() == '.');
    lemma_pieces_grow(before, part);
    let cut = pieces(before, '.');
    assert(cut == pieces(version, '.').push(Seq::empty()));
    assert(cut.last() == Seq::<char>::empty());
    assert(cut.drop_last() =~= pieces(version, '.'));
    assert(Seq::<char>::empty() + part =~= part);
    let whole = pieces(version + seq!['.'] + part, '.');
    assert(whole == pieces(version, '.').push(part));
    assert(whole.drop_last() =~= pieces(version, '.'));
    assert(whole.last() == part);
    let nothing = Seq::<char>::empty();
    lemma_pieces_grow(nothing, part);
    assert(nothing + part =~= part);
    let alone = pieces(part, '.');
    assert(pieces(nothing, '.').drop_last() =~= Seq::<Seq<char>>::empty());
    assert(alone =~= seq![part]);
    assert(alone.drop_last() =~= Seq::<Seq<char>>::empty());
    assert(numbers(alone.drop_last()) == Seq::<u64>::empty());
    assert(Seq::<u64>::empty().push(u64_of(part)->0) =~= seq![u64_of(part)->0]);
}

proof fn lemma_pieces_grow(s: Seq<char>, part: Seq<char>)
    requires
        !part.contains('.'),
    ensures
        pieces(s, '.').len() > 0,
        pieces(s + part, '.') == pieces(s, '.').drop_last().push(pieces(s, '.').last() + part),
    decreases part.len(),
{
    lemma_some_piece(s);
    let cut = pieces(s, '.');
    if part.len() == 0 {
        assert(s + part =~= s);
        assert(cut.last() + part =~= cut.last());
        assert(cut.drop_last().push(cut.last()) =~= cut);
    } else {
        let rest = part.drop_last();
        assert forall|i: int| 0 <= i < rest.len() implies rest[i] != '.' by {
            assert(part[i] == rest[i]);
            assert(part.contains(part[i]));
        }
        lemma_pieces_grow(s, rest);
        assert((s + part).drop_last() =~= s + rest);
        assert((s + part).last() == part.last());
        assert(part.contains(part[part.len() - 1]));
        let grown = cut.drop_last().push(cut.last() + rest);
        assert(grown.drop_last() =~= cut.drop_last());
        assert((cut.last() + rest).push(part.last()) =~= cut.last() + part);
    }
}

proof fn lemma_some_piece(s: Seq<char>)
    ensures
        pieces(s, '.').len() > 0,
    decreases s.len(),
{
    if s.len() > 0 {
        lemma_some_piece(s.drop_last());
    }
}

/// Versions compare by their first different part, as numbers and not as texts; one that goes on
/// where the other ends is the newer one.
pub proof fn versions_compare_by_their_first_difference(
    a: Seq<char>,
    b: Seq<char>,
    same: Seq<u64>,
    rest_a: Seq<u64>,
    rest_b: Seq<u64>,
)
    requires
        version_parts(a) == same + rest_a,
        version_parts(b) == same + rest_b,
    ensures
        rest_a.len() > 0 && rest_b.len() > 0 && rest_a[0] < rest_b[0] ==> version_order(a, b)
            is Older && version_order(b, a) is Newer,
        rest_a.len() == 0 && rest_b.len() > 0 ==> version_order(a, b) is Older && version_order(
            b,
            a,
        ) is Newer,
        rest_a.len() == 0 && rest_b.len() == 0 ==> version_order(a, b) is Same,
    decreases same.len(),
{
    lemma_same_start(same, rest_a, rest_b);
    lemma_same_start(same, rest_b, rest_a);
}

proof fn lemma_same_start(same: Seq<u64>, rest_a: Seq<u64>, rest_b: Seq<u64>)
    ensures
        lexicographic(same + rest_a, same + rest_b) == lexicographic(rest_a, rest_b),
    decreases same.len(),
{
    if same.len() == 0 {
        assert(same + rest_a =~= rest_a);
        assert(same + rest_b =~= rest_b);
    } else {
        assert((same + rest_a).drop_first() =~= same.drop_first() + rest_a);
        assert((same + rest_b).drop_first() =~= same.drop_first() + rest_b);
        lemma_same_start(same.drop_first(), rest_a, rest_b);
    }
}

/// Whitespace on either side of a text that starts and ends with something else is all that trimming
/// takes away.
pub proof fn trimming_takes_the_ends(left: Seq<char>, s: Seq<char>, right: Seq<char>)
    requires
        is_blank(left),
        is_blank(right),
        s.len() > 0,
        !is_space(s[0]),
        !is_space(s.last()),
    ensures
        trimmed(left + s + right) == s,
        trimmed(s) == s,
    decreases left.len() + right.len(),
{
    lemma_trim_left(left, s + right);
    assert((s + right)[0] == s[0]);
    assert(trim_start(s + right) == s + right);
    assert(left + s + right =~= left + (s + right));
    lemma_trim_right(s, right);
    let nothing = Seq::<char>::empty();
    lemma_trim_right(s, nothing);
    assert(s + nothing =~= s);
    assert(trim_start(s) == s);
}

proof fn lemma_trim_left(left: Seq<char>, s: Seq<char>)
    requires
        is_blank(left),
    ensures
        trim_start(left + s) == trim_start(s),
    decreases left.len(),
{
    if left.len() == 0 {
        assert(left + s =~= s);
    } else {
        assert((left + s)[0] == left[0]);
        assert((left + s).drop_first() =~= left.drop_first() + s);
        assert forall|i: int| 0 <= i < left.drop_first().len() implies is_space(
            #[trigger] left.drop_first()[i],
        ) by {
            assert(left.drop_first()[i] == left[i + 1]);
        }
        lemma_trim_left(left.drop_first(), s);
    }
}

proof fn lemma_trim_right(s: Seq<char>, right: Seq<char>)
    requires
        is_blank(right),
        s.len() > 0,
        !is_space(s.last()),
    ensures
        trim_end(s + right) == s,
    decreases right.len(),
{
    if right.len() == 0 {
        assert(s + right =~= s);
    } else {
        assert((s + right).last() == right[right.len() - 1]);
        assert((s + right).drop_last() =~= s + right.drop_last());
        assert forall|i: int| 0 <= i < right.drop_last().len() implies is_space(
            #[trigger] right.drop_last()[i],
        ) by {
            assert(right.drop_last()[i] == right[i]);
        }
        lemma_trim_right(s, right.drop_last());
    }
}

/// Two words with whitespace between them are not one word.
pub proof fn two_words_are_not_one(a: Seq<char>, gap: char, b: Seq<char>)
    requires
        a.len() > 0,
        b.len() > 0,
        !is_space(a[0]),
        !is_space(b.last()),
        is_space(gap),
    ensures
        !is_one_word(a.push(gap) + b),
{
    let s = a.push(gap) + b;
    let nothing = Seq::<char>::empty();
    assert(s[0] == a[0]);
    assert(s.last() == b.last());
    trimming_takes_the_ends(nothing, s, nothing);
    assert(s[a.len() as int] == gap);
}

/// Patterns match piece by piece: nothing matches nothing, `%` any text, `_` any one character, a
/// backslash the character behind it, and any other character itself.
pub proof fn patterns_match_piece_by_piece(c: char, pattern: Seq<char>, text: Seq<char>)
    ensures
        like(Seq::empty(), text) <==> text.len() == 0,
        like(seq!['%'] + pattern, text) <==> exists|k: int|
            0 <= k <= text.len() && like(pattern, #[trigger] text.skip(k)),
        like(seq!['_'] + pattern, text) <==> text.len() > 0 && like(pattern, text.skip(1)),
        like(seq!['\\', c] + pattern, text) <==> text.len() > 0 && text[0] == c && like(
            pattern,
            text.skip(1),
        ),
        c != '%' && c != '_' && c != '\\' ==> (like(seq![c] + pattern, text) <==> text.len() > 0
            && text[0] == c && like(pattern, text.skip(1))),
{
    assert((seq!['_'] + pattern).drop_first() =~= pattern);
    assert((seq![c] + pattern).drop_first() =~= pattern);
    let escaped = seq!['\\', c] + pattern;
    assert(escaped.skip(2) =~= pattern);
    assert(escaped[0] == '\\' && escaped[1] == c);
    if text.len() > 0 {
        assert(text.drop_first() =~= text.skip(1));
    }
    lemma_any_text(pattern, text);
}

proof fn lemma_any_text(pattern: Seq<char>, text: Seq<char>)
    ensures
        like(seq!['%'] + pattern, text) <==> exists|k: int|
            0 <= k <= text.len() && like(pattern, #[trigger] text.skip(k)),
    decreases text.len(),
{
    let whole = seq!['%'] + pattern;
    assert(whole.drop_first() =~= pattern);
    assert(text.skip(0) =~= text);
    if text.len() > 0 {
        let rest = text.drop_first();
        lemma_any_text(pattern, rest);
        if like(whole, rest) {
            let k = choose|k: int| 0 <= k <= rest.len() && like(pattern, #[trigger] rest.skip(k));
            assert(rest.skip(k) =~= text.skip(k + 1));
            assert(like(pattern, text.skip(k + 1)));
        }
        if exists|k: int| 0 <= k <= text.len() && like(pattern, #[trigger] text.skip(k)) {
            let k = choose|k: int| 0 <= k <= text.len() && like(pattern, #[trigger] text.skip(k));
            if k > 0 {
                assert(rest.skip(k - 1) =~= text.skip(k));
                assert(like(pattern, rest.skip(k - 1)));
            }
        }
    } else if exists|k: int| 0 <= k <= text.len() && like(pattern, #[trigger] text.skip(k)) {
        let k = choose|k: int| 0 <= k <= text.len() && like(pattern, #[trigger] text.skip(k));
        assert(k == 0);
    }
}

/// A key is cut at its first colon, and nothing of it is lost: before the colon stands the type,
/// which has none, and behind it the identifier. A key without a colon is all type.
pub proof fn key_is_cut_at_the_first_colon(key: Seq<char>)
    ensures
        ({
            let (entity_type, entity_id) = split_key(key);
            &&& !entity_type.contains(':')
            &&& key.contains(':') ==> key == entity_type + seq![':'] + entity_id
            &&& !key.contains(':') ==> key == entity_type && entity_id.len() == 0
        }),
{
    key.index_of_first_ensures(':');
    if key.contains(':') {
        let i = key.index_of_first(':')->0;
        assert(key =~= key.take(i) + seq![':'] + key.skip(i + 1));
        assert forall|j: int| 0 <= j < i implies key.take(i)[j] != ':' by {
            assert(key[j] == key.take(i)[j]);
        }
    }
}

/// A preview shows a text of up to 80 bytes as it is. Of a longer one it shows the first 77 bytes and
/// three dots, so that a preview is never longer than 80 bytes.
pub proof fn preview_is_short(text: Seq<char>, shown: Seq<char>)
    requires
        is_preview(text, shown),
    ensures
        width(text) <= 80 ==> shown == text,
        width(text) > 80 ==> shown.len() >= 3 && shown.skip(shown.len() - 3) == "..."@ && shown.take(
            shown.len() - 3,
        ) == text.take(shown.len() - 3) && width(text.take(shown.len() - 3)) == 77,
{
    reveal_strlit("...");
    if width(text) > 80 {
        let count = choose|count: int|
            crate::report::cut_at(text, count, 77) && shown == #[trigger] text.take(count) + "..."@;
        assert(shown.len() == count + 3);
        assert(shown.skip(count) =~= "..."@);
        assert(shown.take(count) =~= text.take(count));
    }
}

/// The bytes of a text add up, and a character of the first 128 takes up one byte, none more than
/// four.
pub proof fn bytes_add_up(text: Seq<char>, c: char)
    ensures
        1 <= width(text.push(c)) - width(text) <= 4,
        (c as u32) < 0x80 ==> width(text.push(c)) == width(text) + 1,
        0x80 <= (c as u32) < 0x800 ==> width(text.push(c)) == width(text) + 2,
        0x800 <= (c as u32) < 0x1_0000 ==> width(text.push(c)) == width(text) + 3,
        0x1_0000 <= (c as u32) ==> width(text.push(c)) == width(text) + 4,
        text.len() == 0 ==> width(text) == 0,
{
    assert(text.push(c).drop_last() =~= text);
}

/// Of the first 256 characters the five that move to another place on the line or page, the space, the
/// next line and the space that does not break are whitespace; beyond them the spaces of typography,
/// the separators of lines and paragraphs and the space of ideographs are.
pub proof fn spaces_are_whitespace(c: char)
    ensures
        (c as u32) < 0x80 ==> (is_space(c) <==> c == ' ' || c == '\t' || c == '\n' || c == '\r'
            || c as u32 == 0xb || c as u32 == 0xc),
        0x80 <= (c as u32) < 0x100 ==> (is_space(c) <==> c as u32 == 0x85 || c as u32 == 0xa0),
        0x100 <= (c as u32) < 0x2000 ==> (is_space(c) <==> c as u32 == 0x1680),
        0x2000 <= (c as u32) < 0x2100 ==> (is_space(c) <==> (c as u32) <= 0x200a || c as u32
            == 0x2028 || c as u32 == 0x2029 || c as u32 == 0x202f || c as u32 == 0x205f),
        0x2100 <= (c as u32) ==> (is_space(c) <==> c as u32 == 0x3000),
{
}

/// A text starts with another exactly when it is that text with something, or nothing, behind it.
pub proof fn prefix_is_the_start(s: Seq<char>, prefix: Seq<char>, rest: Seq<char>)
    ensures
        has_prefix(prefix + rest, prefix),
        has_prefix(s, prefix) ==> s == prefix + s.skip(prefix.len() as int),
        has_prefix(s, prefix) <==> exists|tail: Seq<char>| s == #[trigger] (prefix + tail),
{
    assert((prefix + rest).take(prefix.len() as int) =~= prefix);
    if has_prefix(s, prefix) {
        assert(s =~= prefix + s.skip(prefix.len() as int));
    }
    if exists|tail: Seq<char>| s == #[trigger] (prefix + tail) {
        let tail = choose|tail: Seq<char>| s == #[trigger] (prefix + tail);
        assert((prefix + tail).take(prefix.len() as int) =~= prefix);
    }
}

/// An error of the settings or of a conversion says the text that it carries, and no two refusals of
/// the database say the same.
pub proof fn errors_say_what_they_carry(e: StrunkError, a: DbError, b: DbError)
    ensures
        e matches StrunkError::Config(text) ==> e.text() == text@,
        e matches StrunkError::Serialisation(text) ==> e.text() == text@,
        e matches StrunkError::Database(refused) ==> e.text() == refused.text(),
        a.text() == b.text() <==> a == b,
{
    reveal_strlit("duplicate key value violates unique constraint");
    reveal_strlit("no rows returned by a query that expected to return at least one row");
    reveal_strlit("LIMIT must not be negative");
    reveal_strlit("value out of range");
    reveal_strlit("current transaction is aborted");
    assert(DbError::UniqueViolation.text()[0] == 'd');
    assert(DbError::RowNotFound.text()[0] == 'n');
    assert(DbError::NegativeLimit.text()[0] == 'L');
    assert(DbError::OutOfRange.text()[0] == 'v');
    assert(DbError::TransactionAborted.text()[0] == 'c');
}

/// The older of two versions is the lesser one.
pub proof fn older_is_less(a: Seq<char>, b: Seq<char>)
    ensures
        as_ordering(version_order(a, b)) == Ordering::Less <==> version_order(a, b) is Older,
        as_ordering(version_order(a, b)) == Ordering::Greater <==> version_order(a, b) is Newer,
        as_ordering(version_order(a, b)) == Ordering::Equal <==> version_order(a, b) is Same,
{
}

/// A text without whitespace is one word, however long it is and whatever whitespace stands around it.
pub proof fn words_are_one(left: Seq<char>, word: Seq<char>, right: Seq<char>)
    requires
        is_blank(left),
        is_blank(right),
        forall|i: int| 0 <= i < word.len() ==> !is_space(#[trigger] word[i]),
    ensures
        is_one_word(left + word + right),
{
    if word.len() > 0 {
        assert(word.last() == word[word.len() - 1]);
        trimming_takes_the_ends(left, word, right);
    } else {
        let s = left + word + right;
        assert forall|i: int| 0 <= i < s.len() implies is_space(#[trigger] s[i]) by {
            if i < left.len() {
                assert(s[i] == left[i]);
            } else {
                assert(s[i] == right[i - left.len()]);
            }
        }
        crate::text::blank_iff_trimmed_empty(s);
    }
}

} // verus!
