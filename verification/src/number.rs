//! Decimal numbers in text, and the numeric order of dotted versions.
use std::cmp::Ordering;

use vstd::prelude::*;

use crate::text::chars_of;

verus! {

pub open spec fn is_digit(c: char) -> bool {
    '0' <= c <= '9'
}

/// The value of a run of decimal digits.
pub open spec fn digits_value(s: Seq<char>) -> nat
    decreases s.len(),
{
    if s.len() == 0 {
        0
    } else {
        (digits_value(s.drop_last()) * 10 + (s.last() as int - '0' as int)) as nat
    }
}

/// The number that `s` writes, if `s` is one or more decimal digits.
pub open spec fn number(s: Seq<char>) -> Option<nat> {
    if s.len() > 0 && (forall|i: int| 0 <= i < s.len() ==> is_digit(#[trigger] s[i])) {
        Some(digits_value(s))
    } else {
        None
    }
}

/// `s` without a leading `+`.
pub open spec fn unsigned_body(s: Seq<char>) -> Seq<char> {
    if s.len() > 0 && s[0] == '+' {
        s.skip(1)
    } else {
        s
    }
}

/// The `u64` that `s` writes: digits, with an optional `+` in front.
pub open spec fn u64_of(s: Seq<char>) -> Option<u64> {
    match number(unsigned_body(s)) {
        Some(v) if v <= u64::MAX => Some(v as u64),
        _ => None,
    }
}

/// The `i64` that `s` writes: digits, with an optional sign in front.
pub open spec fn i64_of(s: Seq<char>) -> Option<i64> {
    if s.len() > 0 && s[0] == '-' {
        match number(s.skip(1)) {
            Some(v) if -(v as int) >= i64::MIN => Some((-(v as int)) as i64),
            _ => None,
        }
    } else {
        match number(unsigned_body(s)) {
            Some(v) if v <= i64::MAX => Some(v as i64),
            _ => None,
        }
    }
}

proof fn lemma_digits_value_grows(s: Seq<char>, k: int)
    requires
        0 <= k <= s.len(),
        forall|i: int| 0 <= i < s.len() ==> is_digit(#[trigger] s[i]),
    ensures
        digits_value(s.take(k)) <= digits_value(s),
    decreases s.len(),
{
    if k == s.len() {
        assert(s.take(k) =~= s);
    } else {
        let rest = s.drop_last();
        assert forall|i: int| 0 <= i < rest.len() implies is_digit(#[trigger] rest[i]) by {
            assert(rest[i] == s[i]);
        }
        lemma_digits_value_grows(rest, k);
        assert(rest.take(k) =~= s.take(k));
        assert(is_digit(s.last()));
    }
}

/// Reads the digits of `chars` from `from` on, as far as they fit a `u64`.
fn read_digits(chars: &Vec<char>, from: usize) -> (r: Option<u64>)
    requires
        from <= chars.len(),
    ensures
        r == (match number(chars@.skip(from as int)) {
            Some(v) if v <= u64::MAX => Some(v as u64),
            _ => None::<u64>,
        }),
{
    let ghost body = chars@.skip(from as int);
    let n: usize = chars.len();
    if from == n {
        return None;
    }
    let mut value: u64 = 0;
    let mut i: usize = from;
    while i < n
        invariant
            n == chars.len(),
            from <= i <= n,
            body == chars@.skip(from as int),
            value == digits_value(body.take(i - from)),
            forall|k: int| 0 <= k < i - from ==> is_digit(#[trigger] body[k]),
        decreases n - i,
    {
        let c: char = chars[i];
        assert(c == body[i - from]);
        if c < '0' || c > '9' {
            assert(!is_digit(body[i - from]));
            return None;
        }
        let digit: u64 = (c as u32 - '0' as u32) as u64;
        proof {
            let next = body.take(i - from + 1);
            assert(next.drop_last() =~= body.take(i - from));
            assert(next.last() == c);
            assert(digits_value(next) == value * 10 + digit);
            if forall|k: int| 0 <= k < body.len() ==> is_digit(#[trigger] body[k]) {
                lemma_digits_value_grows(body, i - from + 1);
            }
        }
        if value > (u64::MAX - digit) / 10 {
            assert(value * 10 + digit > u64::MAX);
            return None;
        }
        value = value * 10 + digit;
        i = i + 1;
    }
    assert(body.take(n - from) =~= body);
    Some(value)
}

/// Reads a `u64`.
pub fn parse_u64(chars: &Vec<char>) -> (r: Option<u64>)
    ensures
        r == u64_of(chars@),
{
    if chars.len() > 0 && chars[0] == '+' {
        read_digits(chars, 1)
    } else {
        assert(chars@.skip(0) =~= chars@);
        read_digits(chars, 0)
    }
}

/// Reads an `i64`.
pub fn parse_i64(s: &str) -> (r: Option<i64>)
    ensures
        r == i64_of(s@),
{
    let chars: Vec<char> = chars_of(s);
    if chars.len() > 0 && chars[0] == '-' {
        match read_digits(&chars, 1) {
            Some(v) => if v <= 0x7fff_ffff_ffff_ffff {
                Some(-(v as i64))
            } else if v == 0x8000_0000_0000_0000 {
                Some(i64::MIN)
            } else {
                None
            },
            None => None,
        }
    } else {
        let read: Option<u64> = parse_u64(&chars);
        match read {
            Some(v) => if v <= 0x7fff_ffff_ffff_ffff {
                Some(v as i64)
            } else {
                None
            },
            None => None,
        }
    }
}

/// The pieces of `s` between occurrences of `sep`: one more than there are of those.
pub open spec fn pieces(s: Seq<char>, sep: char) -> Seq<Seq<char>>
    decreases s.len(),
{
    if s.len() == 0 {
        seq![Seq::<char>::empty()]
    } else {
        let before = pieces(s.drop_last(), sep);
        if s.last() == sep {
            before.push(Seq::empty())
        } else {
            before.drop_last().push(before.last().push(s.last()))
        }
    }
}

/// The numbers among `pieces`; what is no `u64` is passed over.
pub open spec fn numbers(pieces: Seq<Seq<char>>) -> Seq<u64>
    decreases pieces.len(),
{
    if pieces.len() == 0 {
        Seq::empty()
    } else {
        match u64_of(pieces.last()) {
            Some(v) => numbers(pieces.drop_last()).push(v),
            None => numbers(pieces.drop_last()),
        }
    }
}

/// The numeric parts of a dotted version such as `1.12`.
pub open spec fn version_parts(version: Seq<char>) -> Seq<u64> {
    numbers(pieces(version, '.'))
}

/// How one version stands to another.
#[derive(Debug, Clone, Copy, PartialEq, Eq, Structural)]
pub enum VersionOrder {
    Older,
    Same,
    Newer,
}

/// Lexicographic order: the first difference decides, and a prefix comes first.
pub open spec fn lexicographic(a: Seq<u64>, b: Seq<u64>) -> VersionOrder
    decreases a.len(),
{
    if a.len() == 0 && b.len() == 0 {
        VersionOrder::Same
    } else if a.len() == 0 {
        VersionOrder::Older
    } else if b.len() == 0 {
        VersionOrder::Newer
    } else if a[0] < b[0] {
        VersionOrder::Older
    } else if a[0] > b[0] {
        VersionOrder::Newer
    } else {
        lexicographic(a.drop_first(), b.drop_first())
    }
}

/// How two dotted versions compare.
pub open spec fn version_order(a: Seq<char>, b: Seq<char>) -> VersionOrder {
    lexicographic(version_parts(a), version_parts(b))
}

/// Reads the numeric parts of a dotted version.
pub fn read_version(version: &str) -> (r: Vec<u64>)
    ensures
        r@ == version_parts(version@),
{
    let chars: Vec<char> = chars_of(version);
    let n: usize = chars.len();
    let mut parts: Vec<u64> = Vec::new();
    let mut piece: Vec<char> = Vec::new();
    let ghost mut done: Seq<Seq<char>> = Seq::empty();
    assert(chars@.take(0) =~= Seq::<char>::empty());
    assert(done.push(piece@) =~= seq![Seq::<char>::empty()]);
    let mut i: usize = 0;
    while i < n
        invariant
            n == chars.len(),
            i <= n,
            pieces(chars@.take(i as int), '.') == done.push(piece@),
            parts@ == numbers(done),
        decreases n - i,
    {
        let c: char = chars[i];
        let ghost next = chars@.take(i + 1);
        assert(next.drop_last() =~= chars@.take(i as int));
        assert(next.last() == c);
        let ghost before = done.push(piece@);
        if c == '.' {
            let part: Option<u64> = parse_u64(&piece);
            if let Some(v) = part {
                parts.push(v);
            }
            assert(before.drop_last() =~= done);
            proof {
                done = before;
            }
            piece = Vec::new();
        } else {
            assert(before.drop_last() =~= done);
            piece.push(c);
        }
        i = i + 1;
    }
    assert(chars@.take(n as int) =~= chars@);
    let last: Option<u64> = parse_u64(&piece);
    if let Some(v) = last {
        parts.push(v);
    }
    assert(done.push(piece@).drop_last() =~= done);
    parts
}

/// Compares two dotted versions by their numeric parts.
pub fn compare_versions(a: &str, b: &str) -> (r: VersionOrder)
    ensures
        r == version_order(a@, b@),
{
    let a_parts: Vec<u64> = read_version(a);
    let b_parts: Vec<u64> = read_version(b);
    assert(a_parts@.skip(0) =~= a_parts@);
    assert(b_parts@.skip(0) =~= b_parts@);
    let mut i: usize = 0;
    while i < a_parts.len() && i < b_parts.len() && a_parts[i] == b_parts[i]
        invariant
            i <= a_parts.len(),
            i <= b_parts.len(),
            lexicographic(a_parts@, b_parts@) == lexicographic(
                a_parts@.skip(i as int),
                b_parts@.skip(i as int),
            ),
        decreases a_parts.len() - i,
    {
        proof {
            assert(a_parts@.skip(i as int).drop_first() =~= a_parts@.skip(i + 1));
            assert(b_parts@.skip(i as int).drop_first() =~= b_parts@.skip(i + 1));
        }
        i = i + 1;
    }
    if i == a_parts.len() && i == b_parts.len() {
        VersionOrder::Same
    } else if i == a_parts.len() {
        VersionOrder::Older
    } else if i == b_parts.len() {
        VersionOrder::Newer
    } else if a_parts[i] < b_parts[i] {
        VersionOrder::Older
    } else {
        VersionOrder::Newer
    }
}

/// The standard library's name for a version order.
pub open spec fn as_ordering(o: VersionOrder) -> Ordering {
    match o {
        VersionOrder::Older => Ordering::Less,
        VersionOrder::Same => Ordering::Equal,
        VersionOrder::Newer => Ordering::Greater,
    }
}

/// Compares two dotted versions by their numeric parts.
pub fn version_cmp(a: &str, b: &str) -> (r: Ordering)
    ensures
        r == as_ordering(version_order(a@, b@)),
{
    match compare_versions(a, b) {
        VersionOrder::Older => Ordering::Less,
        VersionOrder::Same => Ordering::Equal,
        VersionOrder::Newer => Ordering::Greater,
    }
}

/// Every version compares the same as itself.
pub proof fn version_order_reflexive(a: Seq<char>)
    ensures
        version_order(a, a) is Same,
{
    lemma_lexicographic_reflexive(version_parts(a));
}

/// One version is older than another exactly when the other is newer.
pub proof fn version_order_antisymmetric(a: Seq<char>, b: Seq<char>)
    ensures
        version_order(a, b) is Older <==> version_order(b, a) is Newer,
        version_order(a, b) is Same <==> version_order(b, a) is Same,
{
    lemma_lexicographic_antisymmetric(version_parts(a), version_parts(b));
}

/// "Not newer than" chains.
pub proof fn version_order_transitive(a: Seq<char>, b: Seq<char>, c: Seq<char>)
    requires
        !(version_order(a, b) is Newer),
        !(version_order(b, c) is Newer),
    ensures
        !(version_order(a, c) is Newer),
{
    lemma_lexicographic_transitive(version_parts(a), version_parts(b), version_parts(c));
}

proof fn lemma_lexicographic_reflexive(a: Seq<u64>)
    ensures
        lexicographic(a, a) is Same,
    decreases a.len(),
{
    if a.len() > 0 {
        lemma_lexicographic_reflexive(a.drop_first());
    }
}

proof fn lemma_lexicographic_antisymmetric(a: Seq<u64>, b: Seq<u64>)
    ensures
        lexicographic(a, b) is Older <==> lexicographic(b, a) is Newer,
        lexicographic(a, b) is Same <==> lexicographic(b, a) is Same,
    decreases a.len(),
{
    if a.len() > 0 && b.len() > 0 && a[0] == b[0] {
        lemma_lexicographic_antisymmetric(a.drop_first(), b.drop_first());
    }
}

proof fn lemma_lexicographic_transitive(a: Seq<u64>, b: Seq<u64>, c: Seq<u64>)
    requires
        !(lexicographic(a, b) is Newer),
        !(lexicographic(b, c) is Newer),
    ensures
        !(lexicographic(a, c) is Newer),
    decreases a.len(),
{
    if a.len() > 0 && b.len() > 0 && c.len() > 0 && a[0] == b[0] && b[0] == c[0] {
        lemma_lexicographic_transitive(a.drop_first(), b.drop_first(), c.drop_first());
    }
}

} // verus!
