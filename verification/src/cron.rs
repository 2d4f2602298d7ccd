//! Schedule expressions: `every 5m`, `@hourly`, `30s` and the like.
use vstd::prelude::*;
use vstd::string::*;

use crate::error::{Result, StrunkError};
use crate::number::{i64_of, parse_i64};
use crate::text::{
    has_prefix, is_blank, is_one_word, is_space, one_word, same_text, strip_last, strip_prefix,
    trim, trim_end, trim_start, trimmed,
};
use crate::time::{utc_now, Interval, Timestamp, Unit, MAX_TIMESTAMP, MIN_TIMESTAMP};

verus! {

/// What an expression writes down: an interval, or what is wrong with it.
pub type Reading = std::result::Result<Interval, Seq<char>>;

/// The unit that a last character stands for.
pub open spec fn unit_of(c: char) -> Option<Unit> {
    if c == 's' {
        Some(Unit::Second)
    } else if c == 'm' {
        Some(Unit::Minute)
    } else if c == 'h' {
        Some(Unit::Hour)
    } else if c == 'd' {
        Some(Unit::Day)
    } else {
        None
    }
}

/// Reads a duration: a whole number and a unit, or a whole number of seconds.
pub open spec fn duration_reading(s: Seq<char>) -> Reading {
    let t = trimmed(s);
    if t.len() > 0 && unit_of(t.last()) is Some {
        match i64_of(trimmed(t.drop_last())) {
            Some(count) => Ok(Interval { count, unit: unit_of(t.last())->0 }),
            None => Err("invalid duration: '"@ + t + "'"@),
        }
    } else {
        match i64_of(t) {
            Some(count) => Ok(Interval { count, unit: Unit::Second }),
            None => Err(
                "cannot parse schedule interval: '"@ + t
                    + "'. Use formats like '30s', '5m', '1h', '1d', '@hourly', '@daily', 'every 5m'"@,
            ),
        }
    }
}

/// The interval of a shorthand such as `@hourly`.
pub open spec fn shorthand(t: Seq<char>) -> Option<Interval> {
    if t == "@hourly"@ {
        Some(Interval { count: 1, unit: Unit::Hour })
    } else if t == "@daily"@ {
        Some(Interval { count: 1, unit: Unit::Day })
    } else if t == "@weekly"@ {
        Some(Interval { count: 1, unit: Unit::Week })
    } else if t == "@monthly"@ {
        Some(Interval { count: 30, unit: Unit::Day })
    } else {
        None
    }
}

/// Reads an interval: `every` or `@every` and a duration, a shorthand, or a duration.
pub open spec fn interval_reading(s: Seq<char>) -> Reading {
    let t = trimmed(s);
    if has_prefix(t, "every "@) {
        duration_reading(t.skip("every "@.len() as int))
    } else if has_prefix(t, "@every "@) {
        duration_reading(t.skip("@every "@.len() as int))
    } else if t.len() > 0 && t[0] == '@' {
        match shorthand(t) {
            Some(interval) => Ok(interval),
            None => Err("unsupported schedule shorthand: '"@ + t + "'"@),
        }
    } else {
        duration_reading(t)
    }
}

/// Reads a schedule expression: an interval. Where one word cannot be read, or there is none, the
/// whole expression is quoted as it stands.
pub open spec fn schedule_reading(s: Seq<char>) -> Reading {
    if interval_reading(s) is Err && is_one_word(s) {
        Err("invalid cron expression: '"@ + s + "'"@)
    } else {
        interval_reading(s)
    }
}

/// Whether `r` hands out what was read.
pub open spec fn reports(r: Result<Interval>, reading: Reading) -> bool {
    match reading {
        Ok(interval) => r == Result::<Interval>::Ok(interval),
        Err(text) => r is Err && r->Err_0 is Config && r->Err_0.text() == text,
    }
}

/// Reads a duration.
pub fn read_duration(s: &str) -> (r: Result<Interval>)
    ensures
        reports(r, duration_reading(s@)),
{
    let t: &str = trim(s);
    let (count_text, unit): (Option<&str>, Unit) = if let Some(n) = strip_last(t, 's') {
        (Some(n), Unit::Second)
    } else if let Some(n) = strip_last(t, 'm') {
        (Some(n), Unit::Minute)
    } else if let Some(n) = strip_last(t, 'h') {
        (Some(n), Unit::Hour)
    } else if let Some(n) = strip_last(t, 'd') {
        (Some(n), Unit::Day)
    } else {
        (None, Unit::Second)
    };
    match count_text {
        Some(n) => match parse_i64(trim(n)) {
            Some(count) => Ok(Interval { count, unit }),
            None => {
                let message: String = "invalid duration: '".to_owned().concat(t).concat("'");
                Err(StrunkError::Config(message))
            },
        },
        None => match parse_i64(t) {
            Some(count) => Ok(Interval { count, unit }),
            None => {
                let message: String = "cannot parse schedule interval: '".to_owned().concat(
                    t,
                ).concat(
                    "'. Use formats like '30s', '5m', '1h', '1d', '@hourly', '@daily', 'every 5m'",
                );
                Err(StrunkError::Config(message))
            },
        },
    }
}

/// Reads an interval.
pub fn read_interval(expr: &str) -> (r: Result<Interval>)
    ensures
        reports(r, interval_reading(expr@)),
{
    let t: &str = trim(expr);
    if let Some(duration) = strip_prefix(t, "every ") {
        return read_duration(duration);
    }
    if let Some(duration) = strip_prefix(t, "@every ") {
        return read_duration(duration);
    }
    if !t.is_empty() && t.get_char(0) == '@' {
        return if same_text(t, "@hourly") {
            Ok(Interval { count: 1, unit: Unit::Hour })
        } else if same_text(t, "@daily") {
            Ok(Interval { count: 1, unit: Unit::Day })
        } else if same_text(t, "@weekly") {
            Ok(Interval { count: 1, unit: Unit::Week })
        } else if same_text(t, "@monthly") {
            Ok(Interval { count: 30, unit: Unit::Day })
        } else {
            let message: String = "unsupported schedule shorthand: '".to_owned().concat(t).concat(
                "'",
            );
            Err(StrunkError::Config(message))
        };
    }
    read_duration(t)
}

/// Reads a schedule expression.
pub fn read_schedule(cron: &str) -> (r: Result<Interval>)
    ensures
        reports(r, schedule_reading(cron@)),
{
    match read_interval(cron) {
        Ok(interval) => Ok(interval),
        Err(e) => if one_word(cron) {
            let message: String = "invalid cron expression: '".to_owned().concat(cron).concat("'");
            Err(StrunkError::Config(message))
        } else {
            Err(e)
        },
    }
}

/// Whether `r` gives the seconds of what was read.
pub open spec fn reports_secs(r: Result<i64>, reading: Reading) -> bool {
    match reading {
        Ok(interval) => r is Ok && r->Ok_0 == interval.secs(),
        Err(text) => r is Err && r->Err_0 is Config && r->Err_0.text() == text,
    }
}

/// The seconds of a duration.
pub fn parse_duration_string(s: &str) -> (r: Result<i64>)
    requires
        duration_reading(s@) matches Ok(interval) ==> interval.in_range(),
    ensures
        reports_secs(r, duration_reading(s@)),
{
    match read_duration(s) {
        Ok(interval) => Ok(interval.to_secs()),
        Err(e) => Err(e),
    }
}

/// The seconds of an interval.
pub fn parse_simple_interval(expr: &str) -> (r: Result<i64>)
    requires
        interval_reading(expr@) matches Ok(interval) ==> interval.in_range(),
    ensures
        reports_secs(r, interval_reading(expr@)),
{
    match read_interval(expr) {
        Ok(interval) => Ok(interval.to_secs()),
        Err(e) => Err(e),
    }
}

/// Whether `r` says when a schedule that is looked at `now` fires next: nothing where the calendar
/// ends before that.
pub open spec fn next_fire_told(
    r: Result<Option<Timestamp>>,
    cron: Seq<char>,
    now: Timestamp,
) -> bool {
    match schedule_reading(cron) {
        Ok(interval) => match r {
            Ok(Some(next)) => interval.reaches(now) && next == now + interval.secs() * 1_000_000,
            Ok(None) => !interval.reaches(now),
            Err(_) => false,
        },
        Err(text) => r is Err && r->Err_0 is Config && r->Err_0.text() == text,
    }
}

/// When a schedule that is looked at `now` fires next. `None` where the calendar ends before that.
pub fn next_fire_after(cron: &str, now: Timestamp) -> (r: Result<Option<Timestamp>>)
    requires
        MIN_TIMESTAMP <= now <= MAX_TIMESTAMP,
    ensures
        next_fire_told(r, cron@, now),
{
    match read_schedule(cron) {
        Ok(interval) => if interval.fits_after(now) {
            Ok(Some(interval.after(now)))
        } else {
            Ok(None)
        },
        Err(e) => Err(e),
    }
}

/// When a schedule fires next, by the system's clock. `None` where the calendar ends before that.
pub fn next_fire_from_cron(cron: &str) -> (r: Result<Option<Timestamp>>)
    ensures
        exists|now: Timestamp|
            0 <= now <= MAX_TIMESTAMP && #[trigger] next_fire_told(r, cron@, now),
{
    let now: Timestamp = utc_now();
    next_fire_after(cron, now)
}

/// Whitespace around an expression does not change what it says, except that one word that cannot
/// be read is quoted as it stands.
pub proof fn schedule_ignores_outer_space(s: Seq<char>)
    ensures
        interval_reading(s) is Ok || !is_one_word(s) ==> schedule_reading(trimmed(s))
            == schedule_reading(s),
        interval_reading(trimmed(s)) == interval_reading(s),
        duration_reading(trimmed(s)) == duration_reading(s),
{
    crate::text::trimming_repeats(s);
}

/// `every` and `@every` in front of a duration say the same as the duration. In front of a blank text
/// they are refused, as is the blank text.
pub proof fn every_is_optional(s: Seq<char>)
    ensures
        !is_blank(s) ==> interval_reading("every "@ + s) == duration_reading(s),
        !is_blank(s) ==> interval_reading("@every "@ + s) == duration_reading(s),
        is_blank(s) ==> interval_reading("every "@ + s) is Err,
        is_blank(s) ==> interval_reading("@every "@ + s) is Err,
        is_blank(s) ==> duration_reading(s) is Err,
{
    if is_blank(s) {
        lemma_blank_duration(s);
    } else {
        lemma_every(s);
    }
}

proof fn lemma_blank_duration(s: Seq<char>)
    requires
        is_blank(s),
    ensures
        interval_reading("every "@ + s) is Err,
        interval_reading("@every "@ + s) is Err,
        duration_reading(s) is Err,
{
    reveal_strlit("every ");
    reveal_strlit("@every ");
    reveal_strlit("@hourly");
    reveal_strlit("@daily");
    reveal_strlit("@weekly");
    reveal_strlit("@monthly");
    let tail = seq![' '] + s;
    assert(is_blank(tail)) by {
        assert forall|i: int| 0 <= i < tail.len() implies is_space(#[trigger] tail[i]) by {
            if i > 0 {
                assert(tail[i] == s[i - 1]);
            }
        }
    }
    let every = "every "@.drop_last();
    assert("every "@ + s =~= every + tail);
    lemma_word(every, tail);
    lemma_word(every, Seq::empty());
    assert(every + Seq::<char>::empty() =~= every);
    assert(every.last() == 'y');
    let at_every = "@every "@.drop_last();
    assert("@every "@ + s =~= at_every + tail);
    lemma_word(at_every, tail);
    assert(!has_prefix(at_every, "every "@)) by {
        if has_prefix(at_every, "every "@) {
            assert(at_every.take(6)[0] == at_every[0]);
            assert("every "@[0] == 'e');
        }
    }
    assert(at_every != "@daily"@) by {
        assert(at_every[1] == 'e');
        assert("@daily"@[1] == 'd');
    }
    crate::text::blank_iff_trimmed_empty(s);
}

/// A word loses whitespace behind it.
proof fn lemma_word(word: Seq<char>, tail: Seq<char>)
    requires
        word.len() > 0,
        !is_space(word[0]),
        !is_space(word.last()),
        is_blank(tail),
    ensures
        trimmed(word + tail) == word,
    decreases tail.len(),
{
    let all = word + tail;
    assert(all[0] == word[0]);
    if tail.len() == 0 {
        assert(all =~= word);
    } else {
        let rest = tail.drop_last();
        assert forall|i: int| 0 <= i < rest.len() implies is_space(#[trigger] rest[i]) by {
            assert(rest[i] == tail[i]);
        }
        lemma_word(word, rest);
        assert((word + rest)[0] == word[0]);
        assert(all.last() == tail.last());
        assert(tail.last() == tail[tail.len() - 1]);
        assert(all.drop_last() =~= word + rest);
    }
}

proof fn lemma_every(s: Seq<char>)
    requires
        !is_blank(s),
    ensures
        interval_reading("every "@ + s) == duration_reading(s),
        interval_reading("@every "@ + s) == duration_reading(s),
{
    reveal_strlit("every ");
    reveal_strlit("@every ");
    lemma_keyword("every "@, s);
    lemma_keyword("@every "@, s);
    assert(!has_prefix(trimmed("@every "@ + s), "every "@)) by {
        let t = trimmed("@every "@ + s);
        if has_prefix(t, "every "@) {
            assert(t.take(6)[0] == t[0]);
            assert("every "@[0] == 'e');
        }
    }
}

proof fn lemma_keyword(keyword: Seq<char>, s: Seq<char>)
    requires
        !is_blank(s),
        keyword.len() > 0,
        !is_space(keyword[0]),
    ensures
        has_prefix(trimmed(keyword + s), keyword),
        trimmed(keyword + s)[0] == keyword[0],
        duration_reading(trimmed(keyword + s).skip(keyword.len() as int)) == duration_reading(s),
{
    let all = keyword + s;
    let n = keyword.len() as int;
    let (from, to) = crate::text::lemma_trim_bounds(s);
    assert(all[0] == keyword[0]);
    assert(trim_start(all) == all);
    lemma_end_behind(keyword, s);
    assert(trimmed(all) == keyword + trim_end(s));
    assert((keyword + trim_end(s)).skip(n) =~= trim_end(s));
    assert((keyword + trim_end(s)).take(n) =~= keyword);
    crate::text::trimming_repeats(s);
}

proof fn lemma_end_behind(head: Seq<char>, s: Seq<char>)
    requires
        !is_blank(s),
    ensures
        trim_end(head + s) == head + trim_end(s),
    decreases s.len(),
{
    let all = head + s;
    assert(all.last() == s.last());
    if is_space(s.last()) {
        let rest = s.drop_last();
        assert(all.drop_last() =~= head + rest);
        let bad = choose|i: int| 0 <= i < s.len() && !is_space(#[trigger] s[i]);
        assert(rest[bad] == s[bad]);
        lemma_end_behind(head, rest);
    }
}

} // verus!
