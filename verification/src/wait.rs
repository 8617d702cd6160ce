use vstd::prelude::*;
use vstd::string::*;
use crate::decimal::{all_digits, parse_digits, push_decimal};
use crate::error::PasspromptError;
use crate::span::{digit_run, is_space, lemma_digit_run_digits, lemma_parse_span_text, parse_span, part_text, span_text, spaced, take_part, trim_start, Span};
use crate::text::chars_of;

verus! {

/// The cooldown between two rounds of questions, in days, hours and minutes.
///
/// Any three numbers make a cooldown, also one so long that its length in
/// seconds cannot be held in sixty-four bits.
#[derive(Clone, Copy, Debug)]
pub struct Wait {
    days: u64,
    hours: u64,
    minutes: u64,
}

impl View for Wait {
    type V = Span;

    closed spec fn view(&self) -> Span {
        Span { days: self.days as nat, hours: self.hours as nat, minutes: self.minutes as nat }
    }
}

/// Whether `c` separates the parts of a duration.
fn is_space_char(c: char) -> (r: bool)
    ensures
        r == is_space(c),
{
    let p: u32 = c as u32;
    (0x09 <= p && p <= 0x0d) || p == 0x20 || p == 0x85 || p == 0xa0 || p == 0x1680 || (0x2000 <= p
        && p <= 0x200a) || p == 0x2028 || p == 0x2029 || p == 0x202f || p == 0x205f || p == 0x3000
}

/// The first position at or after `from` that holds no white space.
fn skip_spaces(chars: &Vec<char>, from: usize) -> (to: usize)
    requires
        from <= chars@.len(),
    ensures
        from <= to <= chars@.len(),
        chars@.skip(to as int) == trim_start(chars@.skip(from as int)),
{
    let mut i: usize = from;
    while i < chars.len() && is_space_char(chars[i])
        invariant
            from <= i <= chars@.len(),
            trim_start(chars@.skip(i as int)) == trim_start(chars@.skip(from as int)),
        decreases chars@.len() - i,
    {
        assert(chars@.skip(i as int).drop_first() =~= chars@.skip(i + 1));
        i += 1;
    }
    i
}

/// The first position at or after `from` that holds no digit.
fn skip_digits(chars: &Vec<char>, from: usize) -> (to: usize)
    requires
        from <= chars@.len(),
    ensures
        from <= to <= chars@.len(),
        to - from == digit_run(chars@.skip(from as int)),
{
    let mut i: usize = from;
    while i < chars.len() && chars[i] >= '0' && chars[i] <= '9'
        invariant
            from <= i <= chars@.len(),
            digit_run(chars@.skip(from as int)) == (i - from) + digit_run(chars@.skip(i as int)),
        decreases chars@.len() - i,
    {
        assert(chars@.skip(i as int).drop_first() =~= chars@.skip(i + 1));
        i += 1;
    }
    i
}

/// Reads one part at `from`: a number directly followed by `unit`.
///
/// Gives the number, if it can be held, and the position behind the part;
/// where no such part stands at `from`, zero and `from` itself.
fn read_part(chars: &Vec<char>, from: usize, unit: char) -> (r: (Option<u64>, usize))
    requires
        from <= chars@.len(),
    ensures
        from <= r.1 <= chars@.len(),
        chars@.skip(r.1 as int) == take_part(chars@.skip(from as int), unit).1,
        r.0 matches Some(n) ==> n == take_part(chars@.skip(from as int), unit).0,
        r.0 is None ==> take_part(chars@.skip(from as int), unit).0 > u64::MAX,
{
    let ghost rest = chars@.skip(from as int);
    let end = skip_digits(chars, from);
    if end > from && end < chars.len() && chars[end] == unit {
        let number = parse_digits(chars, from, end);
        proof {
            let run = chars@.subrange(from as int, end as int);
            assert(rest.take(end - from) =~= run);
            assert(rest.skip(end - from + 1) =~= chars@.skip(end + 1));
            assert(rest[end - from] == chars@[end as int]);
            assert(all_digits(run)) by {
                lemma_digit_run_digits(rest, end - from);
            }
        }
        (number, end + 1)
    } else {
        proof {
            if end < chars.len() {
                assert(rest[end - from] == chars@[end as int]);
            }
        }
        (Some(0), from)
    }
}

impl Wait {
    /// A cooldown of the given length.
    pub fn new(days: u64, hours: u64, minutes: u64) -> (r: Wait)
        ensures
            r@ == (Span { days: days as nat, hours: hours as nat, minutes: minutes as nat }),
    {
        Wait { days, hours, minutes }
    }

    /// The number of whole days.
    pub fn days(&self) -> (r: u64)
        ensures
            r == self@.days,
    {
        self.days
    }

    /// The number of hours beyond the days.
    pub fn hours(&self) -> (r: u64)
        ensures
            r == self@.hours,
    {
        self.hours
    }

    /// The number of minutes beyond the hours.
    pub fn minutes(&self) -> (r: u64)
        ensures
            r == self@.minutes,
    {
        self.minutes
    }

    /// The whole cooldown in seconds, where sixty-four bits can hold it.
    pub fn checked_secs(&self) -> (r: Option<u64>)
        ensures
            r == if self@.fits() {
                Some(self@.seconds() as u64)
            } else {
                None::<u64>
            },
    {
        let in_hours = match self.days.checked_mul(24) {
            Some(x) => x.checked_add(self.hours),
            None => None,
        };
        let in_minutes = match in_hours {
            Some(x) => match x.checked_mul(60) {
                Some(y) => y.checked_add(self.minutes),
                None => None,
            },
            None => None,
        };
        proof {
            let d = self.days as int;
            let h = self.hours as int;
            let m = self.minutes as int;
            assert(in_hours matches Some(x) ==> x == d * 24 + h);
            assert(in_hours is None ==> d * 24 + h > u64::MAX);
            assert(in_minutes matches Some(x) ==> x == (d * 24 + h) * 60 + m);
            assert(in_minutes is None ==> (d * 24 + h) * 60 + m > u64::MAX);
        }
        match in_minutes {
            Some(x) => x.checked_mul(60),
            None => None,
        }
    }

    /// The whole cooldown in seconds; the largest number that sixty-four
    /// bits can hold stands for every cooldown that is longer.
    pub fn as_secs(&self) -> (r: u64)
        ensures
            r == if self@.fits() {
                self@.seconds()
            } else {
                u64::MAX as nat
            },
    {
        match self.checked_secs() {
            Some(secs) => secs,
            None => u64::MAX,
        }
    }

    /// Reads a duration from its text.
    ///
    /// Succeeds exactly on the texts of the grammar, with the span that the
    /// text stands for; every other text comes back inside the error.
    pub fn parse(s: &str) -> (r: Result<Wait, PasspromptError>)
        ensures
            match r {
                Ok(w) => parse_span(s@) == Some(w@),
                Err(PasspromptError::UnparseableWaitFormat(t)) => parse_span(s@) is None && t@
                    == s@,
                Err(_) => false,
            },
    {
        let chars = chars_of(s);
        assert(chars@.skip(0) =~= s@);
        let at_days = skip_spaces(&chars, 0);
        let (days, after_days) = read_part(&chars, at_days, 'd');
        let at_hours = skip_spaces(&chars, after_days);
        let (hours, after_hours) = read_part(&chars, at_hours, 'h');
        let at_minutes = skip_spaces(&chars, after_hours);
        let (minutes, after_minutes) = read_part(&chars, at_minutes, 'm');
        let end = skip_spaces(&chars, after_minutes);
        if end == chars.len() {
            match (days, hours, minutes) {
                (Some(d), Some(h), Some(m)) => {
                    return Ok(Wait::new(d, h, m));
                },
                _ => {},
            }
        }
        Err(PasspromptError::UnparseableWaitFormat(s.to_owned()))
    }

    /// Writes the cooldown in its canonical text.
    pub fn to_text(&self) -> (r: String)
        ensures
            r@ == span_text(self@),
    {
        let mut out = String::new();
        let ghost days_text = part_text(self@.days, 'd');
        let ghost hours_text = part_text(self@.hours, 'h');
        let ghost minutes_text = part_text(self@.minutes, 'm');
        proof {
            reveal_strlit("d");
            reveal_strlit("h");
            reveal_strlit("m");
            reveal_strlit(" ");
        }
        if self.days > 0 {
            push_decimal(&mut out, self.days);
            out.append("d");
        }
        assert(out@ =~= days_text);
        if self.hours > 0 {
            if !out.as_str().is_empty() {
                out.append(" ");
            }
            push_decimal(&mut out, self.hours);
            out.append("h");
        }
        assert(out@ =~= spaced(days_text, hours_text));
        if self.minutes > 0 {
            if !out.as_str().is_empty() {
                out.append(" ");
            }
            push_decimal(&mut out, self.minutes);
            out.append("m");
        }
        assert(out@ =~= spaced(spaced(days_text, hours_text), minutes_text));
        assert(out@ =~= span_text(self@));
        out
    }
}

/// The cooldown that stands for a span.
pub closed spec fn wait_of(span: Span) -> Wait {
    Wait { days: span.days as u64, hours: span.hours as u64, minutes: span.minutes as u64 }
}

impl TryFrom<String> for Wait {
    type Error = PasspromptError;

    /// Reads a duration from its text, and hands a text that is none back
    /// inside the error.
    fn try_from(s: String) -> (r: Result<Wait, PasspromptError>) {
        match Wait::parse(s.as_str()) {
            Ok(w) => {
                proof {
                    lemma_wait_holds(w);
                }
                Ok(w)
            },
            Err(_) => Err(PasspromptError::UnparseableWaitFormat(s)),
        }
    }
}

impl vstd::std_specs::convert::TryFromSpecImpl<String> for Wait {
    open spec fn obeys_try_from_spec() -> bool {
        true
    }

    open spec fn try_from_spec(s: String) -> Result<Wait, PasspromptError> {
        match parse_span(s@) {
            Some(span) => Ok(wait_of(span)),
            None => Err(PasspromptError::UnparseableWaitFormat(s)),
        }
    }
}

/// The cooldown that stands for a span has that span as its view.
pub proof fn lemma_wait_of(span: Span)
    requires
        span.holds(),
    ensures
        wait_of(span)@ == span,
{
}

/// Every cooldown stands for a span whose three numbers can be held, and is
/// the cooldown that stands for that span.
pub proof fn lemma_wait_holds(w: Wait)
    ensures
        w@.holds(),
        wait_of(w@) == w,
{
}

/// Every cooldown is read back from its canonical text.
pub proof fn lemma_text_reads_back(w: Wait)
    ensures
        parse_span(span_text(w@)) == Some(w@),
{
    lemma_wait_holds(w);
    lemma_parse_span_text(w@);
}

impl Default for Wait {
    /// No cooldown at all.
    fn default() -> (r: Wait)
        ensures
            r@ == (Span { days: 0, hours: 0, minutes: 0 }),
    {
        Wait { days: 0, hours: 0, minutes: 0 }
    }
}

} // verus!
