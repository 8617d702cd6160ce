use vstd::prelude::*;
use crate::decimal::{all_digits, decimal_text, decimal_value, is_digit, lemma_decimal_round_trip, lemma_decimal_text_digits};

verus! {

/// A length of time in whole days, hours and minutes: what a `Wait` stands
/// for.
pub struct Span {
    pub days: nat,
    pub hours: nat,
    pub minutes: nat,
}

impl Span {
    /// The whole span in seconds.
    pub open spec fn seconds(self) -> nat {
        ((self.days * 24 + self.hours) * 60 + self.minutes) * 60
    }

    /// Whether each of the three numbers can be held in sixty-four bits.
    pub open spec fn holds(self) -> bool {
        self.days <= u64::MAX && self.hours <= u64::MAX && self.minutes <= u64::MAX
    }

    /// Whether the span, in seconds, can be held in sixty-four bits.
    pub open spec fn fits(self) -> bool {
        self.seconds() <= u64::MAX
    }
}

/// The characters that separate the parts of a duration: Unicode's white
/// space.
pub open spec fn is_space(c: char) -> bool {
    let p = c as u32;
    ||| 0x09 <= p <= 0x0d
    ||| p == 0x20
    ||| p == 0x85
    ||| p == 0xa0
    ||| p == 0x1680
    ||| 0x2000 <= p <= 0x200a
    ||| p == 0x2028
    ||| p == 0x2029
    ||| p == 0x202f
    ||| p == 0x205f
    ||| p == 0x3000
}

/// `s` without the white space it begins with.
pub open spec fn trim_start(s: Seq<char>) -> Seq<char>
    decreases s.len(),
{
    if s.len() > 0 && is_space(s[0]) {
        trim_start(s.drop_first())
    } else {
        s
    }
}

/// How many digits `s` begins with.
pub open spec fn digit_run(s: Seq<char>) -> nat
    decreases s.len(),
{
    if s.len() > 0 && is_digit(s[0]) {
        1 + digit_run(s.drop_first())
    } else {
        0
    }
}

/// Takes one part off the front of `s`: a number directly followed by the
/// letter `unit`. Gives the number and what follows the letter; where `s`
/// does not begin with such a part, zero and `s` itself.
pub open spec fn take_part(s: Seq<char>, unit: char) -> (nat, Seq<char>) {
    let k = digit_run(s) as int;
    if 0 < k < s.len() && s[k] == unit {
        (decimal_value(s.take(k)), s.skip(k + 1))
    } else {
        (0, s)
    }
}

/// The grammar of a duration: an optional number of days followed by `d`,
/// an optional number of hours followed by `h`, an optional number of
/// minutes followed by `m`, in that order, with any amount of white space
/// before, between and after them. A text of any other shape, or one with a
/// number that sixty-four bits cannot hold, stands for nothing.
pub open spec fn parse_span(s: Seq<char>) -> Option<Span> {
    let (days, after_days) = take_part(trim_start(s), 'd');
    let (hours, after_hours) = take_part(trim_start(after_days), 'h');
    let (minutes, after_minutes) = take_part(trim_start(after_hours), 'm');
    let span = Span { days, hours, minutes };
    if trim_start(after_minutes).len() == 0 && span.holds() {
        Some(span)
    } else {
        None
    }
}

/// The text of one part: the number and its letter, or nothing for zero.
pub open spec fn part_text(n: nat, unit: char) -> Seq<char> {
    if n > 0 {
        decimal_text(n).push(unit)
    } else {
        Seq::empty()
    }
}

/// Two texts with one space between them, where neither is empty.
pub open spec fn spaced(head: Seq<char>, tail: Seq<char>) -> Seq<char> {
    if head.len() == 0 {
        tail
    } else if tail.len() == 0 {
        head
    } else {
        head + seq![' '] + tail
    }
}

/// The canonical text of a span: its non-zero parts in the order days, hours,
/// minutes, separated by single spaces.
pub open spec fn span_text(span: Span) -> Seq<char> {
    spaced(part_text(span.days, 'd'), spaced(part_text(span.hours, 'h'), part_text(span.minutes, 'm')))
}

/// A text that is empty or begins with a digit: nothing to trim.
spec fn begins_clean(s: Seq<char>) -> bool {
    s.len() == 0 || is_digit(s[0])
}

/// A run of digits followed by something else is counted in full.
proof fn lemma_digit_run(digits: Seq<char>, rest: Seq<char>)
    requires
        all_digits(digits),
        rest.len() == 0 || !is_digit(rest[0]),
    ensures
        digit_run(digits + rest) == digits.len(),
    decreases digits.len(),
{
    let s = digits + rest;
    if digits.len() == 0 {
        assert(s =~= rest);
    } else {
        assert(s[0] == digits[0]);
        assert(s.drop_first() =~= digits.drop_first() + rest);
        assert(all_digits(digits.drop_first())) by {
            assert forall|i: int| 0 <= i < digits.drop_first().len() implies is_digit(
                #[trigger] digits.drop_first()[i],
            ) by {
                assert(digits.drop_first()[i] == digits[i + 1]);
            }
        }
        lemma_digit_run(digits.drop_first(), rest);
    }
}

/// The characters counted by `digit_run` are digits.
pub proof fn lemma_digit_run_digits(s: Seq<char>, k: int)
    requires
        0 <= k <= digit_run(s),
    ensures
        k <= s.len(),
        all_digits(s.take(k)),
    decreases k,
{
    if k > 0 {
        lemma_digit_run_digits(s.drop_first(), k - 1);
        assert forall|i: int| 0 <= i < k implies is_digit(#[trigger] s.take(k)[i]) by {
            if i > 0 {
                assert(s.take(k)[i] == s.drop_first().take(k - 1)[i - 1]);
            }
        }
    }
}

/// One step of reading a canonical text: with the part for `unit` in front of
/// `tail`, the part's number is taken and `tail` is what remains.
proof fn lemma_read_part(n: nat, unit: char, tail: Seq<char>)
    requires
        !is_digit(unit),
        begins_clean(tail),
        take_part(tail, unit) == (0nat, tail),
    ensures
        begins_clean(spaced(part_text(n, unit), tail)),
        take_part(spaced(part_text(n, unit), tail), unit).0 == n,
        trim_start(take_part(spaced(part_text(n, unit), tail), unit).1) == tail,
{
    let whole = spaced(part_text(n, unit), tail);
    assert(trim_start(tail) == tail) by {
        if tail.len() > 0 {
            assert(!is_space(tail[0]));
        }
    }
    if n > 0 {
        lemma_decimal_text_digits(n);
        lemma_decimal_round_trip(n);
        let t = decimal_text(n);
        assert(whole[0] == t[0]);
        if tail.len() == 0 {
            assert(whole =~= t.push(unit) + Seq::<char>::empty());
            lemma_take_written(t, unit, Seq::empty(), unit);
        } else {
            let rest = seq![' '] + tail;
            assert(whole =~= t.push(unit) + rest);
            lemma_take_written(t, unit, rest, unit);
            assert(is_space(rest[0]));
            assert(rest.drop_first() =~= tail);
            assert(trim_start(rest) == trim_start(tail));
        }
    }
}

/// Reading the canonical text of a span gives the span back.
pub proof fn lemma_parse_span_text(span: Span)
    requires
        span.holds(),
    ensures
        parse_span(span_text(span)) == Some(span),
{
    let none = Seq::<char>::empty();
    let minutes = part_text(span.minutes, 'm');
    let hours_on = spaced(part_text(span.hours, 'h'), minutes);
    if span.minutes > 0 {
        lemma_decimal_text_digits(span.minutes);
        assert(minutes =~= decimal_text(span.minutes).push('m') + none);
        lemma_take_written(decimal_text(span.minutes), 'm', none, 'h');
        lemma_take_written(decimal_text(span.minutes), 'm', none, 'd');
    }
    lemma_read_part(span.minutes, 'm', none);
    assert(spaced(minutes, none) =~= minutes);
    lemma_read_part(span.hours, 'h', minutes);
    if span.hours > 0 {
        let t = decimal_text(span.hours);
        lemma_decimal_text_digits(span.hours);
        if minutes.len() == 0 {
            assert(hours_on =~= t.push('h') + none);
            lemma_take_written(t, 'h', none, 'd');
        } else {
            assert(hours_on =~= t.push('h') + (seq![' '] + minutes));
            lemma_take_written(t, 'h', seq![' '] + minutes, 'd');
        }
    }
    lemma_read_part(span.days, 'd', hours_on);
}

/// A canonical text survives being read and written again, and the empty
/// text is the canonical text of the zero span.
pub proof fn lemma_canonical_round_trip(s: Seq<char>, span: Span)
    requires
        span.holds(),
        s == span_text(span),
    ensures
        parse_span(s) is Some,
        span_text(parse_span(s)->0) == s,
        parse_span(Seq::empty()) == Some(Span { days: 0, hours: 0, minutes: 0 }),
        span_text(Span { days: 0, hours: 0, minutes: 0 }) == Seq::<char>::empty(),
{
    lemma_parse_span_text(span);
    let zero = Span { days: 0, hours: 0, minutes: 0 };
    assert(span_text(zero) =~= Seq::<char>::empty());
    lemma_parse_span_text(zero);
}

/// Whether every character of `s` is white space.
pub open spec fn all_spaces(s: Seq<char>) -> bool {
    forall|i: int| 0 <= i < s.len() ==> is_space(#[trigger] s[i])
}

/// A part as it is written: a run of digits with the letter behind it, or
/// nothing where there are no digits.
pub open spec fn written_part(digits: Seq<char>, unit: char) -> Seq<char> {
    if digits.len() > 0 {
        digits.push(unit)
    } else {
        Seq::empty()
    }
}

/// The pieces of a duration as it is written: the digits of each part, and
/// the white space before, between and behind the parts.
pub struct Written {
    pub lead: Seq<char>,
    pub days: Seq<char>,
    pub first_gap: Seq<char>,
    pub hours: Seq<char>,
    pub second_gap: Seq<char>,
    pub minutes: Seq<char>,
    pub trail: Seq<char>,
}

impl Written {
    /// Whether the pieces are what they are meant to be: white space and
    /// digits.
    pub open spec fn wf(self) -> bool {
        &&& all_spaces(self.lead)
        &&& all_spaces(self.first_gap)
        &&& all_spaces(self.second_gap)
        &&& all_spaces(self.trail)
        &&& all_digits(self.days)
        &&& all_digits(self.hours)
        &&& all_digits(self.minutes)
    }

    /// The pieces put together.
    pub open spec fn text(self) -> Seq<char> {
        self.lead + written_part(self.days, 'd') + self.first_gap + written_part(self.hours, 'h')
            + self.second_gap + written_part(self.minutes, 'm') + self.trail
    }

    /// The span that the digits stand for.
    pub open spec fn span(self) -> Span {
        Span {
            days: decimal_value(self.days),
            hours: decimal_value(self.hours),
            minutes: decimal_value(self.minutes),
        }
    }
}

/// White space at the front is trimmed away, whatever follows.
proof fn lemma_trim_spaces(spaces: Seq<char>, rest: Seq<char>)
    requires
        all_spaces(spaces),
    ensures
        trim_start(spaces + rest) == trim_start(rest),
    decreases spaces.len(),
{
    let s = spaces + rest;
    if spaces.len() == 0 {
        assert(s =~= rest);
    } else {
        assert(s[0] == spaces[0]);
        assert(s.drop_first() =~= spaces.drop_first() + rest);
        assert(all_spaces(spaces.drop_first())) by {
            assert forall|i: int| 0 <= i < spaces.drop_first().len() implies is_space(
                #[trigger] spaces.drop_first()[i],
            ) by {
                assert(spaces.drop_first()[i] == spaces[i + 1]);
            }
        }
        lemma_trim_spaces(spaces.drop_first(), rest);
    }
}

/// The white space that `s` begins with.
pub open spec fn leading_spaces(s: Seq<char>) -> Seq<char> {
    s.take(s.len() - trim_start(s).len())
}

/// A text is the white space it begins with and what is left after
/// trimming, and trimming what was trimmed changes nothing.
proof fn lemma_trim_split(s: Seq<char>)
    ensures
        trim_start(s).len() <= s.len(),
        all_spaces(leading_spaces(s)),
        s == leading_spaces(s) + trim_start(s),
        trim_start(trim_start(s)) == trim_start(s),
    decreases s.len(),
{
    if s.len() > 0 && is_space(s[0]) {
        let rest = s.drop_first();
        lemma_trim_split(rest);
        let lead = leading_spaces(s);
        assert(trim_start(s) == trim_start(rest));
        assert(s =~= seq![s[0]] + rest);
        assert(lead =~= seq![s[0]] + leading_spaces(rest));
        assert(lead + trim_start(s) =~= seq![s[0]] + (leading_spaces(rest) + trim_start(rest)));
        assert forall|i: int| 0 <= i < lead.len() implies is_space(#[trigger] lead[i]) by {
            if i > 0 {
                assert(lead[i] == leading_spaces(rest)[i - 1]);
            }
        }
    } else {
        assert(leading_spaces(s) =~= Seq::<char>::empty());
        assert(s =~= leading_spaces(s) + trim_start(s));
    }
}

/// Digits with their own letter behind them are taken, whatever follows;
/// with another letter behind them they are left where they are.
proof fn lemma_take_written(digits: Seq<char>, letter: char, rest: Seq<char>, unit: char)
    requires
        digits.len() > 0,
        all_digits(digits),
        !is_digit(letter),
    ensures
        letter == unit ==> take_part(digits.push(letter) + rest, unit) == (
            decimal_value(digits),
            rest,
        ),
        letter != unit ==> take_part(digits.push(letter) + rest, unit) == (
            0nat,
            digits.push(letter) + rest,
        ),
{
    let s = digits.push(letter) + rest;
    assert(s =~= digits + (seq![letter] + rest));
    lemma_digit_run(digits, seq![letter] + rest);
    assert(s.take(digits.len() as int) =~= digits);
    assert(s.skip(digits.len() as int + 1) =~= rest);
}

/// The digits of the part that `s` begins with, where it begins with one.
pub open spec fn part_digits(s: Seq<char>, unit: char) -> Seq<char> {
    let k = digit_run(s) as int;
    if 0 < k < s.len() && s[k] == unit {
        s.take(k)
    } else {
        Seq::empty()
    }
}

/// A text is the part that was taken off its front and what was left.
proof fn lemma_take_part_split(s: Seq<char>, unit: char)
    ensures
        all_digits(part_digits(s, unit)),
        decimal_value(part_digits(s, unit)) == take_part(s, unit).0,
        s == written_part(part_digits(s, unit), unit) + take_part(s, unit).1,
{
    let k = digit_run(s) as int;
    if 0 < k < s.len() && s[k] == unit {
        lemma_digit_run_digits(s, k);
        assert(s =~= s.take(k).push(unit) + s.skip(k + 1));
    } else {
        assert(s =~= Seq::<char>::empty() + s);
    }
}

/// Where the next part has another letter, or there is none and what
/// follows holds no part for `unit` either, no part for `unit` is found
/// behind the white space.
proof fn lemma_next_part_differs(
    gap: Seq<char>,
    digits: Seq<char>,
    letter: char,
    rest: Seq<char>,
    unit: char,
)
    requires
        all_spaces(gap),
        all_digits(digits),
        !is_digit(letter),
        letter != unit,
        digits.len() == 0 ==> take_part(trim_start(rest), unit) == (0nat, trim_start(rest)),
    ensures
        trim_start(gap + written_part(digits, letter) + rest) == trim_start(
            written_part(digits, letter) + rest,
        ),
        take_part(trim_start(written_part(digits, letter) + rest), unit) == (
            0nat,
            trim_start(written_part(digits, letter) + rest),
        ),
{
    let part = written_part(digits, letter);
    assert(gap + part + rest =~= gap + (part + rest));
    lemma_trim_spaces(gap, part + rest);
    if digits.len() > 0 {
        assert((part + rest)[0] == digits[0]);
        assert(!is_space(digits[0]));
        lemma_take_written(digits, letter, rest, unit);
    } else {
        assert(part + rest =~= rest);
    }
}

/// One step of reading a written duration: in front of `rest` stands the
/// part for `unit`, or nothing. The number of the part is taken, and what is
/// left begins, white space aside, as `rest` does.
proof fn lemma_read_written(x: Seq<char>, digits: Seq<char>, unit: char, rest: Seq<char>)
    requires
        trim_start(x) == trim_start(written_part(digits, unit) + rest),
        all_digits(digits),
        !is_digit(unit),
        digits.len() == 0 ==> take_part(trim_start(rest), unit) == (0nat, trim_start(rest)),
    ensures
        take_part(trim_start(x), unit).0 == decimal_value(digits),
        trim_start(take_part(trim_start(x), unit).1) == trim_start(rest),
{
    let part = written_part(digits, unit);
    if digits.len() > 0 {
        assert((part + rest)[0] == digits[0]);
        assert(!is_space(digits[0]));
        lemma_take_written(digits, unit, rest, unit);
    } else {
        assert(part + rest =~= rest);
        lemma_trim_split(rest);
    }
}

/// The pieces of a written duration can be put together from the back.
proof fn lemma_text_from_the_back(w: Written)
    ensures
        w.text() == w.lead + (written_part(w.days, 'd') + (w.first_gap + (written_part(
            w.hours,
            'h',
        ) + (w.second_gap + (written_part(w.minutes, 'm') + w.trail))))),
{
    let days = written_part(w.days, 'd');
    let hours = written_part(w.hours, 'h');
    let minutes = written_part(w.minutes, 'm');
    assert(w.text() =~= w.lead + (days + (w.first_gap + (hours + (w.second_gap + (minutes
        + w.trail))))));
}

/// The grammar, one way: a text that is put together from white space and
/// from parts in the order days, hours, minutes stands for the span of its
/// digits, if each of its numbers can be held in sixty-four bits.
pub proof fn lemma_written_is_read(w: Written)
    requires
        w.wf(),
    ensures
        parse_span(w.text()) == if w.span().holds() {
            Some(w.span())
        } else {
            None
        },
{
    let none = Seq::<char>::empty();
    let days = written_part(w.days, 'd');
    let hours = written_part(w.hours, 'h');
    let minutes = written_part(w.minutes, 'm');
    let from_minutes = minutes + w.trail;
    let from_second_gap = w.second_gap + from_minutes;
    let from_hours = hours + from_second_gap;
    let from_first_gap = w.first_gap + from_hours;
    let from_days = days + from_first_gap;
    assert(w.text() =~= w.lead + from_days);
    // Behind the minutes nothing but white space is left.
    assert(w.trail =~= w.trail + none);
    lemma_trim_spaces(w.trail, none);
    assert(trim_start(w.trail) == none);
    // No part for an earlier letter stands where a later part does.
    assert(from_second_gap =~= w.second_gap + minutes + w.trail);
    lemma_next_part_differs(w.second_gap, w.minutes, 'm', w.trail, 'h');
    lemma_next_part_differs(w.second_gap, w.minutes, 'm', w.trail, 'd');
    lemma_trim_split(from_minutes);
    assert(from_first_gap =~= w.first_gap + hours + from_second_gap);
    lemma_next_part_differs(w.first_gap, w.hours, 'h', from_second_gap, 'd');
    // The three steps.
    lemma_trim_spaces(w.lead, from_days);
    lemma_read_written(w.text(), w.days, 'd', from_first_gap);
    let after_days = take_part(trim_start(w.text()), 'd').1;
    lemma_read_written(after_days, w.hours, 'h', from_second_gap);
    let after_hours = take_part(trim_start(after_days), 'h').1;
    lemma_read_written(after_hours, w.minutes, 'm', w.trail);
}

/// The grammar, the other way: a text that stands for a span is put
/// together from white space and from parts in the order days, hours,
/// minutes, and the span is that of its digits.
pub proof fn lemma_read_is_written(s: Seq<char>)
    requires
        parse_span(s) is Some,
    ensures
        exists|w: Written| w.wf() && #[trigger] w.text() == s && Some(w.span()) == parse_span(s),
{
    let at_days = trim_start(s);
    let after_days = take_part(at_days, 'd').1;
    let at_hours = trim_start(after_days);
    let after_hours = take_part(at_hours, 'h').1;
    let at_minutes = trim_start(after_hours);
    let after_minutes = take_part(at_minutes, 'm').1;
    let w = Written {
        lead: leading_spaces(s),
        days: part_digits(at_days, 'd'),
        first_gap: leading_spaces(after_days),
        hours: part_digits(at_hours, 'h'),
        second_gap: leading_spaces(after_hours),
        minutes: part_digits(at_minutes, 'm'),
        trail: leading_spaces(after_minutes),
    };
    assert(s == w.lead + at_days && all_spaces(w.lead)) by {
        lemma_trim_split(s);
    }
    assert(at_days == written_part(w.days, 'd') + after_days && all_digits(w.days)
        && decimal_value(w.days) == take_part(at_days, 'd').0) by {
        lemma_take_part_split(at_days, 'd');
    }
    assert(after_days == w.first_gap + at_hours && all_spaces(w.first_gap)) by {
        lemma_trim_split(after_days);
    }
    assert(at_hours == written_part(w.hours, 'h') + after_hours && all_digits(w.hours)
        && decimal_value(w.hours) == take_part(at_hours, 'h').0) by {
        lemma_take_part_split(at_hours, 'h');
    }
    assert(after_hours == w.second_gap + at_minutes && all_spaces(w.second_gap)) by {
        lemma_trim_split(after_hours);
    }
    assert(at_minutes == written_part(w.minutes, 'm') + after_minutes && all_digits(w.minutes)
        && decimal_value(w.minutes) == take_part(at_minutes, 'm').0) by {
        lemma_take_part_split(at_minutes, 'm');
    }
    assert(after_minutes == w.trail && all_spaces(w.trail)) by {
        lemma_trim_split(after_minutes);
        assert(trim_start(after_minutes).len() == 0);
        assert(after_minutes =~= leading_spaces(after_minutes) + trim_start(after_minutes));
        assert(after_minutes =~= w.trail);
    }
    lemma_text_from_the_back(w);
    assert(w.wf() && w.text() == s && Some(w.span()) == parse_span(s));
}

} // verus!
