//! The feed of expected arrivals: the request that asks for it, and the reading of its
//! answer into the arrivals that are shown.

use vstd::prelude::*;
use vstd::string::{StringExecFns, StringSliceAdditionalSpecFns};
use crate::arrival::{clock_now, minutes_between, parse_rfc3339, shown_minutes, ExpectedBusArrival, FeedError, Timestamp};
use crate::text::chars_of;
use crate::xml::{
    ahead,
    bytes_equal,
    document_steps,
    read_event,
    read_text,
    reader_from_str,
    trim_text,
    Step,
    XmlEvent,
};

verus! {

/// Most arrivals that a lookup keeps.
pub const MAX_ARRIVALS: usize = 3;

/// What an element of a visit holds for the library.
#[derive(Clone, Copy, Debug, PartialEq, Eq, Structural)]
pub enum Field {
    /// The name of the line, as it is published.
    Line,
    /// The time at which the bus is expected to leave.
    Expected,
    /// The time at which the bus is meant to leave.
    Aimed,
    /// An element that the library does not read.
    Other,
}

/// The field that an element of the given name holds.
pub open spec fn field_of(name: Seq<u8>) -> Field {
    if name == "PublishedLineName".spec_bytes() {
        Field::Line
    } else if name == "ExpectedDepartureTime".spec_bytes() {
        Field::Expected
    } else if name == "AimedDepartureTime".spec_bytes() {
        Field::Aimed
    } else {
        Field::Other
    }
}

/// The field that an element of the given name holds.
pub fn classify(name: &[u8]) -> (field: Field)
    ensures
        field == field_of(name@),
{
    if bytes_equal(name, "PublishedLineName".as_bytes()) {
        Field::Line
    } else if bytes_equal(name, "ExpectedDepartureTime".as_bytes()) {
        Field::Expected
    } else if bytes_equal(name, "AimedDepartureTime".as_bytes()) {
        Field::Aimed
    } else {
        Field::Other
    }
}

/// Where the time comes from.
#[derive(Clone, Copy, Debug, PartialEq, Eq, Structural)]
pub enum Clock {
    /// The clock of the machine, which moves between one reading and the next.
    System,
    /// A clock that stands at one time.
    Fixed(Timestamp),
}

/// Whether the clock that is read agrees with the times that were read from it: a fixed
/// clock shows one time only.
pub open spec fn clock_shows(clock: Clock, times: Seq<Timestamp>) -> bool {
    match clock {
        Clock::System => true,
        Clock::Fixed(t) => forall|i: int| 0 <= i < times.len() ==> times[i] == t,
    }
}

impl Clock {
    /// The time that the clock shows now.
    pub fn read(&self) -> (now: Timestamp)
        ensures
            self matches Clock::Fixed(t) ==> now == t,
    {
        match self {
            Clock::System => clock_now(),
            Clock::Fixed(t) => *t,
        }
    }
}

/// Whether an arrival is kept when the clock shows `now`: it is, if the bus is expected at
/// least `minutes_away` minutes from now. A clock outside the times that the library works
/// with, or an arrival whose minutes from now cannot be shown, ends the selection.
pub open spec fn due(arrival: ExpectedBusArrival, now: Timestamp, minutes_away: u32) -> Result<
    bool,
    FeedError,
> {
    if !now.wf() {
        Err(FeedError::Clock)
    } else {
        match shown_minutes(minutes_between(arrival.expected_time, now)) {
            Ok(minutes) => Ok(minutes >= minutes_away),
            Err(e) => Err(e),
        }
    }
}

/// The arrivals kept among the first `n`, where the clock showed `times[i]` when arrival
/// `i` was looked at. The arrivals are looked at in order; each that is due is kept, until
/// three are kept, after which no more are looked at.
pub open spec fn selection(
    arrivals: Seq<ExpectedBusArrival>,
    times: Seq<Timestamp>,
    minutes_away: u32,
    n: nat,
) -> Result<Seq<ExpectedBusArrival>, FeedError>
    decreases n,
{
    if n == 0 {
        Ok(Seq::empty())
    } else {
        match selection(arrivals, times, minutes_away, (n - 1) as nat) {
            Err(e) => Err(e),
            Ok(kept) => if kept.len() >= MAX_ARRIVALS {
                Ok(kept)
            } else {
                match due(arrivals[n - 1], times[n - 1], minutes_away) {
                    Err(e) => Err(e),
                    Ok(true) => Ok(kept.push(arrivals[n - 1])),
                    Ok(false) => Ok(kept),
                }
            },
        }
    }
}

/// Once the selection has ended, with three arrivals kept or with a failure, the arrivals
/// that follow change nothing, whatever the clock would have shown.
pub proof fn lemma_selection_settles(
    arrivals: Seq<ExpectedBusArrival>,
    times: Seq<Timestamp>,
    minutes_away: u32,
    settled: nat,
    n: nat,
)
    requires
        settled <= n,
        match selection(arrivals, times, minutes_away, settled) {
            Err(_) => true,
            Ok(kept) => kept.len() >= MAX_ARRIVALS,
        },
    ensures
        selection(arrivals, times, minutes_away, n) == selection(arrivals, times, minutes_away, settled),
    decreases n,
{
    if settled < n {
        lemma_selection_settles(arrivals, times, minutes_away, settled, (n - 1) as nat);
    }
}

/// The selection reads of the times only those of the arrivals that it looks at.
pub proof fn lemma_selection_reads_prefix(
    arrivals: Seq<ExpectedBusArrival>,
    times: Seq<Timestamp>,
    others: Seq<Timestamp>,
    minutes_away: u32,
    n: nat,
)
    requires
        n <= times.len(),
        n <= others.len(),
        forall|i: int| 0 <= i < n ==> times[i] == others[i],
    ensures
        selection(arrivals, times, minutes_away, n) == selection(arrivals, others, minutes_away, n),
    decreases n,
{
    if n > 0 {
        lemma_selection_reads_prefix(arrivals, times, others, minutes_away, (n - 1) as nat);
    }
}

/// Selects the arrivals to show: the first three that are at least `minutes_away` minutes
/// away by the clock, which is read anew for each arrival that is looked at.
pub fn select_arrivals(arrivals: &Vec<ExpectedBusArrival>, clock: &Clock, minutes_away: u32) -> (result:
    Result<Vec<ExpectedBusArrival>, FeedError>)
    requires
        forall|i: int| 0 <= i < arrivals@.len() ==> (#[trigger] arrivals@[i]).expected_time.wf(),
    ensures
        exists|times: Seq<Timestamp>|
            {
                &&& times.len() == arrivals@.len()
                &&& clock_shows(*clock, times)
                &&& match #[trigger] selection(arrivals@, times, minutes_away, arrivals@.len()) {
                    Ok(kept) => result matches Ok(v) && v@ == kept,
                    Err(e) => result == Err::<Vec<ExpectedBusArrival>, FeedError>(e),
                }
            },
        result matches Ok(v) ==> v@.len() <= MAX_ARRIVALS,
{
    let mut kept: Vec<ExpectedBusArrival> = Vec::new();
    let ghost mut times: Seq<Timestamp> = Seq::empty();
    let ghost filler: Timestamp = match clock {
        Clock::Fixed(t) => *t,
        Clock::System => Timestamp { secs: 0, nanos: 0 },
    };
    let n: usize = arrivals.len();
    let mut i: usize = 0;
    while i < n && kept.len() < MAX_ARRIVALS
        invariant
            i <= n,
            n == arrivals@.len(),
            times.len() == i,
            clock_shows(*clock, times),
            kept@.len() <= MAX_ARRIVALS,
            selection(arrivals@, times, minutes_away, i as nat) == Ok::<Seq<ExpectedBusArrival>, FeedError>(
                kept@,
            ),
            forall|j: int| 0 <= j < arrivals@.len() ==> (#[trigger] arrivals@[j]).expected_time.wf(),
            clock matches Clock::Fixed(t) ==> filler == t,
        decreases n - i,
    {
        let now = clock.read();
        let ghost before = times;
        proof {
            times = times.push(now);
            lemma_selection_reads_prefix(arrivals@, before, times, minutes_away, i as nat);
        }
        if !now.is_wf() {
            proof {
                let rest = Seq::new((n - i - 1) as nat, |k: int| filler);
                let all = times + rest;
                lemma_selection_reads_prefix(arrivals@, times, all, minutes_away, (i + 1) as nat);
                lemma_selection_settles(arrivals@, all, minutes_away, (i + 1) as nat, n as nat);
                assert(clock_shows(*clock, all));
            }
            return Err(FeedError::Clock);
        }
        match arrivals[i].minutes_from(now) {
            Err(e) => {
                proof {
                    let rest = Seq::new((n - i - 1) as nat, |k: int| filler);
                    let all = times + rest;
                    lemma_selection_reads_prefix(arrivals@, times, all, minutes_away, (i + 1) as nat);
                    lemma_selection_settles(arrivals@, all, minutes_away, (i + 1) as nat, n as nat);
                    assert(clock_shows(*clock, all));
                }
                return Err(e);
            },
            Ok(minutes) => {
                if minutes >= minutes_away {
                    kept.push(arrivals[i].duplicate());
                }
            },
        }
        i += 1;
    }
    proof {
        let rest = Seq::new((n - i) as nat, |k: int| filler);
        let all = times + rest;
        lemma_selection_reads_prefix(arrivals@, times, all, minutes_away, i as nat);
        if i < n {
            lemma_selection_settles(arrivals@, all, minutes_away, i as nat, n as nat);
        }
        assert(clock_shows(*clock, all));
        assert(selection(arrivals@, all, minutes_away, n as nat) == Ok::<Seq<ExpectedBusArrival>, FeedError>(
            kept@,
        ));
    }
    Ok(kept)
}

/// A decimal digit.
pub open spec fn is_digit(c: char) -> bool {
    '0' <= c <= '9'
}

/// The number that a run of decimal digits stands for.
pub open spec fn digits_value(digits: Seq<char>) -> nat
    decreases digits.len(),
{
    if digits.len() == 0 {
        0
    } else {
        digits_value(digits.drop_last()) * 10 + (digits.last() as nat - '0' as nat) as nat
    }
}

/// The digits of a number's text: the text without the plus sign that may lead it.
pub open spec fn digits_of(text: Seq<char>) -> Seq<char> {
    if text.len() > 0 && text[0] == '+' {
        text.drop_first()
    } else {
        text
    }
}

/// The number that a text stands for: one or more decimal digits, with or without a plus
/// sign before them, whose value fits. No white space, and nothing else, is skipped.
pub open spec fn parsed_u32(text: Seq<char>) -> Option<u32> {
    let digits = digits_of(text);
    if digits.len() > 0 && (forall|i: int| 0 <= i < digits.len() ==> is_digit(#[trigger] digits[i]))
        && digits_value(digits) <= u32::MAX {
        Some(digits_value(digits) as u32)
    } else {
        None
    }
}

proof fn lemma_digits_value_grows(digits: Seq<char>, n: int)
    requires
        0 <= n <= digits.len(),
    ensures
        digits_value(digits.take(n)) <= digits_value(digits),
    decreases digits.len() - n,
{
    if n < digits.len() {
        lemma_digits_value_grows(digits, n + 1);
        assert(digits.take(n + 1).drop_last() =~= digits.take(n));
    } else {
        assert(digits.take(n) =~= digits);
    }
}

/// Reads the number of minutes that a bus must be away to be shown.
pub fn parse_minutes_away(text: &str) -> (result: Result<u32, FeedError>)
    ensures
        result == match parsed_u32(text@) {
            Some(minutes) => Ok::<u32, FeedError>(minutes),
            None => Err::<u32, FeedError>(FeedError::Threshold),
        },
{
    let chars = chars_of(text);
    let start: usize = if chars.len() > 0 && chars[0] == '+' {
        1
    } else {
        0
    };
    let ghost digits = digits_of(text@);
    assert(digits =~= chars@.skip(start as int));
    if start == chars.len() {
        return Err(FeedError::Threshold);
    }
    let mut value: u64 = 0;
    let mut i: usize = start;
    while i < chars.len()
        invariant
            start <= i <= chars.len(),
            digits == digits_of(text@),
            digits == chars@.skip(start as int),
            forall|j: int| 0 <= j < i - start ==> is_digit(#[trigger] digits[j]),
            value == digits_value(digits.take(i - start)),
            value <= u32::MAX,
        decreases chars.len() - i,
    {
        let c: char = chars[i];
        if c < '0' || c > '9' {
            assert(!is_digit(digits[i - start]));
            return Err(FeedError::Threshold);
        }
        let digit: u64 = (c as u32 - '0' as u32) as u64;
        proof {
            assert(digits.take(i - start + 1).drop_last() =~= digits.take(i - start));
            assert(digits.take(i - start + 1).last() == c);
        }
        value = value * 10 + digit;
        if value > u32::MAX as u64 {
            proof {
                lemma_digits_value_grows(digits, i - start + 1);
            }
            return Err(FeedError::Threshold);
        }
        i += 1;
    }
    proof {
        assert(digits.take(i - start) =~= digits);
    }
    Ok(value as u32)
}

/// dotenvy's reason for not giving a setting.
#[verifier::external_type_specification]
#[verifier::external_body]
pub struct ExSettingError(dotenvy::Error);

/// `dotenvy::var`: the value of a variable of the process, or of the `.env` file beside
/// it. Nothing is claimed of the value.
#[verifier::external_body]
pub(crate) fn setting(name: &str) -> (value: Result<String, dotenvy::Error>) {
    dotenvy::var(name)
}

/// What has been read of a visit so far.
#[derive(Clone, Debug, PartialEq)]
pub struct VisitFields {
    pub line: Option<String>,
    pub expected: Option<Timestamp>,
    pub aimed: Option<Timestamp>,
}

impl VisitFields {
    /// Every time that was read is one that the library works with.
    pub open spec fn wf(&self) -> bool {
        &&& self.expected matches Some(t) ==> t.wf()
        &&& self.aimed matches Some(t) ==> t.wf()
    }

    /// The fields with the text of one more element taken in. The text of a line is kept
    /// as it is; the text of a departure time is read as a time in the format of RFC 3339,
    /// and refused where it is none; the text of any other element changes nothing. A
    /// later text replaces an earlier one of the same kind.
    pub open spec fn with(self, field: Field, text: String) -> Result<VisitFields, FeedError> {
        match field {
            Field::Line => Ok(VisitFields { line: Some(text), expected: self.expected, aimed: self.aimed }),
            Field::Expected => match crate::arrival::rfc3339_instant(text@) {
                Some(t) => Ok(VisitFields { line: self.line, expected: Some(t), aimed: self.aimed }),
                None => Err(FeedError::Time),
            },
            Field::Aimed => match crate::arrival::rfc3339_instant(text@) {
                Some(t) => Ok(VisitFields { line: self.line, expected: self.expected, aimed: Some(t) }),
                None => Err(FeedError::Time),
            },
            Field::Other => Ok(self),
        }
    }

    /// A visit of which nothing has been read.
    pub open spec fn empty() -> VisitFields {
        VisitFields { line: None, expected: None, aimed: None }
    }

    /// The arrival that the fields make: the line, and the expected departure time, or the
    /// aimed one where no expected one was read. Fields without a line or without any time
    /// make no arrival.
    pub open spec fn arrival(self) -> Result<ExpectedBusArrival, FeedError> {
        if self.line is Some && (self.expected is Some || self.aimed is Some) {
            Ok(
                ExpectedBusArrival {
                    line: self.line->0,
                    expected_time: if self.expected is Some {
                        self.expected->0
                    } else {
                        self.aimed->0
                    },
                },
            )
        } else {
            Err(FeedError::DidNotParse)
        }
    }

    /// A visit of which nothing has been read.
    pub fn new() -> (fields: VisitFields)
        ensures
            fields == VisitFields::empty(),
    {
        VisitFields { line: None, expected: None, aimed: None }
    }

    /// Takes in the text of one more element of the visit.
    pub fn record(self, field: Field, text: String) -> (result: Result<VisitFields, FeedError>)
        requires
            self.wf(),
        ensures
            result == self.with(field, text),
            result matches Ok(fields) ==> fields.wf(),
    {
        match field {
            Field::Line => Ok(VisitFields { line: Some(text), expected: self.expected, aimed: self.aimed }),
            Field::Expected => match time_of(text.as_str()) {
                Ok(t) => Ok(VisitFields { line: self.line, expected: Some(t), aimed: self.aimed }),
                Err(e) => Err(e),
            },
            Field::Aimed => match time_of(text.as_str()) {
                Ok(t) => Ok(VisitFields { line: self.line, expected: self.expected, aimed: Some(t) }),
                Err(e) => Err(e),
            },
            Field::Other => Ok(self),
        }
    }

    /// The arrival that the fields make: the line, and the expected departure time, or the
    /// aimed one where no expected one was read.
    pub fn finish(self) -> (result: Result<ExpectedBusArrival, FeedError>)
        requires
            self.wf(),
        ensures
            result == self.arrival(),
            result matches Ok(arrival) ==> arrival.wf(),
    {
        ExpectedBusArrival::from_fields(self.line, self.expected, self.aimed)
    }
}

/// The name of the element that holds a visit.
pub const VISIT: &'static str = "MonitoredStopVisit";

/// What reading a visit comes to: the arrival or the failure, and the steps that the
/// reader has left behind it.
pub struct VisitRead {
    pub result: Result<ExpectedBusArrival, FeedError>,
    pub left: Seq<Step>,
}

/// What reading a visit does with the steps that a reader has ahead, `fields` being what
/// was read of the visit so far.
///
/// Step by step: the end of the element named `end`, or the end of the document, ends the
/// visit, and the fields make the arrival. The start of an element that holds a line or a
/// departure time has its text read, which passes the steps up to its end, and the text
/// is taken into the fields. Every other step is passed over. The visit fails with `Xml`
/// where the reader gives up or the text of an element cannot be read, and with `Time`
/// where a departure time is none.
pub open spec fn visit_read(steps: Seq<Step>, end: Seq<u8>, fields: VisitFields) -> VisitRead
    decreases steps.len(),
{
    if steps.len() == 0 {
        VisitRead { result: fields.arrival(), left: steps }
    } else {
        let rest = steps.drop_first();
        match steps[0].event {
            None => VisitRead { result: Err(FeedError::Xml), left: rest },
            Some(XmlEvent::Eof) => VisitRead { result: fields.arrival(), left: rest },
            Some(XmlEvent::Other) => visit_read(rest, end, fields),
            Some(XmlEvent::End(name)) => if name@ == end {
                VisitRead { result: fields.arrival(), left: rest }
            } else {
                visit_read(rest, end, fields)
            },
            Some(XmlEvent::Start(name)) => if field_of(name@) == Field::Other {
                visit_read(rest, end, fields)
            } else {
                match steps[0].text {
                    None => VisitRead { result: Err(FeedError::Xml), left: rest },
                    Some((text, passes)) => match fields.with(field_of(name@), text) {
                        Err(e) => VisitRead { result: Err(e), left: rest },
                        Ok(next) => if passes <= rest.len() {
                            visit_read(rest.skip(passes as int), end, next)
                        } else {
                            VisitRead { result: Err(FeedError::Xml), left: rest }
                        },
                    },
                }
            },
        }
    }
}

/// The arrivals of a document, from the steps that a reader of it has ahead, `found`
/// being the arrivals read so far: every element named `MonitoredStopVisit` is read as a
/// visit, in the order of the document, and the first visit that fails ends the reading
/// with its failure.
pub open spec fn arrivals_in(steps: Seq<Step>, found: Seq<ExpectedBusArrival>) -> Result<
    Seq<ExpectedBusArrival>,
    FeedError,
>
    decreases steps.len(),
{
    if steps.len() == 0 {
        Ok(found)
    } else {
        let rest = steps.drop_first();
        match steps[0].event {
            None => Err(FeedError::Xml),
            Some(XmlEvent::Eof) => Ok(found),
            Some(XmlEvent::Start(name)) => if name@ == VISIT.spec_bytes() {
                let read = visit_read(rest, VISIT.spec_bytes(), VisitFields::empty());
                match read.result {
                    Err(e) => Err(e),
                    Ok(arrival) => if read.left.len() <= rest.len() {
                        arrivals_in(read.left, found.push(arrival))
                    } else {
                        Err(FeedError::Xml)
                    },
                }
            } else {
                arrivals_in(rest, found)
            },
            Some(_) => arrivals_in(rest, found),
        }
    }
}

/// The arrivals that a lookup of a document keeps, where the clock showed `times[i]` when
/// arrival `i` of the document was looked at.
pub open spec fn lookup_of(steps: Seq<Step>, times: Seq<Timestamp>, minutes_away: u32) -> Result<
    Seq<ExpectedBusArrival>,
    FeedError,
> {
    match arrivals_in(steps, Seq::empty()) {
        Err(e) => Err(e),
        Ok(all) => selection(all, times, minutes_away, all.len()),
    }
}

impl ExpectedBusArrival {
    /// Reads one visit from the reader, which has just given the start of the visit's
    /// element: the elements inside it up to the end of the element named `end_element`,
    /// or to the end of the document. The line and the times are taken from the elements
    /// that hold them, a later one replacing an earlier one of the same kind.
    ///
    /// It fails with `Xml` where the reader gives up, with `Time` where a departure time
    /// is not in the format of RFC 3339, and with `DidNotParse` where the visit lacks its
    /// line or any time. After a visit that was read, the reader stands behind it.
    pub fn new_from_element(reader: &mut quick_xml::Reader<&[u8]>, end_element: &[u8]) -> (result: Result<
        ExpectedBusArrival,
        FeedError,
    >)
        ensures
            result == visit_read(ahead(*old(reader)), end_element@, VisitFields::empty()).result,
            result is Ok ==> ahead(*final(reader)) == visit_read(
                ahead(*old(reader)),
                end_element@,
                VisitFields::empty(),
            ).left,
            result is Ok ==> ahead(*final(reader)).len() <= ahead(*old(reader)).len(),
            result matches Ok(arrival) ==> arrival.wf(),
    {
        let mut fields = VisitFields::new();
        loop
            invariant
                visit_read(ahead(*old(reader)), end_element@, VisitFields::empty()) == visit_read(
                    ahead(*reader),
                    end_element@,
                    fields,
                ),
                ahead(*reader).len() <= ahead(*old(reader)).len(),
                fields.wf(),
            decreases ahead(*reader).len(),
        {
            let ghost steps = ahead(*reader);
            let event = match read_event(reader) {
                Ok(event) => event,
                Err(_) => {
                    return Err(FeedError::Xml);
                },
            };
            proof {
                if steps.len() == 0 {
                    assert(ahead(*reader) =~= steps);
                }
            }
            match event {
                XmlEvent::Start(name) => {
                    let field = classify(name.as_slice());
                    if field != Field::Other {
                        let text = match read_text(reader, name.as_slice()) {
                            Ok(text) => text,
                            Err(_) => {
                                return Err(FeedError::Xml);
                            },
                        };
                        fields = match fields.record(field, text) {
                            Ok(fields) => fields,
                            Err(e) => {
                                return Err(e);
                            },
                        };
                    }
                },
                XmlEvent::End(name) => {
                    if bytes_equal(name.as_slice(), end_element) {
                        return fields.finish();
                    }
                },
                XmlEvent::Eof => {
                    return fields.finish();
                },
                XmlEvent::Other => {},
            }
        }
    }
}

/// The time that a text in the format of RFC 3339 stands for.
pub fn time_of(text: &str) -> (result: Result<Timestamp, FeedError>)
    ensures
        result == match crate::arrival::rfc3339_instant(text@) {
            Some(t) => Ok::<Timestamp, FeedError>(t),
            None => Err::<Timestamp, FeedError>(FeedError::Time),
        },
        result matches Ok(t) ==> t.wf(),
{
    match parse_rfc3339(text) {
        Ok(t) => Ok(t),
        Err(_) => Err(FeedError::Time),
    }
}

/// Reads every visit of the feed's answer, in the order of the document.
pub fn parse_arrivals(xml: &str) -> (result: Result<Vec<ExpectedBusArrival>, FeedError>)
    ensures
        match arrivals_in(document_steps(xml@), Seq::empty()) {
            Ok(all) => result matches Ok(arrivals) && arrivals@ == all,
            Err(e) => result == Err::<Vec<ExpectedBusArrival>, FeedError>(e),
        },
        result matches Ok(arrivals) ==> forall|i: int|
            0 <= i < arrivals@.len() ==> (#[trigger] arrivals@[i]).wf(),
{
    let mut arrivals: Vec<ExpectedBusArrival> = Vec::new();
    let mut reader = reader_from_str(xml);
    trim_text(&mut reader, true);
    loop
        invariant
            arrivals_in(document_steps(xml@), Seq::empty()) == arrivals_in(ahead(reader), arrivals@),
            forall|i: int| 0 <= i < arrivals@.len() ==> (#[trigger] arrivals@[i]).wf(),
        decreases ahead(reader).len(),
    {
        let event = match read_event(&mut reader) {
            Ok(event) => event,
            Err(_) => {
                return Err(FeedError::Xml);
            },
        };
        match event {
            XmlEvent::Start(name) => {
                if bytes_equal(name.as_slice(), VISIT.as_bytes()) {
                    let arrival = match ExpectedBusArrival::new_from_element(&mut reader, VISIT.as_bytes()) {
                        Ok(arrival) => arrival,
                        Err(e) => {
                            return Err(e);
                        },
                    };
                    arrivals.push(arrival);
                }
            },
            XmlEvent::Eof => {
                return Ok(arrivals);
            },
            _ => {},
        }
    }
}

/// The arrivals that are shown.
#[derive(Debug, PartialEq)]
pub struct BusArrivalsLookup {
    arrivals: Vec<ExpectedBusArrival>,
}

impl View for BusArrivalsLookup {
    type V = Seq<ExpectedBusArrival>;

    closed spec fn view(&self) -> Seq<ExpectedBusArrival> {
        self.arrivals@
    }
}

impl BusArrivalsLookup {
    /// A lookup of the given arrivals, which are at most three.
    pub fn new(arrivals: Vec<ExpectedBusArrival>) -> (lookup: BusArrivalsLookup)
        requires
            arrivals@.len() <= MAX_ARRIVALS,
        ensures
            lookup@ == arrivals@,
    {
        BusArrivalsLookup { arrivals }
    }

    /// Reads the feed's answer and keeps of its visits the first three that are far enough
    /// away by the given clock. The reading fails as the reading of the visits fails, and
    /// where it does not, as the selection fails.
    pub fn from_xml_at(xml: &str, clock: &Clock, minutes_away: u32) -> (result: Result<
        BusArrivalsLookup,
        FeedError,
    >)
        ensures
            exists|times: Seq<Timestamp>|
                {
                    &&& clock_shows(*clock, times)
                    &&& arrivals_in(document_steps(xml@), Seq::empty()) matches Ok(all) ==> times.len()
                        == all.len()
                    &&& match #[trigger] lookup_of(document_steps(xml@), times, minutes_away) {
                        Ok(kept) => result matches Ok(lookup) && lookup@ == kept,
                        Err(e) => result == Err::<BusArrivalsLookup, FeedError>(e),
                    }
                },
            result matches Ok(lookup) ==> lookup@.len() <= MAX_ARRIVALS && forall|i: int|
                0 <= i < lookup@.len() ==> (#[trigger] lookup@[i]).wf(),
    {
        let all = match parse_arrivals(xml) {
            Ok(all) => all,
            Err(e) => {
                proof {
                    let none = Seq::<Timestamp>::empty();
                    assert(clock_shows(*clock, none));
                    assert(lookup_of(document_steps(xml@), none, minutes_away) == Err::<
                        Seq<ExpectedBusArrival>,
                        FeedError,
                    >(e));
                }
                return Err(e);
            },
        };
        let selected = select_arrivals(&all, clock, minutes_away);
        proof {
            let times = choose|times: Seq<Timestamp>|
                {
                    &&& times.len() == all@.len()
                    &&& clock_shows(*clock, times)
                    &&& match #[trigger] selection(all@, times, minutes_away, all@.len()) {
                        Ok(kept) => selected matches Ok(v) && v@ == kept,
                        Err(e) => selected == Err::<Vec<ExpectedBusArrival>, FeedError>(e),
                    }
                };
            lemma_selection_keeps_members(all@, times, minutes_away, all@.len());
            assert(lookup_of(document_steps(xml@), times, minutes_away) == selection(
                all@,
                times,
                minutes_away,
                all@.len(),
            ));
        }
        match selected {
            Ok(kept) => Ok(BusArrivalsLookup { arrivals: kept }),
            Err(e) => Err(e),
        }
    }

    /// Reads the feed's answer and keeps of its visits the first three that are far enough
    /// away by the system clock. How far is enough is the setting `MINUTES_AWAY`, which is
    /// read once the visits are: an answer whose visits cannot be read fails with the
    /// failure of that reading, whatever the setting is.
    pub fn from_xml(xml: &str) -> (result: Result<BusArrivalsLookup, FeedError>)
        ensures
            match arrivals_in(document_steps(xml@), Seq::empty()) {
                Err(e) => result == Err::<BusArrivalsLookup, FeedError>(e),
                Ok(all) => {
                    ||| result == Err::<BusArrivalsLookup, FeedError>(FeedError::Setting)
                    ||| result == Err::<BusArrivalsLookup, FeedError>(FeedError::Threshold)
                    ||| exists|times: Seq<Timestamp>, minutes_away: u32|
                        {
                            &&& times.len() == all.len()
                            &&& match #[trigger] selection(all, times, minutes_away, all.len()) {
                                Ok(kept) => result matches Ok(lookup) && lookup@ == kept,
                                Err(e) => result == Err::<BusArrivalsLookup, FeedError>(e),
                            }
                        }
                },
            },
            result matches Ok(lookup) ==> lookup@.len() <= MAX_ARRIVALS && forall|i: int|
                0 <= i < lookup@.len() ==> (#[trigger] lookup@[i]).wf(),
    {
        let all = match parse_arrivals(xml) {
            Ok(all) => all,
            Err(e) => {
                return Err(e);
            },
        };
        let text = match setting("MINUTES_AWAY") {
            Ok(text) => text,
            Err(_) => {
                return Err(FeedError::Setting);
            },
        };
        let minutes_away = match parse_minutes_away(text.as_str()) {
            Ok(minutes_away) => minutes_away,
            Err(e) => {
                return Err(e);
            },
        };
        let clock = Clock::System;
        let selected = select_arrivals(&all, &clock, minutes_away);
        proof {
            let times = choose|times: Seq<Timestamp>|
                {
                    &&& times.len() == all@.len()
                    &&& clock_shows(clock, times)
                    &&& match #[trigger] selection(all@, times, minutes_away, all@.len()) {
                        Ok(kept) => selected matches Ok(v) && v@ == kept,
                        Err(e) => selected == Err::<Vec<ExpectedBusArrival>, FeedError>(e),
                    }
                };
            lemma_selection_keeps_members(all@, times, minutes_away, all@.len());
        }
        match selected {
            Ok(kept) => Ok(BusArrivalsLookup { arrivals: kept }),
            Err(e) => Err(e),
        }
    }

    /// The arrivals, in the order of the feed.
    pub fn arrivals(&self) -> (arrivals: &[ExpectedBusArrival])
        ensures
            arrivals@ == self@,
    {
        self.arrivals.as_slice()
    }
}

/// Every arrival that the selection keeps is one of the arrivals that it was given.
pub proof fn lemma_selection_keeps_members(
    arrivals: Seq<ExpectedBusArrival>,
    times: Seq<Timestamp>,
    minutes_away: u32,
    n: nat,
)
    requires
        n <= arrivals.len(),
    ensures
        selection(arrivals, times, minutes_away, n) matches Ok(kept) ==> forall|i: int|
            0 <= i < kept.len() ==> exists|j: int| 0 <= j < n && arrivals[j] == #[trigger] kept[i],
    decreases n,
{
    if n > 0 {
        lemma_selection_keeps_members(arrivals, times, minutes_away, (n - 1) as nat);
        match selection(arrivals, times, minutes_away, n) {
            Ok(kept) => {
                let before = selection(arrivals, times, minutes_away, (n - 1) as nat)->Ok_0;
                assert forall|i: int| 0 <= i < kept.len() implies exists|j: int|
                    0 <= j < n && arrivals[j] == #[trigger] kept[i] by {
                    if i < before.len() {
                        assert(kept[i] == before[i]);
                        let j = choose|j: int| 0 <= j < n - 1 && arrivals[j] == before[i];
                        assert(0 <= j < n && arrivals[j] == kept[i]);
                    } else {
                        assert(arrivals[n - 1] == kept[i]);
                    }
                }
            },
            Err(_) => {},
        }
    }
}

/// The address of the feed, in front of the user's name.
pub const FEED_SCHEME: &'static str = "http://";

/// The address of the feed, behind the password.
pub const FEED_HOST: &'static str = "@nextbus.mxdata.co.uk/nextbuses/1.0/1";

/// The address that the feed is asked at, with the user's name and password in it.
pub open spec fn request_url_text(user: Seq<char>, pass: Seq<char>) -> Seq<char> {
    FEED_SCHEME@ + user + ":"@ + pass + FEED_HOST@
}

/// The address that the feed is asked at, with the user's name and password in it.
pub fn request_url(api_user: &str, api_pass: &str) -> (url: String)
    ensures
        url@ == request_url_text(api_user@, api_pass@),
{
    let mut url = String::from_str(FEED_SCHEME);
    url.append(api_user);
    url.append(":");
    url.append(api_pass);
    url.append(FEED_HOST);
    url
}

/// The request up to the time of asking.
pub const REQUEST_HEAD: &'static str =
    "<?xml version=\"1.0\" encoding=\"UTF-8\" standalone=\"yes\"?>\n<Siri version=\"1.0\" xmlns=\"http://www.siri.org.uk/\">\n<ServiceRequest>\n<RequestTimestamp>";

/// The request between the time of asking and the user who asks.
pub const REQUEST_BEFORE_USER: &'static str = "</RequestTimestamp>\n<RequestorRef>";

/// The request between the user who asks and the second time of asking.
pub const REQUEST_BEFORE_TIME: &'static str =
    "</RequestorRef>\n<StopMonitoringRequest version=\"1.0\">\n<RequestTimestamp>";

/// The request between the second time of asking and the stop.
pub const REQUEST_BEFORE_STOP: &'static str =
    "</RequestTimestamp>\n<MessageIdentifier>garbage</MessageIdentifier>\n<MonitoringRef>";

/// The request behind the stop.
pub const REQUEST_TAIL: &'static str =
    "</MonitoringRef>\n</StopMonitoringRequest>\n</ServiceRequest>\n</Siri>";

/// The request for the buses that are expected at a stop: a document that names the time
/// of asking twice, the user who asks, and the stop.
pub open spec fn request_body_text(timestamp: Seq<char>, requestor: Seq<char>, stop: Seq<char>) -> Seq<
    char,
> {
    REQUEST_HEAD@ + timestamp + REQUEST_BEFORE_USER@ + requestor + REQUEST_BEFORE_TIME@ + timestamp
        + REQUEST_BEFORE_STOP@ + stop + REQUEST_TAIL@
}

/// The request for the buses that are expected at the stop `bus_stop_code`, asked at the
/// time `timestamp` by the user `api_user`.
pub fn request_body(timestamp: &str, api_user: &str, bus_stop_code: &str) -> (body: String)
    ensures
        body@ == request_body_text(timestamp@, api_user@, bus_stop_code@),
{
    let mut body = String::from_str(REQUEST_HEAD);
    body.append(timestamp);
    body.append(REQUEST_BEFORE_USER);
    body.append(api_user);
    body.append(REQUEST_BEFORE_TIME);
    body.append(timestamp);
    body.append(REQUEST_BEFORE_STOP);
    body.append(bus_stop_code);
    body.append(REQUEST_TAIL);
    body
}

} // verus!
