//! The building blocks of a line: tags, fields, timestamps, and the two
//! traits through which values are written as line-protocol text.

use crate::decimal::{append_signed, decimal};
use std::time::SystemTime;
use vstd::prelude::*;

verus! {

/// A value that can be written as line-protocol text: one line, a batch of
/// lines, or text that is in the protocol's form already.
pub trait Measurement {
    /// The text that this value adds to a payload.
    spec fn payload(&self) -> Seq<char>;

    /// Appends the value's text to `bytes`; what `bytes` held before stays.
    fn to_data(&self, bytes: &mut String)
        ensures
            final(bytes)@ == old(bytes)@ + self.payload(),
    ;
}

impl<'a, T> Measurement for &'a T where T: ?Sized + Measurement {
    open spec fn payload(&self) -> Seq<char> {
        (**self).payload()
    }

    fn to_data(&self, bytes: &mut String) {
        (**self).to_data(bytes)
    }
}

impl<T> Measurement for Box<T> where T: ?Sized + Measurement {
    open spec fn payload(&self) -> Seq<char> {
        (**self).payload()
    }

    fn to_data(&self, bytes: &mut String) {
        (**self).to_data(bytes)
    }
}

/// The payload of a batch: each item's text in order, each followed by one
/// newline.
pub open spec fn batch_payload<T: Measurement>(items: Seq<T>) -> Seq<char>
    decreases items.len(),
{
    if items.len() == 0 {
        Seq::empty()
    } else {
        batch_payload(items.drop_last()) + items.last().payload() + seq!['\n']
    }
}

/// The payload of two batches, one after the other, is the payload of
/// their concatenation: a batch is written item by item, in input order.
pub proof fn lemma_batch_concat<T: Measurement>(first: Seq<T>, second: Seq<T>)
    ensures
        batch_payload(first + second) == batch_payload(first) + batch_payload(second),
    decreases second.len(),
{
    if second.len() == 0 {
        assert(first + second =~= first);
        assert(batch_payload(first) + Seq::<char>::empty() =~= batch_payload(first));
    } else {
        assert((first + second).drop_last() =~= first + second.drop_last());
        assert((first + second).last() == second.last());
        lemma_batch_concat(first, second.drop_last());
        assert(batch_payload(first) + batch_payload(second.drop_last()) + second.last().payload()
            + seq!['\n'] =~= batch_payload(first) + (batch_payload(second.drop_last())
            + second.last().payload() + seq!['\n']));
    }
}

/// Every item of a batch has its line in the payload, at its place: after
/// the lines of the items before it, closed by one newline, and followed by
/// the lines of the items after it.
pub proof fn lemma_batch_line<T: Measurement>(items: Seq<T>, k: int)
    requires
        0 <= k < items.len(),
    ensures
        batch_payload(items) == batch_payload(items.subrange(0, k)) + items[k].payload()
            + seq!['\n'] + batch_payload(items.subrange(k + 1, items.len() as int)),
{
    let before = items.subrange(0, k);
    let upto = items.subrange(0, k + 1);
    let after = items.subrange(k + 1, items.len() as int);
    assert(items =~= upto + after);
    lemma_batch_concat(upto, after);
    assert(upto.drop_last() =~= before);
    assert(upto.last() == items[k]);
}

/// How many newlines a text holds.
pub open spec fn newlines(text: Seq<char>) -> nat
    decreases text.len(),
{
    if text.len() == 0 {
        0
    } else {
        newlines(text.drop_last()) + if text.last() == '\n' {
            1nat
        } else {
            0nat
        }
    }
}

/// The newlines of two texts, one after the other, add up.
pub proof fn lemma_newlines_concat(first: Seq<char>, second: Seq<char>)
    ensures
        newlines(first + second) == newlines(first) + newlines(second),
    decreases second.len(),
{
    if second.len() == 0 {
        assert(first + second =~= first);
    } else {
        assert((first + second).drop_last() =~= first + second.drop_last());
        lemma_newlines_concat(first, second.drop_last());
    }
}

/// A batch of items whose own texts hold no newline has exactly one newline
/// for each item, and where it is not empty it ends with a newline: one
/// line per item, and no blank line.
pub proof fn lemma_batch_line_count<T: Measurement>(items: Seq<T>)
    requires
        forall|i: int| 0 <= i < items.len() ==> newlines(#[trigger] items[i].payload()) == 0,
    ensures
        newlines(batch_payload(items)) == items.len(),
        items.len() > 0 ==> batch_payload(items).last() == '\n',
    decreases items.len(),
{
    if items.len() > 0 {
        let before = items.drop_last();
        assert forall|i: int| 0 <= i < before.len() implies newlines(
            #[trigger] before[i].payload(),
        ) == 0 by {
            assert(before[i] == items[i]);
        }
        lemma_batch_line_count(before);
        let line = items.last().payload();
        assert(newlines(line) == 0);
        lemma_newlines_concat(batch_payload(before), line);
        lemma_newlines_concat(batch_payload(before) + line, seq!['\n']);
        let end = seq!['\n'];
        assert(end.len() == 1 && end.last() == '\n');
        assert(end.drop_last().len() == 0);
        assert(newlines(end.drop_last()) == 0);
        assert(newlines(end) == 1);
    }
}

impl<T> Measurement for [T] where T: Measurement {
    open spec fn payload(&self) -> Seq<char> {
        batch_payload(self@)
    }

    fn to_data(&self, bytes: &mut String) {
        let mut i: usize = 0;
        while i < self.len()
            invariant
                i <= self@.len(),
                bytes@ == old(bytes)@ + batch_payload(self@.subrange(0, i as int)),
            decreases self@.len() - i,
        {
            let item = &self[i];
            proof {
                let done = self@.subrange(0, i as int);
                let more = self@.subrange(0, i + 1);
                assert(more.drop_last() =~= done);
                assert(more.last() == self@[i as int]);
                assert(old(bytes)@ + batch_payload(done) + item.payload() + seq!['\n'] =~= old(
                    bytes,
                )@ + batch_payload(more));
            }
            item.to_data(bytes);
            bytes.push('\n');
            i = i + 1;
        }
        proof {
            assert(self@.subrange(0, self@.len() as int) =~= self@);
        }
    }
}

impl<T> Measurement for Vec<T> where T: Measurement {
    open spec fn payload(&self) -> Seq<char> {
        batch_payload(self@)
    }

    fn to_data(&self, bytes: &mut String) {
        self.as_slice().to_data(bytes)
    }
}

impl<'a> Measurement for &'a str {
    open spec fn payload(&self) -> Seq<char> {
        self@
    }

    fn to_data(&self, bytes: &mut String) {
        bytes.push_str(self);
    }
}

impl Measurement for String {
    open spec fn payload(&self) -> Seq<char> {
        self@
    }

    fn to_data(&self, bytes: &mut String) {
        bytes.push_str(self.as_str());
    }
}

/// The text of a value as one payload, as a request or a datagram carries
/// it.
pub fn payload_of<T>(measure: T) -> (bytes: String) where T: Measurement
    ensures
        bytes@ == measure.payload(),
{
    let mut bytes = String::new();
    measure.to_data(&mut bytes);
    assert(bytes@ =~= measure.payload());
    bytes
}

/// A tag: an indexed, string-valued `name=value` pair.
pub struct Tag<'a> {
    name: &'a str,
    value: &'a str,
}

impl<'a> Tag<'a> {
    /// The tag's text on the wire: name, equals sign, value, none of them
    /// quoted or escaped.
    pub closed spec fn text(&self) -> Seq<char> {
        self.name@ + seq!['='] + self.value@
    }

    /// A tag of the given name and value. Neither is escaped.
    pub fn new(name: &'a str, value: &'a str) -> (tag: Tag<'a>)
        ensures
            tag.text() == name@ + seq!['='] + value@,
    {
        Tag { name: name, value: value }
    }

    /// Appends `name=value` to `data`.
    pub fn append(&self, data: &mut String)
        ensures
            final(data)@ == old(data)@ + self.text(),
    {
        data.push_str(self.name);
        data.push('=');
        data.push_str(self.value);
        assert(data@ =~= old(data)@ + self.text());
    }
}

/// A value that can stand on the right of a field's equals sign.
pub trait FieldValue {
    /// The value's text on the wire.
    spec fn rendering(&self) -> Seq<char>;

    /// Appends the value's text to `data`; what `data` held before stays.
    fn append(&self, data: &mut String)
        ensures
            final(data)@ == old(data)@ + self.rendering(),
    ;
}

impl<'a, T> FieldValue for &'a T where T: ?Sized + FieldValue {
    open spec fn rendering(&self) -> Seq<char> {
        (**self).rendering()
    }

    fn append(&self, data: &mut String) {
        (**self).append(data)
    }
}

impl<T> FieldValue for Box<T> where T: ?Sized + FieldValue {
    open spec fn rendering(&self) -> Seq<char> {
        (**self).rendering()
    }

    fn append(&self, data: &mut String) {
        (**self).append(data)
    }
}

/// An integer on the wire: its decimal text and the suffix `i`.
pub open spec fn integer_rendering(i: int) -> Seq<char> {
    decimal(i).push('i')
}

/// Appends the decimal text of `i` and the suffix `i` to `data`.
pub fn append_integer(data: &mut String, i: i64)
    ensures
        final(data)@ == old(data)@ + integer_rendering(i as int),
{
    append_signed(data, i);
    data.push('i');
    assert(data@ =~= old(data)@ + integer_rendering(i as int));
}

impl FieldValue for i8 {
    open spec fn rendering(&self) -> Seq<char> {
        integer_rendering(*self as int)
    }

    fn append(&self, data: &mut String) {
        append_integer(data, *self as i64)
    }
}

impl FieldValue for i16 {
    open spec fn rendering(&self) -> Seq<char> {
        integer_rendering(*self as int)
    }

    fn append(&self, data: &mut String) {
        append_integer(data, *self as i64)
    }
}

impl FieldValue for i32 {
    open spec fn rendering(&self) -> Seq<char> {
        integer_rendering(*self as int)
    }

    fn append(&self, data: &mut String) {
        append_integer(data, *self as i64)
    }
}

impl FieldValue for i64 {
    open spec fn rendering(&self) -> Seq<char> {
        integer_rendering(*self as int)
    }

    fn append(&self, data: &mut String) {
        append_integer(data, *self)
    }
}

impl FieldValue for u8 {
    open spec fn rendering(&self) -> Seq<char> {
        integer_rendering(*self as int)
    }

    fn append(&self, data: &mut String) {
        append_integer(data, *self as i64)
    }
}

impl FieldValue for u16 {
    open spec fn rendering(&self) -> Seq<char> {
        integer_rendering(*self as int)
    }

    fn append(&self, data: &mut String) {
        append_integer(data, *self as i64)
    }
}

// The database has no unsigned 64-bit integer, so `u32` is the widest
// unsigned type that is a field value.
impl FieldValue for u32 {
    open spec fn rendering(&self) -> Seq<char> {
        integer_rendering(*self as int)
    }

    fn append(&self, data: &mut String) {
        append_integer(data, *self as i64)
    }
}

/// A boolean on the wire: `T` or `F`.
pub open spec fn boolean_rendering(b: bool) -> Seq<char> {
    if b {
        seq!['T']
    } else {
        seq!['F']
    }
}

impl FieldValue for bool {
    open spec fn rendering(&self) -> Seq<char> {
        boolean_rendering(*self)
    }

    fn append(&self, data: &mut String) {
        if *self {
            data.push('T');
        } else {
            data.push('F');
        }
        assert(data@ =~= old(data)@ + boolean_rendering(*self));
    }
}

/// A string on the wire: the text between double quotes. What the text
/// holds is written as it is; quotes and backslashes in it are not escaped.
pub open spec fn text_rendering(s: Seq<char>) -> Seq<char> {
    seq!['"'] + s + seq!['"']
}

impl FieldValue for str {
    open spec fn rendering(&self) -> Seq<char> {
        text_rendering(self@)
    }

    fn append(&self, data: &mut String) {
        data.push('"');
        data.push_str(self);
        data.push('"');
        assert(data@ =~= old(data)@ + text_rendering(self@));
    }
}

impl FieldValue for String {
    open spec fn rendering(&self) -> Seq<char> {
        text_rendering(self@)
    }

    fn append(&self, data: &mut String) {
        self.as_str().append(data)
    }
}

/// A field: a `name=value` pair whose value is typed.
pub struct Field<'a, T: 'a> {
    name: &'a str,
    value: &'a T,
}

impl<'a, T> Field<'a, T> where T: FieldValue + 'a {
    /// The field's text on the wire: name, equals sign, the value's text.
    pub closed spec fn text(&self) -> Seq<char> {
        self.name@ + seq!['='] + self.value.rendering()
    }

    /// A field of the given name and value. The name is not escaped.
    pub fn new(name: &'a str, value: &'a T) -> (field: Field<'a, T>)
        ensures
            field.text() == name@ + seq!['='] + value.rendering(),
    {
        Field { name: name, value: value }
    }

    /// Appends `name=` and the value's text to `data`.
    pub fn append(&self, data: &mut String)
        ensures
            final(data)@ == old(data)@ + self.text(),
    {
        data.push_str(self.name);
        data.push('=');
        self.value.append(data);
        assert(data@ =~= old(data)@ + self.text());
    }
}

/// The system clock's instant type, `std::time::SystemTime`. What an instant
/// holds is read only through `duration_since`.
#[verifier::external_type_specification]
#[verifier::external_body]
pub struct ExSystemTime(SystemTime);

/// The time from the UNIX epoch to an instant, in whole seconds and
/// further nanoseconds; nothing for an instant before the epoch.
pub uninterp spec fn elapsed_since_epoch(time: SystemTime) -> Option<(u64, u32)>;

/// `SystemTime::duration_since` with the UNIX epoch as the earlier instant,
/// and the duration it gives by `Duration::as_secs` and
/// `Duration::subsec_nanos`: the time from the epoch to `time`, or nothing
/// where `time` lies before the epoch.
#[verifier::external_body]
fn since_epoch(time: &SystemTime) -> (elapsed: Option<(u64, u32)>)
    ensures
        elapsed == elapsed_since_epoch(*time),
{
    match time.duration_since(std::time::UNIX_EPOCH) {
        Ok(duration) => Some((duration.as_secs(), duration.subsec_nanos())),
        Err(_) => None,
    }
}

/// How many nanoseconds make one second.
pub const NANOSECONDS_PER_SECOND: u64 = 1_000_000_000;

/// The nanoseconds that `secs` whole seconds and `subsec_nanos` further
/// nanoseconds amount to.
pub open spec fn nanos_of_parts(secs: u64, subsec_nanos: u32) -> int {
    secs * NANOSECONDS_PER_SECOND + subsec_nanos
}

/// Whether the two parts name an instant that a timestamp can hold: the
/// second part is below one second, and the sum fits a signed 64-bit number.
pub open spec fn parts_fit(secs: u64, subsec_nanos: u32) -> bool {
    subsec_nanos < NANOSECONDS_PER_SECOND && nanos_of_parts(secs, subsec_nanos) <= i64::MAX
}

/// An instant at or after the UNIX epoch, held as the nanoseconds since
/// 1970-01-01T00:00:00Z.
pub struct Timestamp {
    nanos: i64,
}

impl Timestamp {
    #[verifier::type_invariant]
    spec fn at_or_after_epoch(self) -> bool {
        self.nanos >= 0
    }

    /// The nanoseconds from the epoch to this instant.
    pub closed spec fn nanos(&self) -> int {
        self.nanos as int
    }

    /// The timestamp's text on the wire: its nanoseconds in decimal.
    pub open spec fn text(&self) -> Seq<char> {
        decimal(self.nanos())
    }

    /// The instant that lies `secs` seconds and `subsec_nanos` nanoseconds
    /// after the epoch, where a timestamp can hold it.
    pub fn from_parts(secs: u64, subsec_nanos: u32) -> (made: Option<Timestamp>)
        ensures
            made is Some <==> parts_fit(secs, subsec_nanos),
            made matches Some(t) ==> t.nanos() == nanos_of_parts(secs, subsec_nanos),
    {
        if subsec_nanos as u64 >= NANOSECONDS_PER_SECOND {
            return None;
        }
        assert(secs * NANOSECONDS_PER_SECOND <= u64::MAX * NANOSECONDS_PER_SECOND)
            by (nonlinear_arith)
            requires
                secs <= u64::MAX,
        ;
        let total: u128 = secs as u128 * NANOSECONDS_PER_SECOND as u128 + subsec_nanos as u128;
        if total > i64::MAX as u128 {
            None
        } else {
            Some(Timestamp { nanos: total as i64 })
        }
    }

    /// The timestamp of a clock instant: its nanoseconds since the epoch.
    /// An instant before the epoch has no timestamp, nor one too far ahead
    /// for a signed 64-bit number of nanoseconds.
    pub fn new(time: &SystemTime) -> (made: Option<Timestamp>)
        ensures
            made is Some <==> (elapsed_since_epoch(*time) matches Some((secs, subsec_nanos))
                && parts_fit(secs, subsec_nanos)),
            made matches Some(t) ==> (elapsed_since_epoch(*time) matches Some(
                (secs, subsec_nanos),
            ) && t.nanos() == nanos_of_parts(secs, subsec_nanos)),
    {
        Timestamp::from_elapsed(since_epoch(time))
    }

    /// The timestamp of an instant by the time from the epoch to it, in
    /// whole seconds and further nanoseconds. An instant before the epoch,
    /// to which no time leads from the epoch, has no timestamp.
    pub fn from_elapsed(elapsed: Option<(u64, u32)>) -> (made: Option<Timestamp>)
        ensures
            made is Some <==> (elapsed matches Some((secs, subsec_nanos)) && parts_fit(
                secs,
                subsec_nanos,
            )),
            made matches Some(t) ==> (elapsed matches Some((secs, subsec_nanos)) && t.nanos()
                == nanos_of_parts(secs, subsec_nanos)),
    {
        match elapsed {
            Some((secs, subsec_nanos)) => Timestamp::from_parts(secs, subsec_nanos),
            None => None,
        }
    }

    /// The nanoseconds from the epoch to this instant.
    pub fn as_nanos(&self) -> (n: i64)
        ensures
            n == self.nanos(),
            n >= 0,
    {
        proof {
            use_type_invariant(self);
        }
        self.nanos
    }

    /// Appends the nanoseconds since the epoch, in decimal, to `data`.
    pub fn append(&self, data: &mut String)
        ensures
            final(data)@ == old(data)@ + self.text(),
    {
        append_signed(data, self.nanos);
    }
}

} // verus!
