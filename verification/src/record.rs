//! Records: the values of one instance of a record type, by member name.

use crate::text::same_text;
use crate::measurement::{
    append_integer, boolean_rendering, integer_rendering, text_rendering, FieldValue, Timestamp,
};
use vstd::prelude::*;

verus! {

/// A field value of one of the kinds that the database stores.
pub enum Scalar {
    /// A floating-point number, held as its decimal text.
    Float(String),
    /// An integer of any supported width; the widest are `i64` and `u32`.
    Integer(i64),
    /// A boolean.
    Boolean(bool),
    /// A string.
    Text(String),
}

impl Scalar {
    /// An unsigned integer as a scalar. The database has no unsigned 64-bit
    /// integers: a number that 32 bits cannot hold is refused.
    pub fn unsigned(value: u64) -> (made: Option<Scalar>)
        ensures
            made is Some <==> value <= u32::MAX,
            made matches Some(scalar) ==> scalar == Scalar::Integer(value as i64),
    {
        if value <= u32::MAX as u64 {
            Some(Scalar::Integer(value as i64))
        } else {
            None
        }
    }
}

/// A scalar on the wire: a float as its decimal text, an integer with the
/// suffix `i`, a boolean as `T` or `F`, a string between double quotes.
pub open spec fn scalar_rendering(scalar: Scalar) -> Seq<char> {
    match scalar {
        Scalar::Float(text) => text@,
        Scalar::Integer(i) => integer_rendering(i as int),
        Scalar::Boolean(b) => boolean_rendering(b),
        Scalar::Text(text) => text_rendering(text@),
    }
}

impl FieldValue for Scalar {
    open spec fn rendering(&self) -> Seq<char> {
        scalar_rendering(*self)
    }

    fn append(&self, data: &mut String) {
        match self {
            Scalar::Float(text) => data.push_str(text.as_str()),
            Scalar::Integer(i) => append_integer(data, *i),
            Scalar::Boolean(b) => b.append(data),
            Scalar::Text(text) => text.append(data),
        }
    }
}

/// What one member of a record holds.
pub enum MemberValue {
    /// A value that can be a field; a text can be a tag as well.
    Scalar(Scalar),
    /// An instant, for the member that is the timestamp.
    Instant(Timestamp),
}

/// One record: its members' names and values. Where a name occurs twice,
/// the first occurrence is the member.
pub struct Record {
    pub members: Vec<(String, MemberValue)>,
}

/// The value of the member called `name`, if the record has one.
pub open spec fn member_value(members: Seq<(String, MemberValue)>, name: Seq<char>) -> Option<
    MemberValue,
>
    decreases members.len(),
{
    if members.len() == 0 {
        None
    } else if members[0].0@ == name {
        Some(members[0].1)
    } else {
        member_value(members.skip(1), name)
    }
}

impl Record {
    /// A record of the given members.
    pub fn new(members: Vec<(String, MemberValue)>) -> (record: Record)
        ensures
            record.members == members,
    {
        Record { members: members }
    }

    /// The value of the member called `name`.
    pub fn get(&self, name: &str) -> (found: Option<&MemberValue>)
        ensures
            found matches Some(value) ==> member_value(self.members@, name@) == Some(*value),
            found is None ==> member_value(self.members@, name@) is None,
    {
        let mut i: usize = 0;
        assert(self.members@.skip(0) =~= self.members@);
        while i < self.members.len()
            invariant
                i <= self.members@.len(),
                member_value(self.members@, name@) == member_value(
                    self.members@.skip(i as int),
                    name@,
                ),
            decreases self.members@.len() - i,
        {
            proof {
                let rest = self.members@.skip(i as int);
                assert(rest[0] == self.members@[i as int]);
                assert(rest.skip(1) =~= self.members@.skip(i + 1));
            }
            if same_text(self.members[i].0.as_str(), name) {
                return Some(&self.members[i].1);
            }
            i = i + 1;
        }
        None
    }
}

} // verus!
