//! Classification: from the declaration of a record type to the plan that
//! writes its records, and the records bound to it.

use crate::attribute::{
    attr_of_attrs, attrs_supported, parse_influx_db_attrs, AttrView, ClassifyError, InfluxAttr,
};
use crate::declaration::{
    classified_body, field_views, parse_influx_struct_fields, DeriveInput, FieldView,
    InfluxStructField,
};
use crate::measurement::{FieldValue, Measurement};
use crate::plan::{
    lay_out, lemma_plan_writes_line, member_fits, pair_text, plan, record_fits, record_line,
    step_text, step_views, steps_for, steps_text, with_role, Role, Step, StepView,
};
use crate::record::{scalar_rendering, MemberValue, Record, Scalar};
use vstd::prelude::*;

verus! {

/// The name of a record type on the wire: its rename where the type has
/// one, else the name it is declared under.
pub open spec fn measurement_name(ident: Seq<char>, attr: Option<AttrView>) -> Seq<char> {
    match attr {
        Some(AttrView { name: Some(name), .. }) => name,
        _ => ident,
    }
}

/// What classifying a declaration gives: the type's name on the wire and
/// its members with a role, or the first fault met. The members are read
/// before the type's own annotations; a type without a field is refused,
/// and so is one with more than one timestamp.
pub open spec fn classification_of(input: DeriveInput) -> Result<
    (Seq<char>, Seq<FieldView>),
    ClassifyError,
> {
    match classified_body(input.body) {
        Err(e) => Err(e),
        Ok(fields) => if !attrs_supported(input.attrs@) {
            Err(ClassifyError::UnknownAttribute)
        } else if with_role(fields, Role::Field).len() == 0 {
            Err(ClassifyError::NoFields)
        } else if with_role(fields, Role::Timestamp).len() > 1 {
            Err(ClassifyError::ManyTimestamps)
        } else {
            Ok((measurement_name(input.ident@, attr_of_attrs(input.attrs@)), fields))
        },
    }
}

/// A record type without a field is not classified, nor one with more
/// than one timestamp: whatever is classified has at least one field and at
/// most one timestamp.
pub proof fn lemma_classification_bounds(input: DeriveInput)
    ensures
        classified_body(input.body) matches Ok(fields) && with_role(fields, Role::Field).len() == 0
            ==> classification_of(input) is Err,
        classified_body(input.body) matches Ok(fields) && with_role(
            fields,
            Role::Timestamp,
        ).len() > 1 ==> classification_of(input) is Err,
        classification_of(input) matches Ok((_, fields)) ==> with_role(fields, Role::Field).len()
            >= 1 && with_role(fields, Role::Timestamp).len() <= 1,
{
}

/// A classified record type: its name on the wire, its members with a
/// role, and the steps that write one of its records.
#[derive(Debug)]
pub struct Classification {
    name: String,
    members: Vec<InfluxStructField>,
    steps: Vec<Step>,
}

impl Classification {
    #[verifier::type_invariant]
    spec fn well_formed(self) -> bool {
        &&& step_views(self.steps@) == plan(self.name@, field_views(self.members@))
        &&& with_role(field_views(self.members@), Role::Field).len() >= 1
        &&& with_role(field_views(self.members@), Role::Timestamp).len() <= 1
    }

    /// The type's name on the wire.
    pub closed spec fn name(&self) -> Seq<char> {
        self.name@
    }

    /// The members with a role, in the order declared.
    pub closed spec fn members(&self) -> Seq<FieldView> {
        field_views(self.members@)
    }

    /// The steps that write a record of the type.
    pub closed spec fn steps(&self) -> Seq<StepView> {
        step_views(self.steps@)
    }

    /// The type's name on the wire.
    pub fn measurement_name(&self) -> (name: &String)
        ensures
            name@ == self.name(),
    {
        &self.name
    }

    /// The members with a role, in the order declared: at least one of them
    /// is a field, and at most one the timestamp.
    pub fn classified_fields(&self) -> (members: &Vec<InfluxStructField>)
        ensures
            field_views(members@) == self.members(),
            with_role(self.members(), Role::Field).len() >= 1,
            with_role(self.members(), Role::Timestamp).len() <= 1,
    {
        proof {
            use_type_invariant(self);
        }
        &self.members
    }

    /// The steps that write a record of the type: the plan of its name and
    /// members.
    pub fn plan(&self) -> (steps: &Vec<Step>)
        ensures
            step_views(steps@) == self.steps(),
            self.steps() == plan(self.name(), self.members()),
    {
        proof {
            use_type_invariant(self);
        }
        &self.steps
    }
}

/// Classifies a record type from its declaration.
pub fn impl_measurement(input: &DeriveInput) -> (made: Result<Classification, ClassifyError>)
    ensures
        made matches Ok(c) ==> classification_of(*input) == Ok::<_, ClassifyError>(
            (c.name(), c.members()),
        ) && c.steps() == plan(c.name(), c.members()),
        made matches Err(e) ==> classification_of(*input) == Err::<(Seq<char>, Seq<FieldView>), _>(
            e,
        ),
{
    let struct_fields = match parse_influx_struct_fields(input) {
        Ok(fields) => fields,
        Err(e) => {
            return Err(e);
        },
    };
    let struct_attr = match parse_influx_db_attrs(input.attrs.as_slice()) {
        Ok(attr) => attr,
        Err(e) => {
            return Err(e);
        },
    };
    let measurement_name = match struct_attr {
        Some(InfluxAttr { name: Some(name), .. }) => name,
        _ => input.ident.clone(),
    };
    let tags = steps_for(&struct_fields, Role::Tag);
    let fields = steps_for(&struct_fields, Role::Field);
    let timestamps = steps_for(&struct_fields, Role::Timestamp);
    assert(step_views(fields@).len() == fields@.len());
    assert(step_views(timestamps@).len() == timestamps@.len());
    if fields.len() == 0 {
        return Err(ClassifyError::NoFields);
    }
    if timestamps.len() > 1 {
        return Err(ClassifyError::ManyTimestamps);
    }
    let steps = lay_out(measurement_name.as_str(), tags, fields, timestamps);
    Ok(Classification { name: measurement_name, members: struct_fields, steps: steps })
}

/// A record together with the classification of its type, which it fits:
/// the record has a value of the right kind for every member with a role.
pub struct Bound<'a> {
    classification: &'a Classification,
    record: &'a Record,
}

impl Classification {
    /// Whether the record has a value of the right kind for the member in
    /// each of its roles.
    fn member_fits(member: &InfluxStructField, record: &Record) -> (fits: bool)
        ensures
            fits == member_fits(member@, record.members@),
    {
        let name = member.field_name();
        let value = record.get(name.as_str());
        if member.is_tag() {
            match value {
                Some(MemberValue::Scalar(Scalar::Text(_))) => {},
                _ => {
                    return false;
                },
            }
        }
        if member.is_field() {
            match value {
                Some(MemberValue::Scalar(_)) => {},
                _ => {
                    return false;
                },
            }
        }
        if member.is_timestamp() {
            match value {
                Some(MemberValue::Instant(_)) => {},
                _ => {
                    return false;
                },
            }
        }
        true
    }

    /// Whether the record fits: it has a text for every tag, a scalar for
    /// every field and an instant for the timestamp.
    pub fn fits(&self, record: &Record) -> (fits: bool)
        ensures
            fits == record_fits(self.members(), record.members@),
    {
        let ghost views = field_views(self.members@);
        let mut i: usize = 0;
        while i < self.members.len()
            invariant
                i <= self.members@.len(),
                views == field_views(self.members@),
                forall|k: int| 0 <= k < i ==> #[trigger] member_fits(views[k], record.members@),
            decreases self.members@.len() - i,
        {
            if !Classification::member_fits(&self.members[i], record) {
                assert(views[i as int] == self.members@[i as int]@);
                return false;
            }
            i = i + 1;
        }
        true
    }

    /// Pairs a record with this classification, where the record fits.
    pub fn bind<'a>(&'a self, record: &'a Record) -> (bound: Option<Bound<'a>>)
        ensures
            bound is Some <==> record_fits(self.members(), record.members@),
            bound matches Some(b) ==> b.classification() == self && b.record() == record,
    {
        if self.fits(record) {
            Some(Bound { classification: self, record: record })
        } else {
            None
        }
    }
}

impl<'a> Bound<'a> {
    #[verifier::type_invariant]
    spec fn fitting(self) -> bool {
        record_fits(self.classification.members(), self.record.members@)
    }

    /// The classification of the record's type.
    pub closed spec fn classification(&self) -> &Classification {
        self.classification
    }

    /// The record.
    pub closed spec fn record(&self) -> &Record {
        self.record
    }

    /// The line of the record.
    pub open spec fn line(&self) -> Seq<char> {
        record_line(
            self.classification().name(),
            self.classification().members(),
            self.record().members@,
        )
    }

    /// Writes what one step writes for the record.
    fn run_step(step: &Step, record: &Record, data: &mut String)
        ensures
            final(data)@ == old(data)@ + step_text(step@, record.members@),
    {
        match step {
            Step::Literal(text) => {
                data.push_str(text.as_str());
            },
            Step::Tag { name, member } => {
                match record.get(member.as_str()) {
                    Some(MemberValue::Scalar(Scalar::Text(value))) => {
                        data.push_str(name.as_str());
                        data.push('=');
                        data.push_str(value.as_str());
                        assert(data@ =~= old(data)@ + pair_text(name@, value@));
                    },
                    _ => {
                        assert(data@ =~= old(data)@ + Seq::<char>::empty());
                    },
                }
            },
            Step::Field { name, member } => {
                match record.get(member.as_str()) {
                    Some(MemberValue::Scalar(value)) => {
                        data.push_str(name.as_str());
                        data.push('=');
                        value.append(data);
                        assert(data@ =~= old(data)@ + pair_text(name@, scalar_rendering(*value)));
                    },
                    _ => {
                        assert(data@ =~= old(data)@ + Seq::<char>::empty());
                    },
                }
            },
            Step::Timestamp { member } => {
                match record.get(member.as_str()) {
                    Some(MemberValue::Instant(instant)) => {
                        instant.append(data);
                    },
                    _ => {
                        assert(data@ =~= old(data)@ + Seq::<char>::empty());
                    },
                }
            },
        }
    }
}

impl<'a> Measurement for Bound<'a> {
    open spec fn payload(&self) -> Seq<char> {
        self.line()
    }

    fn to_data(&self, bytes: &mut String) {
        let steps = self.classification.plan();
        let ghost views = step_views(steps@);
        let ghost members = self.record.members@;
        proof {
            let fields = self.classification.members();
            use_type_invariant(self.classification);
            lemma_plan_writes_line(self.classification.name(), fields, members);
        }
        let mut i: usize = 0;
        assert(bytes@ =~= old(bytes)@ + steps_text(views.subrange(0, 0), members));
        while i < steps.len()
            invariant
                i <= steps@.len(),
                views == step_views(steps@),
                members == self.record.members@,
                bytes@ == old(bytes)@ + steps_text(views.subrange(0, i as int), members),
            decreases steps@.len() - i,
        {
            proof {
                let more = views.subrange(0, i + 1);
                assert(more.drop_last() =~= views.subrange(0, i as int));
                assert(more.last() == steps@[i as int]@);
                assert(old(bytes)@ + steps_text(views.subrange(0, i as int), members) + step_text(
                    steps@[i as int]@,
                    members,
                ) =~= old(bytes)@ + steps_text(more, members));
            }
            Bound::run_step(&steps[i], self.record, bytes);
            i = i + 1;
        }
        proof {
            assert(views.subrange(0, steps@.len() as int) =~= views);
        }
    }
}

} // verus!
