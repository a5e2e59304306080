//! The declaration of a record type, and the members of it that have a role.

use crate::attribute::{
    attr_of_attrs, attrs_supported, parse_influx_db_attrs, AttrView, Attribute, ClassifyError,
    InfluxAttr,
};
use vstd::prelude::*;

verus! {

/// One member in the declaration of a record type.
#[derive(Debug)]
pub struct StructField {
    /// The member's name; a member of a tuple struct has none.
    pub ident: Option<String>,
    /// The member's annotations, in the order written.
    pub attrs: Vec<Attribute>,
}

/// The shape of a declaration.
#[derive(Debug)]
pub enum Body {
    /// A struct with members between braces.
    Struct(Vec<StructField>),
    /// A tuple struct, a unit struct or an enum.
    Other,
}

/// The declaration of a record type.
#[derive(Debug)]
pub struct DeriveInput {
    /// The type's name.
    pub ident: String,
    /// The annotations of the type itself.
    pub attrs: Vec<Attribute>,
    /// The type's members.
    pub body: Body,
}

/// A member that has a role: its declared name and what its annotations say.
#[derive(Debug)]
pub struct InfluxStructField {
    field_name: String,
    attr: InfluxAttr,
}

/// What an [`InfluxStructField`] holds.
pub struct FieldView {
    pub field_name: Seq<char>,
    pub attr: AttrView,
}

/// The name under which a member goes on the wire: its rename where it has
/// one, else its declared name.
pub open spec fn wire_name(field: FieldView) -> Seq<char> {
    match field.attr.name {
        Some(name) => name,
        None => field.field_name,
    }
}

impl View for InfluxStructField {
    type V = FieldView;

    closed spec fn view(&self) -> FieldView {
        FieldView { field_name: self.field_name@, attr: self.attr@ }
    }
}

impl InfluxStructField {
    /// A member of the given declared name and annotations.
    pub fn new(field_name: String, attr: InfluxAttr) -> (field: Self)
        ensures
            field@ == (FieldView { field_name: field_name@, attr: attr@ }),
    {
        InfluxStructField { field_name: field_name, attr: attr }
    }

    /// The member's declared name.
    pub fn field_name(&self) -> (name: String)
        ensures
            name@ == self@.field_name,
    {
        self.field_name.clone()
    }

    /// The name under which the member goes on the wire.
    pub fn name(&self) -> (name: String)
        ensures
            name@ == wire_name(self@),
    {
        match &self.attr.name {
            Some(name) => name.clone(),
            None => self.field_name.clone(),
        }
    }

    /// Whether the member is a tag.
    pub fn is_tag(&self) -> (b: bool)
        ensures
            b == self@.attr.is_tag,
    {
        self.attr.is_tag
    }

    /// Whether the member is a field.
    pub fn is_field(&self) -> (b: bool)
        ensures
            b == self@.attr.is_field,
    {
        self.attr.is_field
    }

    /// Whether the member is the timestamp.
    pub fn is_timestamp(&self) -> (b: bool)
        ensures
            b == self@.attr.is_timestamp,
    {
        self.attr.is_timestamp
    }
}

/// The views of a list of members.
pub open spec fn field_views(fields: Seq<InfluxStructField>) -> Seq<FieldView> {
    fields.map_values(|field: InfluxStructField| field@)
}

/// What reading the members of a declaration gives: the members that have
/// an `influx` annotation, in the order declared, or the first fault met. A
/// member's annotations are read before its name is asked for.
pub open spec fn classified(fields: Seq<StructField>) -> Result<Seq<FieldView>, ClassifyError>
    decreases fields.len(),
{
    if fields.len() == 0 {
        Ok(Seq::empty())
    } else {
        match classified(fields.drop_last()) {
            Err(e) => Err(e),
            Ok(before) => {
                let member = fields.last();
                if !attrs_supported(member.attrs@) {
                    Err(ClassifyError::UnknownAttribute)
                } else {
                    match (attr_of_attrs(member.attrs@), member.ident) {
                        (None, _) => Ok(before),
                        (Some(_), None) => Err(ClassifyError::UnnamedMember),
                        (Some(attr), Some(ident)) => Ok(
                            before.push(FieldView { field_name: ident@, attr: attr }),
                        ),
                    }
                }
            },
        }
    }
}

/// What reading a declaration's body gives: only a struct with members
/// between braces can be classified.
pub open spec fn classified_body(body: Body) -> Result<Seq<FieldView>, ClassifyError> {
    match body {
        Body::Struct(fields) => classified(fields@),
        Body::Other => Err(ClassifyError::NotAStruct),
    }
}

/// Reads the members of a declaration that have a role.
pub fn parse_influx_struct_fields(input: &DeriveInput) -> (parsed: Result<
    Vec<InfluxStructField>,
    ClassifyError,
>)
    ensures
        parsed matches Ok(fields) ==> classified_body(input.body) == Ok::<_, ClassifyError>(
            field_views(fields@),
        ),
        parsed matches Err(e) ==> classified_body(input.body) == Err::<Seq<FieldView>, _>(e),
{
    let struct_fields = match &input.body {
        Body::Struct(fields) => fields,
        Body::Other => {
            return Err(ClassifyError::NotAStruct);
        },
    };
    let mut found: Vec<InfluxStructField> = Vec::new();
    let mut i: usize = 0;
    assert(field_views(found@) =~= Seq::empty());
    while i < struct_fields.len()
        invariant
            i <= struct_fields@.len(),
            classified_body(input.body) == classified(struct_fields@),
            classified(struct_fields@.subrange(0, i as int)) == Ok::<_, ClassifyError>(
                field_views(found@),
            ),
        decreases struct_fields@.len() - i,
    {
        let member = &struct_fields[i];
        proof {
            let more = struct_fields@.subrange(0, i + 1);
            assert(more.drop_last() =~= struct_fields@.subrange(0, i as int));
            assert(more.last() == struct_fields@[i as int]);
        }
        let ghost before = found@;
        match parse_influx_db_attrs(member.attrs.as_slice()) {
            Err(e) => {
                proof {
                    lemma_classified_fault(struct_fields@, i + 1);
                }
                return Err(e);
            },
            Ok(None) => {},
            Ok(Some(attr)) => {
                match &member.ident {
                    None => {
                        proof {
                            lemma_classified_fault(struct_fields@, i + 1);
                        }
                        return Err(ClassifyError::UnnamedMember);
                    },
                    Some(ident) => {
                        let field = InfluxStructField::new(ident.clone(), attr);
                        found.push(field);
                        assert(field_views(found@) =~= field_views(before).push(field@));
                    },
                }
            },
        }
        i = i + 1;
    }
    proof {
        assert(struct_fields@.subrange(0, struct_fields@.len() as int) =~= struct_fields@);
    }
    Ok(found)
}

/// A fault met in the first members is the fault of the whole list.
proof fn lemma_classified_fault(fields: Seq<StructField>, upto: int)
    requires
        0 <= upto <= fields.len(),
        classified(fields.subrange(0, upto)) is Err,
    ensures
        classified(fields) == classified(fields.subrange(0, upto)),
    decreases fields.len() - upto,
{
    if upto == fields.len() {
        assert(fields.subrange(0, upto) =~= fields);
    } else {
        let more = fields.subrange(0, upto + 1);
        assert(more.drop_last() =~= fields.subrange(0, upto));
        lemma_classified_fault(fields, upto + 1);
    }
}

} // verus!
