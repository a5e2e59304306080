//! The plan of a record type: the steps that write one of its records as
//! a line, and what they write.

use crate::declaration::{field_views, wire_name, FieldView, InfluxStructField};
use crate::line::{
    joined, lemma_line_without_tags, lemma_line_without_timestamp, line_text, tag_section,
    timestamp_section,
};
use crate::record::{member_value, scalar_rendering, MemberValue, Scalar};
use itertools::Itertools;
use vstd::prelude::*;

verus! {

/// What a member can be on the wire.
#[derive(Debug, Clone, Copy, PartialEq, Eq, Structural)]
pub enum Role {
    Tag,
    Field,
    Timestamp,
}

/// Whether the member's annotations give it the role. A member can have
/// more than one.
pub open spec fn has_role(field: FieldView, role: Role) -> bool {
    match role {
        Role::Tag => field.attr.is_tag,
        Role::Field => field.attr.is_field,
        Role::Timestamp => field.attr.is_timestamp,
    }
}

/// The members that have the role, in the order declared.
pub open spec fn with_role(fields: Seq<FieldView>, role: Role) -> Seq<FieldView>
    decreases fields.len(),
{
    if fields.len() == 0 {
        Seq::empty()
    } else {
        let before = with_role(fields.drop_last(), role);
        if has_role(fields.last(), role) {
            before.push(fields.last())
        } else {
            before
        }
    }
}

/// One step of writing a line.
#[derive(Debug)]
pub enum Step {
    /// Write the text as it stands.
    Literal(String),
    /// Write `name=` and the text that the member holds.
    Tag { name: String, member: String },
    /// Write `name=` and the member's value as a field value.
    Field { name: String, member: String },
    /// Write the member's instant.
    Timestamp { member: String },
}

/// What a [`Step`] holds, with texts as sequences of characters.
pub enum StepView {
    Literal(Seq<char>),
    Tag { name: Seq<char>, member: Seq<char> },
    Field { name: Seq<char>, member: Seq<char> },
    Timestamp { member: Seq<char> },
}

impl View for Step {
    type V = StepView;

    open spec fn view(&self) -> StepView {
        match self {
            Step::Literal(text) => StepView::Literal(text@),
            Step::Tag { name, member } => StepView::Tag { name: name@, member: member@ },
            Step::Field { name, member } => StepView::Field { name: name@, member: member@ },
            Step::Timestamp { member } => StepView::Timestamp { member: member@ },
        }
    }
}

impl Clone for Step {
    fn clone(&self) -> (copy: Step)
        ensures
            copy@ == self@,
    {
        match self {
            Step::Literal(text) => Step::Literal(text.clone()),
            Step::Tag { name, member } => Step::Tag { name: name.clone(), member: member.clone() },
            Step::Field { name, member } => Step::Field {
                name: name.clone(),
                member: member.clone(),
            },
            Step::Timestamp { member } => Step::Timestamp { member: member.clone() },
        }
    }
}

/// The views of a list of steps.
pub open spec fn step_views(steps: Seq<Step>) -> Seq<StepView> {
    steps.map_values(|step: Step| step@)
}

/// The step that writes a member in a role.
pub open spec fn step_of(field: FieldView, role: Role) -> StepView {
    match role {
        Role::Tag => StepView::Tag { name: wire_name(field), member: field.field_name },
        Role::Field => StepView::Field { name: wire_name(field), member: field.field_name },
        Role::Timestamp => StepView::Timestamp { member: field.field_name },
    }
}

/// The steps that write the members of one role, in the order declared.
pub open spec fn role_steps(fields: Seq<FieldView>, role: Role) -> Seq<StepView> {
    with_role(fields, role).map_values(|field: FieldView| step_of(field, role))
}

/// The items with the separator between each two neighbours, and none at
/// either end.
pub open spec fn interspersed<T>(items: Seq<T>, separator: T) -> Seq<T>
    decreases items.len(),
{
    if items.len() <= 1 {
        items
    } else {
        interspersed(items.drop_last(), separator).push(separator).push(items.last())
    }
}

/// The step that writes one comma.
pub open spec fn comma() -> StepView {
    StepView::Literal(seq![','])
}

/// The step that writes one space.
pub open spec fn space() -> StepView {
    StepView::Literal(seq![' '])
}

/// The comma after the name, which is written only where tags follow.
pub open spec fn tag_lead(tags: Seq<StepView>) -> Seq<StepView> {
    if tags.len() == 0 {
        Seq::empty()
    } else {
        seq![comma()]
    }
}

/// The steps of a line, from those of its parts: the name; where there
/// are tags, a comma and the tags with commas between them; a space; the
/// fields with commas between them; a space; the timestamp.
pub open spec fn laid_out(
    name: Seq<char>,
    tags: Seq<StepView>,
    fields: Seq<StepView>,
    timestamps: Seq<StepView>,
) -> Seq<StepView> {
    seq![StepView::Literal(name)] + tag_lead(tags) + interspersed(tags, comma()) + seq![space()]
        + interspersed(fields, comma()) + seq![space()] + timestamps
}

/// The steps that write a record of a type whose name on the wire is `name`
/// and whose members with a role are `fields`.
pub open spec fn plan(name: Seq<char>, fields: Seq<FieldView>) -> Seq<StepView> {
    laid_out(
        name,
        role_steps(fields, Role::Tag),
        role_steps(fields, Role::Field),
        role_steps(fields, Role::Timestamp),
    )
}

/// `Itertools::intersperse` over the steps, collected: the steps in their
/// order, with a clone of `separator` between each two neighbours.
#[verifier::external_body]
fn intersperse_steps(steps: Vec<Step>, separator: Step) -> (laid: Vec<Step>)
    ensures
        step_views(laid@) == interspersed(step_views(steps@), separator@),
{
    Itertools::intersperse(steps.into_iter(), separator).collect()
}

/// The steps that write the members of one role.
pub fn steps_for(members: &Vec<InfluxStructField>, role: Role) -> (steps: Vec<Step>)
    ensures
        step_views(steps@) == role_steps(field_views(members@), role),
{
    let mut steps: Vec<Step> = Vec::new();
    let mut i: usize = 0;
    let ghost views = field_views(members@);
    assert(step_views(steps@) =~= role_steps(views.subrange(0, 0), role));
    while i < members.len()
        invariant
            i <= members@.len(),
            views == field_views(members@),
            step_views(steps@) == role_steps(views.subrange(0, i as int), role),
        decreases members@.len() - i,
    {
        let member = &members[i];
        let ghost before = steps@;
        proof {
            let more = views.subrange(0, i + 1);
            assert(more.drop_last() =~= views.subrange(0, i as int));
            assert(more.last() == member@);
        }
        let wanted = match role {
            Role::Tag => member.is_tag(),
            Role::Field => member.is_field(),
            Role::Timestamp => member.is_timestamp(),
        };
        if wanted {
            let step = match role {
                Role::Tag => Step::Tag { name: member.name(), member: member.field_name() },
                Role::Field => Step::Field { name: member.name(), member: member.field_name() },
                Role::Timestamp => Step::Timestamp { member: member.field_name() },
            };
            steps.push(step);
            assert(step_views(steps@) =~= step_views(before).push(step_of(member@, role)));
            assert(role_steps(views.subrange(0, i + 1), role) =~= role_steps(
                views.subrange(0, i as int),
                role,
            ).push(step_of(member@, role)));
        }
        i = i + 1;
    }
    proof {
        assert(views.subrange(0, members@.len() as int) =~= views);
    }
    steps
}

/// The step that writes the given text.
fn literal(text: &str) -> (step: Step)
    ensures
        step@ == StepView::Literal(text@),
{
    Step::Literal(text.to_owned())
}

/// Lays out the plan of a type from its name and the steps of its three
/// roles.
pub fn lay_out(
    name: &str,
    tags: Vec<Step>,
    fields: Vec<Step>,
    timestamps: Vec<Step>,
) -> (steps: Vec<Step>)
    ensures
        step_views(steps@) == laid_out(
            name@,
            step_views(tags@),
            step_views(fields@),
            step_views(timestamps@),
        ),
{
    proof {
        reveal_strlit(",");
        reveal_strlit(" ");
        assert(","@ =~= seq![',']);
        assert(" "@ =~= seq![' ']);
    }
    let ghost tag_views = step_views(tags@);
    let ghost field_views = step_views(fields@);
    let ghost timestamp_views = step_views(timestamps@);
    let mut timestamps = timestamps;
    let mut steps: Vec<Step> = Vec::new();
    steps.push(literal(name));
    if tags.len() > 0 {
        steps.push(literal(","));
    }
    let ghost lead = step_views(steps@);
    assert(lead =~= seq![StepView::Literal(name@)] + tag_lead(tag_views));
    let mut laid_tags = intersperse_steps(tags, literal(","));
    let ghost tag_part = step_views(laid_tags@);
    steps.append(&mut laid_tags);
    steps.push(literal(" "));
    let mut laid_fields = intersperse_steps(fields, literal(","));
    let ghost field_part = step_views(laid_fields@);
    steps.append(&mut laid_fields);
    steps.push(literal(" "));
    steps.append(&mut timestamps);
    assert(step_views(steps@) =~= lead + tag_part + seq![space()] + field_part + seq![space()]
        + timestamp_views);
    steps
}

/// The text that the member called `member` gives as a tag: the member
/// must hold a text.
pub open spec fn tag_value(record: Seq<(String, MemberValue)>, member: Seq<char>) -> Option<
    Seq<char>,
> {
    match member_value(record, member) {
        Some(MemberValue::Scalar(Scalar::Text(text))) => Some(text@),
        _ => None,
    }
}

/// The text that the member called `member` gives as a field value: the
/// member must hold a scalar.
pub open spec fn field_value(record: Seq<(String, MemberValue)>, member: Seq<char>) -> Option<
    Seq<char>,
> {
    match member_value(record, member) {
        Some(MemberValue::Scalar(scalar)) => Some(scalar_rendering(scalar)),
        _ => None,
    }
}

/// The text that the member called `member` gives as a timestamp: the
/// member must hold an instant.
pub open spec fn instant_value(record: Seq<(String, MemberValue)>, member: Seq<char>) -> Option<
    Seq<char>,
> {
    match member_value(record, member) {
        Some(MemberValue::Instant(instant)) => Some(instant.text()),
        _ => None,
    }
}

/// A name, an equals sign and a value.
pub open spec fn pair_text(name: Seq<char>, value: Seq<char>) -> Seq<char> {
    name + seq!['='] + value
}

/// What a step writes for a record, where the record has what the step
/// reads.
pub open spec fn step_output(step: StepView, record: Seq<(String, MemberValue)>) -> Option<
    Seq<char>,
> {
    match step {
        StepView::Literal(text) => Some(text),
        StepView::Tag { name, member } => match tag_value(record, member) {
            Some(value) => Some(pair_text(name, value)),
            None => None,
        },
        StepView::Field { name, member } => match field_value(record, member) {
            Some(value) => Some(pair_text(name, value)),
            None => None,
        },
        StepView::Timestamp { member } => instant_value(record, member),
    }
}

/// What a step writes for a record; nothing where the record lacks what the
/// step reads.
pub open spec fn step_text(step: StepView, record: Seq<(String, MemberValue)>) -> Seq<char> {
    match step_output(step, record) {
        Some(text) => text,
        None => Seq::empty(),
    }
}

/// Whether the record has what each of the steps reads.
pub open spec fn steps_fit(steps: Seq<StepView>, record: Seq<(String, MemberValue)>) -> bool {
    forall|i: int| 0 <= i < steps.len() ==> (#[trigger] step_output(steps[i], record)) is Some
}

/// What the steps write for a record, one after the other.
pub open spec fn steps_text(steps: Seq<StepView>, record: Seq<(String, MemberValue)>) -> Seq<
    char,
>
    decreases steps.len(),
{
    if steps.len() == 0 {
        Seq::empty()
    } else {
        steps_text(steps.drop_last(), record) + step_text(steps.last(), record)
    }
}

/// What each of the steps writes for a record.
pub open spec fn step_texts(steps: Seq<StepView>, record: Seq<(String, MemberValue)>) -> Seq<
    Seq<char>,
> {
    steps.map_values(|step: StepView| step_text(step, record))
}

/// Whether the record has a value of the right kind for each role of the
/// member: a text for a tag, a scalar for a field, an instant for a
/// timestamp.
pub open spec fn member_fits(field: FieldView, record: Seq<(String, MemberValue)>) -> bool {
    &&& field.attr.is_tag ==> tag_value(record, field.field_name) is Some
    &&& field.attr.is_field ==> field_value(record, field.field_name) is Some
    &&& field.attr.is_timestamp ==> instant_value(record, field.field_name) is Some
}

/// Whether the record has a value of the right kind for every member.
pub open spec fn record_fits(fields: Seq<FieldView>, record: Seq<(String, MemberValue)>) -> bool {
    forall|i: int| 0 <= i < fields.len() ==> #[trigger] member_fits(fields[i], record)
}

/// The text of the timestamp: that of the one member with that role, where
/// there is one.
pub open spec fn timestamp_text(fields: Seq<FieldView>, record: Seq<(String, MemberValue)>)
    -> Option<Seq<char>> {
    let steps = role_steps(fields, Role::Timestamp);
    if steps.len() == 0 {
        None
    } else {
        Some(step_text(steps[0], record))
    }
}

/// The line of a record of a type whose name on the wire is `name` and
/// whose members with a role are `fields`.
pub open spec fn record_line(
    name: Seq<char>,
    fields: Seq<FieldView>,
    record: Seq<(String, MemberValue)>,
) -> Seq<char> {
    line_text(
        name,
        step_texts(role_steps(fields, Role::Tag), record),
        step_texts(role_steps(fields, Role::Field), record),
        timestamp_text(fields, record),
    )
}

/// What two lists of steps write, one after the other, is what their
/// concatenation writes.
pub proof fn lemma_steps_text_concat(
    first: Seq<StepView>,
    second: Seq<StepView>,
    record: Seq<(String, MemberValue)>,
)
    ensures
        steps_text(first + second, record) == steps_text(first, record) + steps_text(
            second,
            record,
        ),
    decreases second.len(),
{
    if second.len() == 0 {
        assert(first + second =~= first);
        assert(steps_text(first, record) + Seq::<char>::empty() =~= steps_text(first, record));
    } else {
        assert((first + second).drop_last() =~= first + second.drop_last());
        assert((first + second).last() == second.last());
        lemma_steps_text_concat(first, second.drop_last(), record);
        assert(steps_text(first, record) + steps_text(second.drop_last(), record) + step_text(
            second.last(),
            record,
        ) =~= steps_text(first, record) + (steps_text(second.drop_last(), record) + step_text(
            second.last(),
            record,
        )));
    }
}

/// A single step writes its own text.
pub proof fn lemma_steps_text_single(step: StepView, record: Seq<(String, MemberValue)>)
    ensures
        steps_text(seq![step], record) == step_text(step, record),
{
    let single = seq![step];
    assert(single.len() == 1);
    assert(single.last() == step);
    assert(single.drop_last().len() == 0);
    assert(steps_text(single.drop_last(), record) =~= Seq::<char>::empty());
    assert(Seq::<char>::empty() + step_text(step, record) =~= step_text(step, record));
}

/// Steps with commas between them write their texts joined by commas.
pub proof fn lemma_interspersed_text(steps: Seq<StepView>, record: Seq<(String, MemberValue)>)
    ensures
        steps_text(interspersed(steps, comma()), record) == joined(step_texts(steps, record)),
    decreases steps.len(),
{
    let texts = step_texts(steps, record);
    if steps.len() == 0 {
        assert(texts.len() == 0);
    } else if steps.len() == 1 {
        assert(steps =~= seq![steps[0]]);
        lemma_steps_text_single(steps[0], record);
        assert(texts.len() == 1);
        assert(texts[0] == step_text(steps[0], record));
    } else {
        let before = steps.drop_last();
        lemma_interspersed_text(before, record);
        let laid = interspersed(before, comma());
        let all = laid.push(comma()).push(steps.last());
        assert(interspersed(steps, comma()) == all);
        assert(all.drop_last() =~= laid.push(comma()));
        assert(all.last() == steps.last());
        assert(laid.push(comma()).drop_last() =~= laid);
        assert(laid.push(comma()).last() == comma());
        assert(steps_text(laid.push(comma()), record) == steps_text(laid, record) + step_text(
            comma(),
            record,
        ));
        assert(texts.len() == steps.len());
        assert(texts.drop_last() =~= step_texts(before, record));
        assert(texts.last() == step_text(steps.last(), record));
        assert(step_text(comma(), record) == seq![',']);
    }
}

/// The steps of a type's plan write the line of the record: the plan lays
/// out exactly the documented format.
pub proof fn lemma_plan_writes_line(
    name: Seq<char>,
    fields: Seq<FieldView>,
    record: Seq<(String, MemberValue)>,
)
    requires
        with_role(fields, Role::Timestamp).len() <= 1,
    ensures
        steps_text(plan(name, fields), record) == record_line(name, fields, record),
{
    let tags = role_steps(fields, Role::Tag);
    let values = role_steps(fields, Role::Field);
    let instants = role_steps(fields, Role::Timestamp);
    let a = seq![StepView::Literal(name)];
    let b = tag_lead(tags);
    let c = interspersed(tags, comma());
    let d = seq![space()];
    let e = interspersed(values, comma());
    let f = instants;
    lemma_steps_text_concat(a, b, record);
    lemma_steps_text_concat(a + b, c, record);
    lemma_steps_text_concat(a + b + c, d, record);
    lemma_steps_text_concat(a + b + c + d, e, record);
    lemma_steps_text_concat(a + b + c + d + e, d, record);
    lemma_steps_text_concat(a + b + c + d + e + d, f, record);
    lemma_steps_text_single(StepView::Literal(name), record);
    lemma_steps_text_single(space(), record);
    lemma_interspersed_text(tags, record);
    lemma_interspersed_text(values, record);
    if tags.len() == 0 {
    } else {
        lemma_steps_text_single(comma(), record);
        assert(step_texts(tags, record).len() == tags.len());
    }
    assert(steps_text(b, record) + steps_text(c, record) == tag_section(
        step_texts(tags, record),
    )) by {
        if tags.len() == 0 {
            assert(Seq::<char>::empty() + Seq::<char>::empty() =~= Seq::<char>::empty());
        }
    }
    assert(steps_text(f, record) == timestamp_section(
        timestamp_text(fields, record),
    )) by {
        if instants.len() == 1 {
            assert(instants =~= seq![instants[0]]);
            lemma_steps_text_single(instants[0], record);
        }
    }
    assert(step_text(space(), record) == seq![' ']);
    assert(step_text(StepView::Literal(name), record) == name);
    assert(steps_text(plan(name, fields), record) =~= name + (steps_text(b, record)
        + steps_text(c, record)) + seq![' '] + steps_text(e, record) + seq![' '] + steps_text(
        f,
        record,
    ));
}

/// Every member that is listed under a role is a member of the type and
/// has that role.
proof fn lemma_with_role_member(fields: Seq<FieldView>, role: Role, k: int)
    requires
        0 <= k < with_role(fields, role).len(),
    ensures
        exists|i: int|
            0 <= i < fields.len() && #[trigger] fields[i] == with_role(fields, role)[k]
                && has_role(fields[i], role),
    decreases fields.len(),
{
    let before = with_role(fields.drop_last(), role);
    if has_role(fields.last(), role) && k == before.len() {
        assert(fields[fields.len() - 1] == with_role(fields, role)[k]);
    } else {
        lemma_with_role_member(fields.drop_last(), role, k);
        let i = choose|i: int|
            0 <= i < fields.drop_last().len() && #[trigger] fields.drop_last()[i] == before[k]
                && has_role(fields.drop_last()[i], role);
        assert(fields[i] == fields.drop_last()[i]);
    }
}

/// Steps that a record fits, with commas between them, are steps that the
/// record fits.
proof fn lemma_interspersed_fit(steps: Seq<StepView>, record: Seq<(String, MemberValue)>)
    requires
        steps_fit(steps, record),
    ensures
        steps_fit(interspersed(steps, comma()), record),
    decreases steps.len(),
{
    if steps.len() > 1 {
        let before = steps.drop_last();
        assert forall|i: int| 0 <= i < before.len() implies (#[trigger] step_output(
            before[i],
            record,
        )) is Some by {
            assert(before[i] == steps[i]);
        }
        lemma_interspersed_fit(before, record);
        let laid = interspersed(before, comma());
        let all = laid.push(comma()).push(steps.last());
        assert forall|i: int| 0 <= i < all.len() implies (#[trigger] step_output(all[i], record))
            is Some by {
            if i < laid.len() {
                assert(all[i] == laid[i]);
            } else if i == laid.len() {
                assert(all[i] == comma());
            } else {
                assert(all[i] == steps[steps.len() - 1]);
            }
        }
    }
}

/// Two lists of steps that a record fits make one list that it fits.
proof fn lemma_concat_fit(
    first: Seq<StepView>,
    second: Seq<StepView>,
    record: Seq<(String, MemberValue)>,
)
    requires
        steps_fit(first, record),
        steps_fit(second, record),
    ensures
        steps_fit(first + second, record),
{
    assert forall|i: int| 0 <= i < (first + second).len() implies (#[trigger] step_output(
        (first + second)[i],
        record,
    )) is Some by {
        if i < first.len() {
            assert((first + second)[i] == first[i]);
        } else {
            assert((first + second)[i] == second[i - first.len()]);
        }
    }
}

/// A record that fits the members has what the steps of each role read.
proof fn lemma_role_steps_fit(
    fields: Seq<FieldView>,
    role: Role,
    record: Seq<(String, MemberValue)>,
)
    requires
        record_fits(fields, record),
    ensures
        steps_fit(role_steps(fields, role), record),
{
    let steps = role_steps(fields, role);
    assert forall|k: int| 0 <= k < steps.len() implies (#[trigger] step_output(steps[k], record))
        is Some by {
        lemma_with_role_member(fields, role, k);
        let i = choose|i: int|
            0 <= i < fields.len() && #[trigger] fields[i] == with_role(fields, role)[k]
                && has_role(fields[i], role);
        assert(member_fits(fields[i], record));
        assert(steps[k] == step_of(fields[i], role));
    }
}

/// For a record that fits the members of its type, every step of the
/// type's plan finds what it reads: no part of the line is left out.
pub proof fn lemma_fitting_record_runs_plan(
    name: Seq<char>,
    fields: Seq<FieldView>,
    record: Seq<(String, MemberValue)>,
)
    requires
        record_fits(fields, record),
    ensures
        steps_fit(plan(name, fields), record),
{
    let tags = role_steps(fields, Role::Tag);
    let values = role_steps(fields, Role::Field);
    let instants = role_steps(fields, Role::Timestamp);
    lemma_role_steps_fit(fields, Role::Tag, record);
    lemma_role_steps_fit(fields, Role::Field, record);
    lemma_role_steps_fit(fields, Role::Timestamp, record);
    lemma_interspersed_fit(tags, record);
    lemma_interspersed_fit(values, record);
    let a = seq![StepView::Literal(name)];
    let b = tag_lead(tags);
    let c = interspersed(tags, comma());
    let d = seq![space()];
    let e = interspersed(values, comma());
    assert(steps_fit(a, record));
    assert(steps_fit(b, record));
    assert(steps_fit(d, record));
    lemma_concat_fit(a, b, record);
    lemma_concat_fit(a + b, c, record);
    lemma_concat_fit(a + b + c, d, record);
    lemma_concat_fit(a + b + c + d, e, record);
    lemma_concat_fit(a + b + c + d + e, d, record);
    lemma_concat_fit(a + b + c + d + e + d, instants, record);
}

/// The line of a record whose type has no tags: the name is followed by the
/// space before the fields at once, with no comma and no tag section.
pub proof fn lemma_line_without_tag_members(
    name: Seq<char>,
    fields: Seq<FieldView>,
    record: Seq<(String, MemberValue)>,
)
    requires
        with_role(fields, Role::Tag).len() == 0,
    ensures
        record_line(name, fields, record) == name + seq![' '] + joined(
            step_texts(role_steps(fields, Role::Field), record),
        ) + seq![' '] + timestamp_section(timestamp_text(fields, record)),
{
    let tags = step_texts(role_steps(fields, Role::Tag), record);
    assert(tags =~= Seq::<Seq<char>>::empty());
    lemma_line_without_tags(
        name,
        step_texts(role_steps(fields, Role::Field), record),
        timestamp_text(fields, record),
    );
}

/// The line of a record whose type has no timestamp: it ends with the space
/// that follows the fields, and nothing comes after that space.
pub proof fn lemma_line_without_timestamp_member(
    name: Seq<char>,
    fields: Seq<FieldView>,
    record: Seq<(String, MemberValue)>,
)
    requires
        with_role(fields, Role::Timestamp).len() == 0,
    ensures
        record_line(name, fields, record) == name + tag_section(
            step_texts(role_steps(fields, Role::Tag), record),
        ) + seq![' '] + joined(step_texts(role_steps(fields, Role::Field), record)) + seq![' '],
        record_line(name, fields, record).last() == ' ',
{
    assert(timestamp_text(fields, record) is None);
    lemma_line_without_timestamp(
        name,
        step_texts(role_steps(fields, Role::Tag), record),
        step_texts(role_steps(fields, Role::Field), record),
    );
}

} // verus!
