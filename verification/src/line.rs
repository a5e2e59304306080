//! The layout of one line:
//! `name[,tag=value..] field=value[,field=value..] [timestamp]`.

use vstd::prelude::*;

verus! {

/// The parts with one comma between each two neighbours, and none at either
/// end.
pub open spec fn joined(parts: Seq<Seq<char>>) -> Seq<char>
    decreases parts.len(),
{
    if parts.len() == 0 {
        Seq::empty()
    } else if parts.len() == 1 {
        parts[0]
    } else {
        joined(parts.drop_last()) + seq![','] + parts.last()
    }
}

/// What follows the measurement's name: nothing where there is no tag, else
/// a comma and the tags, comma-separated.
pub open spec fn tag_section(tags: Seq<Seq<char>>) -> Seq<char> {
    if tags.len() == 0 {
        Seq::empty()
    } else {
        seq![','] + joined(tags)
    }
}

/// What follows the second space: the timestamp's text, or nothing.
pub open spec fn timestamp_section(timestamp: Option<Seq<char>>) -> Seq<char> {
    match timestamp {
        Some(text) => text,
        None => Seq::empty(),
    }
}

/// One line: the name, the tag section, a space, the fields, a space, the
/// timestamp section. `tags` and `fields` hold each pair's `name=value` text.
pub open spec fn line_text(
    name: Seq<char>,
    tags: Seq<Seq<char>>,
    fields: Seq<Seq<char>>,
    timestamp: Option<Seq<char>>,
) -> Seq<char> {
    name + tag_section(tags) + seq![' '] + joined(fields) + seq![' '] + timestamp_section(
        timestamp,
    )
}

/// A line without tags has no comma after the name: the name is followed
/// by the space before the fields at once.
pub proof fn lemma_line_without_tags(
    name: Seq<char>,
    fields: Seq<Seq<char>>,
    timestamp: Option<Seq<char>>,
)
    ensures
        line_text(name, Seq::empty(), fields, timestamp) == name + seq![' '] + joined(fields)
            + seq![' '] + timestamp_section(timestamp),
{
    assert(name + Seq::<char>::empty() =~= name);
}

/// A line without a timestamp ends with the space that follows the fields,
/// and nothing comes after that space.
pub proof fn lemma_line_without_timestamp(
    name: Seq<char>,
    tags: Seq<Seq<char>>,
    fields: Seq<Seq<char>>,
)
    ensures
        line_text(name, tags, fields, None) == name + tag_section(tags) + seq![' '] + joined(
            fields,
        ) + seq![' '],
        line_text(name, tags, fields, None).last() == ' ',
{
    let head = name + tag_section(tags) + seq![' '] + joined(fields) + seq![' '];
    assert(head + Seq::<char>::empty() =~= head);
}

} // verus!
