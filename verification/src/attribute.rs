//! The annotations by which a record type says which of its members are
//! tags, fields and the timestamp, and how they are read.
//!
//! A member carries any number of `influx(..)` annotations. Each holds the
//! words `tag`, `field`, `timestamp`, and `rename = "name"`. Several
//! annotations on one member merge: a role stays once given, and the last
//! rename wins.

use crate::text::same_text;
use vstd::prelude::*;

verus! {

/// One item between the brackets of an annotation.
#[derive(Debug)]
pub enum AttrItem {
    /// A bare word, as in `influx(tag)`.
    Word(String),
    /// A name with a plain string literal, as in `influx(rename = "host")`.
    NameValue(String, String),
    /// Any other form: a nested list, a bare literal, a value that is no
    /// plain string literal.
    Unsupported,
}

/// One annotation of a record type or of one of its members.
#[derive(Debug)]
pub enum Attribute {
    /// The list form, `name(item, ..)`.
    List(String, Vec<AttrItem>),
    /// Any other form, such as a bare word or `name = value`.
    Other,
}

/// Why a record type cannot be classified.
#[derive(Debug, Clone, Copy, PartialEq, Eq, Structural)]
pub enum ClassifyError {
    /// The type is not a struct with named members.
    NotAStruct,
    /// A member with a role has no name.
    UnnamedMember,
    /// An `influx` annotation holds an item of an unsupported form.
    UnknownAttribute,
    /// No member is a field; the database requires at least one.
    NoFields,
    /// More than one member is a timestamp.
    ManyTimestamps,
}

/// What the annotations of one member, or of the record type, say.
#[derive(Debug)]
pub struct InfluxAttr {
    pub name: Option<String>,
    pub is_tag: bool,
    pub is_field: bool,
    pub is_timestamp: bool,
}

/// What an [`InfluxAttr`] holds, with the name as a sequence of characters.
pub struct AttrView {
    pub name: Option<Seq<char>>,
    pub is_tag: bool,
    pub is_field: bool,
    pub is_timestamp: bool,
}

/// The annotation that says nothing: no name, no role.
pub open spec fn blank_attr() -> AttrView {
    AttrView { name: None, is_tag: false, is_field: false, is_timestamp: false }
}

/// Two annotations as one: the later one's rename wins where it has one,
/// and a role that either gives is given.
pub open spec fn merged(earlier: AttrView, later: AttrView) -> AttrView {
    AttrView {
        name: if later.name is Some {
            later.name
        } else {
            earlier.name
        },
        is_tag: later.is_tag || earlier.is_tag,
        is_field: later.is_field || earlier.is_field,
        is_timestamp: later.is_timestamp || earlier.is_timestamp,
    }
}

/// What one more item adds to what the items before it said. A word other
/// than the three roles, and a name other than `rename`, add nothing.
pub open spec fn with_item(attr: AttrView, item: AttrItem) -> AttrView {
    match item {
        AttrItem::Word(word) => AttrView {
            name: attr.name,
            is_tag: attr.is_tag || word@ == "tag"@,
            is_field: attr.is_field || word@ == "field"@,
            is_timestamp: attr.is_timestamp || word@ == "timestamp"@,
        },
        AttrItem::NameValue(name, value) => if name@ == "rename"@ {
            AttrView { name: Some(value@), ..attr }
        } else {
            attr
        },
        AttrItem::Unsupported => attr,
    }
}

/// What a list of items says, read from first to last.
pub open spec fn attr_of_items(items: Seq<AttrItem>) -> AttrView
    decreases items.len(),
{
    if items.len() == 0 {
        blank_attr()
    } else {
        with_item(attr_of_items(items.drop_last()), items.last())
    }
}

/// Whether every item of the list has a supported form.
pub open spec fn items_supported(items: Seq<AttrItem>) -> bool {
    forall|i: int| 0 <= i < items.len() ==> !(#[trigger] items[i] is Unsupported)
}

impl View for InfluxAttr {
    type V = AttrView;

    open spec fn view(&self) -> AttrView {
        AttrView {
            name: match self.name {
                Some(name) => Some(name@),
                None => None,
            },
            is_tag: self.is_tag,
            is_field: self.is_field,
            is_timestamp: self.is_timestamp,
        }
    }
}

impl Default for InfluxAttr {
    /// The annotation that says nothing.
    fn default() -> (attr: InfluxAttr)
        ensures
            attr@ == blank_attr(),
    {
        InfluxAttr { name: None, is_tag: false, is_field: false, is_timestamp: false }
    }
}

impl InfluxAttr {
    /// Merges a later annotation into this one.
    pub fn merge(self, other: Self) -> (both: Self)
        ensures
            both@ == merged(self@, other@),
    {
        InfluxAttr {
            name: match other.name {
                Some(name) => Some(name),
                None => self.name,
            },
            is_tag: other.is_tag || self.is_tag,
            is_field: other.is_field || self.is_field,
            is_timestamp: other.is_timestamp || self.is_timestamp,
        }
    }
}

/// Reads the items of one `influx(..)` annotation.
pub fn parse_influx_db_attr(items: &[AttrItem]) -> (parsed: Result<InfluxAttr, ClassifyError>)
    ensures
        parsed is Ok <==> items_supported(items@),
        parsed matches Ok(attr) ==> attr@ == attr_of_items(items@),
        parsed matches Err(e) ==> e == ClassifyError::UnknownAttribute,
{
    let mut influx_attr = InfluxAttr::default();
    let mut i: usize = 0;
    while i < items.len()
        invariant
            i <= items@.len(),
            items_supported(items@.subrange(0, i as int)),
            influx_attr@ == attr_of_items(items@.subrange(0, i as int)),
        decreases items@.len() - i,
    {
        proof {
            let more = items@.subrange(0, i + 1);
            assert(more.drop_last() =~= items@.subrange(0, i as int));
            assert(more.last() == items@[i as int]);
        }
        match &items[i] {
            AttrItem::Word(word) => {
                if same_text(word.as_str(), "tag") {
                    influx_attr.is_tag = true;
                }
                if same_text(word.as_str(), "field") {
                    influx_attr.is_field = true;
                }
                if same_text(word.as_str(), "timestamp") {
                    influx_attr.is_timestamp = true;
                }
            },
            AttrItem::NameValue(name, value) => {
                if same_text(name.as_str(), "rename") {
                    influx_attr.name = Some(value.clone());
                }
            },
            AttrItem::Unsupported => {
                assert(items@[i as int] is Unsupported);
                return Err(ClassifyError::UnknownAttribute);
            },
        }
        proof {
            let more = items@.subrange(0, i + 1);
            assert forall|k: int| 0 <= k < more.len() implies !(#[trigger] more[k] is Unsupported) by {
                if k < i {
                    assert(items@.subrange(0, i as int)[k] == more[k]);
                }
            }
        }
        i = i + 1;
    }
    proof {
        assert(items@.subrange(0, items@.len() as int) =~= items@);
    }
    Ok(influx_attr)
}

/// The items of an annotation that this library reads: those of the list
/// form under the name `influx`.
pub open spec fn influx_items(attr: Attribute) -> Option<Seq<AttrItem>> {
    match attr {
        Attribute::List(name, items) => if name@ == "influx"@ {
            Some(items@)
        } else {
            None
        },
        Attribute::Other => None,
    }
}

/// Whether every `influx` annotation of the list holds supported items only.
pub open spec fn attrs_supported(attrs: Seq<Attribute>) -> bool {
    forall|i: int|
        0 <= i < attrs.len() ==> (#[trigger] influx_items(attrs[i]) matches Some(items)
            ==> items_supported(items))
}

/// What a list of annotations says: nothing where none of them is an
/// `influx` annotation, else those annotations merged from first to last.
pub open spec fn attr_of_attrs(attrs: Seq<Attribute>) -> Option<AttrView>
    decreases attrs.len(),
{
    if attrs.len() == 0 {
        None
    } else {
        let before = attr_of_attrs(attrs.drop_last());
        match influx_items(attrs.last()) {
            Some(items) => match before {
                Some(earlier) => Some(merged(earlier, attr_of_items(items))),
                None => Some(attr_of_items(items)),
            },
            None => before,
        }
    }
}

/// The view of an annotation's reading that may be absent.
pub open spec fn optional_view(attr: Option<InfluxAttr>) -> Option<AttrView> {
    match attr {
        Some(attr) => Some(attr@),
        None => None,
    }
}

/// Reads the annotations of a record type or of one member.
pub fn parse_influx_db_attrs(attrs: &[Attribute]) -> (parsed: Result<
    Option<InfluxAttr>,
    ClassifyError,
>)
    ensures
        parsed is Ok <==> attrs_supported(attrs@),
        parsed matches Ok(attr) ==> optional_view(attr) == attr_of_attrs(attrs@),
        parsed matches Err(e) ==> e == ClassifyError::UnknownAttribute,
{
    let mut acc: Option<InfluxAttr> = None;
    let mut i: usize = 0;
    while i < attrs.len()
        invariant
            i <= attrs@.len(),
            attrs_supported(attrs@.subrange(0, i as int)),
            optional_view(acc) == attr_of_attrs(attrs@.subrange(0, i as int)),
        decreases attrs@.len() - i,
    {
        proof {
            let more = attrs@.subrange(0, i + 1);
            assert(more.drop_last() =~= attrs@.subrange(0, i as int));
            assert(more.last() == attrs@[i as int]);
        }
        match &attrs[i] {
            Attribute::List(name, items) => {
                if same_text(name.as_str(), "influx") {
                    match parse_influx_db_attr(items.as_slice()) {
                        Ok(attr) => {
                            acc = match acc {
                                Some(old_attr) => Some(old_attr.merge(attr)),
                                None => Some(attr),
                            };
                        },
                        Err(e) => {
                            assert(influx_items(attrs@[i as int]) == Some(items@));
                            return Err(e);
                        },
                    }
                }
            },
            Attribute::Other => {},
        }
        proof {
            let more = attrs@.subrange(0, i + 1);
            assert forall|k: int| 0 <= k < more.len() implies (#[trigger] influx_items(
                more[k],
            ) matches Some(items) ==> items_supported(items)) by {
                if k < i {
                    assert(attrs@.subrange(0, i as int)[k] == more[k]);
                }
            }
        }
        i = i + 1;
    }
    proof {
        assert(attrs@.subrange(0, attrs@.len() as int) =~= attrs@);
    }
    Ok(acc)
}

/// Merging an annotation into itself changes nothing: to give a role or a
/// rename twice is to give it once.
pub proof fn lemma_merge_idempotent(attr: AttrView)
    ensures
        merged(attr, attr) == attr,
{
}

/// Merging is associative: annotations may be merged in any grouping, as
/// long as their order stays.
pub proof fn lemma_merge_associative(a: AttrView, b: AttrView, c: AttrView)
    ensures
        merged(merged(a, b), c) == merged(a, merged(b, c)),
{
}

/// The last rename wins: a merge has the later annotation's name where it
/// has one, else the earlier one's.
pub proof fn lemma_merge_last_rename(earlier: AttrView, later: AttrView)
    ensures
        later.name is Some ==> merged(earlier, later).name == later.name,
        later.name is None ==> merged(earlier, later).name == earlier.name,
{
}

} // verus!
