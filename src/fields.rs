use vstd::prelude::*;

use crate::pager::PropertyResult;

verus! {

/// A numeric field of a record.
#[derive(Debug, Clone)]
pub struct Number {
    pub number: i32,
}

/// A title field of a record: its text segments, in order.
#[derive(Debug, Clone)]
pub struct Title {
    pub results: Vec<TitleResult>,
}

/// One segment of a title field.
#[derive(Debug, Clone)]
pub struct TitleResult {
    pub title: Text,
}

/// The plain text of a title segment.
#[derive(Debug, Clone)]
pub struct Text {
    pub plain_text: String,
}

/// A tag-set field of a record: its tags, in order.
#[derive(Debug, Clone)]
pub struct MultiSelect {
    pub multi_select: Vec<Select>,
}

/// One tag of a tag-set field.
#[derive(Debug, Clone)]
pub struct Select {
    pub name: String,
}

/// The text of each segment of a title field, in order.
pub open spec fn title_segments(t: Title) -> Seq<Seq<char>> {
    t.results@.map_values(|r: TitleResult| r.title.plain_text@)
}

/// The name of each tag of a tag-set field, in order.
pub open spec fn tag_names(m: MultiSelect) -> Seq<Seq<char>> {
    m.multi_select@.map_values(|s: Select| s.name@)
}

/// The field that holds a record's numeric id.
pub const NUMBER_FIELD: &'static str = "ID";

/// The field that holds a record's title.
pub const TITLE_FIELD: &'static str = "Name";

/// The field that holds a record's tags.
pub const TAGS_FIELD: &'static str = "Tags";

/// The path of field `field` of record `page`.
pub open spec fn property_path(field: Seq<char>, page: Seq<char>) -> Seq<char> {
    "pages/"@ + page + "/properties/"@ + field
}

/// Builds the path of field `field` of record `page`.
pub fn property_path_of(field: &str, page: &str) -> (r: String)
    ensures
        r@ == property_path(field@, page@),
{
    let mut p = String::from_str("pages/");
    p.append(page);
    p.append("/properties/");
    p.append(field);
    p
}

/// The paths of the three fields to fetch for one record.
#[derive(Debug, Clone)]
pub struct FieldPaths {
    pub number: String,
    pub title: String,
    pub tags: String,
}

/// The paths of the id, title and tag fields of `record`.
pub fn field_paths(record: &PropertyResult) -> (r: FieldPaths)
    ensures
        r.number@ == property_path("ID"@, record.id@),
        r.title@ == property_path("Name"@, record.id@),
        r.tags@ == property_path("Tags"@, record.id@),
{
    let id = record.id.as_str();
    FieldPaths {
        number: property_path_of(NUMBER_FIELD, id),
        title: property_path_of(TITLE_FIELD, id),
        tags: property_path_of(TAGS_FIELD, id),
    }
}

} // verus!
