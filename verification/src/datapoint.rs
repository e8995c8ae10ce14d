//! Metric samples, ready to be rendered and submitted.
use vstd::prelude::*;

use crate::addr::IpAddr;

verus! {

/// How urgent a sample is.
#[derive(Clone, Copy, Debug, PartialEq, Eq, Structural)]
pub enum Level {
    Info,
    Warn,
}

/// The value of a tag.
#[derive(Debug)]
pub enum TagValue {
    Addr(IpAddr),
    Port(u16),
    Text(String),
}

/// The value of a field.
#[derive(Debug)]
pub enum FieldValue {
    Int(i64),
    /// Microseconds, shown as a fraction of seconds.
    MicrosAsSeconds(u64),
    Text(String),
}

/// One sample: what it is called, the tags to group it by, and its content.
#[derive(Debug)]
pub struct DataPoint {
    pub level: Level,
    pub name: &'static str,
    pub tags: Vec<(&'static str, TagValue)>,
    pub fields: Vec<(&'static str, FieldValue)>,
}

/// The value of a tag, as a mathematical value.
pub enum TagView {
    Addr(IpAddr),
    Port(u16),
    Text(Seq<char>),
}

/// The value of a field, as a mathematical value.
pub enum FieldView {
    Int(i64),
    MicrosAsSeconds(u64),
    Text(Seq<char>),
}

/// A sample, as a mathematical value.
#[verifier::ext_equal]
pub struct PointView {
    pub level: Level,
    pub name: Seq<char>,
    pub tags: Seq<(Seq<char>, TagView)>,
    pub fields: Seq<(Seq<char>, FieldView)>,
}

impl View for TagValue {
    type V = TagView;

    open spec fn view(&self) -> TagView {
        match *self {
            TagValue::Addr(addr) => TagView::Addr(addr),
            TagValue::Port(port) => TagView::Port(port),
            TagValue::Text(text) => TagView::Text(text@),
        }
    }
}

impl View for FieldValue {
    type V = FieldView;

    open spec fn view(&self) -> FieldView {
        match *self {
            FieldValue::Int(value) => FieldView::Int(value),
            FieldValue::MicrosAsSeconds(micros) => FieldView::MicrosAsSeconds(micros),
            FieldValue::Text(text) => FieldView::Text(text@),
        }
    }
}

impl View for DataPoint {
    type V = PointView;

    open spec fn view(&self) -> PointView {
        PointView {
            level: self.level,
            name: self.name@,
            tags: self.tags@.map_values(|tag: (&'static str, TagValue)| (tag.0@, tag.1@)),
            fields: self.fields@.map_values(
                |field: (&'static str, FieldValue)| (field.0@, field.1@),
            ),
        }
    }
}

/// A series of samples, as mathematical values.
pub open spec fn point_views(points: Seq<DataPoint>) -> Seq<PointView> {
    points.map_values(|point: DataPoint| point@)
}

impl PointView {
    /// A sample with neither tags nor fields.
    pub open spec fn named(level: Level, name: Seq<char>) -> PointView {
        PointView { level, name, tags: Seq::empty(), fields: Seq::empty() }
    }

    pub open spec fn with_tag(self, name: Seq<char>, value: TagView) -> PointView {
        PointView { tags: self.tags.push((name, value)), ..self }
    }

    pub open spec fn with_field(self, name: Seq<char>, value: FieldView) -> PointView {
        PointView { fields: self.fields.push((name, value)), ..self }
    }

    /// With one more integer field. Counts above the signed range show as negative.
    pub open spec fn with_count(self, name: Seq<char>, value: u64) -> PointView {
        self.with_field(name, FieldView::Int(value as i64))
    }
}

/// The view of a sample shows the sample: its level, its name, and each tag and each field with its
/// name and its value, in order.
pub proof fn view_shows_the_sample(point: DataPoint, i: int)
    ensures
        point@.level == point.level,
        point@.name == point.name@,
        point@.tags.len() == point.tags@.len(),
        point@.fields.len() == point.fields@.len(),
        0 <= i < point.tags@.len() ==> point@.tags[i].0 == point.tags@[i].0@ && match (
            point.tags@[i].1,
            point@.tags[i].1,
        ) {
            (TagValue::Addr(addr), TagView::Addr(shown)) => shown == addr,
            (TagValue::Port(port), TagView::Port(shown)) => shown == port,
            (TagValue::Text(text), TagView::Text(shown)) => shown == text@,
            _ => false,
        },
        0 <= i < point.fields@.len() ==> point@.fields[i].0 == point.fields@[i].0@ && match (
            point.fields@[i].1,
            point@.fields[i].1,
        ) {
            (FieldValue::Int(value), FieldView::Int(shown)) => shown == value,
            (FieldValue::MicrosAsSeconds(micros), FieldView::MicrosAsSeconds(shown)) => shown
                == micros,
            (FieldValue::Text(text), FieldView::Text(shown)) => shown == text@,
            _ => false,
        },
{
}

/// A series of samples is viewed sample by sample.
pub proof fn views_show_every_sample(points: Seq<DataPoint>, i: int)
    ensures
        point_views(points).len() == points.len(),
        0 <= i < points.len() ==> point_views(points)[i] == points[i]@,
{
}

/// A sample keeps what it had when a tag, a field or a count is added, and has one more at the end. A
/// count that the signed range holds is shown as it is, and a larger one less 2^64.
pub proof fn additions_come_last(
    point: PointView,
    name: Seq<char>,
    tag: TagView,
    field: FieldView,
    count: u64,
)
    ensures
        point.with_tag(name, tag).tags == point.tags + seq![(name, tag)],
        point.with_tag(name, tag).fields == point.fields,
        point.with_field(name, field).fields == point.fields + seq![(name, field)],
        point.with_field(name, field).tags == point.tags,
        point.with_count(name, count).tags == point.tags,
        point.with_count(name, count).fields.drop_last() == point.fields,
        point.with_count(name, count).fields.len() == point.fields.len() + 1,
        point.with_count(name, count).fields.last().0 == name,
        point.with_count(name, count).fields.last().1 matches FieldView::Int(shown) && shown
            == if count <= i64::MAX {
            count as int
        } else {
            count - u64::MAX - 1
        },
        point.with_tag(name, tag).name == point.name && point.with_tag(name, tag).level
            == point.level,
        point.with_field(name, field).name == point.name && point.with_field(name, field).level
            == point.level,
        point.with_count(name, count).name == point.name && point.with_count(name, count).level
            == point.level,
{
    assert(count <= 0x7fff_ffff_ffff_ffff ==> count as i64 == count) by (bit_vector);
    assert(count > 0x7fff_ffff_ffff_ffff ==> count as i64 == count - 0x1_0000_0000_0000_0000)
        by (bit_vector);
}

impl DataPoint {
    /// A sample with neither tags nor fields.
    pub fn new(level: Level, name: &'static str) -> (point: DataPoint)
        ensures
            point@ == PointView::named(level, name@),
    {
        let point = DataPoint { level, name, tags: Vec::new(), fields: Vec::new() };
        assert(point@ =~= PointView::named(level, name@));
        point
    }

    pub fn with_tag(self, name: &'static str, value: TagValue) -> (point: DataPoint)
        ensures
            point@ == self@.with_tag(name@, value@),
    {
        let DataPoint { level, name: point_name, tags: mut tags, fields } = self;
        tags.push((name, value));
        let point = DataPoint { level, name: point_name, tags, fields };
        assert(point@ =~= self@.with_tag(name@, value@));
        point
    }

    pub fn with_field(self, name: &'static str, value: FieldValue) -> (point: DataPoint)
        ensures
            point@ == self@.with_field(name@, value@),
    {
        let DataPoint { level, name: point_name, tags, fields: mut fields } = self;
        fields.push((name, value));
        let point = DataPoint { level, name: point_name, tags, fields };
        assert(point@ =~= self@.with_field(name@, value@));
        point
    }

    pub fn with_count(self, name: &'static str, value: u64) -> (point: DataPoint)
        ensures
            point@ == self@.with_count(name@, value),
    {
        self.with_field(name, FieldValue::Int(#[verifier::truncate] (value as i64)))
    }
}

} // verus!
