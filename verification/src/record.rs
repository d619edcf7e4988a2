//! Records: the entries of the catalog.
use vstd::prelude::*;
use crate::calendar::stamp;

verus! {

/// One entry of the catalog: what is kept of one document.
#[derive(Debug, PartialEq, Eq)]
pub struct Record {
    /// The fingerprint of the title; empty where the record has no title.
    pub id: String,
    /// The line of the document that was taken for its title.
    pub title: Option<String>,
    /// The start of the day the document is dated, in seconds since the
    /// start of 1970 in UTC.
    pub date: Option<i64>,
    /// The normalized text of the document.
    pub content: String,
    /// Where the document can be fetched.
    pub link: String,
}

/// A record as its contracts see it.
pub struct RecordView {
    pub id: Seq<char>,
    pub title: Option<Seq<char>>,
    pub date: Option<int>,
    pub content: Seq<char>,
    pub link: Seq<char>,
}

impl View for Record {
    type V = RecordView;

    open spec fn view(&self) -> RecordView {
        RecordView {
            id: self.id@,
            title: self.title.deep_view(),
            date: stamp(self.date),
            content: self.content@,
            link: self.link@,
        }
    }
}

/// The views of a list of records.
pub open spec fn record_views(records: Seq<Record>) -> Seq<RecordView> {
    records.map_values(|r: Record| r@)
}

/// The titles that stand in `records`.
pub open spec fn known_titles(records: Seq<RecordView>) -> Set<Seq<char>> {
    Set::new(
        |title: Seq<char>|
            exists|i: int| 0 <= i < records.len() && (#[trigger] records[i]).title == Some(title),
    )
}

/// No two of `records` have the same title. Records without a title are as
/// many as they may be.
pub open spec fn titles_distinct(records: Seq<RecordView>) -> bool {
    forall|i: int, j: int|
        #![trigger records[i], records[j]]
        0 <= i < j < records.len() && records[i].title.is_some() ==> records[i].title
            != records[j].title
}

/// The record at `j` has a title that a record before it has too.
pub open spec fn repeats_title(records: Seq<RecordView>, j: int) -> bool {
    0 <= j < records.len() && records[j].title.is_some() && exists|i: int|
        0 <= i < j && (#[trigger] records[i]).title == records[j].title
}

impl Clone for Record {
    /// A copy of the record, field for field.
    fn clone(&self) -> (copy: Record)
        ensures
            copy == *self,
    {
        let title = match &self.title {
            Some(t) => Some(t.clone()),
            None => None,
        };
        Record {
            id: self.id.clone(),
            title,
            date: self.date,
            content: self.content.clone(),
            link: self.link.clone(),
        }
    }
}

impl Record {
    /// Tests whether the record has the title `title`.
    pub fn has_title(&self, title: &String) -> (r: bool)
        ensures
            r == (self@.title == Some(title@)),
    {
        match &self.title {
            Some(t) => *t == *title,
            None => false,
        }
    }
}

} // verus!
