//! The record builder.
//!
//! From the normalized text of a document, the markers, the titles that the
//! catalog knows and the name of the file, the builder makes the record of
//! the document and says whether the document is a duplicate: one whose
//! title the catalog has already. A duplicate keeps neither its title nor
//! its date, and gets no identifier. A file whose name gives no link has no
//! record at all, duplicate or not.
use vstd::prelude::*;
use crate::calendar::stamp;
use crate::catalog::CatalogStore;
use crate::date::{return_date_in_year, text_date};
use crate::digest::{fingerprint, title_id};
use crate::link::{get_link, link_of, MalformedFilename};
use crate::record::{known_titles, Record, RecordView};
use crate::text::str_views;
use crate::title::{return_title, title_of};

verus! {

/// The title and the date that a text gives against the titles in `known`,
/// and whether the text is a duplicate. The title and the date are looked
/// for apart from each other. Where the title is in `known`, both are
/// dropped and the text is a duplicate; a text without a title never is one.
pub open spec fn parameters_of(
    text: Seq<char>,
    markers: Seq<Seq<char>>,
    known: Set<Seq<char>>,
    current_year: int,
) -> (Option<Seq<char>>, Option<int>, bool) {
    match title_of(text, markers) {
        Some(title) => if known.contains(title) {
            (None, None, true)
        } else {
            (Some(title), text_date(text, current_year), false)
        },
        None => (None, text_date(text, current_year), false),
    }
}

/// The identifier of a record with the given title: the fingerprint of the
/// title, and the empty string where there is no title.
pub open spec fn id_for(title: Option<Seq<char>>) -> Seq<char> {
    match title {
        Some(t) => fingerprint(t),
        None => Seq::<char>::empty(),
    }
}

/// The record of the document with the normalized text `text` that came in
/// the file named `file_name`, or nothing where the name of the file gives
/// no link; and whether the document is a duplicate, which does not depend
/// on the name of the file.
pub open spec fn built_record(
    text: Seq<char>,
    markers: Seq<Seq<char>>,
    known: Set<Seq<char>>,
    file_name: Seq<char>,
    current_year: int,
) -> (Option<RecordView>, bool) {
    let (title, date, duplicate) = parameters_of(text, markers, known, current_year);
    match link_of(file_name) {
        Some(link) => (
            Some(RecordView { id: id_for(title), title, date, content: text, link }),
            duplicate,
        ),
        None => (None, duplicate),
    }
}

/// Identifier determinism: two records with the same title have the same
/// identifier, whatever documents, files, catalogs and years they come from.
pub proof fn lemma_same_title_same_id(
    text: Seq<char>,
    markers: Seq<Seq<char>>,
    known: Set<Seq<char>>,
    file_name: Seq<char>,
    current_year: int,
    other_text: Seq<char>,
    other_markers: Seq<Seq<char>>,
    other_known: Set<Seq<char>>,
    other_file_name: Seq<char>,
    other_year: int,
)
    ensures
        match (
            built_record(text, markers, known, file_name, current_year).0,
            built_record(other_text, other_markers, other_known, other_file_name, other_year).0,
        ) {
            (Some(one), Some(other)) => one.title == other.title ==> one.id == other.id,
            _ => true,
        },
{
}

/// What holds of every record that the builder makes: it has the link that
/// the name of its file gives, the text as its content, and the identifier
/// that belongs to its title; its title is not one of the known titles; and
/// where the document is a duplicate, it has no title, no date and no
/// identifier. A document is a duplicate exactly where its text has a title
/// that is known.
pub proof fn lemma_built_record_shape(
    text: Seq<char>,
    markers: Seq<Seq<char>>,
    known: Set<Seq<char>>,
    file_name: Seq<char>,
    current_year: int,
)
    ensures
        built_record(text, markers, known, file_name, current_year).1 <==> title_of(
            text,
            markers,
        ).is_some() && known.contains(title_of(text, markers).unwrap()),
        built_record(text, markers, known, file_name, current_year).0.is_some() <==> link_of(
            file_name,
        ).is_some(),
        match built_record(text, markers, known, file_name, current_year) {
            (Some(record), duplicate) => {
                &&& link_of(file_name) == Some(record.link)
                &&& record.id == id_for(record.title)
                &&& record.content == text
                &&& duplicate ==> record.title.is_none() && record.date.is_none() && record.id.len()
                    == 0
                &&& match record.title {
                    Some(title) => !known.contains(title),
                    None => true,
                }
            },
            (None, _) => true,
        },
{
}

/// Finds the title and the date of `text` and checks the title against the
/// catalog. Gives the title, the text itself, the date, and whether the text
/// is a duplicate.
pub fn return_parameters(
    text: &str,
    keywords: &[&str],
    existing_titles: &CatalogStore,
    current_year: i32,
) -> (r: (Option<String>, String, Option<i64>, bool))
    ensures
        (r.0.deep_view(), stamp(r.2), r.3) == parameters_of(
            text@,
            str_views(keywords@),
            known_titles(existing_titles@),
            current_year as int,
        ),
        r.1@ == text@,
{
    let found_title = return_title(text, keywords);
    let found_date = return_date_in_year(text, current_year);
    let is_duplicate = match &found_title {
        Some(title) => existing_titles.knows(title.as_str()),
        None => false,
    };
    if is_duplicate {
        (None, String::from_str(text), None, true)
    } else {
        (found_title, String::from_str(text), found_date, false)
    }
}

/// Builds the record of a document from its normalized text and the name of
/// its file, against the catalog as it stands. Gives the record, or the
/// error where the name of the file gives no link, and whether the document
/// is a duplicate.
pub fn build_record(
    text: &str,
    keywords: &[&str],
    catalog: &CatalogStore,
    file_name: &str,
    current_year: i32,
) -> (r: (Result<Record, MalformedFilename>, bool))
    ensures
        r.1 == built_record(
            text@,
            str_views(keywords@),
            known_titles(catalog@),
            file_name@,
            current_year as int,
        ).1,
        match r.0 {
            Ok(record) => built_record(
                text@,
                str_views(keywords@),
                known_titles(catalog@),
                file_name@,
                current_year as int,
            ).0 == Some(record@) && (record@.title.is_some() ==> record@.id.len() == 64),
            Err(_) => built_record(
                text@,
                str_views(keywords@),
                known_titles(catalog@),
                file_name@,
                current_year as int,
            ).0.is_none(),
        },
{
    let (title, content, date, duplicate) = return_parameters(
        text,
        keywords,
        catalog,
        current_year,
    );
    let id = match &title {
        Some(t) => title_id(t.as_str()),
        None => String::new(),
    };
    match get_link(file_name) {
        Ok(link) => (Ok(Record { id, title, date, content, link }), duplicate),
        Err(e) => (Err(e), duplicate),
    }
}

} // verus!
