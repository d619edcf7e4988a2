//! The intake: what becomes of one file.
//!
//! A run takes the files of the intake directory one after the other. For
//! each file a program outside this library turns the document into text;
//! [`ingest`] then decides what becomes of the file, and changes the catalog
//! where the document is accepted. The caller carries out what the outcome
//! asks for: it moves an archived file to the archive, leaves every other
//! file where it is, reports what happened, and goes on with the next file.
//!
//! A file that was found in the directory thus ends in one of four states.
//! Where no text comes out of it, the extraction has failed. Where text
//! comes out, the text is normalized and the record is built: a document
//! whose title is known is skipped as a duplicate, a file whose name gives
//! no link is rejected, and any other document is archived.
use vstd::prelude::*;
use crate::builder::{build_record, built_record};
use crate::catalog::{lemma_push_keeps_titles_distinct, CatalogStore};
use crate::normalizer::{normalize, normalize_text};
use crate::record::{known_titles, titles_distinct, RecordView};
use crate::text::str_views;
use crate::title::title_of;

verus! {

/// Where a file ends up.
#[derive(Clone, Copy, Debug, PartialEq, Eq)]
pub enum Outcome {
    /// The record of the document is in the catalog now; the file is to be
    /// moved to the archive.
    Archived,
    /// The catalog has a record with the title of the document already; the
    /// catalog is as it was and the file stays.
    DuplicateSkipped,
    /// The name of the file gives no link; the catalog is as it was and the
    /// file stays.
    RejectedNoMove,
    /// No text could be taken out of the document; the catalog is as it was
    /// and the file stays.
    ExtractionFailed,
}

/// The outcome for a file named `file_name`, given the catalog so far and
/// the text taken out of the document, or nothing where none could be
/// taken. A duplicate is skipped whatever its file is called; of the other
/// documents, those are rejected whose file name gives no link.
pub open spec fn outcome_of(
    catalog: Seq<RecordView>,
    file_name: Seq<char>,
    extracted: Option<Seq<char>>,
    markers: Seq<Seq<char>>,
    current_year: int,
) -> Outcome {
    match extracted {
        None => Outcome::ExtractionFailed,
        Some(raw) => match built_record(
            normalize_text(raw),
            markers,
            known_titles(catalog),
            file_name,
            current_year,
        ) {
            (_, true) => Outcome::DuplicateSkipped,
            (None, false) => Outcome::RejectedNoMove,
            (Some(_), false) => Outcome::Archived,
        },
    }
}

/// The catalog after a file: with the record of the document as its last
/// record where the file is archived, and as it was before in every other
/// case.
pub open spec fn catalog_after(
    catalog: Seq<RecordView>,
    file_name: Seq<char>,
    extracted: Option<Seq<char>>,
    markers: Seq<Seq<char>>,
    current_year: int,
) -> Seq<RecordView> {
    match extracted {
        None => catalog,
        Some(raw) => match built_record(
            normalize_text(raw),
            markers,
            known_titles(catalog),
            file_name,
            current_year,
        ) {
            (Some(record), false) => catalog.push(record),
            _ => catalog,
        },
    }
}

/// The catalog never comes to hold a title twice, and never loses a record:
/// after any file it has the records it had, in their order, and at most
/// one more, and no two of its records have the same title.
pub proof fn lemma_catalog_stays_sound(
    catalog: Seq<RecordView>,
    file_name: Seq<char>,
    extracted: Option<Seq<char>>,
    markers: Seq<Seq<char>>,
    current_year: int,
)
    requires
        titles_distinct(catalog),
    ensures
        titles_distinct(catalog_after(catalog, file_name, extracted, markers, current_year)),
        catalog_after(catalog, file_name, extracted, markers, current_year).len() <= catalog.len()
            + 1,
        catalog_after(catalog, file_name, extracted, markers, current_year).take(
            catalog.len() as int,
        ) == catalog,
        catalog_after(catalog, file_name, extracted, markers, current_year).len() == catalog.len()
            + 1 <==> outcome_of(catalog, file_name, extracted, markers, current_year)
            == Outcome::Archived,
{
    let after = catalog_after(catalog, file_name, extracted, markers, current_year);
    assert(after.take(catalog.len() as int) =~= catalog);
    if let Some(raw) = extracted {
        if let (Some(record), false) = built_record(
            normalize_text(raw),
            markers,
            known_titles(catalog),
            file_name,
            current_year,
        ) {
            lemma_push_keeps_titles_distinct(catalog, record);
        }
    }
}

/// A document whose title the catalog has is skipped as a duplicate,
/// whatever the name of its file and whatever else its text holds, and the
/// catalog stays as it is.
pub proof fn lemma_known_title_is_skipped(
    catalog: Seq<RecordView>,
    file_name: Seq<char>,
    raw: Seq<char>,
    markers: Seq<Seq<char>>,
    current_year: int,
)
    requires
        title_of(normalize_text(raw), markers).is_some(),
        known_titles(catalog).contains(title_of(normalize_text(raw), markers).unwrap()),
    ensures
        catalog_after(catalog, file_name, Some(raw), markers, current_year) == catalog,
        outcome_of(catalog, file_name, Some(raw), markers, current_year)
            == Outcome::DuplicateSkipped,
{
}

/// A document with a title is taken in once: where a file has been archived
/// and comes up again, with the same text and in whatever year, it is
/// skipped as a duplicate and the catalog stays as it is. So a file that
/// could not be moved after its record was taken does no harm in a later
/// run.
pub proof fn lemma_archived_title_is_skipped_next_time(
    catalog: Seq<RecordView>,
    file_name: Seq<char>,
    raw: Seq<char>,
    markers: Seq<Seq<char>>,
    current_year: int,
    later_year: int,
)
    requires
        outcome_of(catalog, file_name, Some(raw), markers, current_year) == Outcome::Archived,
        title_of(normalize_text(raw), markers).is_some(),
    ensures
        outcome_of(
            catalog_after(catalog, file_name, Some(raw), markers, current_year),
            file_name,
            Some(raw),
            markers,
            later_year,
        ) == Outcome::DuplicateSkipped,
        catalog_after(
            catalog_after(catalog, file_name, Some(raw), markers, current_year),
            file_name,
            Some(raw),
            markers,
            later_year,
        ) == catalog_after(catalog, file_name, Some(raw), markers, current_year),
{
    let after = catalog_after(catalog, file_name, Some(raw), markers, current_year);
    let title = title_of(normalize_text(raw), markers).unwrap();
    assert(after[catalog.len() as int].title == Some(title));
    assert(known_titles(after).contains(title));
}

/// Decides what becomes of the file named `file_name` and takes the record
/// of its document into the catalog where the document is accepted.
/// `extracted` is the text taken out of the document as it came, or nothing
/// where none could be taken; `current_year` is the year in which two-digit
/// years are read.
pub fn ingest(
    catalog: &mut CatalogStore,
    file_name: &str,
    extracted: Option<&str>,
    keywords: &[&str],
    current_year: i32,
) -> (outcome: Outcome)
    ensures
        outcome == outcome_of(
            old(catalog)@,
            file_name@,
            extracted.deep_view(),
            str_views(keywords@),
            current_year as int,
        ),
        final(catalog)@ == catalog_after(
            old(catalog)@,
            file_name@,
            extracted.deep_view(),
            str_views(keywords@),
            current_year as int,
        ),
        titles_distinct(final(catalog)@),
        final(catalog)@.len() == old(catalog)@.len() + (if outcome == Outcome::Archived {
            1int
        } else {
            0int
        }),
        final(catalog)@.take(old(catalog)@.len() as int) == old(catalog)@,
{
    proof {
        use_type_invariant(&*catalog);
        lemma_catalog_stays_sound(
            catalog@,
            file_name@,
            extracted.deep_view(),
            str_views(keywords@),
            current_year as int,
        );
    }
    let raw = match extracted {
        Some(raw) => raw,
        None => {
            return Outcome::ExtractionFailed;
        },
    };
    let text = normalize(raw);
    let (built, duplicate) = build_record(text.as_str(), keywords, catalog, file_name, current_year);
    if duplicate {
        return Outcome::DuplicateSkipped;
    }
    match built {
        Ok(record) => if catalog.accept(record) {
            Outcome::Archived
        } else {
            Outcome::DuplicateSkipped
        },
        Err(_) => Outcome::RejectedNoMove,
    }
}

} // verus!
