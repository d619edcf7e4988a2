//! The catalog store: the records of all documents taken in so far.
//!
//! The store holds the records in the order in which they were accepted and
//! never holds two records with the same title. It is filled once, from what
//! an earlier run has left, grows record by record, and is written out as a
//! whole. Reading and writing the file is the caller's part: [`CatalogStore::load`]
//! takes the records that were read, and [`CatalogStore::save`] gives the
//! records to write.
use vstd::prelude::*;
use crate::record::{
    known_titles, record_views, repeats_title, titles_distinct, Record, RecordView,
};

verus! {

/// The catalog: an ordered list of records without a repeated title.
pub struct CatalogStore {
    records: Vec<Record>,
}

/// Why a list of records is no catalog.
#[derive(Clone, Copy, Debug, PartialEq, Eq)]
pub enum CatalogError {
    /// The record at `index` has the title of a record before it.
    RepeatedTitle { index: usize },
}

impl View for CatalogStore {
    type V = Seq<RecordView>;

    closed spec fn view(&self) -> Seq<RecordView> {
        record_views(self.records@)
    }
}

/// What loading makes of a list of records: the same list, where no title is
/// repeated in it.
pub open spec fn loaded(records: Seq<RecordView>) -> Option<Seq<RecordView>> {
    if titles_distinct(records) {
        Some(records)
    } else {
        None
    }
}

/// Loading what was saved gives the catalog back, record for record.
pub proof fn lemma_load_of_saved(catalog: Seq<RecordView>)
    requires
        titles_distinct(catalog),
    ensures
        loaded(catalog) == Some(catalog),
{
}

/// A list without repeated titles stays one when it gets a record that has
/// no title or a title that is not yet in the list.
pub proof fn lemma_push_keeps_titles_distinct(records: Seq<RecordView>, record: RecordView)
    requires
        titles_distinct(records),
        match record.title {
            Some(title) => !known_titles(records).contains(title),
            None => true,
        },
    ensures
        titles_distinct(records.push(record)),
{
    let longer = records.push(record);
    assert forall|i: int, j: int|
        #![trigger longer[i], longer[j]]
        0 <= i < j < longer.len() && longer[i].title.is_some() implies longer[i].title
        != longer[j].title by {
        if j < records.len() {
            assert(longer[i] == records[i] && longer[j] == records[j]);
        } else {
            assert(longer[i] == records[i]);
            assert(longer[j] == record);
            if longer[i].title == record.title {
                assert(known_titles(records).contains(record.title.unwrap()));
            }
        }
    }
}

impl CatalogStore {
    /// What holds of every catalog: no title stands in it twice.
    #[verifier::type_invariant]
    pub open spec fn well_formed(self) -> bool {
        titles_distinct(self@)
    }

    /// The empty catalog: what a first run starts from.
    pub fn new() -> (store: CatalogStore)
        ensures
            store@ == Seq::<RecordView>::empty(),
            titles_distinct(store@),
    {
        let store = CatalogStore { records: Vec::new() };
        proof {
            assert(store@ =~= Seq::<RecordView>::empty());
        }
        store
    }

    /// Makes a catalog of the records that an earlier run has left, in their
    /// order. A list in which a title comes twice is no catalog; the error
    /// names the first record whose title an earlier record has.
    pub fn load(records: Vec<Record>) -> (r: Result<CatalogStore, CatalogError>)
        ensures
            match r {
                Ok(store) => loaded(record_views(records@)) == Some(store@) && titles_distinct(
                    store@,
                ),
                Err(CatalogError::RepeatedTitle { index }) => loaded(record_views(records@)).is_none()
                    && repeats_title(record_views(records@), index as int) && forall|k: int|
                    0 <= k < index ==> !repeats_title(record_views(records@), k),
            },
    {
        let ghost views = record_views(records@);
        let mut j: usize = 0;
        while j < records.len()
            invariant
                j <= records.len(),
                views == record_views(records@),
                forall|k: int| 0 <= k < j ==> !repeats_title(views, k),
            decreases records.len() - j,
        {
            if let Some(title) = &records[j].title {
                proof {
                    assert(views[j as int] == records@[j as int]@);
                    assert(views[j as int].title == Some(title@));
                }
                let mut i: usize = 0;
                while i < j
                    invariant
                        i <= j < records.len(),
                        views == record_views(records@),
                        views[j as int].title == Some(title@),
                        forall|k: int| 0 <= k < j ==> !repeats_title(views, k),
                        forall|k: int|
                            0 <= k < i ==> (#[trigger] views[k]).title != views[j as int].title,
                    decreases j - i,
                {
                    proof {
                        assert(views[i as int] == records@[i as int]@);
                    }
                    if records[i].has_title(title) {
                        proof {
                            assert(views[i as int].title == views[j as int].title);
                            assert(repeats_title(views, j as int));
                            assert(!titles_distinct(views));
                        }
                        return Err(CatalogError::RepeatedTitle { index: j });
                    }
                    i += 1;
                }
            }
            j += 1;
        }
        proof {
            assert forall|a: int, b: int|
                #![trigger views[a], views[b]]
                0 <= a < b < views.len() && views[a].title.is_some() implies views[a].title
                != views[b].title by {
                if views[a].title == views[b].title {
                    assert(repeats_title(views, b));
                }
            }
        }
        Ok(CatalogStore { records })
    }

    /// The records of the catalog, in order: what is to be written out.
    pub fn save(&self) -> (records: Vec<Record>)
        ensures
            record_views(records@) == self@,
            titles_distinct(self@),
    {
        proof {
            use_type_invariant(self);
        }
        let mut records: Vec<Record> = Vec::new();
        let mut i: usize = 0;
        while i < self.records.len()
            invariant
                i <= self.records.len(),
                records.len() == i,
                forall|k: int| 0 <= k < i ==> (#[trigger] records@[k])@ == self.records@[k]@,
            decreases self.records.len() - i,
        {
            records.push(self.records[i].clone());
            i += 1;
        }
        proof {
            assert(record_views(records@) =~= record_views(self.records@));
        }
        records
    }

    /// The number of records.
    pub fn len(&self) -> (n: usize)
        ensures
            n == self@.len(),
    {
        self.records.len()
    }

    /// The record at `index`, where there is one.
    pub fn get(&self, index: usize) -> (record: Option<&Record>)
        ensures
            match record {
                Some(r) => index < self@.len() && r@ == self@[index as int],
                None => index >= self@.len(),
            },
    {
        if index < self.records.len() {
            Some(&self.records[index])
        } else {
            None
        }
    }

    /// Tests whether a record of the catalog has the title `title`.
    pub fn knows(&self, title: &str) -> (known: bool)
        ensures
            known == known_titles(self@).contains(title@),
    {
        let wanted = String::from_str(title);
        let mut i: usize = 0;
        while i < self.records.len()
            invariant
                i <= self.records.len(),
                wanted@ == title@,
                forall|k: int| 0 <= k < i ==> (#[trigger] self@[k]).title != Some(title@),
            decreases self.records.len() - i,
        {
            if self.records[i].has_title(&wanted) {
                proof {
                    assert(self@[i as int].title == Some(title@));
                }
                return true;
            }
            i += 1;
        }
        false
    }

    /// Takes `record` into the catalog as its last record, unless a record
    /// of the catalog has the same title already; says whether it was taken.
    pub fn accept(&mut self, record: Record) -> (accepted: bool)
        ensures
            accepted == match record@.title {
                Some(title) => !known_titles(old(self)@).contains(title),
                None => true,
            },
            final(self)@ == if accepted {
                old(self)@.push(record@)
            } else {
                old(self)@
            },
            titles_distinct(final(self)@),
    {
        proof {
            use_type_invariant(&*self);
        }
        let fresh = match &record.title {
            Some(title) => !self.knows(title.as_str()),
            None => true,
        };
        if fresh {
            proof {
                lemma_push_keeps_titles_distinct(self@, record@);
                assert(record_views(self.records@.push(record)) =~= self@.push(record@));
            }
            let mut records: Vec<Record> = Vec::new();
            proof {
                assert(record_views(records@) =~= Seq::<RecordView>::empty());
            }
            std::mem::swap(&mut records, &mut self.records);
            records.push(record);
            self.records = records;
        }
        fresh
    }
}

} // verus!
