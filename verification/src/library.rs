//! The state of the library window: the discovered documents and which one
//! is selected, kept valid across selection and reloading.

use vstd::prelude::*;

use crate::document::DocumentEntry;
use crate::text::{append_str, decimal, decimal_text};

verus! {

/// The documents of the library and the selected one.
pub struct Library {
    documents: Vec<DocumentEntry>,
    selected: Option<usize>,
}

/// The model of a library: its documents and the selected index.
pub type LibraryView = (Seq<DocumentEntry>, Option<usize>);

/// A selection is valid: there is one exactly when there are documents, and
/// it names one of them.
pub open spec fn selection_valid(v: LibraryView) -> bool {
    &&& (v.1 is None <==> v.0.len() == 0)
    &&& v.1 matches Some(i) ==> i < v.0.len()
}

/// The first index of a document with the given path.
pub open spec fn position_of_path(documents: Seq<DocumentEntry>, path: Seq<char>) -> Option<nat>
    decreases documents.len(),
{
    if documents.len() == 0 {
        None
    } else if documents[0].path@ == path {
        Some(0)
    } else {
        match position_of_path(documents.drop_first(), path) {
            Some(k) => Some(k + 1),
            None => None,
        }
    }
}

/// The selection after reloading: the document that was selected, found by
/// its path; when it is gone, the first document; none when there are none.
pub open spec fn reloaded_selection(old: LibraryView, documents: Seq<DocumentEntry>) -> Option<usize> {
    let found = match old.1 {
        Some(i) => if 0 <= i < old.0.len() {
            position_of_path(documents, old.0[i as int].path@)
        } else {
            None
        },
        None => None,
    };
    match found {
        Some(k) => Some(k as usize),
        None => if documents.len() > 0 {
            Some(0)
        } else {
            None
        },
    }
}

impl View for Library {
    type V = LibraryView;

    closed spec fn view(&self) -> LibraryView {
        (self.documents@, self.selected)
    }
}

impl Library {
    #[verifier::type_invariant]
    spec fn valid(self) -> bool {
        selection_valid((self.documents@, self.selected))
    }

    /// A library of `documents` with the first one selected, if any.
    pub fn new(documents: Vec<DocumentEntry>) -> (library: Library)
        ensures
            library@ == (documents@, if documents@.len() > 0 {
                Some(0usize)
            } else {
                None
            }),
            selection_valid(library@),
    {
        let selected = if documents.len() > 0 {
            Some(0)
        } else {
            None
        };
        Library { documents, selected }
    }

    /// The documents, in library order.
    pub fn documents(&self) -> (documents: &Vec<DocumentEntry>)
        ensures
            documents@ == self@.0,
    {
        &self.documents
    }

    /// The index of the selected document.
    pub fn selected(&self) -> (selected: Option<usize>)
        ensures
            selected == self@.1,
            selection_valid(self@),
    {
        proof {
            use_type_invariant(self);
        }
        self.selected
    }

    /// The selected document.
    pub fn selected_entry(&self) -> (entry: Option<&DocumentEntry>)
        ensures
            match self@.1 {
                Some(i) => entry == Some(&self@.0[i as int]),
                None => entry is None,
            },
    {
        proof {
            use_type_invariant(self);
        }
        match self.selected {
            Some(i) => Some(&self.documents[i]),
            None => None,
        }
    }

    /// Selects the document at `index`. Returns whether the selection changed,
    /// that is whether its preview has to be loaded.
    pub fn select(&mut self, index: usize) -> (changed: bool)
        requires
            index < old(self)@.0.len(),
        ensures
            changed == (old(self)@.1 != Some(index)),
            final(self)@ == (old(self)@.0, Some(index)),
            selection_valid(final(self)@),
    {
        if self.selected == Some(index) {
            return false;
        }
        self.selected = Some(index);
        true
    }

    /// Replaces the documents with a fresh discovery of the folder, keeping
    /// the selected document when it is still there.
    pub fn reload(&mut self, documents: Vec<DocumentEntry>)
        ensures
            final(self)@ == (documents@, reloaded_selection(old(self)@, documents@)),
            selection_valid(final(self)@),
    {
        proof {
            use_type_invariant(&*self);
        }
        let found = match self.selected {
            Some(i) => position_of(&documents, &self.documents[i].path),
            None => None,
        };
        let selected = match found {
            Some(k) => Some(k),
            None => if documents.len() > 0 {
                Some(0)
            } else {
                None
            },
        };
        proof {
            lemma_position_in_range(documents@, match self.selected {
                Some(i) => self.documents@[i as int].path@,
                None => Seq::empty(),
            });
        }
        *self = Library { documents, selected };
    }

    /// The sidebar's count of documents: `N documents`.
    pub fn document_count_label(&self) -> (label: String)
        ensures
            label@ == decimal(self@.0.len()) + " documents"@,
    {
        let mut label = decimal_text(self.documents.len());
        append_str(&mut label, " documents");
        label
    }

    /// The toolbar's title, relative path and kind badge for the selected
    /// document; `No document selected`, an empty path and a dash when there
    /// is none.
    pub fn toolbar_summary(&self) -> (summary: (String, String, &'static str))
        ensures
            match self@.1 {
                Some(i) => summary.0 == self@.0[i as int].title && summary.1
                    == self@.0[i as int].relative_path && summary.2@ == self@.0[i as int].kind.label_text(),
                None => summary.0@ == "No document selected"@ && summary.1@.len() == 0
                    && summary.2@ == "\u{2014}"@,
            },
    {
        proof {
            use_type_invariant(self);
        }
        match self.selected {
            Some(i) => {
                let entry = &self.documents[i];
                (entry.title.clone(), entry.relative_path.clone(), entry.kind.label())
            },
            None => {
                let mut title = String::new();
                append_str(&mut title, "No document selected");
                assert(Seq::<char>::empty() + "No document selected"@ == "No document selected"@);
                (title, String::new(), "\u{2014}")
            },
        }
    }
}

/// The first index of a document with the given path.
fn position_of(documents: &Vec<DocumentEntry>, path: &String) -> (position: Option<usize>)
    ensures
        position == match position_of_path(documents@, path@) {
            Some(p) => Some(p as usize),
            None => None::<usize>,
        },
{
    let mut k: usize = 0;
    assert(documents@.skip(0) == documents@);
    while k < documents.len()
        invariant
            k <= documents.len(),
            position_of_path(documents@, path@) == match position_of_path(
                documents@.skip(k as int),
                path@,
            ) {
                Some(p) => Some((p + k) as nat),
                None => None,
            },
        decreases documents.len() - k,
    {
        assert(documents@.skip(k as int)[0] == documents@[k as int]);
        if documents[k].path == *path {
            return Some(k);
        }
        assert(documents@.skip(k as int).drop_first() == documents@.skip(k + 1));
        k = k + 1;
    }
    assert(documents@.skip(k as int).len() == 0);
    None
}

proof fn lemma_position_in_range(documents: Seq<DocumentEntry>, path: Seq<char>)
    ensures
        position_of_path(documents, path) matches Some(p) ==> p < documents.len()
            && documents[p as int].path@ == path,
    decreases documents.len(),
{
    if documents.len() > 0 && documents[0].path@ != path {
        lemma_position_in_range(documents.drop_first(), path);
    }
}


/// Reloading keeps the selected document: when a document with the selected
/// document's path is among the new documents, the first of them is selected.
pub proof fn lemma_reload_keeps_selected_document(old: LibraryView, documents: Seq<DocumentEntry>)
    requires
        selection_valid(old),
        old.1 is Some,
        position_of_path(documents, old.0[old.1->0 as int].path@) is Some,
        documents.len() <= usize::MAX,
    ensures
        reloaded_selection(old, documents) matches Some(k) && k < documents.len()
            && documents[k as int].path@ == old.0[old.1->0 as int].path@,
{
    lemma_position_in_range(documents, old.0[old.1->0 as int].path@);
}

/// Whatever the old state, the selection after reloading is valid.
pub proof fn lemma_reload_valid(old: LibraryView, documents: Seq<DocumentEntry>)
    ensures
        selection_valid((documents, reloaded_selection(old, documents))),
{
    if old.1 is Some && 0 <= old.1->0 < old.0.len() {
        lemma_position_in_range(documents, old.0[old.1->0 as int].path@);
    }
}

/// The position of a document's own path in a library whose paths are
/// distinct is its index.
proof fn lemma_position_of_own_path(documents: Seq<DocumentEntry>, i: int)
    requires
        0 <= i < documents.len(),
        forall|a: int, b: int|
            0 <= a < b < documents.len() ==> documents[a].path@ != documents[b].path@,
    ensures
        position_of_path(documents, documents[i].path@) == Some(i as nat),
    decreases i,
{
    if i > 0 {
        let rest = documents.drop_first();
        assert(rest[i - 1] == documents[i]);
        assert forall|a: int, b: int| 0 <= a < b < rest.len() implies rest[a].path@ != rest[b].path@ by {
            assert(rest[a] == documents[a + 1] && rest[b] == documents[b + 1]);
        }
        lemma_position_of_own_path(rest, i - 1);
    }
}

/// Reloading a library whose documents did not change keeps the selection,
/// when no two documents share a path.
pub proof fn lemma_reload_unchanged(v: LibraryView)
    requires
        selection_valid(v),
        forall|a: int, b: int| 0 <= a < b < v.0.len() ==> v.0[a].path@ != v.0[b].path@,
    ensures
        reloaded_selection(v, v.0) == v.1,
{
    if v.1 is Some {
        lemma_position_of_own_path(v.0, v.1->0 as int);
    }
}

} // verus!
