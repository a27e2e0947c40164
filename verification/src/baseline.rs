//! Baseline accept-list: a set of issue ids to suppress.
//!
//! The file format is a JSON array of `{ "id": "issue_...", "note"?: "..." }`.
//! Notes and unknown fields are ignored; entries without a string `id` are
//! skipped. Reading the file from disk is left to the caller.
use vstd::prelude::*;

use crate::contract::{is_sorted_union, sorted_union, strictly_sorted, views};
use crate::json::{json_array_error, json_array_string_fields, read_array_string_fields};
use crate::text::str_eq;

verus! {

/// A set of issue ids, kept sorted and free of duplicates.
#[derive(Debug)]
pub struct Baseline {
    ids: Vec<String>,
}

impl Baseline {
    /// The stored ids are strictly ascending, so no id occurs twice.
    #[verifier::type_invariant]
    spec fn ids_ascending(self) -> bool {
        strictly_sorted(views(self.ids@))
    }
}

impl View for Baseline {
    type V = Seq<Seq<char>>;

    /// The ids in ascending order.
    closed spec fn view(&self) -> Seq<Seq<char>> {
        views(self.ids@)
    }
}

/// Why a baseline could not be read.
#[derive(Debug, Clone, PartialEq, Eq)]
pub enum BaselineError {
    /// The bytes are not a JSON array; `detail` is the JSON reader's message.
    InvalidJson { detail: String },
}

/// The ids present among the `id` fields of the entries, in entry order.
pub open spec fn present_ids(fields: Seq<Option<Seq<char>>>) -> Seq<Seq<char>>
    decreases fields.len(),
{
    if fields.len() == 0 {
        seq![]
    } else {
        present_ids(fields.drop_last()) + match fields.last() {
            Some(id) => seq![id],
            None => seq![],
        }
    }
}

impl Default for Baseline {
    fn default() -> (b: Self)
        ensures
            b@ == Seq::<Seq<char>>::empty(),
    {
        let b = Baseline { ids: Vec::new() };
        assert(b@ =~= Seq::<Seq<char>>::empty());
        b
    }
}

impl Baseline {
    pub fn is_empty(&self) -> (r: bool)
        ensures
            r == (self@.len() == 0),
    {
        self.ids.len() == 0
    }

    /// Whether `id` is in the set.
    pub fn contains(&self, id: &str) -> (r: bool)
        ensures
            r == self@.contains(id@),
    {
        let mut i: usize = 0;
        while i < self.ids.len()
            invariant
                i <= self.ids@.len(),
                forall|k: int| 0 <= k < i ==> (#[trigger] self.ids@[k])@ != id@,
            decreases self.ids.len() - i,
        {
            if str_eq(self.ids[i].as_str(), id) {
                assert(self@[i as int] == id@);
                return true;
            }
            i = i + 1;
        }
        assert(!self@.contains(id@)) by {
            if self@.contains(id@) {
                let k = choose|k: int| 0 <= k < self@.len() && self@[k] == id@;
                assert(self.ids@[k]@ == id@);
            }
        }
        false
    }

    pub fn len(&self) -> (r: usize)
        ensures
            r == self@.len(),
    {
        self.ids.len()
    }

    /// The set of the given ids (sorted, repeats dropped).
    pub fn from_ids(ids: Vec<String>) -> (b: Self)
        ensures
            is_sorted_union(b@, views(ids@), Seq::<Seq<char>>::empty()),
    {
        let none: Vec<String> = Vec::new();
        let sorted = sorted_union(&ids, &none);
        assert(views(none@) =~= Seq::<Seq<char>>::empty());
        Baseline { ids: sorted }
    }

    /// The ids in ascending order.
    pub fn iter_ids(&self) -> (r: &[String])
        ensures
            views(r@) == self@,
            strictly_sorted(views(r@)),
    {
        proof {
            use_type_invariant(self);
        }
        self.ids.as_slice()
    }

    /// The set of the ids present in the `id` fields read from a baseline
    /// file (`None` for an entry without a string id).
    pub fn from_id_fields(fields: &Vec<Option<String>>) -> (b: Self)
        ensures
            is_sorted_union(
                b@,
                present_ids(fields@.map_values(|o: Option<String>| crate::json::opt_string_view(o))),
                Seq::<Seq<char>>::empty(),
            ),
    {
        let ghost fv = fields@.map_values(|o: Option<String>| crate::json::opt_string_view(o));
        let mut ids: Vec<String> = Vec::new();
        let mut i: usize = 0;
        while i < fields.len()
            invariant
                i <= fields@.len(),
                fv == fields@.map_values(|o: Option<String>| crate::json::opt_string_view(o)),
                views(ids@) == present_ids(fv.take(i as int)),
            decreases fields.len() - i,
        {
            assert(fv.take(i + 1).drop_last() =~= fv.take(i as int));
            match &fields[i] {
                Some(id) => {
                    let ghost before = views(ids@);
                    ids.push(id.clone());
                    assert(views(ids@) =~= before + seq![id@]);
                },
                None => {
                    assert(views(ids@) =~= views(ids@) + Seq::<Seq<char>>::empty());
                },
            }
            i = i + 1;
        }
        assert(fv.take(fields@.len() as int) =~= fv);
        Baseline::from_ids(ids)
    }
}

/// Reads a baseline from the bytes of its JSON file.
///
/// Fails exactly when the bytes are not a JSON array; otherwise the set holds
/// every string `id` field of the entries.
pub fn parse(bytes: &[u8]) -> (r: Result<Baseline, BaselineError>)
    ensures
        match r {
            Ok(b) => match json_array_string_fields(bytes@, "id"@) {
                Some(fields) => is_sorted_union(b@, present_ids(fields), Seq::<Seq<char>>::empty()),
                None => false,
            },
            Err(BaselineError::InvalidJson { detail }) => json_array_string_fields(bytes@, "id"@) is None
                && detail@ == json_array_error(bytes@),
        },
{
    match read_array_string_fields(bytes, "id") {
        Ok(fields) => Ok(Baseline::from_id_fields(&fields)),
        Err(m) => Err(BaselineError::InvalidJson { detail: m }),
    }
}

} // verus!
