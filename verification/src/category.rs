//! The typed category row, and its mapping to and from the positional
//! payload the engine carries.  Categories have no foreign references,
//! which is why they stand first in the registry.

use vstd::prelude::*;
use crate::record::Record;

verus! {

/// A category as the application sees it: business fields plus the four
/// sync-control fields.
pub struct Category {
    pub id: u128,
    pub name: String,
    pub description: Option<String>,
    pub created_at: u64,
    pub local_updated_at: u64,
    pub remote_updated_at: u64,
    pub is_deleted: bool,
}

impl Category {
    /// The engine's view of this category: its business fields as the
    /// positional payload the categories descriptor names (name, then
    /// description), sync fields carried through.
    pub fn into_record(self) -> (r: Record)
        ensures
            r@.id == self.id,
            r@.columns =~= seq![Some(self.name), self.description],
            r@.created_at == self.created_at,
            r@.local_updated_at == self.local_updated_at,
            r@.remote_updated_at == self.remote_updated_at,
            r@.is_deleted == self.is_deleted,
    {
        let Category {
            id,
            name,
            description,
            created_at,
            local_updated_at,
            remote_updated_at,
            is_deleted,
        } = self;
        let mut columns: Vec<Option<String>> = Vec::new();
        columns.push(Some(name));
        columns.push(description);
        Record { id, columns, created_at, local_updated_at, remote_updated_at, is_deleted }
    }

    /// Reads a category back out of an engine record.  Succeeds if and
    /// only if the payload has the categories arity and a present name.
    pub fn from_record(rec: Record) -> (r: Option<Category>)
        ensures
            match r {
                Some(c) => {
                    &&& rec@.columns.len() == 2
                    &&& rec@.columns[0] is Some
                    &&& c.id == rec@.id
                    &&& Some(c.name) == rec@.columns[0]
                    &&& c.description == rec@.columns[1]
                    &&& c.created_at == rec@.created_at
                    &&& c.local_updated_at == rec@.local_updated_at
                    &&& c.remote_updated_at == rec@.remote_updated_at
                    &&& c.is_deleted == rec@.is_deleted
                },
                None => rec@.columns.len() != 2 || rec@.columns[0] is None,
            },
    {
        let Record { id, columns, created_at, local_updated_at, remote_updated_at, is_deleted } =
            rec;
        let mut columns = columns;
        if columns.len() != 2 {
            return None;
        }
        let name_opt = columns.remove(0);
        let description = columns.remove(0);
        match name_opt {
            Some(name) => Some(
                Category {
                    id,
                    name,
                    description,
                    created_at,
                    local_updated_at,
                    remote_updated_at,
                    is_deleted,
                },
            ),
            None => None,
        }
    }
}

} // verus!
