use vstd::prelude::*;

verus! {

/// A stored record. The store assigns `id` and `created_at`; neither changes
/// afterwards.
#[derive(Clone, Debug)]
pub struct Rustacean {
    pub id: i32,
    pub name: String,
    pub email: String,
    pub created_at: String,
}

/// What a client sends to create a record: no identifier, no timestamp.
#[derive(Clone, Debug)]
pub struct NewRustacean {
    pub name: String,
    pub email: String,
}

/// The mathematical value of a record.
pub ghost struct RecordView {
    pub id: int,
    pub name: Seq<char>,
    pub email: Seq<char>,
    pub created_at: Seq<char>,
}

impl View for Rustacean {
    type V = RecordView;

    open spec fn view(&self) -> RecordView {
        RecordView { id: self.id as int, name: self.name@, email: self.email@, created_at: self.created_at@ }
    }
}

impl Rustacean {
    /// A copy with the same value.
    pub fn duplicate(&self) -> (r: Rustacean)
        ensures
            r@ == self@,
    {
        Rustacean {
            id: self.id,
            name: self.name.clone(),
            email: self.email.clone(),
            created_at: self.created_at.clone(),
        }
    }
}

} // verus!
