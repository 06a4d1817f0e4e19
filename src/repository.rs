use vstd::prelude::*;
use vstd::string::StringExecFns;
use crate::model::{NewRustacean, RecordView, Rustacean};

verus! {

/// Why a store operation failed.
#[derive(Clone, Copy, Debug, PartialEq, Eq, Structural)]
pub enum StoreError {
    /// No record has the identifier asked for.
    NotFound,
    /// Every identifier an `i32` can hold has been handed out.
    IdsExhausted,
}

impl StoreError {
    /// The error's description, as it is sent to the client.
    pub fn message(&self) -> (r: String)
        ensures
            *self == StoreError::NotFound ==> r@ == "Record not found"@,
            *self == StoreError::IdsExhausted ==> r@ == "No identifier is left to assign"@,
    {
        match self {
            StoreError::NotFound => String::from_str("Record not found"),
            StoreError::IdsExhausted => String::from_str("No identifier is left to assign"),
        }
    }
}

pub open spec fn ids_ascending(s: Seq<RecordView>) -> bool {
    forall|i: int, j: int| 0 <= i < j < s.len() ==> s[i].id < s[j].id
}

pub open spec fn has_id_at(s: Seq<RecordView>, id: int, k: int) -> bool {
    0 <= k < s.len() && s[k].id == id
}

/// Where the record with identifier `id` stands.
pub open spec fn index_of(s: Seq<RecordView>, id: int) -> Option<int> {
    if exists|k: int| has_id_at(s, id, k) {
        Some(choose|k: int| has_id_at(s, id, k))
    } else {
        None
    }
}

/// The record with identifier `id`, if there is one.
pub open spec fn find_in(s: Seq<RecordView>, id: int) -> Option<RecordView> {
    match index_of(s, id) {
        Some(k) => Some(s[k]),
        None => None,
    }
}

/// The mathematical value of a store: its records in identifier order, and
/// the identifier that the next insert receives.
pub ghost struct StoreView {
    pub records: Seq<RecordView>,
    pub next_id: int,
}

impl StoreView {
    pub open spec fn wf(self) -> bool {
        &&& 1 <= self.next_id <= i32::MAX
        &&& ids_ascending(self.records)
        &&& forall|i: int| 0 <= i < self.records.len() ==> 1 <= #[trigger] self.records[i].id < self.next_id
    }

    /// The record that an insert adds.
    pub open spec fn inserted(self, name: Seq<char>, email: Seq<char>, created_at: Seq<char>) -> RecordView {
        RecordView { id: self.next_id, name, email, created_at }
    }

    pub open spec fn created(self, name: Seq<char>, email: Seq<char>, created_at: Seq<char>) -> StoreView {
        StoreView {
            records: self.records.push(self.inserted(name, email, created_at)),
            next_id: self.next_id + 1,
        }
    }

    /// `old` with the name and email of `given`; identifier and creation time
    /// stay.
    pub open spec fn overwritten(old: RecordView, given: RecordView) -> RecordView {
        RecordView { id: old.id, name: given.name, email: given.email, created_at: old.created_at }
    }

    pub open spec fn saved(self, given: RecordView) -> StoreView {
        match index_of(self.records, given.id) {
            Some(k) => StoreView {
                records: self.records.update(k, Self::overwritten(self.records[k], given)),
                next_id: self.next_id,
            },
            None => self,
        }
    }

    pub open spec fn deleted(self, id: int) -> StoreView {
        match index_of(self.records, id) {
            Some(k) => StoreView { records: self.records.remove(k), next_id: self.next_id },
            None => self,
        }
    }
}

/// In ascending order, identifiers are unique, and a record that has one
/// is the one that `index_of` finds.
pub proof fn lemma_index_unique(s: Seq<RecordView>, id: int, k: int)
    requires
        ids_ascending(s),
        has_id_at(s, id, k),
    ensures
        index_of(s, id) == Some(k),
{
    let c = choose|c: int| has_id_at(s, id, c);
    if c < k {
        assert(s[c].id < s[k].id);
    } else if k < c {
        assert(s[k].id < s[c].id);
    }
}

proof fn lemma_remove_ascending(s: Seq<RecordView>, k: int)
    requires
        ids_ascending(s),
        0 <= k < s.len(),
    ensures
        ids_ascending(s.remove(k)),
{
    let r = s.remove(k);
    assert forall|i: int, j: int| 0 <= i < j < r.len() implies r[i].id < r[j].id by {
        if i < k && j >= k {
            assert(s[i].id < s[j + 1].id);
        } else if i >= k {
            assert(s[i + 1].id < s[j + 1].id);
        }
    }
}

/// Creating a record hands out an identifier that no record had, and a find
/// by that identifier then returns the record with the name, email and
/// creation time it was created with.
pub proof fn lemma_find_after_create(m: StoreView, name: Seq<char>, email: Seq<char>, created_at: Seq<char>)
    requires
        m.wf(),
        m.next_id < i32::MAX,
    ensures
        find_in(m.records, m.next_id) is None,
        m.created(name, email, created_at).wf(),
        find_in(m.created(name, email, created_at).records, m.next_id) == Some(
            m.inserted(name, email, created_at),
        ),
{
    let s = m.created(name, email, created_at).records;
    assert(forall|k: int| #![auto] 0 <= k < m.records.len() ==> m.records[k].id < m.next_id);
    assert(s[m.records.len() as int] == m.inserted(name, email, created_at));
    assert(has_id_at(s, m.next_id, m.records.len() as int));
    lemma_index_unique(s, m.next_id, m.records.len() as int);
}

/// A full update of an existing record is seen by the next find: new name
/// and email, same identifier and creation time.
pub proof fn lemma_find_after_save(m: StoreView, given: RecordView)
    requires
        m.wf(),
        find_in(m.records, given.id) is Some,
    ensures
        m.saved(given).wf(),
        find_in(m.saved(given).records, given.id) == Some(
            StoreView::overwritten(find_in(m.records, given.id)->Some_0, given),
        ),
        find_in(m.saved(given).records, given.id)->Some_0.id == given.id,
        find_in(m.saved(given).records, given.id)->Some_0.created_at == find_in(
            m.records,
            given.id,
        )->Some_0.created_at,
{
    let k = index_of(m.records, given.id)->Some_0;
    let s = m.saved(given).records;
    assert(has_id_at(s, given.id, k));
    assert(forall|i: int| #![auto] 0 <= i < s.len() ==> s[i].id == m.records[i].id);
    lemma_index_unique(s, given.id, k);
}

/// After a delete no record has the identifier; deleting an identifier that
/// no record has leaves the store as it was.
pub proof fn lemma_find_after_delete(m: StoreView, id: int)
    requires
        m.wf(),
    ensures
        m.deleted(id).wf(),
        find_in(m.deleted(id).records, id) is None,
        find_in(m.records, id) is None ==> m.deleted(id) == m,
{
    if let Some(k) = index_of(m.records, id) {
        let s = m.records;
        let r = s.remove(k);
        lemma_remove_ascending(s, k);
        assert forall|i: int| 0 <= i < r.len() implies r[i].id != id by {
            if i < k {
                assert(s[i].id < s[k].id);
            } else {
                assert(s[k].id < s[i + 1].id);
            }
        }
        assert forall|i: int| 0 <= i < r.len() implies 1 <= #[trigger] r[i].id < m.next_id by {
            if i >= k {
                assert(r[i] == s[i + 1]);
            }
        }
    }
}

/// Creating, saving or deleting one record leaves what a find returns for
/// every other identifier as it was.
pub proof fn lemma_other_records_kept(
    m: StoreView,
    name: Seq<char>,
    email: Seq<char>,
    created_at: Seq<char>,
    given: RecordView,
    id: int,
    other: int,
)
    requires
        m.wf(),
        other != m.next_id,
        other != given.id,
        other != id,
    ensures
        find_in(m.created(name, email, created_at).records, other) == find_in(m.records, other),
        find_in(m.saved(given).records, other) == find_in(m.records, other),
        find_in(m.deleted(id).records, other) == find_in(m.records, other),
{
    let s = m.records;
    let c = m.created(name, email, created_at).records;
    assert(forall|k: int| #![auto] 0 <= k < s.len() ==> s[k].id < m.next_id);
    assert(ids_ascending(c));
    if let Some(j) = index_of(s, other) {
        assert(has_id_at(c, other, j));
        lemma_index_unique(c, other, j);
    } else {
        assert(!exists|k: int| has_id_at(c, other, k)) by {
            if exists|k: int| has_id_at(c, other, k) {
                let k = choose|k: int| has_id_at(c, other, k);
                assert(k < s.len());
                assert(has_id_at(s, other, k));
            }
        }
    }
    let u = m.saved(given).records;
    assert(forall|i: int| #![auto] 0 <= i < u.len() ==> u[i].id == s[i].id);
    assert(ids_ascending(u));
    if let Some(j) = index_of(s, other) {
        assert(has_id_at(u, other, j));
        lemma_index_unique(u, other, j);
        if let Some(k) = index_of(s, given.id) {
            assert(j != k);
        }
    } else {
        assert(!exists|k: int| has_id_at(u, other, k)) by {
            if exists|k: int| has_id_at(u, other, k) {
                let k = choose|k: int| has_id_at(u, other, k);
                assert(has_id_at(s, other, k));
            }
        }
    }
    if let Some(k) = index_of(s, id) {
        let r = s.remove(k);
        lemma_remove_ascending(s, k);
        if let Some(j) = index_of(s, other) {
            assert(j != k);
            let jr = if j < k { j } else { j - 1 };
            assert(r[jr] == s[j]);
            assert(has_id_at(r, other, jr));
            lemma_index_unique(r, other, jr);
        } else {
            assert(!exists|i: int| has_id_at(r, other, i)) by {
                if exists|i: int| has_id_at(r, other, i) {
                    let i = choose|i: int| has_id_at(r, other, i);
                    if i < k {
                        assert(has_id_at(s, other, i));
                    } else {
                        assert(has_id_at(s, other, i + 1));
                    }
                }
            }
        }
    }
}

/// A listing holds no record twice: identifiers are pairwise distinct, and
/// each listed record is the one that a find by its identifier returns.
pub proof fn lemma_listing_distinct(m: StoreView)
    requires
        m.wf(),
    ensures
        forall|i: int, j: int|
            0 <= i < m.records.len() && 0 <= j < m.records.len() && i != j ==> m.records[i].id
                != m.records[j].id,
        forall|i: int| 0 <= i < m.records.len() ==> find_in(m.records, #[trigger] m.records[i].id) == Some(m.records[i]),
{
    assert forall|i: int, j: int|
        0 <= i < m.records.len() && 0 <= j < m.records.len() && i != j implies m.records[i].id
        != m.records[j].id by {
        if i < j {
            assert(m.records[i].id < m.records[j].id);
        } else {
            assert(m.records[j].id < m.records[i].id);
        }
    }
    assert forall|i: int| 0 <= i < m.records.len() implies find_in(m.records, #[trigger] m.records[i].id)
        == Some(m.records[i]) by {
        assert(has_id_at(m.records, m.records[i].id, i));
        lemma_index_unique(m.records, m.records[i].id, i);
    }
}

/// The records of the service, each with a unique identifier, kept in
/// ascending identifier order.
pub struct RustaceanRepository {
    records: Vec<Rustacean>,
    next_id: i32,
}

impl View for RustaceanRepository {
    type V = StoreView;

    closed spec fn view(&self) -> StoreView {
        StoreView { records: self.records@.map_values(|r: Rustacean| r@), next_id: self.next_id as int }
    }
}

impl RustaceanRepository {
    pub open spec fn wf(&self) -> bool {
        self@.wf()
    }

    /// An empty store; the first record gets identifier 1.
    pub fn new() -> (r: RustaceanRepository)
        ensures
            r.wf(),
            r@.records.len() == 0,
            r@.next_id == 1,
    {
        let r = RustaceanRepository { records: Vec::new(), next_id: 1 };
        assert(r@.records =~= Seq::<RecordView>::empty());
        r
    }

    fn position(&self, id: i32) -> (r: Option<usize>)
        requires
            self.wf(),
        ensures
            r matches Some(k) ==> index_of(self@.records, id as int) == Some(k as int),
            r is None ==> index_of(self@.records, id as int) is None,
    {
        let mut i: usize = 0;
        while i < self.records.len()
            invariant
                self.wf(),
                i <= self.records@.len(),
                forall|j: int| 0 <= j < i ==> self@.records[j].id != id,
            decreases self.records@.len() - i,
        {
            if self.records[i].id == id {
                proof { lemma_index_unique(self@.records, id as int, i as int); }
                return Some(i);
            }
            i = i + 1;
        }
        None
    }

    /// Every record, in ascending identifier order.
    pub fn load_all(&self) -> (r: Vec<Rustacean>)
        ensures
            r@.map_values(|x: Rustacean| x@) == self@.records,
    {
        let mut out: Vec<Rustacean> = Vec::new();
        let mut i: usize = 0;
        while i < self.records.len()
            invariant
                i <= self.records@.len(),
                forall|j: int| 0 <= j < i ==> #[trigger] out@[j]@ == self.records@[j]@,
                out@.len() == i,
            decreases self.records@.len() - i,
        {
            out.push(self.records[i].duplicate());
            i = i + 1;
        }
        assert(out@.map_values(|x: Rustacean| x@) =~= self@.records);
        out
    }

    /// The record with the given identifier.
    pub fn find(&self, id: i32) -> (r: Result<Rustacean, StoreError>)
        requires
            self.wf(),
        ensures
            r matches Ok(x) ==> find_in(self@.records, id as int) == Some(x@),
            r is Err ==> r == Err::<Rustacean, StoreError>(StoreError::NotFound) && find_in(
                self@.records,
                id as int,
            ) is None,
    {
        match self.position(id) {
            Some(k) => Ok(self.records[k].duplicate()),
            None => Err(StoreError::NotFound),
        }
    }

    /// Inserts a record made of the payload, the next identifier and the given
    /// creation time, and returns it.
    pub fn create(&mut self, new_rustacean: NewRustacean, created_at: String) -> (r: Result<
        Rustacean,
        StoreError,
    >)
        requires
            old(self).wf(),
        ensures
            final(self).wf(),
            old(self)@.next_id == i32::MAX ==> r == Err::<Rustacean, StoreError>(
                StoreError::IdsExhausted,
            ) && final(self)@ == old(self)@,
            old(self)@.next_id < i32::MAX ==> r is Ok,
            r matches Ok(x) ==> x@ == old(self)@.inserted(
                new_rustacean.name@,
                new_rustacean.email@,
                created_at@,
            ) && final(self)@ == old(self)@.created(
                new_rustacean.name@,
                new_rustacean.email@,
                created_at@,
            ),
    {
        if self.next_id == i32::MAX {
            return Err(StoreError::IdsExhausted);
        }
        let record = Rustacean {
            id: self.next_id,
            name: new_rustacean.name,
            email: new_rustacean.email,
            created_at,
        };
        let out = record.duplicate();
        self.records.push(record);
        self.next_id = self.next_id + 1;
        assert(self@.records =~= old(self)@.records.push(out@));
        Ok(out)
    }

    /// Replaces the name and email of the record with `rustacean.id`; its
    /// identifier and creation time stay. Returns the stored record.
    pub fn save(&mut self, rustacean: Rustacean) -> (r: Result<Rustacean, StoreError>)
        requires
            old(self).wf(),
        ensures
            final(self).wf(),
            final(self)@ == old(self)@.saved(rustacean@),
            r is Err <==> find_in(old(self)@.records, rustacean.id as int) is None,
            r is Err ==> r == Err::<Rustacean, StoreError>(StoreError::NotFound),
            r matches Ok(x) ==> find_in(final(self)@.records, rustacean.id as int) == Some(x@)
                && x@ == StoreView::overwritten(
                find_in(old(self)@.records, rustacean.id as int)->Some_0,
                rustacean@,
            ),
    {
        match self.position(rustacean.id) {
            None => Err(StoreError::NotFound),
            Some(k) => {
                let ghost before = self@;
                let old_record = self.records[k].duplicate();
                let updated = Rustacean {
                    id: old_record.id,
                    name: rustacean.name,
                    email: rustacean.email,
                    created_at: old_record.created_at,
                };
                let out = updated.duplicate();
                self.records.set(k, updated);
                assert(self@.records =~= before.records.update(
                    k as int,
                    StoreView::overwritten(before.records[k as int], rustacean@),
                ));
                assert(has_id_at(self@.records, rustacean.id as int, k as int));
                proof { lemma_index_unique(self@.records, rustacean.id as int, k as int); }
                Ok(out)
            },
        }
    }

    /// Removes the record with the given identifier; returns how many were
    /// removed (0 where none had it, which is no error).
    pub fn delete(&mut self, id: i32) -> (r: usize)
        requires
            old(self).wf(),
        ensures
            final(self).wf(),
            final(self)@ == old(self)@.deleted(id as int),
            r == (if find_in(old(self)@.records, id as int) is Some { 1usize } else { 0usize }),
    {
        match self.position(id) {
            None => 0,
            Some(k) => {
                let ghost before = self@.records;
                self.records.remove(k);
                assert(self@.records =~= before.remove(k as int));
                assert forall|i: int, j: int| 0 <= i < j < self@.records.len() implies
                    self@.records[i].id < self@.records[j].id by {
                    if i < k && j >= k {
                        assert(before[i].id < before[j + 1].id);
                    } else if i >= k {
                        assert(before[i + 1].id < before[j + 1].id);
                    }
                }
                1
            },
        }
    }
}

} // verus!
