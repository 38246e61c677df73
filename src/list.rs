//! The bookkeeping of an incremental photon store.
//!
//! The store holds two tables. The photon table is a sequence that only
//! grows, one batch per step: each batch extends it by its own length and is
//! written into the new tail. The table of initial atom states can be created
//! only once. [`PhotonOutputter`] decides every change to the durable store
//! and says exactly which region to write; the caller carries it out.
use vstd::prelude::*;

verus! {

/// Why a change to the store was refused.
#[derive(Clone, Copy, Debug, PartialEq, Eq)]
pub enum StoreError {
    /// The photon table would hold more records than a `usize` can count.
    TooManyRecords,
    /// The table of initial atom states was created before.
    InitialStateAlreadyWritten,
}

impl StoreError {
    /// A sentence that describes the error.
    pub fn message(&self) -> (r: &'static str) {
        match self {
            StoreError::TooManyRecords => "the photon table cannot grow past the largest addressable length",
            StoreError::InitialStateAlreadyWritten => "the table of initial atom states was already created; it can be written only once",
        }
    }
}

/// A batch to write: grow the photon table to `new_len` records and write
/// `records` into the region that starts at `start`.
pub struct AppendPlan<R> {
    pub start: usize,
    pub new_len: usize,
    pub records: Vec<R>,
}

/// The abstract content of the store: the photon records in table order, and
/// whether the table of initial atom states exists.
pub struct OutputterModel<R> {
    pub photons: Seq<R>,
    pub initial_state_written: bool,
}

/// Decides every change of a photon store whose records have type `R`.
pub struct PhotonOutputter<R> {
    photon_count: usize,
    initial_state_written: bool,
    photons: Ghost<Seq<R>>,
}

impl<R> View for PhotonOutputter<R> {
    type V = OutputterModel<R>;

    closed spec fn view(&self) -> OutputterModel<R> {
        OutputterModel { photons: self.photons@, initial_state_written: self.initial_state_written }
    }
}

impl<R> PhotonOutputter<R> {
    /// The count of photon records agrees with the records.
    pub closed spec fn wf(&self) -> bool {
        self.photon_count as int == self.photons@.len()
    }

    /// A fresh store: an empty photon table, no table of initial atom states.
    pub fn new() -> (r: PhotonOutputter<R>)
        ensures
            r.wf(),
            r@.photons == Seq::<R>::empty(),
            !r@.initial_state_written,
    {
        PhotonOutputter { photon_count: 0, initial_state_written: false, photons: Ghost(Seq::empty()) }
    }

    /// The number of photon records in the table.
    pub fn photon_count(&self) -> (r: usize)
        requires
            self.wf(),
        ensures
            r == self@.photons.len(),
    {
        self.photon_count
    }

    /// Whether the table of initial atom states exists.
    pub fn initial_state_written(&self) -> (r: bool)
        ensures
            r == self@.initial_state_written,
    {
        self.initial_state_written
    }

    /// Appends one step's batch of photon records after all earlier ones.
    ///
    /// Returns where to write it; refused, with the store unchanged, only
    /// when the table would outgrow a `usize`.
    pub fn append_photons(&mut self, photons: Vec<R>) -> (r: Result<AppendPlan<R>, StoreError>)
        requires
            old(self).wf(),
        ensures
            final(self).wf(),
            final(self)@.initial_state_written == old(self)@.initial_state_written,
            (r is Ok) <==> old(self)@.photons.len() + photons@.len() <= usize::MAX,
            match r {
                Ok(plan) => {
                    &&& plan.start == old(self)@.photons.len()
                    &&& plan.new_len == old(self)@.photons.len() + photons@.len()
                    &&& plan.records@ == photons@
                    &&& final(self)@.photons == old(self)@.photons + photons@
                },
                Err(e) => {
                    &&& e == StoreError::TooManyRecords
                    &&& final(self)@.photons == old(self)@.photons
                },
            },
    {
        let start: usize = self.photon_count;
        match start.checked_add(photons.len()) {
            None => Err(StoreError::TooManyRecords),
            Some(new_len) => {
                self.photon_count = new_len;
                self.photons = Ghost(self.photons@ + photons@);
                Ok(AppendPlan { start, new_len, records: photons })
            },
        }
    }

    /// Creates the table of initial atom states from `records`.
    ///
    /// An empty batch creates nothing and returns `Ok(None)`. A non-empty one
    /// is handed back to be written, once: when the table exists already it
    /// is refused.
    pub fn write_initial_atom_positions<A>(&mut self, records: Vec<A>) -> (r: Result<Option<Vec<A>>, StoreError>)
        requires
            old(self).wf(),
        ensures
            final(self).wf(),
            final(self)@.photons == old(self)@.photons,
            records@.len() == 0 ==> r == Ok::<Option<Vec<A>>, StoreError>(None)
                && final(self)@.initial_state_written == old(self)@.initial_state_written,
            records@.len() > 0 && old(self)@.initial_state_written ==>
                r == Err::<Option<Vec<A>>, StoreError>(StoreError::InitialStateAlreadyWritten)
                && final(self)@.initial_state_written,
            records@.len() > 0 && !old(self)@.initial_state_written ==> final(self)@.initial_state_written
                && match r {
                    Ok(Some(w)) => w@ == records@,
                    _ => false,
                },
    {
        if records.len() == 0 {
            Ok(None)
        } else if self.initial_state_written {
            Err(StoreError::InitialStateAlreadyWritten)
        } else {
            self.initial_state_written = true;
            Ok(Some(records))
        }
    }
}

} // verus!
