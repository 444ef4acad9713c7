//! The append-only progress ledger: which source inputs have been fully
//! extracted, as opaque byte-string identifiers.

use vstd::prelude::*;

verus! {

/// The ledger: an ordered list of identifiers of fully processed inputs.
/// Read once at startup, appended to after each input is flushed.
pub struct Ledger {
    pub entries: Vec<Vec<u8>>,
}

pub open spec fn entries_view(entries: Seq<Vec<u8>>) -> Seq<Seq<u8>> {
    entries.map_values(|v: Vec<u8>| v@)
}

impl View for Ledger {
    type V = Seq<Seq<u8>>;

    open spec fn view(&self) -> Seq<Seq<u8>> {
        entries_view(self.entries@)
    }
}

/// Whether an identifier is recorded in the ledger.
pub open spec fn ledger_listed(entries: Seq<Seq<u8>>, id: Seq<u8>) -> bool {
    exists|i: int| 0 <= i < entries.len() && entries[i] == id
}

/// Byte-string equality.
fn bytes_eq(a: &Vec<u8>, b: &Vec<u8>) -> (r: bool)
    ensures
        r == (a@ == b@),
{
    if a.len() != b.len() {
        proof {
            assert(a@ != b@);
        }
        return false;
    }
    let mut i: usize = 0;
    while i < a.len()
        invariant
            i <= a@.len(),
            a@.len() == b@.len(),
            forall|j: int| 0 <= j < i ==> a@[j] == b@[j],
        decreases a@.len() - i,
    {
        if a[i] != b[i] {
            proof {
                assert(a@ != b@);
            }
            return false;
        }
        i += 1;
    }
    proof {
        assert(a@ =~= b@);
    }
    true
}

impl Ledger {
    pub fn new() -> (r: Ledger)
        ensures
            r@.len() == 0,
    {
        Ledger { entries: Vec::new() }
    }

    pub fn len(&self) -> (r: usize)
        ensures
            r == self@.len(),
    {
        self.entries.len()
    }

    /// Whether `id` was already recorded.
    pub fn contains(&self, id: &Vec<u8>) -> (r: bool)
        ensures
            r == ledger_listed(self@, id@),
    {
        let mut i: usize = 0;
        while i < self.entries.len()
            invariant
                i <= self.entries@.len(),
                forall|j: int| 0 <= j < i ==> entries_view(self.entries@)[j] != id@,
            decreases self.entries@.len() - i,
        {
            if bytes_eq(&self.entries[i], id) {
                proof {
                    assert(entries_view(self.entries@)[i as int] == id@);
                }
                return true;
            }
            i += 1;
        }
        false
    }

    /// Record `id` as fully processed, after its records were flushed.
    pub fn record(&mut self, id: Vec<u8>)
        ensures
            final(self)@ == old(self)@.push(id@),
    {
        let ghost pre = self.entries@;
        self.entries.push(id);
        proof {
            assert(entries_view(self.entries@) =~= entries_view(pre).push(
                self.entries@[pre.len() as int]@,
            ));
        }
    }
}

} // verus!
