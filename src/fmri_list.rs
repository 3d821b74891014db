//! A collection of identifiers.
use vstd::prelude::*;

use crate::{FmriModel, FMRI};

verus! {

/// [`FMRIList`] holds several [`FMRI`]s, in the order they were added.
#[derive(Debug, Clone, PartialEq, Eq)]
pub struct FMRIList(Vec<FMRI>);

impl View for FMRIList {
    type V = Seq<FmriModel>;

    closed spec fn view(&self) -> Seq<FmriModel> {
        self.0@.map_values(|f: FMRI| f@)
    }
}

impl FMRIList {
    pub fn new() -> (r: FMRIList)
        ensures
            r@ == Seq::<FmriModel>::empty(),
    {
        let r = FMRIList(Vec::new());
        assert(r@ =~= Seq::<FmriModel>::empty());
        r
    }

    pub fn add(&mut self, fmri: FMRI)
        ensures
            final(self)@ == old(self)@.push(fmri@),
    {
        self.0.push(fmri);
        assert(self@ =~= old(self)@.push(fmri@));
    }

    pub fn get(self) -> (r: Vec<FMRI>)
        ensures
            r@.map_values(|f: FMRI| f@) == self@,
    {
        self.0
    }

    pub fn get_ref(&self) -> (r: &Vec<FMRI>)
        ensures
            r@.map_values(|f: FMRI| f@) == self@,
    {
        &self.0
    }

    pub fn get_ref_mut(&mut self) -> (r: &mut Vec<FMRI>)
        ensures
            r@.map_values(|f: FMRI| f@) == old(self)@,
            final(self)@ == final(r)@.map_values(|f: FMRI| f@),
    {
        &mut self.0
    }

    pub fn len(&self) -> (r: usize)
        ensures
            r == self@.len(),
    {
        self.0.len()
    }

    pub fn is_empty(&self) -> (r: bool)
        ensures
            r == (self@.len() == 0),
    {
        self.0.len() == 0
    }

    /// Whether some identifier of the list names the same package as
    /// `checking_fmri`, whatever its publisher and version.
    pub fn contains(&self, checking_fmri: &FMRI) -> (r: bool)
        ensures
            r == exists|i: int|
                0 <= i < self@.len() && (#[trigger] self@[i]).package_name
                    == checking_fmri@.package_name,
    {
        let mut i: usize = 0;
        while i < self.0.len()
            invariant
                i <= self.0.len(),
                self@.len() == self.0.len(),
                forall|j: int| 0 <= j < i ==> (#[trigger] self@[j]).package_name != checking_fmri@.package_name,
            decreases self.0.len() - i,
        {
            if self.0[i].package_name_eq(checking_fmri) {
                assert(self@[i as int] == self.0@[i as int]@);
                return true;
            }
            i += 1;
        }
        false
    }

    /// The identifiers rendered and joined by `, `.
    pub fn as_string(&self) -> (r: String)
        ensures
            r@ == list_text(self@),
    {
        let mut out = String::new();
        let mut i: usize = 0;
        while i < self.0.len()
            invariant
                i <= self.0.len(),
                self@.len() == self.0.len(),
                out@ == list_text(self@.take(i as int)),
            decreases self.0.len() - i,
        {
            if i > 0 {
                out.append(", ");
            }
            out.append(self.0[i].as_string().as_str());
            proof {
                reveal_strlit(", ");
                let t = self@.take(i + 1);
                assert(t.drop_last() =~= self@.take(i as int));
                assert(out@ =~= list_text(t));
            }
            i += 1;
        }
        assert(self@.take(self@.len() as int) =~= self@);
        out
    }
}

/// The identifiers rendered and joined by `, `.
pub open spec fn list_text(fs: Seq<FmriModel>) -> Seq<char>
    decreases fs.len(),
{
    if fs.len() == 0 {
        Seq::empty()
    } else if fs.len() == 1 {
        crate::fmri_text(fs[0])
    } else {
        list_text(fs.drop_last()) + seq![',', ' '] + crate::fmri_text(fs.last())
    }
}

impl From<Vec<FMRI>> for FMRIList {
    fn from(value: Vec<FMRI>) -> (r: FMRIList) {
        FMRIList(value)
    }
}

impl vstd::std_specs::convert::FromSpecImpl<Vec<FMRI>> for FMRIList {
    open spec fn obeys_from_spec() -> bool {
        true
    }

    closed spec fn from_spec(v: Vec<FMRI>) -> FMRIList {
        FMRIList(v)
    }
}

impl Default for FMRIList {
    fn default() -> (r: FMRIList)
        ensures
            r@ == Seq::<FmriModel>::empty(),
    {
        FMRIList::new()
    }
}

} // verus!
