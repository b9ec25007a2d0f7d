//! One observation of the population.

use crate::text::{decimal, push_decimal};
use vstd::prelude::*;
use vstd::string::StringExecFns;

verus! {

/// One observation: who it is and what was measured.
#[derive(Clone, Debug, PartialEq, Eq)]
pub struct Dataform {
    /// The identifier: 1 for the first observation ever stored, then 2, and so on.
    pub index: u32,
    /// The label, which follows from the identifier.
    pub name: String,
    /// The category, 0 or 1.
    pub sex: u32,
    pub weight: u32,
    pub height: u32,
    pub age: u32,
}

/// What an observation holds, as plain mathematical values.
pub ghost struct DataformView {
    pub index: nat,
    pub name: Seq<char>,
    pub sex: nat,
    pub weight: nat,
    pub height: nat,
    pub age: nat,
}

impl View for Dataform {
    type V = DataformView;

    open spec fn view(&self) -> DataformView {
        DataformView {
            index: self.index as nat,
            name: self.name@,
            sex: self.sex as nat,
            weight: self.weight as nat,
            height: self.height as nat,
            age: self.age as nat,
        }
    }
}

/// What every label starts with.
pub open spec fn name_prefix() -> Seq<char> {
    seq!['N', 'A', 'M', 'E']
}

/// The label of the observation with the given identifier: the prefix, then
/// the identifier in decimal.
pub open spec fn name_of(index: nat) -> Seq<char> {
    name_prefix() + decimal(index)
}

/// What a sequence of observations holds.
pub open spec fn views(records: Seq<Dataform>) -> Seq<DataformView> {
    records.map_values(|d: Dataform| d@)
}

/// Writes the label of the observation with the given identifier.
pub fn make_name(index: u32) -> (name: String)
    ensures
        name@ == name_of(index as nat),
{
    let mut name = String::from_str("NAME");
    proof {
        reveal_strlit("NAME");
        assert(name@ =~= name_prefix());
    }
    push_decimal(&mut name, index as u64);
    name
}

} // verus!
