//! Cameras that are switched between with the number keys.

use vstd::prelude::*;

verus! {

/// A camera that the number key `index` makes the active one.
#[derive(Clone, Copy, Debug, PartialEq, Eq, Structural)]
pub struct IndexedCamera {
    index: u32,
}

/// Whether `digit` is the highest number key among those pressed.
pub open spec fn is_selected(keys: Seq<bool>, digit: int) -> bool {
    &&& 0 <= digit < keys.len()
    &&& keys[digit]
    &&& forall|higher: int| digit < higher < keys.len() ==> !keys[higher]
}

impl IndexedCamera {
    /// The number key that makes this camera the active one.
    pub closed spec fn spec_index(&self) -> u32 {
        self.index
    }

    pub fn new(index: u32) -> (r: IndexedCamera)
        ensures
            r.index() == index,
    {
        IndexedCamera { index }
    }

    /// The number key that makes this camera the active one.
    #[verifier::when_used_as_spec(spec_index)]
    pub fn index(&self) -> (r: u32)
        ensures
            r == self.index(),
    {
        self.index
    }
}

/// The camera index that the number keys ask for: that of the highest
/// number key pressed just now, if any was. `keys` holds, for each of the
/// ten number keys, whether it was pressed.
pub fn selected_index(keys: &[bool; 10]) -> (r: Option<u32>)
    ensures
        match r {
            Some(digit) => is_selected(keys@, digit as int),
            None => forall|digit: int| 0 <= digit < 10 ==> !keys@[digit],
        },
{
    let mut maybe_index: Option<u32> = None;
    let mut digit: usize = 0;
    while digit < 10
        invariant
            digit <= 10,
            keys@.len() == 10,
            match maybe_index {
                Some(found) => found < digit && keys@[found as int] && forall|higher: int|
                    found < higher < digit ==> !keys@[higher],
                None => forall|lower: int| 0 <= lower < digit ==> !keys@[lower],
            },
        decreases 10 - digit,
    {
        if keys[digit] {
            maybe_index = Some(digit as u32);
        }
        digit += 1;
    }
    maybe_index
}

/// Which cameras are active after the number keys were read: the cameras
/// with the index asked for, and no others. Where no number key was pressed,
/// nothing is returned and every camera stays as it is.
pub fn toggle_cameras(keys: &[bool; 10], cameras: &Vec<IndexedCamera>) -> (r: Option<Vec<bool>>)
    ensures
        match r {
            Some(active) => exists|digit: int|
                is_selected(keys@, digit) && active@.len() == cameras@.len() && forall|i: int|
                    0 <= i < cameras@.len() ==> active@[i] == (cameras@[i].index() == digit),
            None => forall|digit: int| 0 <= digit < 10 ==> !keys@[digit],
        },
{
    let index = match selected_index(keys) {
        Some(index) => index,
        None => {
            return None;
        },
    };
    let mut active: Vec<bool> = Vec::new();
    let mut i: usize = 0;
    while i < cameras.len()
        invariant
            i <= cameras@.len(),
            active@.len() == i,
            forall|j: int| 0 <= j < i ==> active@[j] == (cameras@[j].index() == index),
        decreases cameras@.len() - i,
    {
        let selected = cameras[i].index() == index;
        active.push(selected);
        i += 1;
    }
    assert(is_selected(keys@, index as int));
    Some(active)
}

} // verus!
