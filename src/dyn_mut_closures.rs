//! An environment of numbers that actions change in place.

use vstd::prelude::*;

verus! {

/// The state that an action changes: a list of numbers.
#[derive(Debug)]
pub struct Environment {
    pub nums: Vec<i32>,
}

impl Environment {
    /// An environment that holds the five numbers of `arr`, in order.
    pub fn new(arr: [i32; 5]) -> (r: Environment)
        ensures
            r.nums@ == arr@,
    {
        let mut nums: Vec<i32> = Vec::new();
        let mut i: usize = 0;
        while i < 5
            invariant
                0 <= i <= 5,
                nums@ == arr@.subrange(0, i as int),
            decreases 5 - i,
        {
            nums.push(arr[i]);
            proof {
                assert(arr@.subrange(0, i + 1) =~= arr@.subrange(0, i as int).push(arr@[i as int]));
            }
            i += 1;
        }
        assert(arr@.subrange(0, 5) =~= arr@);
        Environment { nums }
    }

    /// Adds one to each number.
    pub fn add_one_to_each(&mut self)
        requires
            forall|k: int| 0 <= k < old(self).nums@.len() ==> old(self).nums@[k] < i32::MAX,
        ensures
            final(self).nums@.len() == old(self).nums@.len(),
            forall|k: int|
                0 <= k < old(self).nums@.len() ==> #[trigger] final(self).nums@[k] == old(
                    self,
                ).nums@[k] + 1,
    {
        let n = self.nums.len();
        let mut i: usize = 0;
        while i < n
            invariant
                0 <= i <= n,
                n == old(self).nums@.len(),
                forall|k: int| 0 <= k < n ==> #[trigger] old(self).nums@[k] < i32::MAX,
                self.nums@.len() == n,
                forall|k: int| 0 <= k < i ==> #[trigger] self.nums@[k] == old(self).nums@[k] + 1,
                forall|k: int| i <= k < n ==> #[trigger] self.nums@[k] == old(self).nums@[k],
            decreases n - i,
        {
            let v = self.nums[i];
            self.nums[i] = v + 1;
            i += 1;
        }
    }

    /// Appends a zero at the end.
    pub fn push_zero(&mut self)
        ensures
            final(self).nums@ == old(self).nums@.push(0),
    {
        self.nums.push(0);
    }
}

} // verus!
