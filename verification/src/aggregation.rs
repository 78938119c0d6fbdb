//! The running-average aggregator a storage element can host: it consumes
//! numeric payloads and answers with the integer average so far.
use crate::numstr::{all_digits, parse_u64, spec_digits, spec_val, u64_to_string};
use vstd::prelude::*;

verus! {

pub struct AggregationStruct {
    pub count: u32,
    pub total: u32,
}

impl AggregationStruct {
    pub fn init() -> (r: AggregationStruct)
        ensures
            r.count == 0,
            r.total == 0,
    {
        AggregationStruct { count: 0, total: 0 }
    }

    /// Feeds one sample, given as decimal text, into the running totals.
    pub fn input(&mut self, input_string: &str)
        requires
            input_string@.len() > 0,
            all_digits(input_string@),
            old(self).total + spec_val(input_string@) <= u32::MAX,
            old(self).count < u32::MAX,
        ensures
            final(self).total == old(self).total + spec_val(input_string@),
            final(self).count == old(self).count + 1,
    {
        let val = match parse_u64(input_string) {
            Some(v) => v,
            None => {
                proof {
                    assert(spec_val(input_string@) <= u32::MAX < u64::MAX);
                }
                assert(false);
                0
            },
        };
        self.total = self.total + (val as u32);
        self.count = self.count + 1;
    }

    /// The integer average of the samples so far; zero when there are none.
    pub fn return_value(&mut self) -> (r: String)
        ensures
            final(self).count == old(self).count,
            final(self).total == old(self).total,
            r@ == spec_digits(
                if old(self).count == 0 {
                    0
                } else {
                    (old(self).total / old(self).count) as nat
                },
            ),
    {
        if self.count == 0 {
            u64_to_string(0)
        } else {
            let avg = self.total / self.count;
            u64_to_string(avg as u64)
        }
    }
}

} // verus!
