use vstd::prelude::*;

use crate::bytes::bytes_eq;
use crate::text::{concat, decimal, decimal_string};

verus! {

/// Checking that a remote file holds the bytes just written: the file is read back up to a
/// given number of times, with a pause after each attempt that did not show the bytes.
pub struct WriteCheck {
    /// How many read-backs are left.
    pub attempts_left: usize,
    /// The length of the content seen at the last read-back that succeeded.
    pub last_observed_len: usize,
}

/// The message of a read-back that never showed the written bytes.
pub open spec fn spec_write_check_failure(last_observed_len: usize, expected_len: usize) -> Seq<char> {
    "Write verification failed after retry: observed length "@ + decimal(last_observed_len as nat)
        + ", expected length "@ + decimal(expected_len as nat)
}

impl WriteCheck {
    pub fn new(retries: usize) -> (check: Self)
        ensures
            check.attempts_left == retries,
            check.last_observed_len == 0,
    {
        WriteCheck { attempts_left: retries, last_observed_len: 0 }
    }

    /// Takes one read-back: `observed` is the content read, or nothing when the file could
    /// not be opened or read. Returns whether it shows exactly the expected bytes.
    pub fn observe(&mut self, observed: Option<&[u8]>, expected: &[u8]) -> (verified: bool)
        requires
            old(self).attempts_left > 0,
        ensures
            verified == (observed matches Some(o) && o@ == expected@),
            final(self).attempts_left == old(self).attempts_left - 1,
            final(self).last_observed_len == match observed {
                Some(o) => o@.len() as usize,
                None => old(self).last_observed_len,
            },
    {
        self.attempts_left = self.attempts_left - 1;
        match observed {
            Some(o) => {
                self.last_observed_len = o.len();
                bytes_eq(o, expected)
            },
            None => false,
        }
    }

    /// The error once every read-back failed to show the expected bytes.
    pub fn failure(&self, expected_len: usize) -> (message: String)
        ensures
            message@ == spec_write_check_failure(self.last_observed_len, expected_len),
    {
        let head = concat(
            "Write verification failed after retry: observed length ",
            decimal_string(self.last_observed_len as u64).as_str(),
        );
        let with_label = concat(head.as_str(), ", expected length ");
        concat(with_label.as_str(), decimal_string(expected_len as u64).as_str())
    }
}

/// Reading the size of a remote file that was just written: its metadata is asked for up
/// to a given number of times, with a pause after each failed request.
pub struct SizeCheck {
    /// How many requests are left.
    pub attempts_left: usize,
}

impl SizeCheck {
    pub fn new(retries: usize) -> (check: Self)
        ensures
            check.attempts_left == retries,
    {
        SizeCheck { attempts_left: retries }
    }

    /// Takes one metadata request: nothing when it failed, else the size it gave, if any.
    /// The first answer settles the size, a size that is not known counting as 0.
    pub fn observe(&mut self, answer: Option<Option<u64>>) -> (size: Option<u64>)
        requires
            old(self).attempts_left > 0,
        ensures
            final(self).attempts_left == old(self).attempts_left - 1,
            size == match answer {
                Some(Some(n)) => Some(n),
                Some(None) => Some(0u64),
                None => None::<u64>,
            },
    {
        self.attempts_left = self.attempts_left - 1;
        match answer {
            Some(Some(n)) => Some(n),
            Some(None) => Some(0),
            None => None,
        }
    }

    /// The error once no request was answered.
    pub fn failure(&self, path: &str) -> (message: String)
        ensures
            message@ == "Stat Error: "@ + path@,
    {
        concat("Stat Error: ", path)
    }
}

} // verus!
