//! Log sinks. The core never blocks on a sink: a sink only records the
//! line, and the host layer decides how to show it.

use vstd::prelude::*;

verus! {

/// How many recent log lines a non-interactive sink keeps.
pub const LOG_CAPACITY: usize = 1000;

/// Sink for log lines, each with a severity tag from a small fixed set.
pub trait UiTrait {
    fn log(&mut self, msg: String, color: u8);
}

/// Log sink for non-interactive runs: keeps the most recent lines up to a
/// fixed capacity; the host layer prints each line as it arrives.
pub struct NonInteractiveTui {
    pub logs: Vec<String>,
}

impl NonInteractiveTui {
    pub fn new() -> (t: Self)
        ensures
            t.logs@.len() == 0,
    {
        NonInteractiveTui { logs: Vec::new() }
    }

    /// Append a line, dropping the oldest line once the capacity is
    /// reached.
    pub fn push_log(&mut self, msg: String)
        ensures
            old(self).logs@.len() < LOG_CAPACITY ==> final(self).logs@ == old(
                self,
            ).logs@.push(msg),
            old(self).logs@.len() >= LOG_CAPACITY ==> final(self).logs@ == old(
                self,
            ).logs@.drop_first().push(msg),
            old(self).logs@.len() <= LOG_CAPACITY ==> final(self).logs@.len() <= LOG_CAPACITY,
    {
        if self.logs.len() >= LOG_CAPACITY {
            self.logs.remove(0);
            proof {
                assert(self.logs@ =~= old(self).logs@.drop_first());
            }
        }
        self.logs.push(msg);
    }
}

impl UiTrait for NonInteractiveTui {
    fn log(&mut self, msg: String, color: u8) {
        let _ = color;
        self.push_log(msg);
    }
}

} // verus!
