//! The task dump of the latest panic.

use vstd::prelude::*;

verus! {

/// Keeps the task dump taken at the latest panic. Its view is the text of that dump, which is
/// empty before the first panic.
#[derive(Debug)]
pub struct Backtrace {
    dump: String,
}

impl View for Backtrace {
    type V = Seq<char>;

    closed spec fn view(&self) -> Seq<char> {
        self.dump@
    }
}

impl Backtrace {
    /// Nothing was dumped yet.
    pub fn new() -> (backtrace: Self)
        ensures
            backtrace@ == Seq::<char>::empty(),
    {
        Backtrace { dump: String::new() }
    }

    /// Keeps `dump` in place of what was kept before.
    pub fn set(&mut self, dump: String)
        ensures
            final(self)@ == dump@,
    {
        self.dump = dump;
    }

    /// A copy of the latest dump.
    pub fn get(&self) -> (dump: String)
        ensures
            dump@ == self@,
    {
        self.dump.clone()
    }
}

} // verus!
