use vstd::prelude::*;

verus! {

/// The value at which a repeat count saturates: a call can repeat endlessly in a loop,
/// so the count stops growing there instead of overflowing.
pub const REPEAT_COUNT_MAX: usize = usize::MAX;

/// The category of a repeat count that is about to be flushed, with the value to show.
#[derive(Clone, Copy, PartialEq, Eq, Debug, Structural)]
pub enum RepeatCountCategory {
    /// Neither part of the count has saturated: the item repeats exactly this many times
    /// since the last flush, e.g. `// Repeats 6 time(s).`.
    Exact(usize),
    /// The overall count has saturated but the flushed part has not: the item repeats
    /// at least this many times since the last flush, e.g. `// Repeats 6+ time(s).`.
    AtLeast(usize),
    /// Both parts have saturated: nothing is known of the repeats since the last flush,
    /// e.g. `// Repeats ? time(s).`.
    Unknown,
}

/// The character of a decimal digit.
pub open spec fn digit_char(d: nat) -> char {
    if d == 0 { '0' } else if d == 1 { '1' } else if d == 2 { '2' } else if d == 3 { '3' }
    else if d == 4 { '4' } else if d == 5 { '5' } else if d == 6 { '6' } else if d == 7 { '7' }
    else if d == 8 { '8' } else { '9' }
}

/// The decimal notation of a natural number, most significant digit first, without leading zeros.
pub open spec fn decimal(n: nat) -> Seq<char>
    decreases n,
{
    if n < 10 {
        seq![digit_char(n)]
    } else {
        decimal(n / 10).push(digit_char(n % 10))
    }
}

/// The text that a repeat count category stands for in the log: `"5"`, `"5+"` or `"?"`.
pub open spec fn category_text(c: RepeatCountCategory) -> Seq<char> {
    match c {
        RepeatCountCategory::Exact(n) => decimal(n as nat),
        RepeatCountCategory::AtLeast(n) => decimal(n as nat).push('+'),
        RepeatCountCategory::Unknown => seq!['?'],
    }
}

/// A one-character string literal holding the digit `d`.
fn digit_str(d: usize) -> (s: &'static str)
    requires
        d < 10,
    ensures
        s@ == seq![digit_char(d as nat)],
{
    if d == 0 {
        proof { reveal_strlit("0"); }
        "0"
    } else if d == 1 {
        proof { reveal_strlit("1"); }
        "1"
    } else if d == 2 {
        proof { reveal_strlit("2"); }
        "2"
    } else if d == 3 {
        proof { reveal_strlit("3"); }
        "3"
    } else if d == 4 {
        proof { reveal_strlit("4"); }
        "4"
    } else if d == 5 {
        proof { reveal_strlit("5"); }
        "5"
    } else if d == 6 {
        proof { reveal_strlit("6"); }
        "6"
    } else if d == 7 {
        proof { reveal_strlit("7"); }
        "7"
    } else if d == 8 {
        proof { reveal_strlit("8"); }
        "8"
    } else {
        proof { reveal_strlit("9"); }
        "9"
    }
}

/// Writes `n` in decimal notation.
pub fn decimal_string(n: usize) -> (s: String)
    ensures
        s@ == decimal(n as nat),
    decreases n,
{
    if n < 10 {
        String::from_str(digit_str(n))
    } else {
        let mut s = decimal_string(n / 10);
        s.append(digit_str(n % 10));
        s
    }
}

impl RepeatCountCategory {
    /// Converts the category to its text in the log, e.g.
    /// * `"5"` for `Exact(5)` (exactly 5 repeats since the last flush),
    /// * `"5+"` for `AtLeast(5)` (at least 5 repeats since the last flush),
    /// * `"?"` for `Unknown` (the number of repeats since the last flush is unknown).
    pub fn to_string(&self) -> (s: String)
        ensures
            s@ == category_text(*self),
    {
        match self {
            RepeatCountCategory::Exact(exact) => decimal_string(*exact),
            RepeatCountCategory::AtLeast(at_least) => {
                let mut s = decimal_string(*at_least);
                proof { reveal_strlit("+"); }
                s.append("+");
                s
            },
            RepeatCountCategory::Unknown => {
                proof { reveal_strlit("?"); }
                String::from_str("?")
            },
        }
    }
}

/// The repeat count of a call tree item, in two parts:
/// * the overall count, which tells how many times the item repeats and takes part in
///   subtree comparison; it stops growing at `REPEAT_COUNT_MAX`;
/// * the flushed part: the value the overall count had at the last flush, never above it.
#[derive(Clone, Copy)]
pub struct RepeatCount {
    overall: usize,
    flushed: usize,
}

impl RepeatCount {
    #[verifier::type_invariant]
    spec fn flushed_within_overall(self) -> bool {
        self.flushed <= self.overall
    }

    /// How many times the item repeats.
    pub closed spec fn overall(self) -> nat {
        self.overall as nat
    }

    /// The overall count at the last flush.
    pub closed spec fn flushed(self) -> nat {
        self.flushed as nat
    }

    /// The repeat count after a flush: the flushed part catches up with the overall count.
    pub closed spec fn marked(self) -> RepeatCount {
        RepeatCount { overall: self.overall, flushed: self.overall }
    }

    /// The repeat count after one more repeat (which saturates at `REPEAT_COUNT_MAX`).
    pub closed spec fn incremented(self) -> RepeatCount {
        RepeatCount {
            overall: if self.overall < REPEAT_COUNT_MAX { (self.overall + 1) as usize } else { self.overall },
            flushed: self.flushed,
        }
    }

    /// Whether there have definitely been no repeats since the last flush.
    pub open spec fn non_flushed_is_empty_spec(self) -> bool {
        self.overall() == self.flushed() && self.flushed() < REPEAT_COUNT_MAX
    }

    /// The category and the value of the repeats since the last flush.
    pub open spec fn non_flushed_spec(self) -> RepeatCountCategory {
        if self.overall() < REPEAT_COUNT_MAX {
            RepeatCountCategory::Exact((self.overall() - self.flushed()) as usize)
        } else if self.flushed() < REPEAT_COUNT_MAX {
            RepeatCountCategory::AtLeast((self.overall() - self.flushed()) as usize)
        } else {
            RepeatCountCategory::Unknown
        }
    }

    /// Neither part of a repeat count goes beyond the saturation value.
    pub proof fn lemma_within_saturation(self)
        ensures
            self.overall() <= REPEAT_COUNT_MAX,
            self.flushed() <= REPEAT_COUNT_MAX,
    {
    }

    /// The parts of the repeat count determine it.
    pub proof fn lemma_parts_determine(self, other: RepeatCount)
        requires
            self.overall() == other.overall(),
            self.flushed() == other.flushed(),
        ensures
            self == other,
    {
    }

    /// What the marking and incrementing do to the parts.
    pub proof fn lemma_marked_and_incremented(self)
        ensures
            self.marked().overall() == self.overall(),
            self.marked().flushed() == self.overall(),
            self.incremented().overall() == if self.overall() < REPEAT_COUNT_MAX { self.overall() + 1 } else { self.overall() },
            self.incremented().flushed() == self.flushed(),
    {
    }

    /// After a flush there is nothing to tell until the next repeat, unless the overall count
    /// has saturated: then the number of repeats since is unknown.
    pub proof fn lemma_marked_tells_nothing(self)
        ensures
            self.marked().non_flushed_is_empty_spec() == (self.overall() < REPEAT_COUNT_MAX),
            self.overall() < REPEAT_COUNT_MAX ==> self.marked().non_flushed_spec() == RepeatCountCategory::Exact(0),
            self.overall() >= REPEAT_COUNT_MAX ==> self.marked().non_flushed_spec() == RepeatCountCategory::Unknown,
    {
    }

    /// One repeat after a flush is told as exactly one, unless the count has saturated.
    pub proof fn lemma_one_repeat_after_flush(self)
        requires
            self.overall() + 1 < REPEAT_COUNT_MAX,
        ensures
            self.marked().incremented().non_flushed_spec() == RepeatCountCategory::Exact(1),
            !self.marked().incremented().non_flushed_is_empty_spec(),
    {
    }

    /// Marking twice is marking once.
    pub proof fn lemma_marked_twice(self)
        ensures
            self.marked().marked() == self.marked(),
    {
    }

    /// Marking before a repeat is counted changes nothing once the result is marked.
    pub proof fn lemma_marked_before_increment(self)
        ensures
            self.marked().incremented().marked() == self.incremented().marked(),
    {
    }

    /// Creates a repeat count of zero.
    pub fn new() -> (rc: Self)
        ensures
            rc.overall() == 0,
            rc.flushed() == 0,
    {
        Self { overall: 0, flushed: 0 }
    }

    /// Returns the category and the value of the repeats since the last flush.
    pub fn non_flushed(&self) -> (c: RepeatCountCategory)
        ensures
            c == self.non_flushed_spec(),
            self.flushed() <= self.overall(),
    {
        proof { use_type_invariant(self); }
        if self.overall < REPEAT_COUNT_MAX {
            return RepeatCountCategory::Exact(self.overall - self.flushed);
        } else if self.flushed < REPEAT_COUNT_MAX {
            return RepeatCountCategory::AtLeast(self.overall - self.flushed);
        }
        RepeatCountCategory::Unknown
    }

    /// Tells (if `true`) that there have definitely been no repeats since the last flush.
    /// If both parts have saturated there could have been repeats, and `false` is returned.
    pub fn non_flushed_is_empty(&self) -> (b: bool)
        ensures
            b == self.non_flushed_is_empty_spec(),
    {
        self.overall == self.flushed && self.flushed < REPEAT_COUNT_MAX
    }

    /// Counts one more repeat, unless the overall count has saturated.
    pub fn inc(&mut self)
        ensures
            *final(self) == old(self).incremented(),
            final(self).overall() == if old(self).overall() < REPEAT_COUNT_MAX {
                old(self).overall() + 1
            } else {
                REPEAT_COUNT_MAX as nat
            },
            final(self).flushed() == old(self).flushed(),
            final(self).flushed() <= final(self).overall(),
    {
        proof { use_type_invariant(&*self); }
        if self.overall < REPEAT_COUNT_MAX {
            self.overall = self.overall + 1;
        }
    }

    /// Marks the current overall count as flushed.
    pub fn mark_flushed(&mut self)
        ensures
            *final(self) == old(self).marked(),
            final(self).overall() == old(self).overall(),
            final(self).flushed() == final(self).overall(),
    {
        proof { use_type_invariant(&*self); }
        self.flushed = self.overall;
    }

    /// Tells if two repeat counts are equal for subtree comparison: by the overall count.
    pub fn same_overall(&self, other: &Self) -> (b: bool)
        ensures
            b == (self.overall() == other.overall()),
    {
        self.overall == other.overall
    }
}

} // verus!
