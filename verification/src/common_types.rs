//! Small value types used by the schedulers: timestamps, events and
//! virtual runtimes, and the range of priorities.

use vstd::prelude::*;

verus! {

/// The lowest priority a scheduler serves.
pub const MIN_PRIO: i8 = 0;

/// The highest priority a scheduler serves.
pub const MAX_PRIO: i8 = 5;

/// A moment in time, counted in time units since the first process started.
#[derive(Clone, Copy, Debug)]
pub struct Timestamp(usize);

impl View for Timestamp {
    type V = usize;

    closed spec fn view(&self) -> usize {
        self.0
    }
}

impl Timestamp {
    /// Creates a new Timestamp object
    ///
    /// * `time` - inital value of the Timestamp
    pub fn new(time: usize) -> (r: Timestamp)
        ensures
            r@ == time,
    {
        Timestamp(time)
    }

    /// The moment as a number of time units.
    pub fn get(&self) -> (r: usize)
        ensures
            r == self@,
    {
        self.0
    }

    /// The moment `rhs` time units later.
    pub fn add(self, rhs: usize) -> (r: Timestamp)
        requires
            self@ + rhs <= usize::MAX,
        ensures
            r@ == self@ + rhs,
    {
        Timestamp::new(self.0 + rhs)
    }
}

/// The identifier of an event that processes wait for.
#[derive(Clone, Copy, Debug, PartialEq, Eq, Structural)]
pub struct Event(usize);

impl View for Event {
    type V = usize;

    closed spec fn view(&self) -> usize {
        self.0
    }
}

/// Two events are equal exactly when their identifiers are.
pub proof fn lemma_event_view_injective(a: Event, b: Event)
    ensures
        (a@ == b@) <==> a == b,
{
}

impl Event {
    /// Creates a new Event object
    ///
    /// * `event` - the event identifier as usize
    pub fn new(event: usize) -> (r: Event)
        ensures
            r@ == event,
    {
        Event(event)
    }

    /// Gets the event as a usize value
    pub fn get(&self) -> (r: usize)
        ensures
            r == self@,
    {
        self.0
    }
}

/// The virtual runtime of a process: the time it ran, as the fair scheduler
/// counts it.
#[derive(Clone, Copy, Debug, PartialEq, Eq, Structural)]
pub struct Vruntime(usize);

impl View for Vruntime {
    type V = usize;

    closed spec fn view(&self) -> usize {
        self.0
    }
}

impl Vruntime {
    /// Creates a virtual runtime of `vruntime` time units.
    pub fn new(vruntime: usize) -> (r: Vruntime)
        ensures
            r@ == vruntime,
    {
        Vruntime(vruntime)
    }

    /// The virtual runtime as a number of time units.
    pub fn get(&self) -> (r: usize)
        ensures
            r == self@,
    {
        self.0
    }

    /// The virtual runtime `rhs` time units longer.
    pub fn add(self, rhs: usize) -> (r: Vruntime)
        requires
            self@ + rhs <= usize::MAX,
        ensures
            r@ == self@ + rhs,
    {
        Vruntime::new(self.0 + rhs)
    }
}

/// The character of the decimal digit `d`.
pub open spec fn digit_char(d: nat) -> char {
    (48 + d) as char
}

/// The decimal representation of `n`, without leading zeros.
pub open spec fn decimal(n: nat) -> Seq<char>
    decreases n,
{
    if n < 10 {
        seq![digit_char(n)]
    } else {
        decimal(n / 10).push(digit_char(n % 10))
    }
}

/// The text `vruntime=` followed by the decimal representation of `value`.
pub open spec fn vruntime_text_spec(value: nat) -> Seq<char> {
    seq!['v', 'r', 'u', 'n', 't', 'i', 'm', 'e', '='] + decimal(value)
}

/// The text of the decimal digit `d`.
fn digit_text(d: usize) -> (r: &'static str)
    requires
        d < 10,
    ensures
        r@ == seq![digit_char(d as nat)],
{
    if d == 0 {
        proof {
            reveal_strlit("0");
        }
        "0"
    } else if d == 1 {
        proof {
            reveal_strlit("1");
        }
        "1"
    } else if d == 2 {
        proof {
            reveal_strlit("2");
        }
        "2"
    } else if d == 3 {
        proof {
            reveal_strlit("3");
        }
        "3"
    } else if d == 4 {
        proof {
            reveal_strlit("4");
        }
        "4"
    } else if d == 5 {
        proof {
            reveal_strlit("5");
        }
        "5"
    } else if d == 6 {
        proof {
            reveal_strlit("6");
        }
        "6"
    } else if d == 7 {
        proof {
            reveal_strlit("7");
        }
        "7"
    } else if d == 8 {
        proof {
            reveal_strlit("8");
        }
        "8"
    } else {
        proof {
            reveal_strlit("9");
        }
        "9"
    }
}

/// Appends to `s` the decimal representation of `n`.
fn append_decimal(s: &mut String, n: usize)
    ensures
        final(s)@ == old(s)@ + decimal(n as nat),
    decreases n,
{
    if n >= 10 {
        append_decimal(s, n / 10);
    }
    s.append(digit_text(n % 10));
    proof {
        if n >= 10 {
            assert(old(s)@ + decimal((n / 10) as nat) + seq![digit_char((n % 10) as nat)] =~= old(s)@
                + decimal(n as nat));
        } else {
            assert(old(s)@ + seq![digit_char((n % 10) as nat)] =~= old(s)@ + decimal(n as nat));
        }
    }
}

/// The text `vruntime=` followed by the decimal digits of `value`, without
/// leading zeros.
pub(crate) fn vruntime_text(value: usize) -> (s: String)
    ensures
        s@ == vruntime_text_spec(value as nat),
{
    let mut s = String::from_str("vruntime=");
    proof {
        reveal_strlit("vruntime=");
    }
    append_decimal(&mut s, value);
    s
}

} // verus!
