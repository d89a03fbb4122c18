//! The recent-error ring: the last few reported errors, in the order they
//! came, and a count of every error ever reported.

use vstd::prelude::*;
use vstd::string::*;
use crate::clock::{date_time_text, date_time_text_of, now_millis};

verus! {

/// How many errors the ring keeps.
pub const ERROR_RING_CAPACITY: usize = 10;

/// A reported error: its message, the name of what reported it, the URL it
/// concerned, and when (milliseconds since the epoch).
pub struct ErrorInfo {
    pub error: String,
    pub name: Option<String>,
    pub url: Option<String>,
    pub date: i64,
}

/// The ring after `x` is added to `s`: the last `ERROR_RING_CAPACITY` of
/// `s` followed by `x`.
pub open spec fn ring_push<A>(s: Seq<A>, x: A) -> Seq<A> {
    let t = s.push(x);
    if t.len() > ERROR_RING_CAPACITY {
        t.subrange(t.len() - ERROR_RING_CAPACITY, t.len() as int)
    } else {
        t
    }
}

/// The ring after each of `xs` was added in turn to an empty ring.
pub open spec fn ring_of<A>(xs: Seq<A>) -> Seq<A>
    decreases xs.len(),
{
    if xs.len() == 0 {
        Seq::empty()
    } else {
        ring_push(ring_of(xs.drop_last()), xs.last())
    }
}

/// The last `ERROR_RING_CAPACITY` items of `xs` (all of them where there are fewer).
pub open spec fn last_items<A>(xs: Seq<A>) -> Seq<A> {
    if xs.len() > ERROR_RING_CAPACITY {
        xs.subrange(xs.len() - ERROR_RING_CAPACITY, xs.len() as int)
    } else {
        xs
    }
}

/// Errors reported one after another to an empty ring leave in it exactly the
/// last `ERROR_RING_CAPACITY` of them, oldest first; the ring never holds more.
pub proof fn lemma_ring_keeps_last<A>(xs: Seq<A>)
    ensures
        ring_of(xs) == last_items(xs),
        ring_of(xs).len() <= ERROR_RING_CAPACITY,
    decreases xs.len(),
{
    if xs.len() > 0 {
        let init = xs.drop_last();
        lemma_ring_keeps_last(init);
        let t = last_items(init).push(xs.last());
        if xs.len() > ERROR_RING_CAPACITY {
            assert(ring_push(last_items(init), xs.last()) =~= last_items(xs));
        } else {
            assert(t =~= xs);
        }
    }
}

/// The recent-error ring and the count of all reported errors.
pub struct ErrorRing {
    errors: Vec<ErrorInfo>,
    count: u64,
}

impl ErrorRing {
    /// The errors in the ring, oldest first.
    pub closed spec fn records(&self) -> Seq<ErrorInfo> {
        self.errors@
    }

    /// How many errors were reported in all (it stays at `u64::MAX` once
    /// there).
    pub closed spec fn total(&self) -> nat {
        self.count as nat
    }

    /// The ring never holds more than `ERROR_RING_CAPACITY` errors.
    #[verifier::type_invariant]
    spec fn holds_at_most_capacity(&self) -> bool {
        self.errors@.len() <= ERROR_RING_CAPACITY
    }

    /// An empty ring with a count of zero.
    pub fn new() -> (r: ErrorRing)
        ensures
            r.records() == Seq::<ErrorInfo>::empty(),
            r.total() == 0,
    {
        ErrorRing { errors: Vec::new(), count: 0 }
    }

    /// The errors in the ring, oldest first.
    pub fn errors(&self) -> (r: &Vec<ErrorInfo>)
        ensures
            r@ == self.records(),
            r@.len() <= ERROR_RING_CAPACITY,
    {
        proof {
            use_type_invariant(self);
        }
        &self.errors
    }

    /// How many errors were reported in all.
    pub fn count(&self) -> (r: u64)
        ensures
            r == self.total(),
    {
        self.count
    }

    /// Adds an error: the oldest one leaves where the ring is full, and the
    /// count goes up by one.
    pub fn push(&mut self, info: ErrorInfo)
        ensures
            final(self).records() == ring_push(old(self).records(), info),
            final(self).records().len() <= ERROR_RING_CAPACITY,
            final(self).total() == if old(self).total() < u64::MAX {
                old(self).total() + 1
            } else {
                old(self).total()
            },
    {
        let mut taken = ErrorRing::new();
        std::mem::swap(self, &mut taken);
        proof {
            use_type_invariant(&taken);
        }
        let ErrorRing { mut errors, count } = taken;
        let ghost t = errors@.push(info);
        errors.push(info);
        if errors.len() > ERROR_RING_CAPACITY {
            errors.remove(0);
            assert(errors@ =~= t.subrange(t.len() - ERROR_RING_CAPACITY, t.len() as int));
        } else {
            assert(errors@ =~= t);
        }
        let count = if count < u64::MAX {
            count + 1
        } else {
            count
        };
        *self = ErrorRing { errors, count };
    }

    /// Reports an error at `now` (milliseconds since the epoch), with
    /// `date` the calendar text of that instant. Returns the diagnostic line
    /// to emit; the error joins the ring and the count goes up by one.
    pub fn report_at(
        &mut self,
        error: &str,
        name: Option<&str>,
        url: Option<&str>,
        now: i64,
        date: &str,
    ) -> (r: String)
        ensures
            r@ == diagnostic_line(date@, error@, opt_seq(name), opt_seq(url)),
            final(self).records().len() > 0,
            final(self).records() == ring_push(
                old(self).records(),
                final(self).records().last(),
            ),
            final(self).records().last().error@ == error@,
            opt_string(final(self).records().last().name) == record_name(opt_seq(name)),
            opt_string(final(self).records().last().url) == opt_seq(url),
            final(self).records().last().date == now,
            final(self).records().len() <= ERROR_RING_CAPACITY,
            final(self).total() == if old(self).total() < u64::MAX {
                old(self).total() + 1
            } else {
                old(self).total()
            },
    {
        let kept: Option<&str> = match name {
            Some(n) => if n.is_empty() { None } else { Some(n) },
            None => None,
        };
        let mut line = String::from_str(date);
        line.append(", ");
        if let Some(n) = kept {
            line.append(n);
            line.append(" ---> ");
        }
        line.append(error);
        if let Some(u) = url {
            line.append(" (");
            line.append(u);
            line.append(")");
        }
        let info = ErrorInfo {
            error: error.to_owned(),
            name: match kept {
                Some(n) => Some(n.to_owned()),
                None => None,
            },
            url: match url {
                Some(u) => Some(u.to_owned()),
                None => None,
            },
            date: now,
        };
        self.push(info);
        line
    }

    /// Reports an error at the current time: returns the diagnostic line to
    /// emit, adds the error to the ring and counts it. Reporting never fails:
    /// where the clock cannot be read, the epoch stands in for the time.
    pub fn report(&mut self, error: &str, name: Option<&str>, url: Option<&str>) -> (r: String)
        ensures
            exists|now: i64| r@ == diagnostic_line(date_time_text_of(now), error@, opt_seq(name), opt_seq(url))
                && final(self).records().last().date == now,
            final(self).records().len() > 0,
            final(self).records() == ring_push(old(self).records(), final(self).records().last()),
            final(self).records().last().error@ == error@,
            opt_string(final(self).records().last().name) == record_name(opt_seq(name)),
            opt_string(final(self).records().last().url) == opt_seq(url),
            final(self).records().len() <= ERROR_RING_CAPACITY,
            final(self).total() == if old(self).total() < u64::MAX {
                old(self).total() + 1
            } else {
                old(self).total()
            },
    {
        let now = match now_millis() {
            Some(now) => now,
            None => 0,
        };
        let date = date_time_text(now);
        self.report_at(error, name, url, now, date.as_str())
    }
}

/// What an optional text holds.
pub open spec fn opt_seq(o: Option<&str>) -> Option<Seq<char>> {
    match o {
        Some(s) => Some(s@),
        None => None,
    }
}

/// What an optional owned text holds.
pub open spec fn opt_string(o: Option<String>) -> Option<Seq<char>> {
    match o {
        Some(s) => Some(s@),
        None => None,
    }
}

/// The name kept in the ring: none where no name or an empty one was given.
pub open spec fn record_name(name: Option<Seq<char>>) -> Option<Seq<char>> {
    match name {
        Some(n) => if n.len() == 0 { None } else { Some(n) },
        None => None,
    }
}

/// The diagnostic line `<date>, [<name> ---> ]<message>[ (<url>)]`.
pub open spec fn diagnostic_line(
    date: Seq<char>,
    message: Seq<char>,
    name: Option<Seq<char>>,
    url: Option<Seq<char>>,
) -> Seq<char> {
    let head = date + ", "@;
    let named = match record_name(name) {
        Some(n) => head + n + " ---> "@,
        None => head,
    };
    let with_message = named + message;
    match url {
        Some(u) => with_message + " ("@ + u + ")"@,
        None => with_message,
    }
}

} // verus!
