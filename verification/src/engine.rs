//! The decision core of the write/read-and-match loop.
//!
//! An [`Engine`] owns the matching state of one interactive session: the
//! text accumulated by the attempt in progress and, as ghost state, every
//! character ever consumed from the child's output. The caller performs
//! the blocking reads and the clock queries and hands each character (and
//! each elapsed-time measurement) in; the engine decides whether a pattern
//! has matched, which one, and what text to hand back.

use crate::errors::ExpectError;
use crate::matcher::{compiles, is_first_match, some_match, Matcher};
use crate::utf8::{
    utf8_value, utf8_viable_prefix, utf8_well_formed, DecodeStep, Utf8Decoder,
};
use vstd::prelude::*;

verus! {

/// Relies on `String::push`: appends exactly one character.
#[verifier::external_body]
fn push_char(s: &mut String, c: char)
    ensures
        final(s)@ == old(s)@ + seq![c],
{
    s.push(c);
}

/// The matching state of one interactive session.
pub struct Engine {
    /// The pattern set of the attempt in progress, if one is in progress.
    matcher: Option<Matcher>,
    /// The text accumulated by the attempt in progress; discarded when the
    /// attempt ends, whichever way it ends.
    buf: String,
    /// Every character ever consumed from the child's output, in order.
    history: Ghost<Seq<char>>,
}

impl Engine {
    /// Every character the engine has consumed from the child's output, in order.
    pub closed spec fn consumed(&self) -> Seq<char> {
        self.history@
    }

    /// The text accumulated so far by the attempt in progress.
    pub closed spec fn pending(&self) -> Seq<char> {
        self.buf@
    }

    /// Whether an attempt is in progress, still awaiting a match.
    pub closed spec fn awaiting(&self) -> bool {
        self.matcher is Some
    }

    /// The pattern list of the attempt in progress.
    pub closed spec fn patterns(&self) -> Seq<Seq<char>> {
        match self.matcher {
            Some(m) => m@,
            None => Seq::empty(),
        }
    }

    /// The position in the consumed stream where the attempt in progress
    /// began: everything before it was settled by earlier attempts.
    pub open spec fn origin(&self) -> int {
        self.consumed().len() - self.pending().len()
    }

    /// The accumulated text is exactly the not-yet-settled tail of the
    /// consumed stream: the read cursor only ever moves forward.
    pub open spec fn wf(&self) -> bool {
        &&& 0 <= self.origin()
        &&& self.consumed().skip(self.origin()) == self.pending()
    }

    /// A fresh engine: nothing consumed, no attempt in progress.
    pub fn new() -> (e: Engine)
        ensures
            e.wf(),
            e.consumed() == Seq::<char>::empty(),
            e.pending().len() == 0,
            !e.awaiting(),
    {
        let e = Engine { matcher: None, buf: String::new(), history: Ghost(Seq::empty()) };
        proof {
            assert(e.consumed().skip(0) =~= e.pending());
        }
        e
    }

    /// Starts an attempt: compiles the pattern list and resets the local
    /// match buffer. A malformed pattern is rejected here, before any read
    /// loop can run; an empty list is accepted and will never match.
    pub fn begin(&mut self, patterns: Vec<String>) -> (r: Result<(), ExpectError>)
        requires
            old(self).wf(),
        ensures
            final(self).wf(),
            final(self).consumed() == old(self).consumed(),
            final(self).pending().len() == 0,
            r is Ok <==> compiles(patterns.deep_view()),
            r matches Err(e) ==> e == ExpectError::InvalidPattern && !final(self).awaiting(),
            r is Ok ==> final(self).awaiting() && final(self).patterns() == patterns.deep_view(),
            patterns@.len() == 0 ==> r is Ok,
    {
        self.buf = String::new();
        proof {
            assert(self.consumed().skip(self.consumed().len() as int) =~= Seq::<char>::empty());
        }
        match Matcher::new(patterns) {
            Ok(m) => {
                self.matcher = Some(m);
                Ok(())
            },
            Err(e) => {
                self.matcher = None;
                Err(e)
            },
        }
    }

    /// Consumes one character read from the child's output: appends it to
    /// the accumulated text and asks which patterns the whole text now
    /// satisfies.
    ///
    /// On a match the result carries the lowest list position of any
    /// satisfied pattern and the exact text consumed since the attempt
    /// began, up to and including the character that completed the match;
    /// the attempt ends and its buffer is settled. Otherwise the attempt
    /// stays in progress with the character retained.
    pub fn feed(&mut self, c: char) -> (r: Option<(usize, String)>)
        requires
            old(self).wf(),
            old(self).awaiting(),
        ensures
            final(self).wf(),
            final(self).consumed() == old(self).consumed() + seq![c],
            match r {
                Some((i, t)) => {
                    &&& t@ == old(self).pending() + seq![c]
                    &&& t@ == final(self).consumed().skip(old(self).origin())
                    &&& is_first_match(old(self).patterns(), t@, i as int)
                    &&& !final(self).awaiting()
                    &&& final(self).pending().len() == 0
                },
                None => {
                    &&& !some_match(old(self).patterns(), old(self).pending() + seq![c])
                    &&& final(self).pending() == old(self).pending() + seq![c]
                    &&& final(self).awaiting()
                    &&& final(self).patterns() == old(self).patterns()
                },
            },
    {
        push_char(&mut self.buf, c);
        self.history = Ghost(self.history@ + seq![c]);
        proof {
            assert(self.consumed().skip(self.origin()) =~= self.pending());
            assert(self.consumed().skip(self.consumed().len() as int) =~= Seq::<char>::empty());
        }
        let idx = match &self.matcher {
            Some(m) => m.first_match(&self.buf),
            None => None,
        };
        match idx {
            Some(i) => {
                let text = self.buf.clone();
                self.buf = String::new();
                self.matcher = None;
                Some((i, text))
            },
            None => None,
        }
    }

    /// Ends the attempt in progress without a match (the caller timed out
    /// or its read failed): the accumulated text is discarded.
    pub fn abandon(&mut self)
        ensures
            final(self).wf(),
            final(self).consumed() == old(self).consumed(),
            final(self).pending().len() == 0,
            !final(self).awaiting(),
    {
        self.buf = String::new();
        self.matcher = None;
        proof {
            assert(self.consumed().skip(self.consumed().len() as int) =~= Seq::<char>::empty());
        }
    }
}

/// One step of the read loop after a byte arrived from the child: the byte
/// is decoded and, when it completes a character, the character is fed to
/// the engine and matched.
///
/// A byte that completes no character yet leaves the engine as it was; a
/// byte that makes the sequence malformed ends the attempt with a decode
/// failure instead of matching on garbage.
pub fn feed_byte(e: &mut Engine, d: &mut Utf8Decoder, b: u8) -> (r: Result<
    Option<(usize, String)>,
    ExpectError,
>)
    requires
        old(e).wf(),
        old(e).awaiting(),
        old(d).wf(),
    ensures
        final(e).wf(),
        final(d).wf(),
        ({
            let bytes = old(d).pending_bytes() + seq![b];
            match r {
                Ok(step) => match step {
                    None => {
                        ||| {
                            &&& utf8_viable_prefix(bytes)
                            &&& final(d).pending_bytes() == bytes
                            &&& *final(e) == *old(e)
                        }
                        ||| (exists|c: char|
                            {
                                &&& c as int == utf8_value(bytes)
                                &&& utf8_well_formed(bytes)
                                &&& final(d).pending_bytes().len() == 0
                                &&& final(e).consumed() == old(e).consumed() + seq![c]
                                &&& !some_match(old(e).patterns(), old(e).pending() + seq![c])
                                &&& final(e).pending() == old(e).pending() + seq![c]
                                &&& final(e).awaiting()
                                &&& final(e).patterns() == old(e).patterns()
                            })
                    },
                    Some((i, t)) => exists|c: char|
                        {
                            &&& c as int == utf8_value(bytes)
                            &&& utf8_well_formed(bytes)
                            &&& final(d).pending_bytes().len() == 0
                            &&& final(e).consumed() == old(e).consumed() + seq![c]
                            &&& t@ == old(e).pending() + seq![c]
                            &&& t@ == final(e).consumed().skip(old(e).origin())
                            &&& is_first_match(old(e).patterns(), t@, i as int)
                            &&& !final(e).awaiting()
                            &&& final(e).pending().len() == 0
                        },
                },
                Err(err) => {
                    &&& err == ExpectError::DecodeFailed
                    &&& (forall|rest: Seq<u8>| !utf8_well_formed(bytes + rest))
                    &&& final(d).pending_bytes().len() == 0
                    &&& final(e).consumed() == old(e).consumed()
                    &&& !final(e).awaiting()
                },
            }
        }),
{
    match d.push(b) {
        DecodeStep::NeedMore => Ok(None),
        DecodeStep::Malformed => {
            e.abandon();
            Err(ExpectError::DecodeFailed)
        },
        DecodeStep::Emit(c) => {
            let found = e.feed(c);
            proof {
                assert(c as int == utf8_value(old(d).pending_bytes() + seq![b]));
            }
            Ok(found)
        },
    }
}

/// The verdict when the child's output stream closed while a read was
/// blocking: if the budget ran out in the meantime the attempt timed out;
/// otherwise the closed stream itself is the failure.
pub fn closed_stream_verdict(elapsed_ns: u128, timeout_ns: u128) -> (e: ExpectError)
    ensures
        e == (if elapsed_ns >= timeout_ns {
            ExpectError::TimedOut
        } else {
            ExpectError::ReadFailed
        }),
{
    if elapsed_ns >= timeout_ns {
        ExpectError::TimedOut
    } else {
        ExpectError::ReadFailed
    }
}

/// The timeout decision taken between reads: the deadline has been reached
/// once the elapsed time is at least the budget, so a zero budget fails at
/// the first check.
pub fn deadline_reached(elapsed_ns: u128, timeout_ns: u128) -> (r: bool)
    ensures
        r <==> elapsed_ns >= timeout_ns,
{
    elapsed_ns >= timeout_ns
}

} // verus!
