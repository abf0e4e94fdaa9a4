use crate::settings::Settings;
use vstd::prelude::*;

verus! {

/// Position tracking state for one top-level decode: the read cursor, and
/// the offset and first byte of the token that starts at or after it.
///
/// A [`Reader`](crate::Reader) advances it as bytes are pulled; the span of a
/// value is read off it before and after the value is decoded.
#[derive(Clone, Copy, Debug)]
pub struct Shared {
    /// The settings of the decode.
    pub settings: Settings,
    /// Offset of the next significant byte (the current token's start).
    pub start_pos: usize,
    /// The byte at `start_pos`, or `0` past the end of the input.
    pub start_ch: u8,
    /// Number of bytes handed out so far: the read cursor.
    pub pos: usize,
    /// Whether a read found the end of the input: then no byte was read
    /// past the last value.
    pub at_end: bool,
}

impl Shared {
    /// A tracker at the start of the input.
    pub fn new(settings: &Settings) -> (r: Shared)
        ensures
            r.settings == *settings,
            r.start_pos == 0,
            r.start_ch == 0,
            r.pos == 0,
            !r.at_end,
    {
        Shared { settings: *settings, start_pos: 0, start_ch: 0, pos: 0, at_end: false }
    }
}

/// The settings of the installed tracker, if any.
pub fn settings(slot: &Option<Shared>) -> (r: Option<Settings>)
    ensures
        r == match *slot {
            Some(s) => Some(s.settings),
            None => None::<Settings>,
        },
{
    match slot {
        Some(s) => Some(s.settings),
        None => None,
    }
}

/// The current token start of the installed tracker, if any, with its first
/// byte as a `char`.
pub fn start(slot: &Option<Shared>) -> (r: Option<(usize, char)>)
    ensures
        r == match *slot {
            Some(s) => Some((s.start_pos, s.start_ch as char)),
            None => None::<(usize, char)>,
        },
{
    match slot {
        Some(s) => Some((s.start_pos, s.start_ch as char)),
        None => None,
    }
}

/// The read cursor of the installed tracker, if any.
pub fn end(slot: &Option<Shared>) -> (r: Option<usize>)
    ensures
        r == match *slot {
            Some(s) => Some(s.pos),
            None => None::<usize>,
        },
{
    match slot {
        Some(s) => Some(s.pos),
        None => None,
    }
}

/// Whether the installed tracker's input ran out; `false` without a tracker.
pub fn at_end(slot: &Option<Shared>) -> (r: bool)
    ensures
        r == match *slot {
            Some(s) => s.at_end,
            None => false,
        },
{
    match slot {
        Some(s) => s.at_end,
        None => false,
    }
}

/// The tracker that was installed before a [`SharedStack::push`]; handing it
/// back to [`SharedStack::pop`] restores it, so that decodes nest.
pub struct SharedStack {
    prev: Option<Shared>,
}

impl SharedStack {
    /// The tracker that `pop` puts back.
    pub closed spec fn saved(&self) -> Option<Shared> {
        self.prev
    }

    /// Installs `shared` in `slot` and remembers what was there.
    pub fn push(slot: &mut Option<Shared>, shared: Shared) -> (r: SharedStack)
        ensures
            *final(slot) == Some(shared),
            r.saved() == *old(slot),
    {
        let mut prev = Some(shared);
        std::mem::swap(slot, &mut prev);
        SharedStack { prev }
    }

    /// Puts back the tracker that was installed before the matching `push`,
    /// and returns the one that is installed now.
    pub fn pop(self, slot: &mut Option<Shared>) -> (r: Option<Shared>)
        ensures
            *final(slot) == self.saved(),
            r == *old(slot),
    {
        let mut current = self.prev;
        std::mem::swap(slot, &mut current);
        current
    }
}

} // verus!
