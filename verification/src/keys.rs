//! Which keys of the playing keyboard are sounding a note.
//!
//! Each key owns one slot. Pressing a free key starts a note and stores the
//! handle of that note in the slot; pressing a key that already sounds does
//! not start a second note; releasing a sounding key hands its note back so
//! that it can be released, and frees the slot.
use vstd::prelude::*;

verus! {

/// One slot per key; a slot holds the handle of the note the key sounds.
pub struct Keyboard<H> {
    slots: Vec<Option<H>>,
}

impl<H> View for Keyboard<H> {
    type V = Seq<Option<H>>;

    closed spec fn view(&self) -> Seq<Option<H>> {
        self.slots@
    }
}

impl<H> Keyboard<H> {
    /// A keyboard of `keys` silent keys.
    pub fn new(keys: usize) -> (r: Self)
        ensures
            r@.len() == keys,
            forall|i: int| 0 <= i < keys ==> #[trigger] r@[i] is None,
    {
        let mut slots: Vec<Option<H>> = Vec::new();
        let mut k: usize = 0;
        while k < keys
            invariant
                k <= keys,
                slots@.len() == k,
                forall|i: int| 0 <= i < k ==> #[trigger] slots@[i] is None,
            decreases keys - k,
        {
            slots.push(None);
            k = k + 1;
        }
        Keyboard { slots }
    }

    /// Number of keys.
    pub fn keys(&self) -> (n: usize)
        ensures
            n == self@.len(),
    {
        self.slots.len()
    }

    /// Whether key `key` sounds no note, so that a press starts one.
    pub fn is_free(&self, key: usize) -> (r: bool)
        requires
            key < self@.len(),
        ensures
            r == (self@[key as int] is None),
    {
        self.slots[key].is_none()
    }

    /// Stores the note `note` for key `key` if the key is free, and says
    /// whether it did; a sounding key keeps its note.
    pub fn hold(&mut self, key: usize, note: H) -> (stored: bool)
        requires
            key < old(self)@.len(),
        ensures
            stored == (old(self)@[key as int] is None),
            final(self)@ == pressed(old(self)@, key as int, note),
            stored ==> final(self)@ == old(self)@.update(key as int, Some(note)),
            !stored ==> final(self)@ == old(self)@,
    {
        if self.slots[key].is_none() {
            self.slots.set(key, Some(note));
            true
        } else {
            false
        }
    }

    /// Frees key `key` and hands back the note it sounded, if any.
    pub fn release(&mut self, key: usize) -> (note: Option<H>)
        requires
            key < old(self)@.len(),
        ensures
            note == old(self)@[key as int],
            final(self)@ == old(self)@.update(key as int, None),
            final(self)@ == released(old(self)@, key as int),
    {
        let mut taken: Option<H> = None;
        self.slots.set_and_swap(key, &mut taken);
        taken
    }
}

/// The slots after a press of `key` that would store `note`.
pub open spec fn pressed<H>(slots: Seq<Option<H>>, key: int, note: H) -> Seq<Option<H>> {
    if slots[key] is None {
        slots.update(key, Some(note))
    } else {
        slots
    }
}

/// The slots after a release of `key`.
pub open spec fn released<H>(slots: Seq<Option<H>>, key: int) -> Seq<Option<H>> {
    slots.update(key, None)
}

/// Pressing a silent key and releasing it hands back the note the press
/// stored, and leaves the keyboard as it was.
pub proof fn lemma_press_release_round_trip<H>(slots: Seq<Option<H>>, key: int, note: H)
    requires
        0 <= key < slots.len(),
        slots[key] is None,
    ensures
        pressed(slots, key, note)[key] == Some(note),
        released(pressed(slots, key, note), key) == slots,
{
    assert(released(pressed(slots, key, note), key) =~= slots);
}

/// Pressing a key that already sounds changes nothing: the note it sounds
/// is the one a later release hands back.
pub proof fn lemma_no_retrigger<H>(slots: Seq<Option<H>>, key: int, note: H)
    requires
        0 <= key < slots.len(),
        slots[key] is Some,
    ensures
        pressed(slots, key, note) == slots,
{
}

/// Presses and releases of one key leave every other key as it was.
pub proof fn lemma_keys_independent<H>(slots: Seq<Option<H>>, key: int, other: int, note: H)
    requires
        0 <= key < slots.len(),
        0 <= other < slots.len(),
        key != other,
    ensures
        pressed(slots, key, note)[other] == slots[other],
        released(slots, key)[other] == slots[other],
{
}

} // verus!
