//! Colored object-table entries: a 32-bit word whose two low bits carry the
//! ZGC color and whose remaining bits carry the object address.

use vstd::prelude::*;

verus! {

pub const COLOR_MASK: u32 = 0x3;

pub const PTR_MASK: u32 = 0xFFFF_FFFC;

#[derive(Debug, Clone, Copy, PartialEq, Eq, Structural)]
pub enum ZColor {
    Empty,
    Marked0,
    Marked1,
    Remapped,
}

/// The two color bits of a color.
pub open spec fn color_bits(c: ZColor) -> u32 {
    match c {
        ZColor::Empty => 0,
        ZColor::Marked0 => 1,
        ZColor::Marked1 => 2,
        ZColor::Remapped => 3,
    }
}

/// The color named by the two low bits of a word.
pub open spec fn color_of_bits(bits: u32) -> ZColor {
    let b = bits & COLOR_MASK;
    if b == 0 {
        ZColor::Empty
    } else if b == 1 {
        ZColor::Marked0
    } else if b == 2 {
        ZColor::Marked1
    } else {
        ZColor::Remapped
    }
}

/// The mark color that follows `c` in the alternation Marked0, Marked1, Marked0, ...
pub open spec fn spec_other_mark(c: ZColor) -> ZColor {
    match c {
        ZColor::Marked0 => ZColor::Marked1,
        ZColor::Marked1 => ZColor::Marked0,
        _ => ZColor::Marked0,
    }
}

pub open spec fn is_mark_color(c: ZColor) -> bool {
    c == ZColor::Marked0 || c == ZColor::Marked1
}

/// Address part of a raw entry word.
pub open spec fn word_ptr(raw: u32) -> u32 {
    raw & PTR_MASK
}

/// Color part of a raw entry word.
pub open spec fn word_color(raw: u32) -> ZColor {
    color_of_bits(raw)
}

/// The raw word of an entry built from an address and a color.
pub open spec fn entry_word(ptr: u32, c: ZColor) -> u32 {
    if ptr == 0 {
        0
    } else {
        (ptr + color_bits(c)) as u32
    }
}

/// Every entry word is either the empty word or carries a nonzero address.
pub open spec fn entry_word_wf(raw: u32) -> bool {
    raw == 0 || word_ptr(raw) != 0
}

pub proof fn lemma_color_bits_roundtrip(c: ZColor)
    ensures
        color_of_bits(color_bits(c)) == c,
        color_bits(c) < 4,
{
    assert(0u32 & 3 == 0) by (bit_vector);
    assert(1u32 & 3 == 1) by (bit_vector);
    assert(2u32 & 3 == 2) by (bit_vector);
    assert(3u32 & 3 == 3) by (bit_vector);
}

/// Splitting a word built from an aligned address and two color bits.
pub proof fn lemma_pack(ptr: u32, b: u32)
    requires
        ptr & 3 == 0,
        b < 4,
    ensures
        (ptr | b) == ptr + b,
        (ptr | b) & 0xFFFF_FFFCu32 == ptr,
        (ptr | b) & 3 == b,
        (ptr & 0xFFFF_FFFCu32) == ptr,
{
    assert((ptr | b) == ptr + b) by (bit_vector)
        requires
            ptr & 3 == 0,
            b < 4,
    ;
    assert((ptr | b) & 0xFFFF_FFFCu32 == ptr) by (bit_vector)
        requires
            ptr & 3 == 0,
            b < 4,
    ;
    assert((ptr | b) & 3 == b) by (bit_vector)
        requires
            ptr & 3 == 0,
            b < 4,
    ;
    assert((ptr & 0xFFFF_FFFCu32) == ptr) by (bit_vector)
        requires
            ptr & 3 == 0,
    ;
}

/// The address part of any word is aligned and the color part is below four.
pub proof fn lemma_split(raw: u32)
    ensures
        (raw & 0xFFFF_FFFCu32) & 3 == 0,
        raw & 3 < 4,
        ((raw & 0xFFFF_FFFCu32) | (raw & 3)) == raw,
        raw == 0 <==> ((raw & 0xFFFF_FFFCu32) == 0 && raw & 3 == 0),
{
    assert((raw & 0xFFFF_FFFCu32) & 3 == 0) by (bit_vector);
    assert(raw & 3 < 4) by (bit_vector);
    assert(((raw & 0xFFFF_FFFCu32) | (raw & 3)) == raw) by (bit_vector);
    assert(raw == 0 <==> ((raw & 0xFFFF_FFFCu32) == 0 && raw & 3 == 0)) by (bit_vector);
}

impl ZColor {
    /// Decodes the two low bits of `bits`; every pattern names a color.
    pub fn from_bits(bits: u32) -> (r: Option<ZColor>)
        ensures
            r == Some(color_of_bits(bits)),
    {
        let b = bits & COLOR_MASK;
        if b == 0 {
            Some(ZColor::Empty)
        } else if b == 1 {
            Some(ZColor::Marked0)
        } else if b == 2 {
            Some(ZColor::Marked1)
        } else {
            Some(ZColor::Remapped)
        }
    }

    pub fn bits(self) -> (r: u32)
        ensures
            r == color_bits(self),
            r < 4,
    {
        match self {
            ZColor::Empty => 0,
            ZColor::Marked0 => 1,
            ZColor::Marked1 => 2,
            ZColor::Remapped => 3,
        }
    }

    pub fn other_mark(self) -> (r: ZColor)
        ensures
            r == spec_other_mark(self),
            is_mark_color(r),
    {
        match self {
            ZColor::Marked0 => ZColor::Marked1,
            ZColor::Marked1 => ZColor::Marked0,
            ZColor::Empty | ZColor::Remapped => ZColor::Marked0,
        }
    }
}

/// An object-table entry: address in the high bits, color in the two low bits.
#[derive(Debug, Clone, Copy, PartialEq, Eq, Structural)]
pub struct ZEntry(u32);

impl View for ZEntry {
    type V = u32;

    closed spec fn view(&self) -> u32 {
        self.0
    }
}

impl ZEntry {
    #[verifier::type_invariant]
    closed spec fn inv(self) -> bool {
        entry_word_wf(self.0)
    }

    pub fn empty() -> (r: ZEntry)
        ensures
            r@ == 0,
    {
        ZEntry(0)
    }

    /// Builds an entry from an aligned address and a color; address 0 gives
    /// the empty entry whatever the color.
    pub fn new(ptr: u32, color: ZColor) -> (r: ZEntry)
        requires
            ptr & COLOR_MASK == 0,
        ensures
            r@ == entry_word(ptr, color),
            ptr != 0 ==> word_ptr(r@) == ptr && word_color(r@) == color && r@ != 0,
    {
        if ptr == 0 {
            ZEntry::empty()
        } else {
            let b = color.bits();
            proof {
                lemma_pack(ptr, b);
                lemma_color_bits_roundtrip(color);
            }
            ZEntry((ptr & PTR_MASK) | b)
        }
    }

    pub fn raw(self) -> (r: u32)
        ensures
            r == self@,
            entry_word_wf(r),
    {
        proof {
            use_type_invariant(self);
        }
        self.0
    }

    pub fn ptr(self) -> (r: u32)
        ensures
            r == word_ptr(self@),
    {
        self.0 & PTR_MASK
    }

    pub fn color(self) -> (r: ZColor)
        ensures
            r == word_color(self@),
    {
        match ZColor::from_bits(self.0) {
            Some(c) => c,
            None => ZColor::Empty,
        }
    }

    pub fn is_empty(self) -> (r: bool)
        ensures
            r == (self@ == 0),
    {
        self.0 == 0
    }

    /// Keeps the address and replaces the color; the empty entry stays empty.
    pub fn recolor(self, color: ZColor) -> (r: ZEntry)
        ensures
            r@ == (if self@ == 0 { 0 } else { entry_word(word_ptr(self@), color) }),
            self@ != 0 ==> word_ptr(r@) == word_ptr(self@) && word_color(r@) == color && r@ != 0,
    {
        proof {
            use_type_invariant(self);
            lemma_split(self.0);
        }
        if self.is_empty() {
            ZEntry::empty()
        } else {
            ZEntry::new(self.ptr(), color)
        }
    }

    pub fn is_good(self, good: ZColor) -> (r: bool)
        ensures
            r == (self@ != 0 && word_color(self@) == good),
    {
        !self.is_empty() && self.color() == good
    }

    /// During marking, an entry of a stale color is recolored to the good
    /// color; an entry already good, the empty entry, and every entry while
    /// the good color is `Remapped`, are returned unchanged.
    pub fn repair_bad_non_relocating(self, good: ZColor) -> (r: ZEntry)
        ensures
            r@ == spec_repair_bad_non_relocating(self@, good),
    {
        if self.is_good(good) || good == ZColor::Remapped {
            self
        } else {
            self.recolor(good)
        }
    }

    /// Outside the relocation set an entry is repaired to `Remapped` in place.
    pub fn repair_relocate_non_rs(self) -> (r: ZEntry)
        ensures
            r@ == (if self@ == 0 { 0 } else { entry_word(word_ptr(self@), ZColor::Remapped) }),
            self@ != 0 ==> word_ptr(r@) == word_ptr(self@) && word_color(r@) == ZColor::Remapped,
    {
        self.recolor(ZColor::Remapped)
    }

    /// Decodes a raw object-table word; a nonzero word with a zero address
    /// decodes to the empty entry.
    pub fn from_raw(raw: u32) -> (r: ZEntry)
        ensures
            r@ == spec_entry_from_raw(raw),
    {
        if raw == 0 {
            ZEntry::empty()
        } else {
            proof {
                lemma_split(raw);
            }
            let c = match ZColor::from_bits(raw) {
                Some(c) => c,
                None => ZColor::Empty,
            };
            ZEntry::new(raw & PTR_MASK, c)
        }
    }
}

impl From<u32> for ZEntry {
    fn from(raw: u32) -> (r: ZEntry)
        ensures
            r@ == spec_entry_from_raw(raw),
    {
        ZEntry::from_raw(raw)
    }
}

impl vstd::std_specs::convert::FromSpecImpl<u32> for ZEntry {
    open spec fn obeys_from_spec() -> bool {
        true
    }

    closed spec fn from_spec(raw: u32) -> ZEntry {
        ZEntry(spec_entry_from_raw(raw))
    }
}

pub open spec fn spec_repair_bad_non_relocating(raw: u32, good: ZColor) -> u32 {
    if (raw != 0 && word_color(raw) == good) || good == ZColor::Remapped {
        raw
    } else if raw == 0 {
        0
    } else {
        entry_word(word_ptr(raw), good)
    }
}

pub open spec fn spec_entry_from_raw(raw: u32) -> u32 {
    if raw == 0 {
        0
    } else {
        entry_word(word_ptr(raw), word_color(raw))
    }
}

/// Decoding a raw word and reading it back gives the word itself for every
/// word an entry can hold.
pub proof fn lemma_from_raw_roundtrip(raw: u32)
    requires
        entry_word_wf(raw),
    ensures
        spec_entry_from_raw(raw) == raw,
{
    lemma_split(raw);
    if raw != 0 {
        let b = raw & 3;
        lemma_color_bits_roundtrip(word_color(raw));
        assert(color_bits(color_of_bits(raw)) == b) by {
            assert(0u32 & 3 == 0) by (bit_vector);
            assert(1u32 & 3 == 1) by (bit_vector);
            assert(2u32 & 3 == 2) by (bit_vector);
            assert(3u32 & 3 == 3) by (bit_vector);
        }
        lemma_pack(raw & 0xFFFF_FFFCu32, b);
    }
}

/// Repairing during marking makes every nonempty entry good for a mark
/// color, keeps its address, and a second repair changes nothing.
pub proof fn lemma_repair_bad_non_relocating(raw: u32, good: ZColor)
    requires
        entry_word_wf(raw),
        is_mark_color(good),
    ensures
        raw != 0 ==> word_color(spec_repair_bad_non_relocating(raw, good)) == good,
        raw != 0 ==> word_ptr(spec_repair_bad_non_relocating(raw, good)) == word_ptr(raw),
        raw == 0 ==> spec_repair_bad_non_relocating(raw, good) == 0,
        spec_repair_bad_non_relocating(spec_repair_bad_non_relocating(raw, good), good)
            == spec_repair_bad_non_relocating(raw, good),
{
    lemma_split(raw);
    if raw != 0 && word_color(raw) != good {
        let p = raw & 0xFFFF_FFFCu32;
        lemma_color_bits_roundtrip(good);
        lemma_pack(p, color_bits(good));
    }
}

#[derive(Debug, Clone, Copy, PartialEq, Eq, Structural)]
pub enum ZPhase {
    Idle,
    Mark,
    Relocate,
}

/// The collector's color epoch: the good color of the current phase and the
/// mark color the next cycle will use.
#[derive(Debug, Clone, Copy, PartialEq, Eq, Structural)]
pub struct ZColorState {
    next_mark: ZColor,
    good: ZColor,
    phase: ZPhase,
}

pub struct ZColorStateView {
    pub next_mark: ZColor,
    pub good: ZColor,
    pub phase: ZPhase,
}

impl View for ZColorState {
    type V = ZColorStateView;

    closed spec fn view(&self) -> ZColorStateView {
        ZColorStateView { next_mark: self.next_mark, good: self.good, phase: self.phase }
    }
}

impl ZColorStateView {
    pub open spec fn wf(self) -> bool {
        is_mark_color(self.next_mark)
    }

    pub open spec fn after_start_mark(self) -> ZColorStateView {
        ZColorStateView {
            next_mark: spec_other_mark(self.next_mark),
            good: self.next_mark,
            phase: ZPhase::Mark,
        }
    }

    pub open spec fn after_start_relocate(self) -> ZColorStateView {
        ZColorStateView { next_mark: self.next_mark, good: ZColor::Remapped, phase: ZPhase::Relocate }
    }

    pub open spec fn after_finish_cycle(self) -> ZColorStateView {
        ZColorStateView { next_mark: self.next_mark, good: self.good, phase: ZPhase::Idle }
    }
}

impl Default for ZColorState {
    fn default() -> (r: ZColorState)
        ensures
            r@ == (ZColorStateView {
                next_mark: ZColor::Marked0,
                good: ZColor::Marked0,
                phase: ZPhase::Idle,
            }),
    {
        ZColorState { next_mark: ZColor::Marked0, good: ZColor::Marked0, phase: ZPhase::Idle }
    }
}

impl ZColorState {
    #[verifier::type_invariant]
    closed spec fn inv(self) -> bool {
        is_mark_color(self.next_mark)
    }

    pub fn good(self) -> (r: ZColor)
        ensures
            r == self@.good,
    {
        self.good
    }

    pub fn phase(self) -> (r: ZPhase)
        ensures
            r == self@.phase,
    {
        self.phase
    }

    /// Starts marking: the pending mark color becomes good and the other
    /// mark color is kept for the next cycle.
    pub fn start_mark(&mut self) -> (r: ZColor)
        ensures
            final(self)@ == old(self)@.after_start_mark(),
            r == old(self)@.next_mark,
            is_mark_color(r),
    {
        proof {
            use_type_invariant(&*self);
        }
        let next = self.next_mark;
        let other = next.other_mark();
        self.good = next;
        self.next_mark = other;
        self.phase = ZPhase::Mark;
        self.good
    }

    pub fn start_relocate(&mut self) -> (r: ZColor)
        ensures
            final(self)@ == old(self)@.after_start_relocate(),
            r == ZColor::Remapped,
    {
        proof {
            use_type_invariant(&*self);
        }
        self.good = ZColor::Remapped;
        self.phase = ZPhase::Relocate;
        self.good
    }

    pub fn finish_cycle(&mut self)
        ensures
            final(self)@ == old(self)@.after_finish_cycle(),
    {
        proof {
            use_type_invariant(&*self);
        }
        self.phase = ZPhase::Idle;
    }
}

/// Two consecutive cycles mark with different mark colors: after a mark,
/// a relocation and the end of the cycle, the next mark uses the other mark
/// color, and the cycle after that uses the first one again.
pub proof fn law_mark_colors_alternate(s: ZColorStateView)
    requires
        s.wf(),
    ensures
        ({
            let s1 = s.after_start_mark();
            let s2 = s1.after_start_relocate().after_finish_cycle();
            let s3 = s2.after_start_mark();
            let s4 = s3.after_start_relocate().after_finish_cycle();
            &&& s1.good != s3.good
            &&& is_mark_color(s1.good) && is_mark_color(s3.good)
            &&& s4.after_start_mark().good == s1.good
            &&& s1.after_start_relocate().good == ZColor::Remapped
        }),
{
}

} // verus!
