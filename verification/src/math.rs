use vstd::prelude::*;
use vstd::std_specs::hash::obeys_key_model;

verus! {

/// The error text returned when a bit position does not exist in the mask type.
pub const INVALID_BIT_POSITION: &'static str = "Invalid bit position for type";

/// The word with only bit `bit` set.
pub open spec fn bit_word(bit: u8) -> u128 {
    1u128 << (bit as u128)
}

/// Two words overlap when at least one bit is set in both.
pub open spec fn overlaps(a: u128, b: u128) -> bool {
    a & b != 0
}

/// Bit `bit` is set in `word`.
pub open spec fn has_bit(word: u128, bit: u8) -> bool {
    overlaps(word, bit_word(bit))
}

/// Setting a bit adds exactly that bit: every other position keeps its state.
pub proof fn lemma_set_bit(word: u128, bit: u8, other: u8)
    requires
        bit < 128,
        other < 128,
    ensures
        has_bit(word | bit_word(bit), other) <==> (other == bit || has_bit(word, other)),
{
    assert(((word | (1u128 << (bit as u128))) & (1u128 << (other as u128)) != 0) <==> (other == bit
        || (word & (1u128 << (other as u128)) != 0))) by (bit_vector)
        requires
            bit < 128,
            other < 128,
    ;
}

/// Clearing a bit removes exactly that bit: every other position keeps its state.
pub proof fn lemma_unset_bit(word: u128, bit: u8, other: u8)
    requires
        bit < 128,
        other < 128,
    ensures
        has_bit(word & !bit_word(bit), other) <==> (other != bit && has_bit(word, other)),
{
    assert(((word & !(1u128 << (bit as u128))) & (1u128 << (other as u128)) != 0) <==> (other != bit
        && (word & (1u128 << (other as u128)) != 0))) by (bit_vector)
        requires
            bit < 128,
            other < 128,
    ;
}

/// Setting and clearing are idempotent.
pub proof fn lemma_set_unset_idempotent(word: u128, bit: u8)
    ensures
        (word | bit_word(bit)) | bit_word(bit) == word | bit_word(bit),
        (word & !bit_word(bit)) & !bit_word(bit) == word & !bit_word(bit),
{
    let b = bit_word(bit);
    assert((word | b) | b == word | b) by (bit_vector);
    assert((word & !b) & !b == word & !b) by (bit_vector);
}

/// A non-zero word has a set bit.
proof fn lemma_nonzero_has_bit(word: u128) -> (bit: u8)
    requires
        word != 0,
    ensures
        bit < 128,
        has_bit(word, bit),
    decreases word,
{
    if word & 1u128 != 0 {
        assert(1u128 << 0u128 == 1u128) by (bit_vector);
        0
    } else {
        let half = word >> 1u128;
        assert(half != 0 && half < word) by (bit_vector)
            requires
                word != 0,
                word & 1u128 == 0,
                half == word >> 1u128,
        ;
        let below = lemma_nonzero_has_bit(half);
        let b = below as u128;
        let c = (below + 1) as u128;
        assert(b < 127 && word & (1u128 << c) != 0) by (bit_vector)
            requires
                b < 128,
                c == b + 1,
                half == word >> 1u128,
                half & (1u128 << b) != 0,
        ;
        (below + 1) as u8
    }
}

/// Overlap is an any-bit test: two words overlap exactly when some position is set in both.
/// It is not a subset test in either direction.
pub proof fn lemma_overlaps_iff_common_bit(a: u128, b: u128)
    ensures
        overlaps(a, b) <==> exists|bit: u8| bit < 128 && has_bit(a, bit) && has_bit(b, bit),
{
    if overlaps(a, b) {
        let both = a & b;
        let bit = lemma_nonzero_has_bit(both);
        assert(a & (1u128 << (bit as u128)) != 0 && b & (1u128 << (bit as u128)) != 0)
            by (bit_vector)
            requires
                (a & b) & (1u128 << (bit as u128)) != 0,
        ;
        assert(has_bit(a, bit) && has_bit(b, bit));
    }
    if exists|bit: u8| bit < 128 && has_bit(a, bit) && has_bit(b, bit) {
        let bit = choose|bit: u8| bit < 128 && has_bit(a, bit) && has_bit(b, bit);
        assert(a & b != 0) by (bit_vector)
            requires
                a & (1u128 << (bit as u128)) != 0,
                b & (1u128 << (bit as u128)) != 0,
        ;
    }
}

pub type ComponentSet8 = u8;

pub type ComponentSet16 = u16;

pub type ComponentSet32 = u32;

pub type ComponentSet64 = u64;

pub type ComponentSet128 = u128;

/// Whether a bit is to be cleared or set by [`BitSet::update`].
pub enum Bit {
    Off,
    On,
}

/// A fixed-width bit mask.
///
/// A mask is modelled by [`BitSet::word`], its value widened to 128 bits, so that the same
/// contracts cover every width.
pub trait BitSet: Sized + Copy {
    /// The number of bit positions of the mask type.
    spec fn width() -> nat;

    /// The mask as a 128-bit word.
    spec fn word(self) -> u128;

    /// The largest word of the mask type: all of its bits set.
    spec fn limit() -> u128;

    /// A mask is determined by its word.
    proof fn lemma_word_identifies(a: Self, b: Self)
        requires
            a.word() == b.word(),
        ensures
            a == b,
    ;

    /// No word exceeds the limit, and the width is at most 128.
    proof fn lemma_word_bounded(self)
        ensures
            self.word() <= Self::limit(),
            Self::width() <= 128,
    ;

    /// Only positions below the width can be set.
    proof fn lemma_bits_below_width(self, bit: u8)
        requires
            has_bit(self.word(), bit),
        ensures
            (bit as nat) < Self::width(),
    ;

    /// The limit has exactly the positions below the width set.
    proof fn lemma_limit_bits(bit: u8)
        ensures
            has_bit(Self::limit(), bit) <==> (bit as nat) < Self::width(),
    ;

    /// Accepts exactly the positions below the width.
    fn check(bit: &u8) -> (r: Result<(), &'static str>)
        ensures
            r is Ok <==> (*bit as nat) < Self::width(),
            r matches Err(e) ==> e@ == INVALID_BIT_POSITION@,
    ;

    /// Sets or clears one position, as `flag` says.
    fn update(&mut self, bit: u8, flag: Bit) -> (r: Result<(), &'static str>)
        ensures
            r is Ok <==> (bit as nat) < Self::width(),
            r is Ok ==> final(self).word() == (match flag {
                Bit::On => old(self).word() | bit_word(bit),
                Bit::Off => old(self).word() & !bit_word(bit),
            }),
            r matches Err(e) ==> e@ == INVALID_BIT_POSITION@ && *final(self) == *old(self),
    {
        match flag {
            Bit::Off => self.unset(bit),
            Bit::On => self.set(bit),
        }
    }

    /// Sets one position. A position outside the width is rejected, and the mask stays as it
    /// was.
    fn set(&mut self, bit: u8) -> (r: Result<(), &'static str>)
        ensures
            r is Ok <==> (bit as nat) < Self::width(),
            r is Ok ==> final(self).word() == old(self).word() | bit_word(bit),
            r matches Err(e) ==> e@ == INVALID_BIT_POSITION@ && *final(self) == *old(self),
    ;

    /// Clears one position. A position outside the width is rejected, and the mask stays as it
    /// was.
    fn unset(&mut self, bit: u8) -> (r: Result<(), &'static str>)
        ensures
            r is Ok <==> (bit as nat) < Self::width(),
            r is Ok ==> final(self).word() == old(self).word() & !bit_word(bit),
            r matches Err(e) ==> e@ == INVALID_BIT_POSITION@ && *final(self) == *old(self),
    ;

    /// Clears every position.
    fn reset(&mut self)
        ensures
            final(self).word() == 0,
    {
        *self = Self::zero();
    }

    /// The empty mask.
    fn initialise() -> (r: Self)
        ensures
            r.word() == 0,
    {
        Self::zero()
    }

    /// True when at least one position is set in both masks.
    fn contains(&self, mask: Self) -> (r: bool)
        ensures
            r == overlaps(self.word(), mask.word()),
    ;

    /// The mask with only position `i` set.
    fn mask_for(i: Self) -> (r: Self)
        requires
            i.word() < Self::width(),
        ensures
            r.word() == 1u128 << i.word(),
    ;

    /// The sum of two masks as numbers; `None` where the sum exceeds the limit.
    fn checked_sum(self, other: Self) -> (r: Option<Self>)
        ensures
            match r {
                Some(sum) => sum.word() == self.word() + other.word(),
                None => self.word() + other.word() > Self::limit(),
            },
    ;

    /// The mask whose value is one: only position 0 is set.
    fn one() -> (r: Self)
        ensures
            r.word() == 1,
    ;

    /// The mask whose value is zero: no position is set.
    fn zero() -> (r: Self)
        ensures
            r.word() == 0,
    ;
}

impl BitSet for u128 {
    open spec fn width() -> nat {
        128
    }

    open spec fn word(self) -> u128 {
        self
    }

    open spec fn limit() -> u128 {
        u128::MAX
    }

    proof fn lemma_word_identifies(a: Self, b: Self) {
    }

    proof fn lemma_word_bounded(self) {
    }

    proof fn lemma_bits_below_width(self, bit: u8) {
        let word = self;
        assert(bit < 128) by (bit_vector)
            requires
                word & (1u128 << (bit as u128)) != 0,
                word <= 0xffffffffffffffffffffffffffffffffu128,
        ;
    }

    proof fn lemma_limit_bits(bit: u8) {
        let limit = u128::MAX;
        assert((limit & (1u128 << (bit as u128)) != 0) <==> bit < 128) by (bit_vector)
            requires
                limit == 0xffffffffffffffffffffffffffffffffu128,
        ;
    }

    fn check(bit: &u8) -> (r: Result<(), &'static str>) {
        if *bit < 128 {
            Ok(())
        } else {
            Err(INVALID_BIT_POSITION)
        }
    }

    fn set(&mut self, bit: u8) -> (r: Result<(), &'static str>) {
        Self::check(&bit)?;
        *self = *self | (1u128 << bit);
        Ok(())
    }

    fn unset(&mut self, bit: u8) -> (r: Result<(), &'static str>) {
        Self::check(&bit)?;
        *self = *self & !(1u128 << bit);
        Ok(())
    }

    fn contains(&self, mask: Self) -> (r: bool) {
        (*self & mask) > 0
    }

    fn mask_for(i: Self) -> (r: Self) {
        1u128 << i
    }

    fn checked_sum(self, other: Self) -> (r: Option<Self>) {
        self.checked_add(other)
    }

    fn one() -> (r: Self) {
        1
    }

    fn zero() -> (r: Self) {
        0
    }
}

impl BitSet for u64 {
    open spec fn width() -> nat {
        64
    }

    open spec fn word(self) -> u128 {
        self as u128
    }

    open spec fn limit() -> u128 {
        u64::MAX as u128
    }

    proof fn lemma_word_identifies(a: Self, b: Self) {
    }

    proof fn lemma_word_bounded(self) {
    }

    proof fn lemma_bits_below_width(self, bit: u8) {
        let word = self as u128;
        assert(bit < 64) by (bit_vector)
            requires
                word & (1u128 << (bit as u128)) != 0,
                word <= 0xffffffffffffffffu128,
        ;
    }

    proof fn lemma_limit_bits(bit: u8) {
        let limit = u64::MAX as u128;
        assert((limit & (1u128 << (bit as u128)) != 0) <==> bit < 64) by (bit_vector)
            requires
                limit == 0xffffffffffffffffu128,
        ;
    }

    fn check(bit: &u8) -> (r: Result<(), &'static str>) {
        if *bit < 64 {
            Ok(())
        } else {
            Err(INVALID_BIT_POSITION)
        }
    }

    fn set(&mut self, bit: u8) -> (r: Result<(), &'static str>) {
        Self::check(&bit)?;
        let before: u64 = *self;
        *self = before | (1u64 << bit);
        assert((before | (1u64 << bit)) as u128 == (before as u128) | (1u128 << (bit as u128)))
            by (bit_vector)
            requires
                bit < 64,
        ;
        Ok(())
    }

    fn unset(&mut self, bit: u8) -> (r: Result<(), &'static str>) {
        Self::check(&bit)?;
        let before: u64 = *self;
        *self = before & !(1u64 << bit);
        assert((before & !(1u64 << bit)) as u128 == (before as u128) & !(1u128 << (bit as u128)))
            by (bit_vector)
            requires
                bit < 64,
        ;
        Ok(())
    }

    fn contains(&self, mask: Self) -> (r: bool) {
        (*self & mask) > 0
    }

    fn mask_for(i: Self) -> (r: Self) {
        assert((1u64 << i) as u128 == 1u128 << (i as u128)) by (bit_vector)
            requires
                i < 64,
        ;
        1u64 << i
    }

    fn checked_sum(self, other: Self) -> (r: Option<Self>) {
        self.checked_add(other)
    }

    fn one() -> (r: Self) {
        1
    }

    fn zero() -> (r: Self) {
        0
    }
}

impl BitSet for u32 {
    open spec fn width() -> nat {
        32
    }

    open spec fn word(self) -> u128 {
        self as u128
    }

    open spec fn limit() -> u128 {
        u32::MAX as u128
    }

    proof fn lemma_word_identifies(a: Self, b: Self) {
    }

    proof fn lemma_word_bounded(self) {
    }

    proof fn lemma_bits_below_width(self, bit: u8) {
        let word = self as u128;
        assert(bit < 32) by (bit_vector)
            requires
                word & (1u128 << (bit as u128)) != 0,
                word <= 0xffffffffu128,
        ;
    }

    proof fn lemma_limit_bits(bit: u8) {
        let limit = u32::MAX as u128;
        assert((limit & (1u128 << (bit as u128)) != 0) <==> bit < 32) by (bit_vector)
            requires
                limit == 0xffffffffu128,
        ;
    }

    fn check(bit: &u8) -> (r: Result<(), &'static str>) {
        if *bit < 32 {
            Ok(())
        } else {
            Err(INVALID_BIT_POSITION)
        }
    }

    fn set(&mut self, bit: u8) -> (r: Result<(), &'static str>) {
        Self::check(&bit)?;
        let before: u32 = *self;
        *self = before | (1u32 << bit);
        assert((before | (1u32 << bit)) as u128 == (before as u128) | (1u128 << (bit as u128)))
            by (bit_vector)
            requires
                bit < 32,
        ;
        Ok(())
    }

    fn unset(&mut self, bit: u8) -> (r: Result<(), &'static str>) {
        Self::check(&bit)?;
        let before: u32 = *self;
        *self = before & !(1u32 << bit);
        assert((before & !(1u32 << bit)) as u128 == (before as u128) & !(1u128 << (bit as u128)))
            by (bit_vector)
            requires
                bit < 32,
        ;
        Ok(())
    }

    fn contains(&self, mask: Self) -> (r: bool) {
        (*self & mask) > 0
    }

    fn mask_for(i: Self) -> (r: Self) {
        assert((1u32 << i) as u128 == 1u128 << (i as u128)) by (bit_vector)
            requires
                i < 32,
        ;
        1u32 << i
    }

    fn checked_sum(self, other: Self) -> (r: Option<Self>) {
        self.checked_add(other)
    }

    fn one() -> (r: Self) {
        1
    }

    fn zero() -> (r: Self) {
        0
    }
}

impl BitSet for u16 {
    open spec fn width() -> nat {
        16
    }

    open spec fn word(self) -> u128 {
        self as u128
    }

    open spec fn limit() -> u128 {
        u16::MAX as u128
    }

    proof fn lemma_word_identifies(a: Self, b: Self) {
    }

    proof fn lemma_word_bounded(self) {
    }

    proof fn lemma_bits_below_width(self, bit: u8) {
        let word = self as u128;
        assert(bit < 16) by (bit_vector)
            requires
                word & (1u128 << (bit as u128)) != 0,
                word <= 0xffffu128,
        ;
    }

    proof fn lemma_limit_bits(bit: u8) {
        let limit = u16::MAX as u128;
        assert((limit & (1u128 << (bit as u128)) != 0) <==> bit < 16) by (bit_vector)
            requires
                limit == 0xffffu128,
        ;
    }

    fn check(bit: &u8) -> (r: Result<(), &'static str>) {
        if *bit < 16 {
            Ok(())
        } else {
            Err(INVALID_BIT_POSITION)
        }
    }

    fn set(&mut self, bit: u8) -> (r: Result<(), &'static str>) {
        Self::check(&bit)?;
        let before: u16 = *self;
        *self = before | (1u16 << bit);
        assert((before | (1u16 << bit)) as u128 == (before as u128) | (1u128 << (bit as u128)))
            by (bit_vector)
            requires
                bit < 16,
        ;
        Ok(())
    }

    fn unset(&mut self, bit: u8) -> (r: Result<(), &'static str>) {
        Self::check(&bit)?;
        let before: u16 = *self;
        *self = before & !(1u16 << bit);
        assert((before & !(1u16 << bit)) as u128 == (before as u128) & !(1u128 << (bit as u128)))
            by (bit_vector)
            requires
                bit < 16,
        ;
        Ok(())
    }

    fn contains(&self, mask: Self) -> (r: bool) {
        (*self & mask) > 0
    }

    fn mask_for(i: Self) -> (r: Self) {
        assert((1u16 << i) as u128 == 1u128 << (i as u128)) by (bit_vector)
            requires
                i < 16,
        ;
        1u16 << i
    }

    fn checked_sum(self, other: Self) -> (r: Option<Self>) {
        self.checked_add(other)
    }

    fn one() -> (r: Self) {
        1
    }

    fn zero() -> (r: Self) {
        0
    }
}

impl BitSet for u8 {
    open spec fn width() -> nat {
        8
    }

    open spec fn word(self) -> u128 {
        self as u128
    }

    open spec fn limit() -> u128 {
        u8::MAX as u128
    }

    proof fn lemma_word_identifies(a: Self, b: Self) {
    }

    proof fn lemma_word_bounded(self) {
    }

    proof fn lemma_bits_below_width(self, bit: u8) {
        let word = self as u128;
        assert(bit < 8) by (bit_vector)
            requires
                word & (1u128 << (bit as u128)) != 0,
                word <= 0xffu128,
        ;
    }

    proof fn lemma_limit_bits(bit: u8) {
        let limit = u8::MAX as u128;
        assert((limit & (1u128 << (bit as u128)) != 0) <==> bit < 8) by (bit_vector)
            requires
                limit == 0xffu128,
        ;
    }

    fn check(bit: &u8) -> (r: Result<(), &'static str>) {
        if *bit < 8 {
            Ok(())
        } else {
            Err(INVALID_BIT_POSITION)
        }
    }

    fn set(&mut self, bit: u8) -> (r: Result<(), &'static str>) {
        Self::check(&bit)?;
        let before: u8 = *self;
        *self = before | (1u8 << bit);
        assert((before | (1u8 << bit)) as u128 == (before as u128) | (1u128 << (bit as u128)))
            by (bit_vector)
            requires
                bit < 8,
        ;
        Ok(())
    }

    fn unset(&mut self, bit: u8) -> (r: Result<(), &'static str>) {
        Self::check(&bit)?;
        let before: u8 = *self;
        *self = before & !(1u8 << bit);
        assert((before & !(1u8 << bit)) as u128 == (before as u128) & !(1u128 << (bit as u128)))
            by (bit_vector)
            requires
                bit < 8,
        ;
        Ok(())
    }

    fn contains(&self, mask: Self) -> (r: bool) {
        (*self & mask) > 0
    }

    fn mask_for(i: Self) -> (r: Self) {
        assert((1u8 << i) as u128 == 1u128 << (i as u128)) by (bit_vector)
            requires
                i < 8,
        ;
        1u8 << i
    }

    fn checked_sum(self, other: Self) -> (r: Option<Self>) {
        self.checked_add(other)
    }

    fn one() -> (r: Self) {
        1
    }

    fn zero() -> (r: Self) {
        0
    }
}

/// The single bit at a position below the width is a word of the mask type.
pub proof fn lemma_bit_fits<U: BitSet>(bit: u8)
    requires
        (bit as nat) < U::width(),
    ensures
        bit_word(bit) <= U::limit(),
{
    U::lemma_limit_bits(bit);
    let limit = U::limit();
    assert((1u128 << (bit as u128)) <= limit) by (bit_vector)
        requires
            limit & (1u128 << (bit as u128)) != 0,
    ;
}

/// No mask type is wider than 128 bits.
pub proof fn lemma_width_bounded<U: BitSet>()
    ensures
        U::width() <= 128,
{
    U::lemma_limit_bits(128);
    let limit = U::limit();
    assert((limit & (1u128 << 128u128)) == 0) by (bit_vector);
}

/// The widths of the five mask types. With [`BitSet::set`] and [`BitSet::unset`] this says
/// that for a width of 8, 16, 32, 64 or 128 bits the positions below the width are accepted,
/// and the width itself, like every position above it, is rejected.
pub proof fn lemma_widths()
    ensures
        <u8 as BitSet>::width() == 8,
        <u16 as BitSet>::width() == 16,
        <u32 as BitSet>::width() == 32,
        <u64 as BitSet>::width() == 64,
        <u128 as BitSet>::width() == 128,
{
}
/// The word of a mask that may be missing.
pub open spec fn word_of<U: BitSet>(mask: Option<U>) -> Option<u128> {
    match mask {
        Some(m) => Some(m.word()),
        None => None,
    }
}

/// A counter that hands out identifiers by counting up.
pub trait Increment: Sized + Copy + Default {
    /// The counter as a natural number.
    spec fn value(self) -> nat;

    /// The largest value the type can hold.
    spec fn limit() -> nat;

    /// A counter is determined by its value, never exceeds the limit, and can key a hash map.
    proof fn lemma_value_identifies()
        ensures
            obeys_key_model::<Self>(),
            forall|a: Self| #[trigger] a.value() <= Self::limit(),
            forall|a: Self, b: Self| #[trigger] a.value() == #[trigger] b.value() ==> a == b,
    ;

    /// Counting starts at zero: that is the value of the type's default.
    proof fn lemma_default_is_zero(start: Self)
        requires
            call_ensures(Self::default, (), start),
        ensures
            start.value() == 0,
    ;

    /// Adds one to the counter and returns the new value.
    fn increment(&mut self) -> (r: Self)
        requires
            old(self).value() < Self::limit(),
        ensures
            final(self).value() == old(self).value() + 1,
            r == *final(self),
    ;
}

impl Increment for u128 {
    open spec fn value(self) -> nat {
        self as nat
    }

    open spec fn limit() -> nat {
        u128::MAX as nat
    }

    proof fn lemma_value_identifies() {
        broadcast use vstd::std_specs::hash::group_hash_axioms;
    }

    proof fn lemma_default_is_zero(start: Self) {
    }

    fn increment(&mut self) -> (r: Self) {
        *self = *self + 1;
        *self
    }
}

impl Increment for u64 {
    open spec fn value(self) -> nat {
        self as nat
    }

    open spec fn limit() -> nat {
        u64::MAX as nat
    }

    proof fn lemma_value_identifies() {
        broadcast use vstd::std_specs::hash::group_hash_axioms;
    }

    proof fn lemma_default_is_zero(start: Self) {
    }

    fn increment(&mut self) -> (r: Self) {
        *self = *self + 1;
        *self
    }
}

impl Increment for u32 {
    open spec fn value(self) -> nat {
        self as nat
    }

    open spec fn limit() -> nat {
        u32::MAX as nat
    }

    proof fn lemma_value_identifies() {
        broadcast use vstd::std_specs::hash::group_hash_axioms;
    }

    proof fn lemma_default_is_zero(start: Self) {
    }

    fn increment(&mut self) -> (r: Self) {
        *self = *self + 1;
        *self
    }
}

impl Increment for u16 {
    open spec fn value(self) -> nat {
        self as nat
    }

    open spec fn limit() -> nat {
        u16::MAX as nat
    }

    proof fn lemma_value_identifies() {
        broadcast use vstd::std_specs::hash::group_hash_axioms;
    }

    proof fn lemma_default_is_zero(start: Self) {
    }

    fn increment(&mut self) -> (r: Self) {
        *self = *self + 1;
        *self
    }
}

impl Increment for u8 {
    open spec fn value(self) -> nat {
        self as nat
    }

    open spec fn limit() -> nat {
        u8::MAX as nat
    }

    proof fn lemma_value_identifies() {
        broadcast use vstd::std_specs::hash::group_hash_axioms;
    }

    proof fn lemma_default_is_zero(start: Self) {
    }

    fn increment(&mut self) -> (r: Self) {
        *self = *self + 1;
        *self
    }
}

} // verus!
