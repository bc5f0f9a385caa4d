//! The simulation's own entity id: [`Uid`], a type tag in the top byte and a
//! random body in the low 56 bits, never zero.
//!
//! ```text
//!  63          56 55                                                  0
//! +--------------+----------------------------------------------------+
//! |     type     |                   random, never 0                   |
//! +--------------+----------------------------------------------------+
//! ```

use vstd::prelude::*;

use core::num::NonZeroU64;

verus! {

/// How many low bits are the random part.
pub const RANDOM_BITS: u64 = 56;

/// Mask of the random part.
pub const RANDOM_MASK: u64 = 0x00ff_ffff_ffff_ffff;

/// What an entity is. The tag is the top byte of every [`Uid`] of that kind,
/// so it is part of the id format. Tag `0` is never used.
#[derive(Clone, Copy, PartialEq, Eq, Structural, PartialOrd, Ord, Hash, Debug)]
pub enum EntityType {
    Human,
    Dog,
}

pub open spec fn spec_tag(kind: EntityType) -> u8 {
    match kind {
        EntityType::Human => 1,
        EntityType::Dog => 2,
    }
}

pub open spec fn spec_from_tag(tag: u8) -> Option<EntityType> {
    if tag == 1 {
        Some(EntityType::Human)
    } else if tag == 2 {
        Some(EntityType::Dog)
    } else {
        None
    }
}

pub open spec fn spec_kind_name(kind: EntityType) -> Seq<char> {
    match kind {
        EntityType::Human => seq!['h', 'u', 'm', 'a', 'n'],
        EntityType::Dog => seq!['d', 'o', 'g'],
    }
}

impl EntityType {
    /// Every kind, in tag order.
    pub fn all() -> (kinds: [EntityType; 2])
        ensures
            kinds@ == seq![EntityType::Human, EntityType::Dog],
    {
        [EntityType::Human, EntityType::Dog]
    }

    /// The byte this kind occupies at the top of an id.
    pub fn tag(self) -> (t: u8)
        ensures
            t == spec_tag(self),
    {
        match self {
            EntityType::Human => 1,
            EntityType::Dog => 2,
        }
    }

    /// The name used in logs and in a QA script's `spawn` step.
    pub fn name(self) -> (s: &'static str)
        ensures
            s@ == spec_kind_name(self),
    {
        match self {
            EntityType::Human => {
                let s = "human";
                proof {
                    reveal_strlit("human");
                }
                s
            },
            EntityType::Dog => {
                let s = "dog";
                proof {
                    reveal_strlit("dog");
                }
                s
            },
        }
    }

    /// The kind whose name is exactly `name`.
    pub fn from_name(name: &str) -> (k: Option<EntityType>)
        ensures
            match k {
                Some(kind) => spec_kind_name(kind) == name@,
                None => forall|kind: EntityType| spec_kind_name(kind) != name@,
            },
    {
        if same_text(EntityType::Human.name(), name) {
            Some(EntityType::Human)
        } else if same_text(EntityType::Dog.name(), name) {
            Some(EntityType::Dog)
        } else {
            proof {
                assert forall|kind: EntityType| spec_kind_name(kind) != name@ by {
                    match kind {
                        EntityType::Human => {},
                        EntityType::Dog => {},
                    }
                }
            }
            None
        }
    }

    /// The inverse of [`EntityType::tag`]; `None` for a byte this build has
    /// no type for.
    pub fn from_tag(tag: u8) -> (k: Option<EntityType>)
        ensures
            k == spec_from_tag(tag),
            k matches Some(kind) ==> spec_tag(kind) == tag,
    {
        match tag {
            1 => Some(EntityType::Human),
            2 => Some(EntityType::Dog),
            _ => None,
        }
    }
}

/// Whether two strings hold the same characters.
pub fn same_text(a: &str, b: &str) -> (same: bool)
    ensures
        same == (a@ == b@),
{
    let n = a.unicode_len();
    if n != b.unicode_len() {
        return false;
    }
    let mut i: usize = 0;
    while i < n
        invariant
            n == a@.len(),
            n == b@.len(),
            0 <= i <= n,
            forall|j: int| 0 <= j < i ==> a@[j] == b@[j],
        decreases n - i,
    {
        if a.get_char(i) != b.get_char(i) {
            return false;
        }
        i = i + 1;
    }
    proof {
        assert(a@ =~= b@);
    }
    true
}

/// A unique, randomised, type-tagged entity id.
///
/// The word is kept as a `NonZeroU64`, so `Option<Uid>` is the size of a
/// `Uid`. `NonZero<u64>` cannot be declared as an outside type here — its
/// parameter is bounded by a trait std keeps unstable — so the word is held in this
/// struct's private field, and the two functions below that make and read
/// it are the only code that touches it.
#[verifier::external_body]
#[derive(Copy, PartialEq, Eq, PartialOrd, Ord, Hash, Debug)]
pub struct Uid {
    word: NonZeroU64,
}

impl Clone for Uid {
    fn clone(&self) -> (c: Uid)
        ensures
            c == *self,
    {
        *self
    }
}

/// The 64-bit value an id holds.
pub uninterp spec fn uid_word(uid: Uid) -> u64;

impl View for Uid {
    type V = u64;

    open spec fn view(&self) -> u64 {
        uid_word(*self)
    }
}

/// `NonZeroU64::new`, wrapped into an id: `None` for zero, otherwise the id
/// holding exactly `bits`.
#[verifier::external_body]
fn uid_from_word(bits: u64) -> (uid: Option<Uid>)
    ensures
        uid.is_some() == (bits != 0),
        uid matches Some(u) ==> uid_word(u) == bits,
{
    match NonZeroU64::new(bits) {
        Some(word) => Some(Uid { word }),
        None => None,
    }
}

/// `NonZeroU64::get`: the word the id holds, which is never zero.
#[verifier::external_body]
fn uid_to_word(uid: Uid) -> (bits: u64)
    ensures
        bits == uid_word(uid),
        bits != 0,
{
    uid.word.get()
}

/// The body an id is minted with: the low 56 bits of the random word, and
/// never zero.
pub open spec fn spec_body_of(random: u64) -> u64 {
    if random & RANDOM_MASK == 0 {
        1
    } else {
        random & RANDOM_MASK
    }
}

/// The word an id of `kind` minted from `random` holds.
pub open spec fn spec_minted(kind: EntityType, random: u64) -> u64 {
    ((spec_tag(kind) as u64) << RANDOM_BITS) | spec_body_of(random)
}

/// The type survives the round trip through the bits: an id minted for
/// `kind` reads back as `kind`, and its body is the random part it was
/// minted from (or 1 for an all-zero one), never reaching the tag.
pub proof fn lemma_minted_kind_survives(kind: EntityType, random: u64)
    ensures
        spec_from_tag((spec_minted(kind, random) >> RANDOM_BITS) as u8) == Some(kind),
        spec_minted(kind, random) & RANDOM_MASK == spec_body_of(random),
        spec_minted(kind, random) != 0,
{
    let tag = spec_tag(kind) as u64;
    let body = spec_body_of(random);
    assert(random & 0x00ff_ffff_ffff_ffffu64 <= 0x00ff_ffff_ffff_ffffu64) by (bit_vector);
    assert(((tag << 56u64) | body) >> 56u64 == tag && ((tag << 56u64) | body) & 0x00ff_ffff_ffff_ffffu64 == body
        && ((tag << 56u64) | body) != 0) by (bit_vector)
        requires
            1 <= tag <= 2,
            1 <= body <= 0x00ff_ffff_ffff_ffffu64,
    ;
}

/// A type's name names that type and no other.
pub proof fn lemma_kind_names_differ(a: EntityType, b: EntityType)
    ensures
        spec_kind_name(a) == spec_kind_name(b) ==> a == b,
{
    if spec_kind_name(a) == spec_kind_name(b) && a != b {
        assert(spec_kind_name(a)[1] != spec_kind_name(b)[1]);
    }
}

impl Uid {
    /// Build an id from a type and a random 56-bit body. Bits above
    /// [`RANDOM_MASK`] in `random` are discarded, and an all-zero body
    /// becomes 1.
    pub fn new(kind: EntityType, random: u64) -> (uid: Uid)
        ensures
            uid@ == spec_minted(kind, random),
            uid@ >> RANDOM_BITS == spec_tag(kind),
            uid@ & RANDOM_MASK == spec_body_of(random),
            uid@ & RANDOM_MASK != 0,
    {
        let masked = random & RANDOM_MASK;
        let body = if masked == 0 { 1 } else { masked };
        let tag = kind.tag() as u64;
        let bits = (tag << RANDOM_BITS) | body;
        proof {
            assert(1 <= tag <= 2);
            assert(body != 0);
            assert(body <= 0x00ff_ffff_ffff_ffff) by {
                assert(random & 0x00ff_ffff_ffff_ffffu64 <= 0x00ff_ffff_ffff_ffffu64) by (bit_vector);
            }
            assert(((tag << 56u64) | body) >> 56u64 == tag && ((tag << 56u64) | body)
                & 0x00ff_ffff_ffff_ffffu64 == body && ((tag << 56u64) | body) != 0) by (bit_vector)
                requires
                    1 <= tag <= 2,
                    1 <= body <= 0x00ff_ffff_ffff_ffffu64,
            ;
        }
        uid_from_word(bits).unwrap()
    }

    /// What kind of entity this is, from the id alone; `None` for a tag this
    /// build does not know.
    pub fn kind(self) -> (k: Option<EntityType>)
        ensures
            k == spec_from_tag((self@ >> RANDOM_BITS) as u8),
    {
        let bits = uid_to_word(self);
        proof {
            assert(bits >> 56u64 <= 255) by (bit_vector);
        }
        EntityType::from_tag((bits >> RANDOM_BITS) as u8)
    }

    /// The whole 64-bit value, for serialising or hashing.
    pub fn raw(self) -> (bits: u64)
        ensures
            bits == self@,
            bits != 0,
    {
        uid_to_word(self)
    }

    /// The random half, without the type tag.
    pub fn body(self) -> (b: u64)
        ensures
            b == self@ & RANDOM_MASK,
    {
        uid_to_word(self) & RANDOM_MASK
    }

    /// Rebuild an id from [`Uid::raw`]; `None` for zero. The tag is not
    /// checked, so an id naming a type this build has never heard of still
    /// round-trips unchanged.
    pub fn from_raw(bits: u64) -> (uid: Option<Uid>)
        ensures
            uid.is_some() == (bits != 0),
            uid matches Some(u) ==> u@ == bits,
    {
        uid_from_word(bits)
    }

    /// Whether two ids are the same id.
    pub fn same(self, other: Uid) -> (b: bool)
        ensures
            b == (self@ == other@),
    {
        uid_to_word(self) == uid_to_word(other)
    }
}

/// The lower-case hexadecimal digit for `d`.
pub open spec fn hex_digit(d: int) -> char {
    if d < 10 {
        ((48 + d) as u8) as char
    } else {
        ((87 + d) as u8) as char
    }
}

/// `v` in exactly `n` lower-case hexadecimal digits, zero-padded; only the
/// low `n` digits are kept.
pub open spec fn hex_fixed(v: nat, n: nat) -> Seq<char>
    decreases n,
{
    if n == 0 {
        seq![]
    } else {
        hex_fixed(v / 16, (n - 1) as nat).push(hex_digit((v % 16) as int))
    }
}

/// How an id reads: the kind's name, a colon and the body in fourteen hex
/// digits; an unknown kind is a `?` and the tag in two.
pub open spec fn spec_uid_text(uid: Uid) -> Seq<char> {
    let body = hex_fixed((uid@ & RANDOM_MASK) as nat, 14);
    match spec_from_tag((uid@ >> RANDOM_BITS) as u8) {
        Some(kind) => spec_kind_name(kind) + seq![':'] + body,
        None => seq!['?'] + hex_fixed((uid@ >> RANDOM_BITS) as nat, 2) + seq![':'] + body,
    }
}

pub(crate) fn hex_str(d: u64) -> (s: &'static str)
    requires
        d < 16,
    ensures
        s@ == seq![hex_digit(d as int)],
{
    proof {
        reveal_strlit("0");
        reveal_strlit("1");
        reveal_strlit("2");
        reveal_strlit("3");
        reveal_strlit("4");
        reveal_strlit("5");
        reveal_strlit("6");
        reveal_strlit("7");
        reveal_strlit("8");
        reveal_strlit("9");
        reveal_strlit("a");
        reveal_strlit("b");
        reveal_strlit("c");
        reveal_strlit("d");
        reveal_strlit("e");
        reveal_strlit("f");
    }
    if d == 0 {
        "0"
    } else if d == 1 {
        "1"
    } else if d == 2 {
        "2"
    } else if d == 3 {
        "3"
    } else if d == 4 {
        "4"
    } else if d == 5 {
        "5"
    } else if d == 6 {
        "6"
    } else if d == 7 {
        "7"
    } else if d == 8 {
        "8"
    } else if d == 9 {
        "9"
    } else if d == 10 {
        "a"
    } else if d == 11 {
        "b"
    } else if d == 12 {
        "c"
    } else if d == 13 {
        "d"
    } else if d == 14 {
        "e"
    } else {
        "f"
    }
}

fn push_hex(out: &mut String, v: u64, n: usize)
    ensures
        final(out)@ == old(out)@ + hex_fixed(v as nat, n as nat),
    decreases n,
{
    if n == 0 {
        proof {
            assert(old(out)@ + hex_fixed(v as nat, 0) =~= old(out)@);
        }
        return;
    }
    push_hex(out, v / 16, n - 1);
    out.append(hex_str(v % 16));
    proof {
        assert(hex_fixed(v as nat, n as nat) == hex_fixed((v / 16) as nat, (n - 1) as nat).push(
            hex_digit((v % 16) as int),
        ));
        assert(final(out)@ =~= old(out)@ + hex_fixed(v as nat, n as nat));
    }
}

impl Uid {
    /// `human:3f1c9a20b4e7d5` — the type, then the body in hex.
    pub fn to_string(self) -> (text: String)
        ensures
            text@ == spec_uid_text(self),
    {
        let bits = self.raw();
        let tag = bits >> RANDOM_BITS;
        let mut text = String::new();
        let colon = ":";
        let question = "?";
        proof {
            reveal_strlit(":");
            reveal_strlit("?");
            assert(bits >> 56u64 <= 255) by (bit_vector);
        }
        match self.kind() {
            Some(kind) => {
                text.append(kind.name());
            },
            None => {
                text.append(question);
                push_hex(&mut text, tag, 2);
            },
        }
        text.append(colon);
        push_hex(&mut text, bits & RANDOM_MASK, 14);
        proof {
            assert(text@ =~= spec_uid_text(self));
        }
        text
    }
}

} // verus!
