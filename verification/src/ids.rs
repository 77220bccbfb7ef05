//! Opaque, typed identifiers for the domain entities.
//!
//! Each id holds the 128 bits of a random (version 4) UUID, so that a
//! `NoteId` cannot be passed where a `TagId` is expected.
use vstd::prelude::*;

verus! {

/// The lowercase hexadecimal digit of `n` (`0 <= n < 16`).
pub open spec fn hex_digit(n: int) -> char {
    if n < 10 {
        ('0' as int + n) as char
    } else {
        ('a' as int + n - 10) as char
    }
}

/// The `k`-th hexadecimal digit of `v`, counted from the most significant
/// one (`0 <= k < 32`).
pub open spec fn nibble(v: u128, k: int) -> u128 {
    (v >> (((31 - k) * 4) as u128)) & 15u128
}

/// Whether position `i` of the hyphenated form holds a hyphen.
pub open spec fn is_hyphen_pos(i: int) -> bool {
    i == 8 || i == 13 || i == 18 || i == 23
}

/// Which hexadecimal digit stands at position `i` of the hyphenated form.
pub open spec fn digit_at(i: int) -> int {
    if i < 8 {
        i
    } else if i < 13 {
        i - 1
    } else if i < 18 {
        i - 2
    } else if i < 23 {
        i - 3
    } else {
        i - 4
    }
}

/// Where the `k`-th hexadecimal digit stands in the hyphenated form.
pub open spec fn pos_of_digit(k: int) -> int {
    if k < 8 {
        k
    } else if k < 12 {
        k + 1
    } else if k < 16 {
        k + 2
    } else if k < 20 {
        k + 3
    } else {
        k + 4
    }
}

/// The hyphenated lowercase form of a UUID, `xxxxxxxx-xxxx-xxxx-xxxx-xxxxxxxxxxxx`:
/// its 32 hexadecimal digits, most significant first, in groups of 8, 4, 4,
/// 4 and 12 separated by `-`.
pub open spec fn uuid_text(v: u128) -> Seq<char> {
    Seq::new(
        36,
        |i: int|
            if is_hyphen_pos(i) {
                '-'
            } else {
                hex_digit(nibble(v, digit_at(i)) as int)
            },
    )
}

/// Whether `v` has the version (4) and variant (RFC 4122) bits of a
/// random UUID.
pub open spec fn is_v4(v: u128) -> bool {
    &&& (v >> 76u128) & 15u128 == 4
    &&& (v >> 62u128) & 3u128 == 2
}

/// The 128 bits of `uuid::Uuid::new_v4()`: random, with the version and
/// variant bits set as its source sets them.  Nothing else is stated of the
/// value.
#[verifier::external_body]
pub(crate) fn random_uuid() -> (r: u128)
    ensures
        is_v4(r),
{
    uuid::Uuid::new_v4().as_u128()
}

/// `uuid::Uuid::from_u128(v).to_string()`: the hyphenated lowercase form,
/// as `Display` for `Uuid` writes it.
#[verifier::external_body]
pub(crate) fn uuid_string(v: u128) -> (r: String)
    ensures
        r@ == uuid_text(v),
{
    uuid::Uuid::from_u128(v).to_string()
}

proof fn lemma_nibble_range(v: u128, s: u128)
    ensures
        (v >> s) & 15u128 < 16,
{
    assert((v >> s) & 15u128 < 16) by (bit_vector);
}

proof fn lemma_hex_digit_injective(m: int, n: int)
    requires
        0 <= m < 16,
        0 <= n < 16,
        hex_digit(m) == hex_digit(n),
    ensures
        m == n,
{
}

proof fn lemma_top_nibble(a: u128)
    ensures
        a >> 124u128 == (a >> 124u128) & 15u128,
{
    assert(a >> 124u128 == (a >> 124u128) & 15u128) by (bit_vector);
}

proof fn lemma_shift_step(a: u128, b: u128, s: u128)
    requires
        s <= 120,
        a >> ((s + 4) as u128) == b >> ((s + 4) as u128),
        (a >> s) & 15u128 == (b >> s) & 15u128,
    ensures
        a >> s == b >> s,
{
    assert(a >> s == b >> s) by (bit_vector)
        requires
            s <= 120,
            a >> ((s + 4) as u128) == b >> ((s + 4) as u128),
            (a >> s) & 15u128 == (b >> s) & 15u128,
    ;
}

/// Equal leading digits: the values agree above digit `k` from the right.
proof fn lemma_high_part(a: u128, b: u128, k: int)
    requires
        1 <= k <= 32,
        forall|j: int| 0 <= j < 32 ==> #[trigger] nibble(a, j) == nibble(b, j),
    ensures
        a >> (((32 - k) * 4) as u128) == b >> (((32 - k) * 4) as u128),
    decreases k,
{
    assert(nibble(a, k - 1) == nibble(b, k - 1));
    if k == 1 {
        lemma_top_nibble(a);
        lemma_top_nibble(b);
    } else {
        lemma_high_part(a, b, k - 1);
        lemma_shift_step(a, b, ((32 - k) * 4) as u128);
    }
}

/// Distinct UUIDs have distinct hyphenated forms: the text identifies the
/// value.
pub proof fn lemma_uuid_text_injective(a: u128, b: u128)
    requires
        uuid_text(a) == uuid_text(b),
    ensures
        a == b,
{
    assert forall|k: int| 0 <= k < 32 implies #[trigger] nibble(a, k) == nibble(b, k) by {
        let i = pos_of_digit(k);
        assert(0 <= i < 36 && !is_hyphen_pos(i) && digit_at(i) == k);
        assert(uuid_text(a)[i] == hex_digit(nibble(a, k) as int));
        assert(uuid_text(b)[i] == hex_digit(nibble(b, k) as int));
        lemma_nibble_range(a, ((31 - k) * 4) as u128);
        lemma_nibble_range(b, ((31 - k) * 4) as u128);
        lemma_hex_digit_injective(nibble(a, k) as int, nibble(b, k) as int);
    }
    lemma_high_part(a, b, 32);
    assert(a >> 0u128 == a) by (bit_vector);
    assert(b >> 0u128 == b) by (bit_vector);
}

/// Unique identifier for a note.
#[derive(Debug, Clone, Copy, PartialEq, Eq, Structural, Hash)]
pub struct NoteId(u128);

impl View for NoteId {
    type V = u128;

    closed spec fn view(&self) -> u128 {
        self.0
    }
}

impl NoteId {
    /// Two note ids are equal exactly when their values are.
    pub proof fn lemma_view_injective(a: NoteId, b: NoteId)
        ensures
            (a@ == b@) <==> (a == b),
    {
    }

    /// The value of the id, for keying collections.
    pub(crate) fn value(&self) -> (r: u128)
        ensures
            r == self@,
    {
        self.0
    }

    /// Create a new random `NoteId`.
    pub fn new() -> (r: Self)
        ensures
            is_v4(r@),
    {
        NoteId(random_uuid())
    }

    /// The hyphenated lowercase UUID form of the id.
    pub fn to_string(&self) -> (r: String)
        ensures
            r@ == uuid_text(self@),
    {
        uuid_string(self.0)
    }
}

impl Default for NoteId {
    /// A new random id, as [`NoteId::new`].
    fn default() -> (r: Self)
        ensures
            is_v4(r@),
    {
        Self::new()
    }
}

/// Unique identifier for a tag.
#[derive(Debug, Clone, Copy, PartialEq, Eq, Structural, Hash)]
pub struct TagId(u128);

impl View for TagId {
    type V = u128;

    closed spec fn view(&self) -> u128 {
        self.0
    }
}

impl TagId {
    /// Two tag ids are equal exactly when their values are.
    pub proof fn lemma_view_injective(a: TagId, b: TagId)
        ensures
            (a@ == b@) <==> (a == b),
    {
    }

    /// Create a new random `TagId`.
    pub fn new() -> (r: Self)
        ensures
            is_v4(r@),
    {
        TagId(random_uuid())
    }

    /// The hyphenated lowercase UUID form of the id.
    pub fn to_string(&self) -> (r: String)
        ensures
            r@ == uuid_text(self@),
    {
        uuid_string(self.0)
    }
}

impl Default for TagId {
    /// A new random id, as [`TagId::new`].
    fn default() -> (r: Self)
        ensures
            is_v4(r@),
    {
        Self::new()
    }
}

} // verus!
