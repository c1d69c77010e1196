//! Characteristics of a peripheral: what can be read from it, written to it
//! or subscribed to.

use vstd::prelude::*;
use vstd::string::*;

verus! {

/// The operations that a characteristic supports, one bit for each.
#[derive(Debug, Clone, Copy, PartialEq, Eq, PartialOrd, Ord, Hash, Structural)]
pub struct CharPropFlags {
    pub bits: u8,
}

impl CharPropFlags {
    /// The property of a characteristic that can be broadcast.
    pub fn broadcast() -> (r: CharPropFlags)
        ensures
            r.bits == 0x01,
    {
        CharPropFlags { bits: 0x01 }
    }

    /// The property of a characteristic that can be read.
    pub fn read() -> (r: CharPropFlags)
        ensures
            r.bits == 0x02,
    {
        CharPropFlags { bits: 0x02 }
    }

    /// The property of a characteristic that can be written without an answer.
    pub fn write_without_response() -> (r: CharPropFlags)
        ensures
            r.bits == 0x04,
    {
        CharPropFlags { bits: 0x04 }
    }

    /// The property of a characteristic that can be written with an answer.
    pub fn write() -> (r: CharPropFlags)
        ensures
            r.bits == 0x08,
    {
        CharPropFlags { bits: 0x08 }
    }

    /// The property of a characteristic that can notify of changes.
    pub fn notify() -> (r: CharPropFlags)
        ensures
            r.bits == 0x10,
    {
        CharPropFlags { bits: 0x10 }
    }

    /// The property of a characteristic that can indicate changes.
    pub fn indicate() -> (r: CharPropFlags)
        ensures
            r.bits == 0x20,
    {
        CharPropFlags { bits: 0x20 }
    }

    /// The property of a characteristic that takes signed writes.
    pub fn authenticated_signed_writes() -> (r: CharPropFlags)
        ensures
            r.bits == 0x40,
    {
        CharPropFlags { bits: 0x40 }
    }

    /// The property of a characteristic that has extended properties.
    pub fn extended_properties() -> (r: CharPropFlags)
        ensures
            r.bits == 0x80,
    {
        CharPropFlags { bits: 0x80 }
    }

    /// The set without any property.
    pub fn new() -> (r: CharPropFlags)
        ensures
            r.bits == 0,
    {
        CharPropFlags { bits: 0 }
    }

    /// The set without any property.
    pub fn empty() -> (r: CharPropFlags)
        ensures
            r.bits == 0,
    {
        CharPropFlags { bits: 0 }
    }

    /// The set of all eight properties.
    pub fn all() -> (r: CharPropFlags)
        ensures
            r.bits == 0xff,
    {
        CharPropFlags { bits: 0xff }
    }

    /// The set as one byte.
    pub fn bits(&self) -> (r: u8)
        ensures
            r == self.bits,
    {
        self.bits
    }

    /// The set that a byte stands for. Each of the eight bits is a property,
    /// so every byte stands for a set.
    pub fn from_bits(bits: u8) -> (r: Option<CharPropFlags>)
        ensures
            r == Some(CharPropFlags { bits }),
    {
        Some(CharPropFlags { bits })
    }

    /// The set that a byte stands for.
    pub fn from_bits_truncate(bits: u8) -> (r: CharPropFlags)
        ensures
            r.bits == bits,
    {
        CharPropFlags { bits }
    }

    /// Whether every property of `other` is in this set.
    pub open spec fn spec_contains(&self, other: CharPropFlags) -> bool {
        self.bits & other.bits == other.bits
    }

    /// Whether the set holds no property.
    pub fn is_empty(&self) -> (r: bool)
        ensures
            r == (self.bits == 0),
    {
        self.bits == 0
    }

    /// Whether every property of `other` is in this set.
    #[verifier::when_used_as_spec(spec_contains)]
    pub fn contains(&self, other: CharPropFlags) -> (r: bool)
        ensures
            r == self.spec_contains(other),
    {
        self.bits & other.bits == other.bits
    }

    /// Whether some property is in both sets.
    pub fn intersects(&self, other: CharPropFlags) -> (r: bool)
        ensures
            r == (self.bits & other.bits != 0),
    {
        self.bits & other.bits != 0
    }

    /// The properties that are in either set.
    pub fn union(self, other: CharPropFlags) -> (r: CharPropFlags)
        ensures
            r.bits == self.bits | other.bits,
    {
        CharPropFlags { bits: self.bits | other.bits }
    }

    /// The properties that are in both sets.
    pub fn intersection(self, other: CharPropFlags) -> (r: CharPropFlags)
        ensures
            r.bits == self.bits & other.bits,
    {
        CharPropFlags { bits: self.bits & other.bits }
    }

    /// Adds the properties of `other` to this set.
    pub fn insert(&mut self, other: CharPropFlags)
        ensures
            final(self).bits == old(self).bits | other.bits,
    {
        self.bits = self.bits | other.bits;
    }

    /// Takes the properties of `other` out of this set.
    pub fn remove(&mut self, other: CharPropFlags)
        ensures
            final(self).bits == old(self).bits & !other.bits,
    {
        self.bits = self.bits & !other.bits;
    }
}

/// A set holds what was inserted into it and all it held before; what was
/// removed it holds no more, unless the removed set is empty.
pub proof fn lemma_flags_insert_remove(bits: u8, other: u8)
    ensures
        (bits | other) & other == other,
        (bits | other) & bits == bits,
        (bits & !other) & other == 0,
        (bits | other) & !other == bits & !other,
{
    assert((bits | other) & other == other) by (bit_vector);
    assert((bits | other) & bits == bits) by (bit_vector);
    assert((bits & !other) & other == 0) by (bit_vector);
    assert((bits | other) & !other == bits & !other) by (bit_vector);
}

/// How a value is written to a characteristic.
#[derive(Clone, Copy, Debug, Eq, PartialEq, Structural)]
pub enum WriteType {
    /// The device answers the write with a confirmation or an error.
    WithResponse,
    /// The device does not answer the write.
    WithoutResponse,
}

/// A characteristic of a peripheral, identified by its UUID.
#[derive(Debug, Ord, PartialOrd, Eq, PartialEq, Clone, Copy, Structural)]
pub struct Characteristic {
    /// The start of the handle range of the characteristic; zero where the
    /// platform shows no handles.
    pub start_handle: u16,
    /// The end of the handle range; zero where the platform shows no handles.
    pub end_handle: u16,
    /// The handle of the value; zero where the platform shows no handles.
    pub value_handle: u16,
    /// The 128-bit UUID of the characteristic.
    pub uuid: u128,
    /// The operations that the characteristic supports.
    pub properties: CharPropFlags,
}

impl Characteristic {
    /// Whether this characteristic comes before `other`: by start handle,
    /// then end handle, value handle, UUID, and last by property bits.
    pub open spec fn spec_precedes(&self, other: &Characteristic) -> bool {
        if self.start_handle != other.start_handle {
            self.start_handle < other.start_handle
        } else if self.end_handle != other.end_handle {
            self.end_handle < other.end_handle
        } else if self.value_handle != other.value_handle {
            self.value_handle < other.value_handle
        } else if self.uuid != other.uuid {
            self.uuid < other.uuid
        } else {
            self.properties.bits < other.properties.bits
        }
    }

    /// Whether this characteristic comes before `other` in the order of a
    /// characteristic set.
    #[verifier::when_used_as_spec(spec_precedes)]
    pub fn precedes(&self, other: &Characteristic) -> (r: bool)
        ensures
            r == self.spec_precedes(other),
    {
        if self.start_handle != other.start_handle {
            self.start_handle < other.start_handle
        } else if self.end_handle != other.end_handle {
            self.end_handle < other.end_handle
        } else if self.value_handle != other.value_handle {
            self.value_handle < other.value_handle
        } else if self.uuid != other.uuid {
            self.uuid < other.uuid
        } else {
            self.properties.bits < other.properties.bits
        }
    }
}

/// Whether a row of characteristics is in strictly rising order, so that it
/// lists a set: nothing twice, and each set in one way only.
pub open spec fn is_characteristic_set(s: Seq<Characteristic>) -> bool {
    forall|i: int, j: int|
        #![trigger s[i], s[j]]
        0 <= i < j < s.len() ==> s[i].spec_precedes(&s[j])
}

/// Of two different characteristics one comes before the other, never both,
/// and the order carries over a third.
pub proof fn lemma_precedes_is_a_strict_total_order(
    a: Characteristic,
    b: Characteristic,
    c: Characteristic,
)
    ensures
        !a.spec_precedes(&a),
        a != b ==> (a.spec_precedes(&b) <==> !b.spec_precedes(&a)),
        a.spec_precedes(&b) && b.spec_precedes(&c) ==> a.spec_precedes(&c),
{
}

/// In a characteristic set no member comes after the last one.
proof fn lemma_last_is_greatest(s: Seq<Characteristic>, x: Characteristic)
    requires
        is_characteristic_set(s),
        s.contains(x),
    ensures
        x == s.last() || x.spec_precedes(&s.last()),
{
    let k = choose|k: int| 0 <= k < s.len() && s[k] == x;
    if k < s.len() - 1 {
        assert(s[k].spec_precedes(&s[s.len() - 1]));
    }
}

/// A set of characteristics is listed in one way only: two rows in rising
/// order with the same members are the same row.
pub proof fn lemma_characteristic_set_unique(a: Seq<Characteristic>, b: Seq<Characteristic>)
    requires
        is_characteristic_set(a),
        is_characteristic_set(b),
        a.to_set() == b.to_set(),
    ensures
        a == b,
    decreases a.len(),
{
    if a.len() == 0 {
        if b.len() > 0 {
            assert(b.contains(b[0]));
            assert(b.to_set().contains(b[0]));
            assert(a.contains(b[0]));
        }
        assert(a =~= b);
    } else {
        let x = a.last();
        assert(a.contains(x)) by {
            assert(a[a.len() - 1] == x);
        }
        assert(a.to_set().contains(x));
        assert(b.contains(x));
        let y = b.last();
        assert(b.contains(y)) by {
            assert(b[b.len() - 1] == y);
        }
        assert(b.to_set().contains(y));
        assert(a.contains(y));
        lemma_last_is_greatest(a, y);
        lemma_last_is_greatest(b, x);
        assert(x == y);
        let a0 = a.drop_last();
        let b0 = b.drop_last();
        assert forall|c: Characteristic| a0.to_set().contains(c) <==> b0.to_set().contains(c) by {
            if a0.contains(c) {
                let k = choose|k: int| 0 <= k < a0.len() && a0[k] == c;
                assert(a[k] == c);
                assert(a[k].spec_precedes(&a[a.len() - 1]));
                assert(a.contains(c));
                assert(a.to_set().contains(c));
                assert(b.contains(c));
                let m = choose|m: int| 0 <= m < b.len() && b[m] == c;
                assert(m < b.len() - 1);
                assert(b0[m] == c);
            }
            if b0.contains(c) {
                let k = choose|k: int| 0 <= k < b0.len() && b0[k] == c;
                assert(b[k] == c);
                assert(b[k].spec_precedes(&b[b.len() - 1]));
                assert(b.contains(c));
                assert(b.to_set().contains(c));
                assert(a.contains(c));
                let m = choose|m: int| 0 <= m < a.len() && a[m] == c;
                assert(m < a.len() - 1);
                assert(a0[m] == c);
            }
        }
        assert(a0.to_set() =~= b0.to_set());
        assert(is_characteristic_set(a0)) by {
            assert forall|i: int, j: int|
                #![trigger a0[i], a0[j]]
                0 <= i < j < a0.len() implies a0[i].spec_precedes(&a0[j]) by {
                assert(a[i].spec_precedes(&a[j]));
            }
        }
        assert(is_characteristic_set(b0)) by {
            assert forall|i: int, j: int|
                #![trigger b0[i], b0[j]]
                0 <= i < j < b0.len() implies b0[i].spec_precedes(&b0[j]) by {
                assert(b[i].spec_precedes(&b[j]));
            }
        }
        lemma_characteristic_set_unique(a0, b0);
        assert(a =~= a0.push(x));
        assert(b =~= b0.push(y));
    }
}

/// Lists the set of the characteristics that a discovery found: in rising
/// order, each one once.
pub fn characteristic_set(found: &Vec<Characteristic>) -> (r: Vec<Characteristic>)
    ensures
        is_characteristic_set(r@),
        r@.to_set() == found@.to_set(),
{
    let mut out: Vec<Characteristic> = Vec::new();
    let mut i: usize = 0;
    assert(found@.take(0) =~= Seq::empty());
    assert(out@.to_set() =~= found@.take(0).to_set());
    while i < found.len()
        invariant
            i <= found.len(),
            is_characteristic_set(out@),
            out@.to_set() == found@.take(i as int).to_set(),
        decreases found.len() - i,
    {
        let c: Characteristic = found[i];
        let ghost before = out@;
        let mut pos: usize = 0;
        while pos < out.len() && out[pos].precedes(&c)
            invariant
                pos <= out.len(),
                forall|k: int| 0 <= k < pos ==> (#[trigger] out@[k]).spec_precedes(&c),
            decreases out.len() - pos,
        {
            pos += 1;
        }
        let present: bool = pos < out.len() && !c.precedes(&out[pos]);
        if present {
            assert(out@[pos as int] == c);
            assert(before.contains(c));
        } else {
            out.insert(pos, c);
            assert forall|a: int, b: int|
                #![trigger out@[a], out@[b]]
                0 <= a < b < out@.len() implies out@[a].spec_precedes(&out@[b]) by {
                let x = if a < pos { a } else { a - 1 };
                let y = if b < pos { b } else { b - 1 };
                if a != pos && b != pos {
                    assert(before[x].spec_precedes(&before[y]));
                } else if a == pos {
                    assert(before[pos as int].spec_precedes(&before[y]) || y == pos);
                }
            }
        }
        proof {
            let upto = found@.take(i as int);
            let next = found@.take(i + 1);
            assert(next =~= upto.push(c));
            assert forall|x: Characteristic| out@.to_set().contains(x) <==> next.to_set().contains(
                x,
            ) by {
                if out@.contains(x) {
                    let k = choose|k: int| 0 <= k < out@.len() && out@[k] == x;
                    if present {
                        assert(before.to_set().contains(x));
                        assert(upto.contains(x));
                        let m = choose|m: int| 0 <= m < upto.len() && upto[m] == x;
                        assert(next[m] == x);
                    } else if k == pos {
                        assert(next[i as int] == x);
                    } else {
                        let k0 = if k < pos { k } else { k - 1 };
                        assert(before[k0] == x);
                        assert(before.to_set().contains(x));
                        assert(upto.contains(x));
                        let m = choose|m: int| 0 <= m < upto.len() && upto[m] == x;
                        assert(next[m] == x);
                    }
                }
                if next.contains(x) {
                    let m = choose|m: int| 0 <= m < next.len() && next[m] == x;
                    if m == i {
                        assert(out@[pos as int] == x);
                    } else {
                        assert(upto[m] == x);
                        assert(upto.to_set().contains(x));
                        assert(before.contains(x));
                        let k0 = choose|k0: int| 0 <= k0 < before.len() && before[k0] == x;
                        if present {
                            assert(out@[k0] == x);
                        } else {
                            let k = if k0 < pos { k0 } else { k0 + 1 };
                            assert(out@[k] == x);
                        }
                    }
                }
            }
            assert(out@.to_set() =~= next.to_set());
        }
        i += 1;
    }
    assert(found@.take(found.len() as int) =~= found@);
    out
}

/// The name of the property with the bit number `k`.
pub open spec fn flag_name_spec(k: int) -> Seq<char> {
    if k == 0 {
        "BROADCAST"@
    } else if k == 1 {
        "READ"@
    } else if k == 2 {
        "WRITE_WITHOUT_RESPONSE"@
    } else if k == 3 {
        "WRITE"@
    } else if k == 4 {
        "NOTIFY"@
    } else if k == 5 {
        "INDICATE"@
    } else if k == 6 {
        "AUTHENTICATED_SIGNED_WRITES"@
    } else {
        "EXTENDED_PROPERTIES"@
    }
}

/// Whether a set given as a byte holds the property with the bit number `k`.
pub open spec fn has_flag(bits: u8, k: int) -> bool {
    bits & (1u8 << (k as u8)) != 0
}

/// The names of the properties of a set with a bit number below `k`, in
/// rising order of their bits, with ` | ` between them.
pub open spec fn flag_names_below(bits: u8, k: int) -> Seq<char>
    decreases k,
{
    if k <= 0 {
        Seq::empty()
    } else {
        let before = flag_names_below(bits, k - 1);
        if !has_flag(bits, k - 1) {
            before
        } else if before.len() == 0 {
            flag_name_spec(k - 1)
        } else {
            before + " | "@ + flag_name_spec(k - 1)
        }
    }
}

/// The written form of a set of properties: the names of its properties
/// with ` | ` between them, or `(empty)` for the set without any.
pub open spec fn flags_text(bits: u8) -> Seq<char> {
    let names = flag_names_below(bits, 8);
    if names.len() == 0 {
        "(empty)"@
    } else {
        names
    }
}

/// The lower-case hexadecimal digit for a value below sixteen.
pub open spec fn lower_hex_char(v: int) -> char {
    if 0 <= v < 10 {
        ('0' as u8 + v) as u8 as char
    } else {
        ('a' as u8 + v - 10) as u8 as char
    }
}

/// The hexadecimal digit number `n` of a 128-bit value, counted from the
/// most significant one, which has the number 0.
pub open spec fn uuid_digit(uuid: u128, n: int) -> int {
    ((uuid >> (((31 - n) * 4) as u128)) & 0xf) as int
}

/// The written form of a UUID: its 32 lower-case hexadecimal digits, most
/// significant first, in groups of 8, 4, 4, 4 and 12 with hyphens between.
pub open spec fn uuid_text_spec(uuid: u128) -> Seq<char> {
    Seq::new(
        36,
        |p: int|
            if p == 8 || p == 13 || p == 18 || p == 23 {
                '-'
            } else {
                let hyphens_before: int = if p < 8 {
                    0
                } else if p < 13 {
                    1
                } else if p < 18 {
                    2
                } else if p < 23 {
                    3
                } else {
                    4
                };
                lower_hex_char(uuid_digit(uuid, p - hyphens_before))
            },
    )
}

/// The written form of a UUID, made by `uuid::Uuid::from_u128` and the
/// `Debug` form of `uuid::Uuid`. Not proved: that `from_u128` takes the
/// value most significant byte first, and that the `Debug` form is the
/// hyphenated lower-case one, 36 characters long.
#[verifier::external_body]
fn uuid_text(uuid: u128) -> (r: String)
    ensures
        r@ == uuid_text_spec(uuid),
{
    format!("{:?}", uuid::Uuid::from_u128(uuid))
}

/// The name of the property with the bit number `k`.
fn flag_name(k: u8) -> (r: &'static str)
    requires
        k < 8,
    ensures
        r@ == flag_name_spec(k as int),
        r@.len() > 0,
{
    proof {
        reveal_strlit("BROADCAST");
        reveal_strlit("READ");
        reveal_strlit("WRITE_WITHOUT_RESPONSE");
        reveal_strlit("WRITE");
        reveal_strlit("NOTIFY");
        reveal_strlit("INDICATE");
        reveal_strlit("AUTHENTICATED_SIGNED_WRITES");
        reveal_strlit("EXTENDED_PROPERTIES");
    }
    match k {
        0 => "BROADCAST",
        1 => "READ",
        2 => "WRITE_WITHOUT_RESPONSE",
        3 => "WRITE",
        4 => "NOTIFY",
        5 => "INDICATE",
        6 => "AUTHENTICATED_SIGNED_WRITES",
        _ => "EXTENDED_PROPERTIES",
    }
}

impl CharPropFlags {
    /// The written form of the set: the names of its properties with ` | `
    /// between them, or `(empty)`.
    pub fn to_string(&self) -> (r: String)
        ensures
            r@ == flags_text(self.bits),
    {
        let mut out: String = String::from_str("");
        proof {
            reveal_strlit("");
        }
        let mut k: u8 = 0;
        while k < 8
            invariant
                k <= 8,
                out@ == flag_names_below(self.bits, k as int),
            decreases 8 - k,
        {
            if self.bits & (1u8 << k) != 0 {
                if out.as_str().unicode_len() > 0 {
                    out.append(" | ");
                }
                out.append(flag_name(k));
            }
            k += 1;
        }
        if out.as_str().unicode_len() == 0 {
            String::from_str("(empty)")
        } else {
            out
        }
    }
}

impl Characteristic {
    /// The written form of a characteristic.
    pub open spec fn spec_text(&self) -> Seq<char> {
        "uuid: "@ + uuid_text_spec(self.uuid) + ", char properties: "@ + flags_text(
            self.properties.bits,
        )
    }

    /// The written form of the characteristic: its UUID and its properties.
    pub fn to_string(&self) -> (r: String)
        ensures
            r@ == self.spec_text(),
    {
        let mut out: String = String::from_str("uuid: ");
        let uuid: String = uuid_text(self.uuid);
        out.append(uuid.as_str());
        out.append(", char properties: ");
        let properties: String = self.properties.to_string();
        out.append(properties.as_str());
        out
    }
}

/// A value that a peripheral pushed for a characteristic.
#[derive(Debug, Eq, PartialEq)]
pub struct ValueNotification {
    /// The 128-bit UUID of the characteristic whose value changed.
    pub uuid: u128,
    /// The handle that changed, where the platform shows handles.
    pub handle: Option<u16>,
    /// The new value.
    pub value: Vec<u8>,
}

/// The mathematical content of a [`ValueNotification`].
pub struct NotificationView {
    pub uuid: u128,
    pub handle: Option<u16>,
    pub value: Seq<u8>,
}

impl View for ValueNotification {
    type V = NotificationView;

    open spec fn view(&self) -> NotificationView {
        NotificationView { uuid: self.uuid, handle: self.handle, value: self.value@ }
    }
}

impl Clone for ValueNotification {
    fn clone(&self) -> (r: ValueNotification)
        ensures
            r@ == self@,
    {
        let mut value: Vec<u8> = Vec::new();
        let mut i: usize = 0;
        while i < self.value.len()
            invariant
                i <= self.value.len(),
                value@ == self.value@.take(i as int),
            decreases self.value.len() - i,
        {
            value.push(self.value[i]);
            assert(self.value@.take(i + 1) =~= self.value@.take(i as int).push(
                self.value@[i as int],
            ));
            i += 1;
        }
        assert(self.value@.take(self.value.len() as int) =~= self.value@);
        ValueNotification { uuid: self.uuid, handle: self.handle, value }
    }
}

} // verus!
