//! Hardware addresses of Bluetooth devices and their text form.

use vstd::prelude::*;
use vstd::string::*;

verus! {

/// Whether a device address is a fixed public one or a random one.
#[derive(Debug, Clone, Copy, PartialEq, Eq, Structural)]
pub enum AddressType {
    Random,
    Public,
}

/// The characters of the word `public`.
pub open spec fn public_text() -> Seq<char> {
    seq!['p', 'u', 'b', 'l', 'i', 'c']
}

/// The characters of the word `random`.
pub open spec fn random_text() -> Seq<char> {
    seq!['r', 'a', 'n', 'd', 'o', 'm']
}

/// The address type that a word names, if it names one.
pub open spec fn address_type_of_text(s: Seq<char>) -> Option<AddressType> {
    if s == public_text() {
        Some(AddressType::Public)
    } else if s == random_text() {
        Some(AddressType::Random)
    } else {
        None
    }
}

/// The address type that a wire number stands for, if it stands for one.
pub open spec fn address_type_of_number(v: u8) -> Option<AddressType> {
    if v == 1 {
        Some(AddressType::Public)
    } else if v == 2 {
        Some(AddressType::Random)
    } else {
        None
    }
}

/// The characters of a string.
pub fn text_chars(s: &str) -> (r: Vec<char>)
    ensures
        r@ == s@,
{
    let mut out: Vec<char> = Vec::new();
    for c in it: s.chars()
        invariant
            out@ == it.seq().take(it.index() as int),
            it.seq() == s@,
    {
        out.push(c);
        assert(it.seq().take(it.index() + 1) =~= it.seq().take(it.index() as int).push(c));
    }
    assert(s@.take(s@.len() as int) =~= s@);
    out
}

/// Whether two strings hold the same characters.
pub fn str_equals(a: &str, b: &str) -> (r: bool)
    ensures
        r == (a@ == b@),
{
    let x: Vec<char> = text_chars(a);
    let y: Vec<char> = text_chars(b);
    if x.len() != y.len() {
        return false;
    }
    let mut i: usize = 0;
    while i < x.len()
        invariant
            i <= x.len(),
            x.len() == y.len(),
            x@ == a@,
            y@ == b@,
            forall|j: int| 0 <= j < i ==> x@[j] == y@[j],
        decreases x.len() - i,
    {
        if x[i] != y[i] {
            return false;
        }
        i += 1;
    }
    assert(x@ =~= y@);
    true
}

impl Default for AddressType {
    fn default() -> (r: AddressType)
        ensures
            r == AddressType::Public,
    {
        AddressType::Public
    }
}

impl AddressType {
    /// The wire number of this address type.
    pub open spec fn spec_num(&self) -> u8 {
        match *self {
            AddressType::Public => 1,
            AddressType::Random => 2,
        }
    }

    /// Reads an address type from its lower-case name.
    pub fn from_str(v: &str) -> (r: Option<AddressType>)
        ensures
            r == address_type_of_text(v@),
    {
        proof {
            reveal_strlit("public");
            reveal_strlit("random");
            assert("public"@ =~= public_text());
            assert("random"@ =~= random_text());
        }
        if str_equals(v, "public") {
            Some(AddressType::Public)
        } else if str_equals(v, "random") {
            Some(AddressType::Random)
        } else {
            None
        }
    }

    /// Reads an address type from its wire number.
    pub fn from_u8(v: u8) -> (r: Option<AddressType>)
        ensures
            r == address_type_of_number(v),
    {
        match v {
            1 => Some(AddressType::Public),
            2 => Some(AddressType::Random),
            _ => None,
        }
    }

    /// The wire number of this address type.
    #[verifier::when_used_as_spec(spec_num)]
    pub fn num(&self) -> (r: u8)
        ensures
            r == self.spec_num(),
    {
        match *self {
            AddressType::Public => 1,
            AddressType::Random => 2,
        }
    }
}

/// Reading back the wire number of an address type gives that type.
pub proof fn lemma_number_round_trip(t: AddressType)
    ensures
        address_type_of_number(t.spec_num()) == Some(t),
{
}


/// Why a text is not a device address.
#[derive(Debug, Clone, Copy, PartialEq, Eq, Structural)]
pub enum ParseBDAddrError {
    /// Every field is a number, but there are not six of them.
    IncorrectByteCount,
    /// Some field is not a hexadecimal number that fits in one byte.
    InvalidInt,
}

/// The six bytes of a device address, least significant byte first.
#[derive(Copy, Clone, Hash, Eq, PartialEq, Default, Debug)]
pub struct BDAddr {
    pub address: [u8; 6],
}

/// The value of a hexadecimal digit, of either case.
pub open spec fn hex_digit_value(c: char) -> Option<u8> {
    if '0' <= c <= '9' {
        Some((c as u8 - '0' as u8) as u8)
    } else if 'a' <= c <= 'f' {
        Some((c as u8 - 'a' as u8 + 10) as u8)
    } else if 'A' <= c <= 'F' {
        Some((c as u8 - 'A' as u8 + 10) as u8)
    } else {
        None
    }
}

/// The number that a row of hexadecimal digits writes, most significant
/// digit first. A character that is no digit counts as zero.
pub open spec fn hex_number(digits: Seq<char>) -> nat
    decreases digits.len(),
{
    if digits.len() == 0 {
        0
    } else {
        let d = match hex_digit_value(digits.last()) {
            Some(v) => v as nat,
            None => 0,
        };
        hex_number(digits.drop_last()) * 16 + d
    }
}

/// A field without the plus sign that may lead it.
pub open spec fn unsigned_part(field: Seq<char>) -> Seq<char> {
    if field.len() > 0 && field[0] == '+' {
        field.subrange(1, field.len() as int)
    } else {
        field
    }
}

/// Whether every character of a row is a hexadecimal digit.
pub open spec fn all_hex_digits(digits: Seq<char>) -> bool {
    forall|i: int| 0 <= i < digits.len() ==> hex_digit_value(#[trigger] digits[i]) is Some
}

/// The byte that a field writes: an optional plus sign, then one or more
/// hexadecimal digits whose number is at most 255.
pub open spec fn hex_byte(field: Seq<char>) -> Option<u8> {
    let digits = unsigned_part(field);
    if digits.len() > 0 && all_hex_digits(digits) && hex_number(digits) <= 255 {
        Some(hex_number(digits) as u8)
    } else {
        None
    }
}

/// The fields of a text that colons separate. A text without a colon is one
/// field, and the empty text is one empty field.
pub open spec fn colon_fields(s: Seq<char>) -> Seq<Seq<char>>
    decreases s.len(),
{
    if s.len() == 0 {
        seq![Seq::<char>::empty()]
    } else {
        let before = colon_fields(s.drop_last());
        if s.last() == ':' {
            before.push(Seq::<char>::empty())
        } else {
            before.update(before.len() - 1, before.last().push(s.last()))
        }
    }
}

/// Whether some field of a row writes no byte.
pub open spec fn some_field_malformed(fields: Seq<Seq<char>>) -> bool {
    exists|i: int| 0 <= i < fields.len() && hex_byte(#[trigger] fields[i]) is None
}

/// What reading a text as a device address gives: the six bytes in stored
/// order, which is the reverse of the written order, or the reason why the
/// text is no address. A malformed field is reported before a wrong count.
pub open spec fn address_of_text(s: Seq<char>) -> Result<Seq<u8>, ParseBDAddrError> {
    let fields = colon_fields(s);
    if some_field_malformed(fields) {
        Err(ParseBDAddrError::InvalidInt)
    } else if fields.len() != 6 {
        Err(ParseBDAddrError::IncorrectByteCount)
    } else {
        Ok(Seq::new(6, |i: int| hex_byte(fields[5 - i])->0))
    }
}

/// The upper-case hexadecimal digit for a value below sixteen.
pub open spec fn upper_hex_char(v: int) -> char {
    if 0 <= v < 10 {
        ('0' as u8 + v) as u8 as char
    } else {
        ('A' as u8 + v - 10) as u8 as char
    }
}

/// The written form of six stored bytes: two upper-case hexadecimal digits
/// for each byte, most significant byte first, with colons between them.
pub open spec fn text_of_address(bytes: Seq<u8>) -> Seq<char> {
    Seq::new(
        17,
        |i: int|
            if i % 3 == 2 {
                ':'
            } else if i % 3 == 0 {
                upper_hex_char(bytes[5 - i / 3] as int / 16)
            } else {
                upper_hex_char(bytes[5 - i / 3] as int % 16)
            },
    )
}


/// The number of a longer row of digits is no smaller than that of its start.
pub proof fn lemma_hex_number_grows(digits: Seq<char>, k: int)
    requires
        0 <= k <= digits.len(),
    ensures
        hex_number(digits.take(k)) <= hex_number(digits),
    decreases digits.len() - k,
{
    if k < digits.len() {
        lemma_hex_number_grows(digits, k + 1);
        assert(digits.take(k + 1).drop_last() =~= digits.take(k));
    } else {
        assert(digits.take(k) =~= digits);
    }
}

/// Reads one hexadecimal digit.
fn read_hex_digit(c: char) -> (r: Option<u8>)
    ensures
        r == hex_digit_value(c),
{
    if '0' <= c && c <= '9' {
        Some(c as u8 - '0' as u8)
    } else if 'a' <= c && c <= 'f' {
        Some(c as u8 - 'a' as u8 + 10)
    } else if 'A' <= c && c <= 'F' {
        Some(c as u8 - 'A' as u8 + 10)
    } else {
        None
    }
}

/// Reads one field of an address as a byte.
fn read_hex_byte(field: &Vec<char>) -> (r: Option<u8>)
    ensures
        r == hex_byte(field@),
{
    let n: usize = field.len();
    let start: usize = if n > 0 && field[0] == '+' {
        1
    } else {
        0
    };
    let ghost digits = unsigned_part(field@);
    if start == n {
        return None;
    }
    assert(digits =~= field@.subrange(start as int, n as int));
    let mut value: u32 = 0;
    let mut i: usize = start;
    while i < n
        invariant
            start <= i <= n,
            n == field@.len(),
            digits == field@.subrange(start as int, n as int),
            digits == unsigned_part(field@),
            all_hex_digits(digits.take(i - start)),
            value == hex_number(digits.take(i - start)),
            value <= 255,
        decreases n - i,
    {
        let ghost k = i - start;
        proof {
            assert(digits.take(k + 1).drop_last() =~= digits.take(k));
            assert(digits.take(k + 1).last() == field@[i as int]);
        }
        match read_hex_digit(field[i]) {
            None => {
                assert(hex_digit_value(digits[k]) is None);
                return None;
            },
            Some(d) => {
                value = value * 16 + d as u32;
                assert(value == hex_number(digits.take(k + 1)));
                if value > 255 {
                    proof {
                        lemma_hex_number_grows(digits, k + 1);
                    }
                    return None;
                }
                assert forall|j: int| 0 <= j < k + 1 implies hex_digit_value(
                    #[trigger] digits.take(k + 1)[j],
                ) is Some by {
                    if j < k {
                        assert(digits.take(k + 1)[j] == digits.take(k)[j]);
                    }
                }
            },
        }
        i += 1;
    }
    assert(digits.take(n - start) =~= digits);
    Some(value as u8)
}

/// The character rows that a vector of vectors holds.
pub open spec fn rows_view(rows: Seq<Vec<char>>) -> Seq<Seq<char>> {
    Seq::new(rows.len(), |i: int| rows[i]@)
}

/// Cuts a text into the fields that colons separate.
fn split_fields(s: &str) -> (r: Vec<Vec<char>>)
    ensures
        rows_view(r@) == colon_fields(s@),
{
    let text: Vec<char> = text_chars(s);
    let n: usize = text.len();
    let mut done: Vec<Vec<char>> = Vec::new();
    let mut current: Vec<char> = Vec::new();
    let mut i: usize = 0;
    assert(text@.take(0) =~= Seq::<char>::empty());
    assert(rows_view(done@).push(current@) =~= colon_fields(text@.take(0)));
    while i < n
        invariant
            i <= n,
            n == text@.len(),
            rows_view(done@).push(current@) == colon_fields(text@.take(i as int)),
        decreases n - i,
    {
        let c: char = text[i];
        let ghost before = colon_fields(text@.take(i as int));
        let ghost old_done = rows_view(done@);
        let ghost old_current = current@;
        proof {
            assert(text@.take(i + 1).drop_last() =~= text@.take(i as int));
            assert(text@.take(i + 1).last() == c);
        }
        if c == ':' {
            done.push(current);
            current = Vec::new();
            assert(rows_view(done@) =~= old_done.push(old_current));
        } else {
            current.push(c);
            assert(rows_view(done@).push(current@) =~= before.update(
                before.len() - 1,
                before.last().push(c),
            ));
        }
        i += 1;
    }
    assert(text@.take(n as int) =~= text@);
    let ghost old_done = rows_view(done@);
    let ghost old_current = current@;
    done.push(current);
    assert(rows_view(done@) =~= old_done.push(old_current));
    done
}

/// The text of one upper-case hexadecimal digit.
fn upper_hex_text(v: u8) -> (r: &'static str)
    requires
        v < 16,
    ensures
        r@ == seq![upper_hex_char(v as int)],
{
    proof {
        reveal_strlit("0");
        reveal_strlit("1");
        reveal_strlit("2");
        reveal_strlit("3");
        reveal_strlit("4");
        reveal_strlit("5");
        reveal_strlit("6");
        reveal_strlit("7");
        reveal_strlit("8");
        reveal_strlit("9");
        reveal_strlit("A");
        reveal_strlit("B");
        reveal_strlit("C");
        reveal_strlit("D");
        reveal_strlit("E");
        reveal_strlit("F");
    }
    let r: &'static str = match v {
        0 => "0",
        1 => "1",
        2 => "2",
        3 => "3",
        4 => "4",
        5 => "5",
        6 => "6",
        7 => "7",
        8 => "8",
        9 => "9",
        10 => "A",
        11 => "B",
        12 => "C",
        13 => "D",
        14 => "E",
        _ => "F",
    };
    assert(r@ =~= seq![upper_hex_char(v as int)]);
    r
}

impl ParseBDAddrError {
    /// The sentence that describes this error.
    pub open spec fn spec_message(&self) -> Seq<char> {
        match *self {
            ParseBDAddrError::IncorrectByteCount => "Bluetooth address has to be 6 bytes long"@,
            ParseBDAddrError::InvalidInt => "Malformed integer in Bluetooth address"@,
        }
    }

    /// The sentence that describes this error.
    pub fn to_string(&self) -> (r: String)
        ensures
            r@ == self.spec_message(),
    {
        match *self {
            ParseBDAddrError::IncorrectByteCount => String::from_str(
                "Bluetooth address has to be 6 bytes long",
            ),
            ParseBDAddrError::InvalidInt => String::from_str(
                "Malformed integer in Bluetooth address",
            ),
        }
    }
}

impl BDAddr {
    /// The address as one number, with the byte that is written first as
    /// the most significant. Addresses are ordered by this number.
    pub open spec fn spec_key(&self) -> u64 {
        (self.address[0] as int + 0x100 * self.address[1] as int + 0x1_0000
            * self.address[2] as int + 0x100_0000 * self.address[3] as int + 0x1_0000_0000
            * self.address[4] as int + 0x100_0000_0000 * self.address[5] as int) as u64
    }

    /// The address as one number, with the byte that is written first as
    /// the most significant.
    #[verifier::when_used_as_spec(spec_key)]
    pub fn key(&self) -> (r: u64)
        ensures
            r == self.spec_key(),
            r < 0x1_0000_0000_0000,
    {
        let a: &[u8; 6] = &self.address;
        a[0] as u64 + 0x100 * (a[1] as u64) + 0x1_0000 * (a[2] as u64) + 0x100_0000 * (a[3] as u64)
            + 0x1_0000_0000 * (a[4] as u64) + 0x100_0000_0000 * (a[5] as u64)
    }

    /// Reads an address written as six hexadecimal bytes with colons
    /// between them, most significant byte first.
    pub fn from_str(s: &str) -> (r: Result<BDAddr, ParseBDAddrError>)
        ensures
            match r {
                Ok(a) => address_of_text(s@) == Ok::<Seq<u8>, ParseBDAddrError>(a.address@),
                Err(e) => address_of_text(s@) == Err::<Seq<u8>, ParseBDAddrError>(e),
            },
    {
        let fields: Vec<Vec<char>> = split_fields(s);
        let ghost rows = colon_fields(s@);
        let n: usize = fields.len();
        let mut bytes: Vec<u8> = Vec::new();
        let mut i: usize = 0;
        while i < n
            invariant
                i <= n,
                n == fields@.len(),
                rows == rows_view(fields@),
                rows == colon_fields(s@),
                bytes@.len() == i,
                forall|j: int| 0 <= j < i ==> hex_byte(#[trigger] rows[j]) == Some(bytes@[j]),
            decreases n - i,
        {
            match read_hex_byte(&fields[i]) {
                None => {
                    assert(hex_byte(rows[i as int]) is None);
                    assert(some_field_malformed(rows));
                    return Err(ParseBDAddrError::InvalidInt);
                },
                Some(b) => {
                    bytes.push(b);
                },
            }
            i += 1;
        }
        if n != 6 {
            return Err(ParseBDAddrError::IncorrectByteCount);
        }
        let a = BDAddr { address: [bytes[5], bytes[4], bytes[3], bytes[2], bytes[1], bytes[0]] };
        assert(a.address@ =~= Seq::new(6, |i: int| hex_byte(rows[5 - i])->0));
        Ok(a)
    }

    /// Writes the address as six upper-case hexadecimal bytes with colons
    /// between them, most significant byte first.
    pub fn to_string(&self) -> (r: String)
        ensures
            r@ == text_of_address(self.address@),
    {
        proof {
            reveal_strlit("");
            reveal_strlit(":");
        }
        let mut out: String = String::from_str("");
        let mut k: usize = 0;
        while k < 6
            invariant
                k <= 6,
                out@.len() == if k == 0 { 0int } else { 3 * k - 1 },
                forall|i: int| 0 <= i < out@.len() ==> out@[i] == text_of_address(self.address@)[i],
            decreases 6 - k,
        {
            proof {
                reveal_strlit(":");
            }
            if k > 0 {
                out.append(":");
            }
            let b: u8 = self.address[5 - k];
            out.append(upper_hex_text(b / 16));
            out.append(upper_hex_text(b % 16));
            k += 1;
        }
        assert(out@ =~= text_of_address(self.address@));
        out
    }
}

impl std::str::FromStr for BDAddr {
    type Err = ParseBDAddrError;

    /// Reads an address as [`BDAddr::from_str`] does, for `str::parse`.
    fn from_str(s: &str) -> (r: Result<BDAddr, ParseBDAddrError>)
        ensures
            match r {
                Ok(a) => address_of_text(s@) == Ok::<Seq<u8>, ParseBDAddrError>(a.address@),
                Err(e) => address_of_text(s@) == Err::<Seq<u8>, ParseBDAddrError>(e),
            },
    {
        BDAddr::from_str(s)
    }
}

/// A number splits in one way only into a lowest byte and the rest.
proof fn lemma_low_byte_unique(x: int, xs: int, y: int, ys: int)
    requires
        0 <= x < 256,
        0 <= y < 256,
        x + 256 * xs == y + 256 * ys,
    ensures
        x == y,
        xs == ys,
{
}

/// The fields of the first `k` characters of a written address: two
/// characters each, but for the last one, which may still be shorter.
spec fn written_fields(text: Seq<char>, k: int) -> Seq<Seq<char>> {
    Seq::new(
        (k / 3 + 1) as nat,
        |i: int|
            text.subrange(
                3 * i,
                if 3 * i + 2 <= k {
                    3 * i + 2
                } else {
                    k
                },
            ),
    )
}

/// An upper-case hexadecimal digit is read back as its value, and is no colon
/// and no plus sign.
proof fn lemma_upper_hex_char(v: int)
    requires
        0 <= v < 16,
    ensures
        hex_digit_value(upper_hex_char(v)) == Some(v as u8),
        upper_hex_char(v) != ':',
        upper_hex_char(v) != '+',
{
}

/// The two digits that are written for a byte are read back as that byte.
proof fn lemma_hex_pair(b: u8)
    ensures
        hex_byte(seq![upper_hex_char(b as int / 16), upper_hex_char(b as int % 16)]) == Some(b),
{
    let hi = upper_hex_char(b as int / 16);
    let lo = upper_hex_char(b as int % 16);
    let pair = seq![hi, lo];
    lemma_upper_hex_char(b as int / 16);
    lemma_upper_hex_char(b as int % 16);
    assert(unsigned_part(pair) == pair);
    assert(pair.drop_last() =~= seq![hi]);
    assert(seq![hi].drop_last() =~= Seq::<char>::empty());
    assert(hex_number(Seq::<char>::empty()) == 0);
    assert(hex_number(seq![hi]) == b as int / 16);
    assert(hex_number(pair) == (b as int / 16) * 16 + b as int % 16);
    assert(all_hex_digits(pair)) by {
        assert forall|i: int| 0 <= i < pair.len() implies hex_digit_value(#[trigger] pair[i])
            is Some by {
            if i == 0 {
            } else {
            }
        }
    }
}

/// The first `k` characters of a written address fall into the fields that
/// stand between its colons.
proof fn lemma_written_fields(bytes: Seq<u8>, k: int)
    requires
        bytes.len() == 6,
        0 <= k <= 17,
    ensures
        colon_fields(text_of_address(bytes).take(k)) == written_fields(text_of_address(bytes), k),
    decreases k,
{
    let text = text_of_address(bytes);
    if k == 0 {
        assert(text.take(0) =~= Seq::<char>::empty());
        assert(written_fields(text, 0) =~~= seq![Seq::<char>::empty()]);
    } else {
        lemma_written_fields(bytes, k - 1);
        let before = written_fields(text, k - 1);
        let c = text[k - 1];
        assert(text.take(k).drop_last() =~= text.take(k - 1));
        assert(text.take(k).last() == c);
        if (k - 1) % 3 == 2 {
            assert(c == ':');
            assert(written_fields(text, k) =~~= before.push(Seq::<char>::empty()));
        } else {
            lemma_upper_hex_char(bytes[5 - (k - 1) / 3] as int / 16);
            lemma_upper_hex_char(bytes[5 - (k - 1) / 3] as int % 16);
            assert(c != ':');
            assert(written_fields(text, k) =~~= before.update(
                before.len() - 1,
                before.last().push(c),
            ));
        }
    }
}

/// Writing an address and reading the text back gives the address again.
pub proof fn lemma_address_round_trip(a: BDAddr)
    ensures
        address_of_text(text_of_address(a.address@)) == Ok::<Seq<u8>, ParseBDAddrError>(
            a.address@,
        ),
{
    let bytes = a.address@;
    let text = text_of_address(bytes);
    lemma_written_fields(bytes, 17);
    assert(text.take(17) =~= text);
    let fields = colon_fields(text);
    assert(fields.len() == 6);
    assert forall|i: int| 0 <= i < 6 implies hex_byte(#[trigger] fields[i]) == Some(
        bytes[5 - i],
    ) by {
        let b = bytes[5 - i];
        assert(fields[i] =~= seq![upper_hex_char(b as int / 16), upper_hex_char(b as int % 16)]);
        lemma_hex_pair(b);
    }
    assert(!some_field_malformed(fields));
    assert(Seq::new(6, |i: int| hex_byte(fields[5 - i])->0) =~= bytes);
}

/// Two addresses with the same number are the same address.
pub proof fn lemma_key_determines_address(a: BDAddr, b: BDAddr)
    requires
        a.spec_key() == b.spec_key(),
    ensures
        a == b,
{
    let a4 = a.address[4] as int + 256 * a.address[5] as int;
    let a3 = a.address[3] as int + 256 * a4;
    let a2 = a.address[2] as int + 256 * a3;
    let a1 = a.address[1] as int + 256 * a2;
    let b4 = b.address[4] as int + 256 * b.address[5] as int;
    let b3 = b.address[3] as int + 256 * b4;
    let b2 = b.address[2] as int + 256 * b3;
    let b1 = b.address[1] as int + 256 * b2;
    assert(a.spec_key() == a.address[0] as int + 256 * a1);
    assert(b.spec_key() == b.address[0] as int + 256 * b1);
    lemma_low_byte_unique(a.address[0] as int, a1, b.address[0] as int, b1);
    lemma_low_byte_unique(a.address[1] as int, a2, b.address[1] as int, b2);
    lemma_low_byte_unique(a.address[2] as int, a3, b.address[2] as int, b3);
    lemma_low_byte_unique(a.address[3] as int, a4, b.address[3] as int, b4);
    lemma_low_byte_unique(
        a.address[4] as int,
        a.address[5] as int,
        b.address[4] as int,
        b.address[5] as int,
    );
    assert(a.address@ =~= b.address@);
    assert(a.address =~= b.address);
}

} // verus!
