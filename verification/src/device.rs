//! PCI addresses, devices and bus snapshots.
use vstd::prelude::*;
use vstd::string::{StringExecFns, StringSliceAdditionalSpecFns};
use crate::text::{dec_char, dec_min, hex_char, hex_min, hex_padded, push_dec, push_hex, zeros, pow16,
    lemma_hex_min_len_pow, hex_text, lemma_hex_text_byte, lemma_hex_text_word};

verus! {

/// The address of a PCI function: domain, bus, slot (device) and function.
#[derive(Debug, Clone, Copy, PartialEq, Eq, Structural)]
pub struct PciAddress {
    pub domain: u16,
    pub bus: u8,
    pub slot: u8,
    pub function: u8,
}

/// The error of parsing a PCI address.
#[derive(Debug, Clone, Copy, PartialEq, Eq, Structural)]
pub struct PciAddressParseError;

/// An address as text: `dddd:bb:ss.f`, the domain, bus and slot in
/// hexadecimal, the function in decimal.
pub open spec fn address_text(a: PciAddress) -> Seq<char> {
    hex_padded(a.domain as nat, 4) + seq![':'] + hex_padded(a.bus as nat, 2) + seq![':']
        + hex_padded(a.slot as nat, 2) + seq!['.'] + dec_min(a.function as nat)
}

/// An address is written as the four hexadecimal digits of its domain, a
/// colon, the two digits of its bus, a colon, the two digits of its slot, a
/// dot, and its function in decimal.
pub proof fn lemma_address_text_digits(a: PciAddress)
    ensures
        address_text(a) == seq![
            hex_char(a.domain as nat / 4096), hex_char(a.domain as nat / 256 % 16),
            hex_char(a.domain as nat / 16 % 16), hex_char(a.domain as nat % 16), ':',
            hex_char(a.bus as nat / 16), hex_char(a.bus as nat % 16), ':',
            hex_char(a.slot as nat / 16), hex_char(a.slot as nat % 16), '.',
        ] + dec_min(a.function as nat),
{
    reveal_strlit("0x");
    lemma_hex_text_word(a.domain);
    lemma_hex_text_byte(a.bus);
    lemma_hex_text_byte(a.slot);
    assert(hex_padded(a.domain as nat, 4) =~= hex_text(a.domain as nat, 4).subrange(2, 6));
    assert(hex_padded(a.bus as nat, 2) =~= hex_text(a.bus as nat, 2).subrange(2, 4));
    assert(hex_padded(a.slot as nat, 2) =~= hex_text(a.slot as nat, 2).subrange(2, 4));
    assert(address_text(a) =~= seq![
            hex_char(a.domain as nat / 4096), hex_char(a.domain as nat / 256 % 16),
            hex_char(a.domain as nat / 16 % 16), hex_char(a.domain as nat % 16), ':',
            hex_char(a.bus as nat / 16), hex_char(a.bus as nat % 16), ':',
            hex_char(a.slot as nat / 16), hex_char(a.slot as nat % 16), '.',
        ] + dec_min(a.function as nat));
}

/// The value of a hexadecimal digit byte (either case), if it is one.
pub open spec fn hex_digit_value(b: u8) -> Option<nat> {
    if 0x30 <= b <= 0x39 {
        Some((b - 0x30) as nat)
    } else if 0x61 <= b <= 0x66 {
        Some((b - 0x61 + 10) as nat)
    } else if 0x41 <= b <= 0x46 {
        Some((b - 0x41 + 10) as nat)
    } else {
        None
    }
}

/// The value of a string of hexadecimal digit bytes, if all of them are digits.
pub open spec fn hex_value(s: Seq<u8>) -> Option<nat>
    decreases s.len(),
{
    if s.len() == 0 {
        Some(0)
    } else {
        match (hex_value(s.drop_last()), hex_digit_value(s.last())) {
            (Some(v), Some(d)) => Some(v * 16 + d),
            _ => None,
        }
    }
}

/// Parsing `dddd:bb:ss.f` from its bytes: twelve bytes, separators in
/// place, hexadecimal digits in each part, a slot of at most 0x1f and a
/// function of at most 7.
pub open spec fn parse_address_spec(b: Seq<u8>) -> Result<PciAddress, PciAddressParseError> {
    if b.len() != 12 || b[4] != 0x3a || b[7] != 0x3a || b[10] != 0x2e {
        Err(PciAddressParseError)
    } else {
        match (hex_value(b.subrange(0, 4)), hex_value(b.subrange(5, 7)), hex_value(b.subrange(8, 10)),
            hex_value(b.subrange(11, 12))) {
            (Some(domain), Some(bus), Some(slot), Some(function)) =>
                if slot > 0x1f || function > 7 {
                    Err(PciAddressParseError)
                } else {
                    Ok(PciAddress { domain: domain as u16, bus: bus as u8, slot: slot as u8, function: function as u8 })
                },
            _ => Err(PciAddressParseError),
        }
    }
}

/// The bytes of a text of ASCII characters.
pub open spec fn ascii_bytes(s: Seq<char>) -> Seq<u8> {
    Seq::new(s.len(), |i: int| s[i] as u8)
}

/// A hexadecimal value of at most four digits fits in 16 bits.
proof fn lemma_hex_value_bound(s: Seq<u8>)
    requires
        hex_value(s) is Some,
    ensures
        hex_value(s).unwrap() < pow16(s.len()),
    decreases s.len(),
{
    if s.len() > 0 {
        lemma_hex_value_bound(s.drop_last());
        let v = hex_value(s.drop_last()).unwrap();
        let d = hex_digit_value(s.last()).unwrap();
        assert(v * 16 + d < pow16(s.len())) by (nonlinear_arith)
            requires v < pow16(s.drop_last().len()), d < 16, pow16(s.len()) == 16 * pow16(s.drop_last().len());
    }
}

/// Parses a string of at most four hexadecimal digit bytes.
pub fn parse_hex(bytes: &[u8]) -> (r: Result<u16, PciAddressParseError>)
    requires
        bytes@.len() <= 4,
    ensures
        r == match hex_value(bytes@) {
            Some(v) => Ok::<u16, PciAddressParseError>(v as u16),
            None => Err::<u16, PciAddressParseError>(PciAddressParseError),
        },
        r matches Ok(v) ==> v == hex_value(bytes@).unwrap(),
{
    let mut value: u16 = 0;
    let mut i: usize = 0;
    while i < bytes.len()
        invariant
            i <= bytes@.len() <= 4,
            hex_value(bytes@.subrange(0, i as int)) == Some(value as nat),
        decreases bytes@.len() - i,
    {
        let byte = bytes[i];
        let digit: u16 = if 0x30 <= byte && byte <= 0x39 {
            (byte - 0x30) as u16
        } else if 0x61 <= byte && byte <= 0x66 {
            (byte - 0x61 + 10) as u16
        } else if 0x41 <= byte && byte <= 0x46 {
            (byte - 0x41 + 10) as u16
        } else {
            proof {
                lemma_hex_value_prefix_fails(bytes@, i as int);
            }
            return Err(PciAddressParseError);
        };
        proof {
            let prefix = bytes@.subrange(0, i + 1);
            assert(prefix.drop_last() =~= bytes@.subrange(0, i as int));
            assert(prefix.last() == byte);
            lemma_hex_value_bound(prefix);
            reveal_with_fuel(pow16, 5);
            assert(pow16(prefix.len()) <= 0x10000) by {
                reveal_with_fuel(pow16, 5);
            }
        }
        value = value * 16 + digit;
        i = i + 1;
    }
    proof {
        assert(bytes@.subrange(0, bytes@.len() as int) =~= bytes@);
    }
    Ok(value)
}

/// A string whose prefix ends in a non-digit has no hexadecimal value.
proof fn lemma_hex_value_prefix_fails(s: Seq<u8>, i: int)
    requires
        0 <= i < s.len(),
        hex_digit_value(s[i]) is None,
    ensures
        hex_value(s) is None,
    decreases s.len(),
{
    if i == s.len() - 1 {
    } else {
        assert(s.drop_last()[i] == s[i]);
        lemma_hex_value_prefix_fails(s.drop_last(), i);
    }
}

impl PciAddress {
    /// The address as text, `dddd:bb:ss.f`.
    pub fn to_string(&self) -> (s: String)
        ensures
            s@ == address_text(*self),
    {
        let mut out = String::new();
        self.push_to(&mut out);
        proof {
            assert(out@ =~= address_text(*self));
        }
        out
    }

    /// Appends the address as text.
    pub fn push_to(&self, out: &mut String)
        ensures
            final(out)@ == old(out)@ + address_text(*self),
    {
        proof {
            reveal_strlit(":");
            reveal_strlit(".");
        }
        push_hex(out, self.domain as u64, 4);
        out.append(":");
        push_hex(out, self.bus as u64, 2);
        out.append(":");
        push_hex(out, self.slot as u64, 2);
        out.append(".");
        push_dec(out, self.function as u64);
        proof {
            assert(out@ =~= old(out)@ + address_text(*self));
        }
    }

    /// Parses `dddd:bb:ss.f`; the hexadecimal digits may be of either case.
    pub fn from_str(s: &str) -> (r: Result<PciAddress, PciAddressParseError>)
        ensures
            r == parse_address_spec(s.spec_bytes()),
    {
        let bytes = s.as_bytes();
        if bytes.len() != 12 || bytes[4] != 0x3a || bytes[7] != 0x3a || bytes[10] != 0x2e {
            return Err(PciAddressParseError);
        }
        let domain = match parse_hex(&bytes[0..4]) {
            Ok(v) => v,
            Err(e) => return Err(e),
        };
        let bus = match parse_hex(&bytes[5..7]) {
            Ok(v) => v,
            Err(e) => return Err(e),
        };
        let slot = match parse_hex(&bytes[8..10]) {
            Ok(v) => v,
            Err(e) => return Err(e),
        };
        let function = match parse_hex(&bytes[11..12]) {
            Ok(v) => v,
            Err(e) => return Err(e),
        };
        if slot > 0x1f || function > 0x07 {
            return Err(PciAddressParseError);
        }
        proof {
            lemma_hex_value_bound(bytes@.subrange(5, 7));
            assert(pow16(2) == 256) by { reveal_with_fuel(pow16, 3); }
        }
        Ok(PciAddress { domain, bus: bus as u8, slot: slot as u8, function: function as u8 })
    }
}

impl core::str::FromStr for PciAddress {
    type Err = PciAddressParseError;

    fn from_str(s: &str) -> (r: Result<PciAddress, PciAddressParseError>)
        ensures
            r == parse_address_spec(s.spec_bytes()),
    {
        PciAddress::from_str(s)
    }
}

impl PciAddressParseError {
    /// The error message.
    pub fn message(&self) -> (s: &'static str)
        ensures
            s@ == "Invalid PCI address; expected dddd:bb:ss.f"@,
    {
        "Invalid PCI address; expected dddd:bb:ss.f"
    }
}

/// The zero-padded hexadecimal text of a value that fits its width has
/// exactly that width, and reads back as the value.
proof fn lemma_hex_padded_reads_back(v: nat, w: nat)
    requires
        w >= 1,
        v < pow16(w),
    ensures
        hex_padded(v, w).len() == w,
        hex_value(ascii_bytes(hex_padded(v, w))) == Some(v),
    decreases w,
{
    lemma_hex_min_len_pow(v, w);
    let p = hex_padded(v, w);
    if v < 16 {
        let z = zeros((w - 1) as nat);
        assert(p == z + seq![hex_char(v)]);
        assert(ascii_bytes(p).drop_last() =~= ascii_bytes(z));
        lemma_zeros_read_zero((w - 1) as nat);
        lemma_hex_char_value(v);
    } else {
        assert(w >= 2) by {
            if w == 1 {
                assert(pow16(1) == 16) by { reveal_with_fuel(pow16, 2); }
            }
        }
        assert(v / 16 < pow16((w - 1) as nat)) by (nonlinear_arith)
            requires v < pow16(w), pow16(w) == 16 * pow16((w - 1) as nat);
        lemma_hex_padded_reads_back(v / 16, (w - 1) as nat);
        lemma_hex_min_len_pow(v / 16, (w - 1) as nat);
        let q = hex_padded(v / 16, (w - 1) as nat);
        assert(p =~= q.push(hex_char(v % 16)));
        assert(ascii_bytes(p).drop_last() =~= ascii_bytes(q));
        lemma_hex_char_value(v % 16);
    }
}

/// Zero digits read back as zero.
proof fn lemma_zeros_read_zero(n: nat)
    ensures
        hex_value(ascii_bytes(zeros(n))) == Some(0nat),
    decreases n,
{
    if n > 0 {
        assert(ascii_bytes(zeros(n)).drop_last() =~= ascii_bytes(zeros((n - 1) as nat)));
        lemma_zeros_read_zero((n - 1) as nat);
    }
}

/// A hexadecimal digit character reads back as its value.
proof fn lemma_hex_char_value(d: nat)
    requires
        d < 16,
    ensures
        hex_digit_value(hex_char(d) as u8) == Some(d),
{
}

/// Parsing the text of an address gives the address back, for every
/// address with a slot of at most 0x1f and a function of at most 7.
pub proof fn lemma_parse_address_text(a: PciAddress)
    requires
        a.slot <= 0x1f,
        a.function <= 7,
    ensures
        parse_address_spec(ascii_bytes(address_text(a))) == Ok::<PciAddress, PciAddressParseError>(a),
{
    assert(pow16(4) == 0x10000) by { reveal_with_fuel(pow16, 5); }
    assert(pow16(2) == 0x100) by { reveal_with_fuel(pow16, 3); }
    lemma_hex_padded_reads_back(a.domain as nat, 4);
    lemma_hex_padded_reads_back(a.bus as nat, 2);
    lemma_hex_padded_reads_back(a.slot as nat, 2);
    let d = hex_padded(a.domain as nat, 4);
    let b = hex_padded(a.bus as nat, 2);
    let s = hex_padded(a.slot as nat, 2);
    let f = dec_min(a.function as nat);
    assert(f == seq![dec_char(a.function as nat)]);
    let t = address_text(a);
    let bytes = ascii_bytes(t);
    assert(t.len() == 12);
    assert(bytes.subrange(0, 4) =~= ascii_bytes(d));
    assert(bytes.subrange(5, 7) =~= ascii_bytes(b));
    assert(bytes.subrange(8, 10) =~= ascii_bytes(s));
    assert(bytes.subrange(11, 12).drop_last() =~= Seq::<u8>::empty());
    assert(bytes[4] == 0x3a);
    assert(bytes[7] == 0x3a);
    assert(bytes[10] == 0x2e);
    assert(bytes[11] == (dec_char(a.function as nat) as u8));
    assert(dec_char(a.function as nat) == hex_char(a.function as nat));
    lemma_hex_char_value(a.function as nat);
    let last = bytes.subrange(11, 12);
    assert(last.len() == 1);
    assert(last.last() == bytes[11]);
    assert(last.drop_last() =~= Seq::<u8>::empty());
    assert(hex_value(last.drop_last()) == Some(0nat));
    assert(hex_value(last) == Some(a.function as nat));
    assert(hex_value(bytes.subrange(0, 4)) == Some(a.domain as nat));
    assert(hex_value(bytes.subrange(5, 7)) == Some(a.bus as nat));
    assert(hex_value(bytes.subrange(8, 10)) == Some(a.slot as nat));
}

/// The digits of a number are ASCII characters from `0` to `f`.
proof fn lemma_hex_min_chars(v: nat)
    ensures
        forall|i: int| 0 <= i < hex_min(v).len() ==> '0' <= #[trigger] hex_min(v)[i] <= 'f',
    decreases v,
{
    let c = hex_char(v % 16);
    assert('0' <= c <= 'f');
    if v >= 16 {
        lemma_hex_min_chars(v / 16);
        let prev = hex_min(v / 16);
        assert forall|i: int| 0 <= i < hex_min(v).len() implies '0' <= #[trigger] hex_min(v)[i] <= 'f' by {
            if i < prev.len() {
                assert(hex_min(v)[i] == prev[i]);
            } else {
                assert(hex_min(v)[i] == c);
            }
        }
    } else {
        assert(hex_min(v)[0] == hex_char(v));
    }
}

proof fn lemma_dec_min_chars(v: nat)
    ensures
        forall|i: int| 0 <= i < dec_min(v).len() ==> '0' <= #[trigger] dec_min(v)[i] <= '9',
    decreases v,
{
    let c = dec_char(v % 10);
    assert('0' <= c <= '9');
    if v >= 10 {
        lemma_dec_min_chars(v / 10);
        let prev = dec_min(v / 10);
        assert forall|i: int| 0 <= i < dec_min(v).len() implies '0' <= #[trigger] dec_min(v)[i] <= '9' by {
            if i < prev.len() {
                assert(dec_min(v)[i] == prev[i]);
            } else {
                assert(dec_min(v)[i] == c);
            }
        }
    } else {
        assert(dec_min(v)[0] == dec_char(v));
    }
}

proof fn lemma_hex_padded_chars(v: nat, w: nat)
    ensures
        forall|i: int| 0 <= i < hex_padded(v, w).len() ==> '0' <= #[trigger] hex_padded(v, w)[i] <= 'f',
{
    lemma_hex_min_chars(v);
}

/// The text of an address is ASCII.
pub proof fn lemma_address_text_ascii(a: PciAddress)
    ensures
        vstd::utf8::is_ascii_chars(address_text(a)),
{
    lemma_hex_padded_chars(a.domain as nat, 4);
    lemma_hex_padded_chars(a.bus as nat, 2);
    lemma_hex_padded_chars(a.slot as nat, 2);
    lemma_dec_min_chars(a.function as nat);
    let t = address_text(a);
    assert forall|i: int| 0 <= i < t.len() implies '\0' <= #[trigger] t[i] <= '\u{7f}' by {
        let d = hex_padded(a.domain as nat, 4);
        let b = hex_padded(a.bus as nat, 2);
        let s = hex_padded(a.slot as nat, 2);
        if i < d.len() {
            assert(t[i] == d[i]);
        } else if i == d.len() {
        } else if i < d.len() + 1 + b.len() {
            assert(t[i] == b[i - d.len() - 1]);
        } else if i == d.len() + 1 + b.len() {
        } else if i < d.len() + 2 + b.len() + s.len() {
            assert(t[i] == s[i - d.len() - 2 - b.len()]);
        } else if i == d.len() + 2 + b.len() + s.len() {
        } else {
            assert(t[i] == dec_min(a.function as nat)[i - d.len() - 3 - b.len() - s.len()]);
        }
    }
}

/// The text that `to_string` gives (`s@ == address_text(a)`) is twelve
/// characters long, and `from_str` parses it back to the address, for every
/// address with a slot of at most 0x1f and a function of at most 7.
pub proof fn lemma_from_str_inverts_to_string(a: PciAddress, s: &str)
    requires
        s@ == address_text(a),
        a.slot <= 0x1f,
        a.function <= 7,
    ensures
        s@.len() == 12,
        parse_address_spec(s.spec_bytes()) == Ok::<PciAddress, PciAddressParseError>(a),
{
    lemma_address_text_ascii(a);
    vstd::string::is_ascii_spec_bytes(s);
    assert(s.spec_bytes() =~= ascii_bytes(address_text(a)));
    lemma_parse_address_text(a);
}

/// A device found on the bus, with the names the ID database gives.
#[derive(Clone, Debug, PartialEq, Eq)]
pub struct PciDevice {
    pub address: PciAddress,
    pub vendor_id: u16,
    pub device_id: u16,
    pub class_id: u16,
    pub vendor_name: String,
    pub device_name: String,
    pub class_name: String,
}

/// The devices found by one scan of the bus.
#[derive(Clone, Debug, PartialEq, Eq)]
pub struct PciSnapshot {
    devices: Vec<PciDevice>,
}

impl PciSnapshot {
    /// The devices of the snapshot, in the order in which they were found.
    pub closed spec fn spec_devices(&self) -> Seq<PciDevice> {
        self.devices@
    }

    /// The devices of the snapshot, in the order in which they were found.
    pub fn devices(&self) -> (r: &[PciDevice])
        ensures
            r@ == self.spec_devices(),
    {
        self.devices.as_slice()
    }

    /// A snapshot of the given devices.
    pub fn from_devices(devices: Vec<PciDevice>) -> (r: Self)
        ensures
            r.spec_devices() == devices@,
    {
        PciSnapshot { devices }
    }
}

/// The order of addresses: by domain, then bus, then slot, then function.
pub open spec fn address_key(a: PciAddress) -> int {
    a.domain * 0x1000000 + a.bus * 0x10000 + a.slot * 0x100 + a.function
}

} // verus!
