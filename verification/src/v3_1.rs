//! Version 3.1 packet codec.
//!
//! A v3.1 packet is exactly 18 bytes: byte 0 carries the device address
//! (low 7 bits) with a mandatory marker in the high bit, byte 1 carries the
//! four tally-channel flags (low nibble) and the 2-bit brightness code
//! (bits 4 and 5), and bytes 2 through 17 carry a 16-byte display text of
//! printable ASCII, conventionally padded with spaces or null bytes.
use vstd::prelude::*;
use vstd::string::StringExecFns;
use vstd::string::StringSliceAdditionalSpecFns;

verus! {

/// TSL 3.1 packets are always 18 bytes long
pub const PACKET_LENGTH_31: usize = 18;

/// Tally light brightness, in 4 discrete steps
#[derive(Debug, PartialEq, Eq, Clone, Copy)]
pub enum Brightness {
    Zero,
    OneSeventh,
    OneHalf,
    Full,
}

/// The 2-bit wire code of a brightness level, as stored in bits 4-5 of the
/// control byte.
pub open spec fn brightness_code(b: Brightness) -> u8 {
    match b {
        Brightness::Zero => 0,
        Brightness::OneSeventh => 1,
        Brightness::OneHalf => 2,
        Brightness::Full => 3,
    }
}

/// The brightness level a 2-bit wire code decodes to. Total over the four
/// possible codes; no other value can come out of a 2-bit field.
pub open spec fn brightness_of_code(code: u8) -> Brightness {
    if code == 0 {
        Brightness::Zero
    } else if code == 1 {
        Brightness::OneSeventh
    } else if code == 2 {
        Brightness::OneHalf
    } else {
        Brightness::Full
    }
}

/// The approximate 8-bit analog intensity of a brightness level, used by
/// producers that emulate continuous dimming. Independent of the wire code.
pub open spec fn spec_intensity(b: Brightness) -> u8 {
    match b {
        Brightness::Zero => 0,
        Brightness::OneSeventh => 36,
        Brightness::OneHalf => 128,
        Brightness::Full => 255,
    }
}

impl Brightness {
    /// The brightness as an approximate 8-bit analog intensity value.
    pub fn intensity(self) -> (r: u8)
        ensures
            r == spec_intensity(self),
    {
        match self {
            Self::Zero => 0,
            Self::OneSeventh => 36,
            Self::OneHalf => 128,
            Self::Full => 255,
        }
    }
}

/// The rendering of a brightness level: one of the literal tokens `0`,
/// `1/7`, `1/2` and `1`.
pub open spec fn spec_brightness_text(b: Brightness) -> Seq<char> {
    match b {
        Brightness::Zero => "0"@,
        Brightness::OneSeventh => "1/7"@,
        Brightness::OneHalf => "1/2"@,
        Brightness::Full => "1"@,
    }
}

impl Brightness {
    /// A human-readable rendering of the brightness level.
    pub fn describe(&self) -> (r: String)
        ensures
            r@ == spec_brightness_text(*self),
    {
        match self {
            Self::Zero => "0".to_owned(),
            Self::OneSeventh => "1/7".to_owned(),
            Self::OneHalf => "1/2".to_owned(),
            Self::Full => "1".to_owned(),
        }
    }
}

/// Packet checking error
#[derive(Debug, PartialEq, Eq, Clone, Copy)]
pub enum Error {
    /// The first bit of the address isn't set - so it isn't a valid address
    AddressInvalid,
    /// The packet was an unexpected length
    BadLength { expected: usize, got: usize },
    /// Bad (non-ascii) bytes in the display data field.
    BadDisplayData { position: u8 },
}

/// The rendering of a packet checking error.
pub open spec fn spec_error_text(e: Error) -> Seq<char> {
    match e {
        Error::AddressInvalid => "AddressInvalid"@,
        Error::BadLength { expected, got } => "BadLength: expected "@ + spec_dec_chars(
            expected as nat,
        ) + ", got "@ + spec_dec_chars(got as nat),
        Error::BadDisplayData { position } => "BadDisplayData at position "@ + spec_dec_chars(
            position as nat,
        ),
    }
}

impl Error {
    /// A human-readable rendering of the error.
    pub fn describe(&self) -> (r: String)
        ensures
            r@ == spec_error_text(*self),
    {
        match self {
            Self::AddressInvalid => "AddressInvalid".to_owned(),
            Self::BadLength { expected, got } => {
                let mut s = "BadLength: expected ".to_owned();
                let e = dec_string(*expected);
                s.append(e.as_str());
                s.append(", got ");
                let g = dec_string(*got);
                s.append(g.as_str());
                s
            },
            Self::BadDisplayData { position } => {
                let mut s = "BadDisplayData at position ".to_owned();
                let p = dec_string(*position as usize);
                s.append(p.as_str());
                s
            },
        }
    }
}

/// A display byte must be printable ASCII.
pub open spec fn printable(b: u8) -> bool {
    0x20 <= b <= 0x7f
}

/// A display byte is accepted when it is printable ASCII or a null byte.
/// Null bytes technically violate the protocol, which admits only
/// 0x20..=0x7f, but at least one widely used tally tool pads with null.
pub open spec fn display_byte_ok(b: u8) -> bool {
    b == 0 || printable(b)
}

/// A wrapper around a byte buffer representing a TSL v3.1 Packet
#[derive(Debug, PartialEq, Eq)]
pub struct TSL31Packet {
    buf: Vec<u8>,
}

impl View for TSL31Packet {
    type V = Seq<u8>;

    closed spec fn view(&self) -> Seq<u8> {
        self.buf@
    }
}

/// The zero-based offset, relative to the start of the display region, of
/// the first unacceptable display byte at buffer index `i` or later, if any.
/// The display region spans buffer bytes 2 through 17.
pub open spec fn first_bad_display(s: Seq<u8>, i: int) -> Option<int>
    decreases 18 - i,
{
    if i < 2 || i >= 18 {
        None
    } else if !display_byte_ok(s[i]) {
        Some(i - 2)
    } else {
        first_bad_display(s, i + 1)
    }
}

/// What validation returns on a buffer: the checks run in order (length,
/// address marker, display-byte scan) and the first violation wins.
pub open spec fn spec_validate(s: Seq<u8>) -> Result<(), Error> {
    if s.len() != 18 {
        Err(Error::BadLength { expected: 18, got: s.len() as usize })
    } else if s[0] & 0x80 == 0 {
        Err(Error::AddressInvalid)
    } else {
        match first_bad_display(s, 2) {
            Some(p) => Err(Error::BadDisplayData { position: p as u8 }),
            None => Ok(()),
        }
    }
}

/// The invariant a buffer accepted by validation satisfies: exactly 18
/// bytes, address marker set, every display byte printable ASCII or null.
pub open spec fn spec_valid(s: Seq<u8>) -> bool {
    &&& s.len() == 18
    &&& s[0] & 0x80 != 0
    &&& forall|i: int| 2 <= i < 18 ==> display_byte_ok(#[trigger] s[i])
}

/// The display-byte scan finds no offender at or after index `i` exactly
/// when every byte from `i` to the end of the region is acceptable.
proof fn lemma_first_bad_none(s: Seq<u8>, i: int)
    requires
        2 <= i <= 18,
        s.len() == 18,
    ensures
        first_bad_display(s, i) is None <==> forall|j: int| i <= j < 18 ==> display_byte_ok(
            #[trigger] s[j],
        ),
    decreases 18 - i,
{
    if i < 18 {
        lemma_first_bad_none(s, i + 1);
    }
}

/// The device address a buffer carries: byte 0 masked to its low 7 bits.
pub open spec fn spec_address(s: Seq<u8>) -> u8 {
    s[0] & 0x7f
}

/// The four tally-channel flags a buffer carries: bit `i` of the low nibble
/// of the control byte is channel `i + 1`.
pub open spec fn spec_tally(s: Seq<u8>) -> Seq<bool> {
    seq![s[1] & 0b1 != 0, s[1] & 0b10 != 0, s[1] & 0b100 != 0, s[1] & 0b1000 != 0]
}

/// The brightness a buffer carries, decoded from bits 4-5 of the control
/// byte.
pub open spec fn spec_brightness(s: Seq<u8>) -> Brightness {
    brightness_of_code((s[1] >> 4) & 0x3)
}

/// The rendering of a packet's decoded fields.
pub open spec fn spec_packet_text(s: Seq<u8>) -> Seq<char> {
    "addr="@ + spec_dec_chars(spec_address(s) as nat) + ", 1="@ + spec_bool_text(spec_tally(s)[0])
        + ", 2="@ + spec_bool_text(spec_tally(s)[1]) + ", 3="@ + spec_bool_text(spec_tally(s)[2])
        + ", 4="@ + spec_bool_text(spec_tally(s)[3]) + ", brightness="@ + spec_brightness_text(
        spec_brightness(s),
    ) + ", display="@ + display_chars(s)
}

/// The low nibble of the control byte recomputed from four tally flags:
/// flag `i` contributes bit `i`.
pub open spec fn tally_nibble(t: Seq<bool>) -> u8 {
    (if t[0] {
        1u8
    } else {
        0u8
    }) | (if t[1] {
        2u8
    } else {
        0u8
    }) | (if t[2] {
        4u8
    } else {
        0u8
    }) | (if t[3] {
        8u8
    } else {
        0u8
    })
}

/// A text is accepted for the display region when it is at most 16 bytes
/// and every byte is printable ASCII.
pub open spec fn display_text_ok(t: Seq<u8>) -> bool {
    t.len() <= 16 && forall|i: int| 0 <= i < t.len() ==> printable(#[trigger] t[i])
}

/// A buffer with the bytes of `t` written into the display region starting
/// at offset 2. Only as many bytes as `t` occupies are overwritten.
pub open spec fn spec_set_display(s: Seq<u8>, t: Seq<u8>) -> Seq<u8> {
    s.subrange(0, 2) + t + s.subrange(2 + t.len() as int, 18)
}

/// The display region of a buffer: its 16 bytes from offset 2 through 17.
pub open spec fn display_region(s: Seq<u8>) -> Seq<u8> {
    s.subrange(2, 18)
}

/// The prefix of a byte sequence up to (excluding) its first null byte, or
/// the whole sequence when it holds no null.
pub open spec fn until_null(t: Seq<u8>) -> Seq<u8>
    decreases t.len(),
{
    if t.len() == 0 || t[0] == 0 {
        Seq::empty()
    } else {
        seq![t[0]] + until_null(t.drop_first())
    }
}

/// A byte sequence with its trailing space characters removed.
pub open spec fn trim_trailing_spaces(t: Seq<u8>) -> Seq<u8>
    decreases t.len(),
{
    if t.len() > 0 && t[t.len() - 1] == 0x20 {
        trim_trailing_spaces(t.drop_last())
    } else {
        t
    }
}

/// The display text a buffer carries, as bytes: the display region up to
/// its first null byte, right-trimmed of trailing spaces.
pub open spec fn display_bytes(s: Seq<u8>) -> Seq<u8> {
    trim_trailing_spaces(until_null(display_region(s)))
}

/// The display text a buffer carries, as text: every byte read as the
/// character with the same code point.
pub open spec fn display_chars(s: Seq<u8>) -> Seq<char> {
    display_bytes(s).map_values(|b: u8| b as char)
}

/// Relies on String::from_utf8: bytes below 0x80 are single-byte UTF-8
/// code points, so they decode to the characters with the same values.
#[verifier::external_body]
fn ascii_to_string(v: Vec<u8>) -> (r: String)
    requires
        forall|i: int| 0 <= i < v@.len() ==> v@[i] < 0x80,
    ensures
        r@ == v@.map_values(|b: u8| b as char),
{
    match String::from_utf8(v) {
        Ok(s) => s,
        Err(_) => String::new(),
    }
}

/// Every byte of the display text before the first null byte is below
/// 0x80. This is what a sound text decode of the region needs; a validated
/// packet guarantees it (see `lemma_valid_display_prefix`), and it also
/// holds of an unchecked region whose bytes after the first null are
/// arbitrary, since those are never read.
pub open spec fn display_prefix_ok(s: Seq<u8>) -> bool {
    forall|i: int|
        0 <= i < until_null(display_region(s)).len() ==> #[trigger] until_null(display_region(s))[i]
            < 0x80
}

/// The scan for the first null returns a prefix of its input, made of the
/// input's leading non-null bytes.
proof fn lemma_until_null_is_prefix(t: Seq<u8>)
    ensures
        until_null(t).len() <= t.len(),
        forall|i: int|
            0 <= i < until_null(t).len() ==> #[trigger] until_null(t)[i] == t[i] && t[i] != 0,
    decreases t.len(),
{
    if t.len() == 0 || t[0] == 0 {
    } else {
        lemma_until_null_is_prefix(t.drop_first());
        assert forall|i: int|
            0 <= i < until_null(t).len() implies #[trigger] until_null(t)[i] == t[i] && t[i]
            != 0 by {
            if i > 0 {
                assert(until_null(t)[i] == until_null(t.drop_first())[i - 1]);
                assert(t.drop_first()[i - 1] == t[i]);
            }
        }
    }
}

/// On a valid packet every display byte before the first null is printable
/// ASCII, so the text decode is sound.
pub proof fn lemma_valid_display_prefix(s: Seq<u8>)
    requires
        spec_valid(s),
    ensures
        display_prefix_ok(s),
{
    lemma_until_null_is_prefix(display_region(s));
}

/// When the first `k` bytes are non-null and either `k` is the whole length
/// or byte `k` is null, the scan for the first null returns the first `k`
/// bytes.
proof fn lemma_until_null_take(t: Seq<u8>, k: int)
    requires
        0 <= k <= t.len(),
        forall|j: int| 0 <= j < k ==> #[trigger] t[j] != 0,
        k == t.len() || t[k] == 0,
    ensures
        until_null(t) == t.take(k),
    decreases k,
{
    if k == 0 {
        assert(until_null(t) =~= t.take(0));
    } else {
        lemma_until_null_take(t.drop_first(), k - 1);
        assert(seq![t[0]] + t.drop_first().take(k - 1) =~= t.take(k));
    }
}

/// When every byte from index `m` on is a space and byte `m - 1` (if any)
/// is not, trimming trailing spaces returns the first `m` bytes.
proof fn lemma_trim_take(t: Seq<u8>, m: int)
    requires
        0 <= m <= t.len(),
        forall|j: int| m <= j < t.len() ==> #[trigger] t[j] == 0x20,
        m == 0 || t[m - 1] != 0x20,
    ensures
        trim_trailing_spaces(t) == t.take(m),
    decreases t.len(),
{
    if t.len() > m {
        lemma_trim_take(t.drop_last(), m);
        assert(t.drop_last().take(m) =~= t.take(m));
    } else {
        assert(trim_trailing_spaces(t) =~= t.take(m));
    }
}

/// The decimal digits of `n`, most significant first, as ASCII bytes.
pub open spec fn spec_dec_digits(n: nat) -> Seq<u8>
    decreases n,
{
    if n < 10 {
        seq![(0x30 + n) as u8]
    } else {
        spec_dec_digits(n / 10).push((0x30 + n % 10) as u8)
    }
}

/// The decimal rendering of `n`, as characters.
pub open spec fn spec_dec_chars(n: nat) -> Seq<char> {
    spec_dec_digits(n).map_values(|b: u8| b as char)
}

/// The rendering of a boolean.
pub open spec fn spec_bool_text(b: bool) -> Seq<char> {
    if b {
        "true"@
    } else {
        "false"@
    }
}

/// Decimal digits are the ASCII bytes 0x30 through 0x39.
proof fn lemma_dec_digits_range(n: nat)
    ensures
        forall|i: int|
            0 <= i < spec_dec_digits(n).len() ==> 0x30 <= #[trigger] spec_dec_digits(n)[i] <= 0x39,
    decreases n,
{
    if n >= 10 {
        lemma_dec_digits_range(n / 10);
        assert forall|i: int|
            0 <= i < spec_dec_digits(n).len() implies 0x30 <= #[trigger] spec_dec_digits(n)[i]
            <= 0x39 by {
            if i < spec_dec_digits(n).len() - 1 {
                assert(spec_dec_digits(n)[i] == spec_dec_digits(n / 10)[i]);
            }
        }
    }
}

/// Append the decimal digits of `n` to `v`.
fn push_dec(v: &mut Vec<u8>, n: usize)
    ensures
        final(v)@ == old(v)@ + spec_dec_digits(n as nat),
    decreases n,
{
    if n >= 10 {
        push_dec(v, n / 10);
    }
    v.push(0x30 + (n % 10) as u8);
    proof {
        if n >= 10 {
            assert(old(v)@ + spec_dec_digits((n / 10) as nat).push((0x30 + n as nat % 10) as u8)
                =~= old(v)@ + spec_dec_digits(n as nat));
        } else {
            assert(old(v)@ + seq![(0x30 + n as nat) as u8] =~= old(v)@ + spec_dec_digits(n as nat));
        }
    }
}

/// Render `n` in decimal.
fn dec_string(n: usize) -> (r: String)
    ensures
        r@ == spec_dec_chars(n as nat),
{
    let mut v: Vec<u8> = Vec::new();
    push_dec(&mut v, n);
    proof {
        lemma_dec_digits_range(n as nat);
        assert(v@ =~= spec_dec_digits(n as nat));
    }
    ascii_to_string(v)
}

/// Render a boolean.
fn bool_string(b: bool) -> (r: String)
    ensures
        r@ == spec_bool_text(b),
{
    if b {
        "true".to_owned()
    } else {
        "false".to_owned()
    }
}

/// Validation accepts a buffer exactly when the packet invariant holds.
pub proof fn lemma_validate_ok(s: Seq<u8>)
    ensures
        spec_validate(s) is Ok <==> spec_valid(s),
{
    if s.len() == 18 {
        lemma_first_bad_none(s, 2);
    }
}

/// When the scan reports an offender at display offset `q`, the byte there
/// is unacceptable and every display byte between index `i` and it is fine.
proof fn lemma_first_bad_some(s: Seq<u8>, i: int, q: int)
    requires
        2 <= i <= 18,
        s.len() == 18,
        first_bad_display(s, i) == Some(q),
    ensures
        i - 2 <= q < 16,
        !display_byte_ok(s[2 + q]),
        forall|j: int| i <= j < 2 + q ==> display_byte_ok(#[trigger] s[j]),
    decreases 18 - i,
{
    if i < 18 && display_byte_ok(s[i]) {
        lemma_first_bad_some(s, i + 1, q);
    }
}

/// A reported bad-display position names the first offender: the byte at
/// that display offset is unacceptable, and every display byte before it
/// is printable ASCII or null, whatever stands after it.
pub proof fn lemma_first_offender(s: Seq<u8>, p: u8)
    requires
        spec_validate(s) == Err::<(), Error>(Error::BadDisplayData { position: p }),
    ensures
        p < 16,
        !display_byte_ok(s[2 + p as int]),
        forall|j: int| 2 <= j < 2 + p ==> display_byte_ok(#[trigger] s[j]),
{
    let q = first_bad_display(s, 2)->Some_0;
    lemma_first_bad_some(s, 2, q);
}

/// Round trip: writing an address, four tally flags, a brightness level
/// and a display text into a buffer whose display region holds no stale
/// bytes past the text, in the order the setters write them, yields a
/// buffer that validates and decodes back to the same address, the same
/// flags, the same brightness, and the text with its trailing spaces
/// stripped. Each intermediate buffer below is exactly what the
/// corresponding setter's contract says it leaves behind.
pub proof fn lemma_round_trip(
    s0: Seq<u8>,
    addr: u8,
    flags: Seq<bool>,
    level: Brightness,
    text: Seq<u8>,
)
    requires
        s0.len() == 18,
        addr <= 0x7E,
        flags.len() == 4,
        display_text_ok(text),
        forall|i: int| 2 + text.len() <= i < 18 ==> s0[i] == 0,
    ensures
        ({
            let s1 = s0.update(0, (addr + 0x80) as u8);
            let s2 = s1.update(1, (s1[1] & 0xf0) | tally_nibble(flags));
            let s3 = s2.update(1, (s2[1] & 0x0f) | (brightness_code(level) << 4));
            let s4 = spec_set_display(s3, text);
            &&& spec_validate(s4) is Ok
            &&& spec_address(s4) == addr
            &&& spec_tally(s4) =~= flags
            &&& spec_brightness(s4) == level
            &&& display_bytes(s4) == trim_trailing_spaces(text)
            &&& display_chars(s4) == trim_trailing_spaces(text).map_values(|b: u8| b as char)
        }),
{
    let s1 = s0.update(0, (addr + 0x80) as u8);
    let s2 = s1.update(1, (s1[1] & 0xf0) | tally_nibble(flags));
    let s3 = s2.update(1, (s2[1] & 0x0f) | (brightness_code(level) << 4));
    let s4 = spec_set_display(s3, text);
    let x = s1[1];
    let n0: u8 = if flags[0] {
        1
    } else {
        0
    };
    let n1: u8 = if flags[1] {
        2
    } else {
        0
    };
    let n2: u8 = if flags[2] {
        4
    } else {
        0
    };
    let n3: u8 = if flags[3] {
        8
    } else {
        0
    };
    let nib = tally_nibble(flags);
    let code = brightness_code(level);
    let ctrl = s3[1];
    assert(nib == n0 | n1 | n2 | n3);
    assert(code <= 3);
    assert(ctrl == (((x & 0xf0) | nib) & 0x0f) | (code << 4));
    assert((ctrl & 0b1 != 0 <==> n0 == 1) && (ctrl & 0b10 != 0 <==> n1 == 2) && (ctrl & 0b100 != 0
        <==> n2 == 4) && (ctrl & 0b1000 != 0 <==> n3 == 8) && ((ctrl >> 4) & 0x3 == code))
        by (bit_vector)
        requires
            ctrl == (((x & 0xf0) | nib) & 0x0f) | (code << 4),
            nib == n0 | n1 | n2 | n3,
            n0 == 0 || n0 == 1,
            n1 == 0 || n1 == 2,
            n2 == 0 || n2 == 4,
            n3 == 0 || n3 == 8,
            code <= 3,
    ;
    let marked = (addr + 0x80) as u8;
    assert(marked & 0x7f == addr && marked & 0x80 != 0) by (bit_vector)
        requires
            addr <= 0x7E,
            marked == (addr + 0x80) as u8,
    ;
    assert(s4.len() == 18);
    assert(s4[0] == marked);
    assert(s4[1] == ctrl);
    let region = display_region(s4);
    assert(region =~= text + s3.subrange(2 + text.len() as int, 18));
    assert forall|j: int| 0 <= j < text.len() implies region[j] != 0 by {
        assert(printable(text[j]));
    }
    if text.len() < 16 {
        assert(region[text.len() as int] == s3[2 + text.len() as int]);
        assert(s3[2 + text.len() as int] == s0[2 + text.len() as int]);
    }
    lemma_until_null_take(region, text.len() as int);
    assert(until_null(region) =~= text);
    assert forall|i: int| 2 <= i < 18 implies display_byte_ok(#[trigger] s4[i]) by {
        if i < 2 + text.len() {
            assert(s4[i] == text[i - 2]);
        } else {
            assert(s4[i] == s0[i]);
        }
    }
    lemma_validate_ok(s4);
    assert(spec_tally(s4) =~= flags) by {
        assert(spec_tally(s4)[0] == flags[0]);
        assert(spec_tally(s4)[1] == flags[1]);
        assert(spec_tally(s4)[2] == flags[2]);
        assert(spec_tally(s4)[3] == flags[3]);
    }
}

impl TSL31Packet {
    /// Summon a packet from the given bytes without checking it.
    pub fn new_unchecked(buf: Vec<u8>) -> (r: Self)
        ensures
            r@ == buf@,
    {
        Self { buf }
    }

    /// Validate that the given bytes are a packet and return it, or an error
    pub fn new_checked(buf: Vec<u8>) -> (r: Result<Self, Error>)
        ensures
            match r {
                Ok(p) => spec_validate(buf@) is Ok && p@ == buf@,
                Err(e) => spec_validate(buf@) == Err::<(), Error>(e),
            },
    {
        let p = Self::new_unchecked(buf);
        match p.validate() {
            Ok(_) => Ok(p),
            Err(e) => Err(e),
        }
    }

    /// Check that the wrapped bytes form a valid packet: the buffer is
    /// exactly 18 bytes, byte 0 carries the address marker in its high bit,
    /// and every display byte is printable ASCII or null. Reads only; the
    /// first violation, in that order, is reported.
    pub fn validate(&self) -> (r: Result<(), Error>)
        ensures
            r == spec_validate(self@),
    {
        if self.buf.len() != PACKET_LENGTH_31 {
            return Err(Error::BadLength { expected: PACKET_LENGTH_31, got: self.buf.len() });
        }
        if self.buf[0] & 0x80 == 0 {
            return Err(Error::AddressInvalid);
        }
        let mut i: usize = 2;
        while i < PACKET_LENGTH_31
            invariant
                2 <= i <= 18,
                self@.len() == 18,
                self@[0] & 0x80 != 0,
                first_bad_display(self@, 2) == first_bad_display(self@, i as int),
            decreases 18 - i,
        {
            let b = self.buf[i];
            if !(b == 0 || (0x20 <= b && b <= 0x7f)) {
                assert(first_bad_display(self@, i as int) == Some(i - 2));
                return Err(Error::BadDisplayData { position: (i - 2) as u8 });
            }
            i += 1;
        }
        Ok(())
    }

    /// The packet address, from `0x00..=0x7E`
    pub fn address(&self) -> (r: u8)
        requires
            self@.len() == 18,
        ensures
            r == spec_address(self@),
    {
        self.buf[0] & 0x7f
    }

    /// Tally states, 4 channels
    pub fn tally(&self) -> (r: [bool; 4])
        requires
            self@.len() == 18,
        ensures
            r@ == spec_tally(self@),
    {
        let ctrl = self.buf[1];
        let r = [ctrl & 0b1 != 0, ctrl & 0b10 != 0, ctrl & 0b100 != 0, ctrl & 0b1000 != 0];
        assert(r@ =~= spec_tally(self@));
        r
    }

    /// Tally brightness
    pub fn brightness(&self) -> (r: Brightness)
        requires
            self@.len() == 18,
        ensures
            r == spec_brightness(self@),
    {
        let ctrl = self.buf[1];
        let code = (ctrl >> 4) & 0x3;
        assert(code <= 3) by (bit_vector)
            requires
                code == (ctrl >> 4) & 0x3,
        ;
        if code == 0 {
            Brightness::Zero
        } else if code == 1 {
            Brightness::OneSeventh
        } else if code == 2 {
            Brightness::OneHalf
        } else {
            Brightness::Full
        }
    }

    /// Return the display data as a string, with trailing space/null bytes removed
    pub fn display_data(&self) -> (r: String)
        requires
            self@.len() == 18,
            display_prefix_ok(self@),
        ensures
            r@ == display_chars(self@),
    {
        let ghost region = display_region(self@);
        // Use up to the first null byte, or the whole 16 bytes
        let mut stop: usize = 2;
        while stop < PACKET_LENGTH_31 && self.buf[stop] != 0
            invariant
                2 <= stop <= 18,
                self@.len() == 18,
                forall|j: int| 2 <= j < stop ==> #[trigger] self@[j] != 0,
            decreases 18 - stop,
        {
            stop += 1;
        }
        proof {
            lemma_until_null_take(region, stop - 2);
            assert(until_null(region) =~= self@.subrange(2, stop as int));
        }
        // Right-trim trailing spaces
        let mut end: usize = stop;
        while end > 2 && self.buf[end - 1] == 0x20
            invariant
                2 <= end <= stop <= 18,
                self@.len() == 18,
                forall|j: int| end <= j < stop ==> #[trigger] self@[j] == 0x20,
            decreases end,
        {
            end -= 1;
        }
        proof {
            lemma_trim_take(until_null(region), end - 2);
            assert(display_bytes(self@) =~= self@.subrange(2, end as int));
            lemma_until_null_is_prefix(region);
            assert forall|j: int| 2 <= j < end implies #[trigger] self@[j] < 0x80 by {
                assert(until_null(region)[j - 2] == self@[j]);
            }
        }
        let mut v: Vec<u8> = Vec::new();
        let mut i: usize = 2;
        while i < end
            invariant
                2 <= i <= end <= 18,
                self@.len() == 18,
                v@ == self@.subrange(2, i as int),
                display_bytes(self@) == self@.subrange(2, end as int),
                forall|j: int| 2 <= j < end ==> #[trigger] self@[j] < 0x80,
            decreases end - i,
        {
            v.push(self.buf[i]);
            proof {
                assert(v@ =~= self@.subrange(2, i + 1));
            }
            i += 1;
        }
        let r = ascii_to_string(v);
        proof {
            assert(r@ == display_chars(self@));
        }
        r
    }

    /// Consumes self, returning the inner bytes
    pub fn inner(self) -> (r: Vec<u8>)
        ensures
            r@ == self@,
    {
        self.buf
    }

    /// A human-readable rendering of the packet's decoded fields, for
    /// logging and diagnostics.
    pub fn describe(&self) -> (r: String)
        requires
            self@.len() == 18,
            display_prefix_ok(self@),
        ensures
            r@ == spec_packet_text(self@),
    {
        let mut s = "addr=".to_owned();
        let a = dec_string(self.address() as usize);
        s.append(a.as_str());
        let t = self.tally();
        s.append(", 1=");
        let t1 = bool_string(t[0]);
        s.append(t1.as_str());
        s.append(", 2=");
        let t2 = bool_string(t[1]);
        s.append(t2.as_str());
        s.append(", 3=");
        let t3 = bool_string(t[2]);
        s.append(t3.as_str());
        s.append(", 4=");
        let t4 = bool_string(t[3]);
        s.append(t4.as_str());
        s.append(", brightness=");
        let b = self.brightness().describe();
        s.append(b.as_str());
        s.append(", display=");
        let d = self.display_data();
        s.append(d.as_str());
        proof {
            assert(s@ =~= spec_packet_text(self@));
        }
        s
    }

    /// Set the address. Return Err(()) if the addr is out of range
    pub fn set_address(&mut self, addr: u8) -> (r: Result<(), ()>)
        requires
            old(self)@.len() == 18,
        ensures
            r is Ok <==> addr <= 0x7E,
            r is Ok ==> final(self)@ == old(self)@.update(0, (addr + 0x80) as u8),
            r is Err ==> final(self)@ == old(self)@,
    {
        if addr > 0x7E {
            return Err(());
        }
        self.buf[0] = addr + 0x80;
        Ok(())
    }

    /// Set the tally state
    pub fn set_tally(&mut self, state: [bool; 4])
        requires
            old(self)@.len() == 18,
        ensures
            final(self)@ == old(self)@.update(1, (old(self)@[1] & 0xf0) | tally_nibble(state@)),
    {
        let b: u8 = (if state[0] {
            1
        } else {
            0
        }) | (if state[1] {
            2
        } else {
            0
        }) | (if state[2] {
            4
        } else {
            0
        }) | (if state[3] {
            8
        } else {
            0
        });
        self.buf[1] = (self.buf[1] & 0xf0) | b;
    }

    /// Set the brightness, leaving the tally flags in the low nibble of the
    /// control byte unchanged
    pub fn set_brightness(&mut self, brightness: Brightness)
        requires
            old(self)@.len() == 18,
        ensures
            final(self)@ == old(self)@.update(
                1,
                (old(self)@[1] & 0x0f) | (brightness_code(brightness) << 4),
            ),
    {
        let b: u8 = match brightness {
            Brightness::Zero => 0,
            Brightness::OneSeventh => 0b01 << 4,
            Brightness::OneHalf => 0b10 << 4,
            Brightness::Full => 0b11 << 4,
        };
        proof {
            assert(0u8 << 4 == 0x00) by (bit_vector);
            assert(1u8 << 4 == 0x10) by (bit_vector);
            assert(2u8 << 4 == 0x20) by (bit_vector);
            assert(3u8 << 4 == 0x30) by (bit_vector);
        }
        self.buf[1] = (self.buf[1] & 0x0f) | b;
    }

    /// Set the display data. Return Err(()) if the text is longer than 16
    /// bytes or holds a byte that is not printable ascii
    pub fn set_display_data(&mut self, s: &str) -> (r: Result<(), ()>)
        requires
            old(self)@.len() == 18,
        ensures
            r is Ok <==> display_text_ok(s.spec_bytes()),
            r is Ok ==> final(self)@ == spec_set_display(old(self)@, s.spec_bytes()),
            r is Err ==> final(self)@ == old(self)@,
    {
        let bytes = s.as_bytes();
        if bytes.len() > 16 {
            return Err(());
        }
        let mut i: usize = 0;
        while i < bytes.len()
            invariant
                0 <= i <= bytes@.len() <= 16,
                bytes@ == s.spec_bytes(),
                forall|j: int| 0 <= j < i ==> printable(#[trigger] bytes@[j]),
            decreases bytes@.len() - i,
        {
            let b = bytes[i];
            if !(0x20 <= b && b <= 0x7f) {
                return Err(());
            }
            i += 1;
        }
        let mut i: usize = 0;
        while i < bytes.len()
            invariant
                0 <= i <= bytes@.len() <= 16,
                bytes@ == s.spec_bytes(),
                self@.len() == 18,
                forall|j: int| 0 <= j < i ==> self@[2 + j] == bytes@[j],
                forall|j: int|
                    0 <= j < 18 && !(2 <= j < 2 + i) ==> self@[j] == #[trigger] old(self)@[j],
            decreases bytes@.len() - i,
        {
            self.buf[2 + i] = bytes[i];
            i += 1;
        }
        assert(self@ =~= spec_set_display(old(self)@, s.spec_bytes()));
        Ok(())
    }
}

} // verus!
