//! The boot-time configuration record, its binary encoding, and the console
//! plan derived from it.
//!
//! The record is persisted through the platform's blob store as a compact
//! self-describing encoding: one byte per flag (zero or one, anything else
//! is rejected), then the baud rate as a little-endian base-128 varint of at
//! most five bytes. Truncated or malformed bytes fail to decode rather than
//! being misinterpreted.

use vstd::arithmetic::div_mod::lemma_div_decreases;
use vstd::arithmetic::div_mod::lemma_fundamental_div_mod;
use vstd::arithmetic::div_mod::lemma_multiply_divide_lt;
use vstd::arithmetic::div_mod::lemma_small_mod;
use vstd::prelude::*;

verus! {

/// The persisted blob may hold at most this many bytes.
pub const CONFIG_BUFFER_LEN: usize = 64;

/// Which console sinks should be active, and the serial line speed.
#[derive(Clone, Copy, Debug, PartialEq, Eq, Structural)]
pub struct Config {
    pub vga_console_on: bool,
    pub serial_console_on: bool,
    pub serial_baud: u32,
}

/// Loading failed: either the platform could not hand the blob over, or the
/// bytes it handed over do not decode as a record.
#[derive(Clone, Copy, Debug, PartialEq, Eq, Structural)]
pub enum ConfigLoadError {
    PlatformRead,
    Decode,
}

/// Saving failed: the record does not fit the persisted buffer.
#[derive(Clone, Copy, Debug, PartialEq, Eq, Structural)]
pub enum ConfigSaveError {
    Encode,
}

/// The number of data bits on the serial line.
#[derive(Clone, Copy, Debug, PartialEq, Eq, Structural)]
pub enum DataBits {
    Seven,
    Eight,
}

/// The number of stop bits on the serial line.
#[derive(Clone, Copy, Debug, PartialEq, Eq, Structural)]
pub enum StopBits {
    One,
    Two,
}

/// The parity discipline on the serial line.
#[derive(Clone, Copy, Debug, PartialEq, Eq, Structural)]
pub enum Parity {
    Odd,
    Even,
    NoParity,
}

/// The handshaking discipline on the serial line.
#[derive(Clone, Copy, Debug, PartialEq, Eq, Structural)]
pub enum Handshaking {
    RtsCts,
    NoHandshaking,
}

/// A fully-populated serial line configuration.
#[derive(Clone, Copy, Debug, PartialEq, Eq, Structural)]
pub struct SerialPortConfig {
    pub data_rate_bps: u32,
    pub data_bits: DataBits,
    pub stop_bits: StopBits,
    pub parity: Parity,
    pub handshaking: Handshaking,
}

/// What boot should bring up: whether the VGA console is wanted, and the
/// serial port and line configuration where the serial console is wanted.
#[derive(Clone, Copy, Debug, PartialEq, Eq)]
pub struct ConsolePlan {
    pub vga: bool,
    pub serial: Option<(u8, SerialPortConfig)>,
}

/// The serial line used when the serial console is enabled: eight data
/// bits, one stop bit, no parity, no handshaking, at the given rate.
pub open spec fn serial_line_spec(baud: u32) -> SerialPortConfig {
    SerialPortConfig {
        data_rate_bps: baud,
        data_bits: DataBits::Eight,
        stop_bits: StopBits::One,
        parity: Parity::NoParity,
        handshaking: Handshaking::NoHandshaking,
    }
}

/// The byte that encodes a flag.
pub open spec fn bool_byte(b: bool) -> u8 {
    if b {
        1
    } else {
        0
    }
}

/// The flag a byte decodes to; only zero and one are accepted.
pub open spec fn parse_bool(b: u8) -> Option<bool> {
    if b == 0 {
        Option::Some(false)
    } else if b == 1 {
        Option::Some(true)
    } else {
        Option::None
    }
}

/// The little-endian base-128 varint encoding of a number: seven value bits
/// per byte, the top bit marking a continuation.
pub open spec fn varint(x: nat) -> Seq<u8>
    decreases x,
{
    if x < 128 {
        seq![x as u8]
    } else {
        seq![(128 + x % 128) as u8] + varint(x / 128)
    }
}

/// 128 raised to the power `i`.
pub open spec fn pow128(i: nat) -> nat
    decreases i,
{
    if i == 0 {
        1
    } else {
        128 * pow128((i - 1) as nat)
    }
}

/// The value of a varint continued at byte index `i` (of at most five), or
/// nothing where the bytes are truncated, run past five bytes, or the fifth
/// byte does not fit the four value bits that remain of a 32-bit number.
pub open spec fn parse_varint(s: Seq<u8>, i: nat) -> Option<nat>
    decreases s.len(),
{
    if s.len() == 0 || i >= 5 {
        Option::None
    } else {
        let b = s[0];
        let low = (b % 128) as nat;
        if i == 4 && b >= 16 {
            Option::None
        } else if b < 128 {
            Option::Some(low * pow128(i))
        } else {
            match parse_varint(s.subrange(1, s.len() as int), (i + 1) as nat) {
                Option::Some(rest) => Option::Some(low * pow128(i) + rest),
                Option::None => Option::None,
            }
        }
    }
}

/// The encoding of a record: the two flag bytes, then the baud rate.
pub open spec fn encoded(c: Config) -> Seq<u8> {
    seq![bool_byte(c.vga_console_on), bool_byte(c.serial_console_on)] + varint(
        c.serial_baud as nat,
    )
}

/// The record a byte sequence decodes to, or nothing where it is malformed;
/// bytes after the record are ignored.
pub open spec fn decode_spec(s: Seq<u8>) -> Option<Config> {
    if s.len() < 2 {
        Option::None
    } else {
        match (parse_bool(s[0]), parse_bool(s[1]), parse_varint(s.skip(2), 0)) {
            (Option::Some(vga), Option::Some(ser), Option::Some(baud)) => Option::Some(
                Config { vga_console_on: vga, serial_console_on: ser, serial_baud: baud as u32 },
            ),
            _ => Option::None,
        }
    }
}

/// The powers of 128 used by a 32-bit varint.
proof fn lemma_pow128_values()
    ensures
        pow128(0) == 1,
        pow128(1) == 128,
        pow128(2) == 16384,
        pow128(3) == 2097152,
        pow128(4) == 268435456,
{
    assert(pow128(0) == 1);
    assert(pow128(1) == 128);
    assert(pow128(2) == 16384);
    assert(pow128(3) == 2097152);
    assert(pow128(4) == 268435456);
}

/// A number below 128 to the `k` has a varint of at most `k` bytes.
#[verifier::spinoff_prover]
#[verifier::rlimit(30)]
proof fn lemma_varint_len_bound(x: nat, k: nat)
    requires
        1 <= k,
        x < pow128(k),
    ensures
        varint(x).len() <= k,
    decreases k,
{
    if x < 128 {
    } else {
        if k == 1 {
            assert(pow128(1) == 128);
            assert(false);
        }
        assert(pow128(k) == 128 * pow128((k - 1) as nat));
        lemma_multiply_divide_lt(x as int, pow128((k - 1) as nat) as int, 128);
        lemma_varint_len_bound(x / 128, (k - 1) as nat);
    }
}

/// The varint of a 32-bit number takes at most five bytes.
pub proof fn lemma_varint_len(x: nat)
    requires
        x < 0x100000000,
    ensures
        varint(x).len() <= 5,
{
    lemma_pow128_values();
    assert(pow128(5) == 128 * pow128(4));
    lemma_varint_len_bound(x, 5);
}

/// Parsing the varint of a number gives the number back, scaled by the
/// byte position it starts at.
#[verifier::spinoff_prover]
#[verifier::rlimit(30)]
proof fn lemma_parse_varint_roundtrip(x: nat, i: nat)
    requires
        i <= 4,
        x * pow128(i) < 0x100000000,
    ensures
        parse_varint(varint(x), i) == Option::Some(x * pow128(i)),
    decreases x,
{
    lemma_pow128_values();
    if x < 128 {
        let b = x as u8;
        lemma_small_mod(x, 128);
        if i == 4 {
            assert(x * pow128(4) == x * 268435456);
            assert(x < 16);
        }
        assert(varint(x) == seq![b]);
        assert(parse_varint(varint(x), i) == Option::Some((b % 128) as nat * pow128(i)));
    } else {
        let b = (128 + x % 128) as u8;
        assert(varint(x) == seq![b] + varint(x / 128));
        assert(varint(x)[0] == b);
        assert(b >= 128);
        if i == 4 {
            assert(x * pow128(4) == x * 268435456);
            assert(false);
        }
        lemma_fundamental_div_mod(x as int, 128);
        assert(pow128((i + 1) as nat) == 128 * pow128(i));
        assert((x / 128) * pow128((i + 1) as nat) <= x * pow128(i)) by (nonlinear_arith)
            requires
                x == 128 * (x / 128) + x % 128,
                x >= 128,
                pow128((i + 1) as nat) == 128 * pow128(i),
                pow128(i) >= 0,
        ;
        lemma_parse_varint_roundtrip(x / 128, (i + 1) as nat);
        assert(varint(x).subrange(1, varint(x).len() as int) =~= varint(x / 128));
        assert((b % 128) as nat == x % 128);
        assert(x * pow128(i) == (x % 128) * pow128(i) + (x / 128) * pow128((i + 1) as nat))
            by (nonlinear_arith)
            requires
                x == 128 * (x / 128) + x % 128,
                pow128((i + 1) as nat) == 128 * pow128(i),
        ;
    }
}

/// Law: decoding an encoded record gives the record back, for every record.
pub proof fn lemma_config_round_trip(c: Config)
    ensures
        decode_spec(encoded(c)) == Option::Some(c),
{
    let s = encoded(c);
    assert(s[0] == bool_byte(c.vga_console_on));
    assert(s[1] == bool_byte(c.serial_console_on));
    assert(s.skip(2) =~= varint(c.serial_baud as nat));
    lemma_pow128_values();
    lemma_parse_varint_roundtrip(c.serial_baud as nat, 0);
    assert(parse_varint(s.skip(2), 0) == Option::Some(c.serial_baud as nat));
}

impl Config {
    /// The hardcoded fallback: VGA console on, serial console off, a
    /// conventional baud rate.
    pub open spec fn default_spec() -> Config {
        Config { vga_console_on: true, serial_console_on: false, serial_baud: 115200 }
    }

    /// Encodes the record: two flag bytes, then the baud rate as a varint.
    #[verifier::spinoff_prover]
    #[verifier::rlimit(30)]
    pub fn encode(&self) -> (r: Vec<u8>)
        ensures
            r@ == encoded(*self),
            r@.len() <= 7,
    {
        let mut out: Vec<u8> = Vec::new();
        out.push(if self.vga_console_on {
            1
        } else {
            0
        });
        out.push(if self.serial_console_on {
            1
        } else {
            0
        });
        let ghost baud0 = self.serial_baud as nat;
        let mut x: u32 = self.serial_baud;
        proof {
            assert(encoded(*self) =~= out@ + varint(baud0));
            lemma_varint_len(baud0);
        }
        while x >= 128
            invariant
                encoded(*self) == out@ + varint(x as nat),
                out@.len() + varint(x as nat).len() == 2 + varint(baud0).len(),
                varint(baud0).len() <= 5,
            decreases x,
        {
            let ghost xg = x as nat;
            let low: u8 = (x % 128) as u8;
            proof {
                assert(varint(xg) == seq![(128 + xg % 128) as u8] + varint(xg / 128));
                assert((x % 128) as u8 as int == xg % 128);
            }
            out.push(128 + low);
            proof {
                lemma_div_decreases(x as int, 128);
            }
            x = x / 128;
            proof {
                assert(encoded(*self) =~= out@ + varint(x as nat));
            }
        }
        proof {
            assert(varint(x as nat) == seq![x as u8]);
        }
        out.push(x as u8);
        proof {
            assert(out@ =~= encoded(*self));
        }
        out
    }

    /// Decodes a record from bytes; malformed or truncated bytes are
    /// rejected, and bytes after the record are ignored.
    #[verifier::spinoff_prover]
    #[verifier::rlimit(30)]
    pub fn decode(bytes: &[u8]) -> (r: Result<Config, ConfigLoadError>)
        ensures
            (r matches Ok(c) ==> decode_spec(bytes@) == Option::Some(c)),
            (r matches Err(e) ==> decode_spec(bytes@) == Option::<Config>::None && e
                == ConfigLoadError::Decode),
    {
        if bytes.len() < 2 {
            return Err(ConfigLoadError::Decode);
        }
        let b0: u8 = bytes[0];
        let b1: u8 = bytes[1];
        if b0 > 1 || b1 > 1 {
            return Err(ConfigLoadError::Decode);
        }
        let vga: bool = b0 == 1;
        let ser: bool = b1 == 1;
        let ghost tail0 = bytes@.skip(2);
        let mut pos: usize = 2;
        let mut i: usize = 0;
        let mut val: u32 = 0;
        let mut pow: u32 = 1;
        proof {
            lemma_pow128_values();
        }
        while i < 5
            invariant
                pos == 2 + i,
                pos <= bytes@.len(),
                i <= 4,
                tail0 == bytes@.skip(2),
                bytes@.len() >= 2,
                b0 == bytes@[0] && b1 == bytes@[1],
                b0 <= 1 && b1 <= 1,
                vga == (b0 == 1) && ser == (b1 == 1),
                pow == pow128(i as nat),
                val < pow128(i as nat),
                pow128(0) == 1 && pow128(1) == 128 && pow128(2) == 16384 && pow128(3) == 2097152
                    && pow128(4) == 268435456,
                parse_varint(tail0, 0) == (match parse_varint(bytes@.skip(pos as int), i as nat) {
                    Option::Some(rest) => Option::<nat>::Some(val as nat + rest),
                    Option::None => Option::<nat>::None,
                }),
            decreases 5 - i,
        {
            let ghost tail = bytes@.skip(pos as int);
            if pos >= bytes.len() {
                proof {
                    assert(tail.len() == 0);
                }
                return Err(ConfigLoadError::Decode);
            }
            let b: u8 = bytes[pos];
            proof {
                assert(tail[0] == b);
            }
            let low: u8 = b % 128;
            proof {
                if b < 128 {
                    lemma_small_mod(b as nat, 128);
                }
            }
            if i == 4 && b >= 16 {
                return Err(ConfigLoadError::Decode);
            }
            proof {
                if i == 4 {
                    assert(b < 16);
                    assert((low as int) * (pow as int) + val < 0x100000000) by (nonlinear_arith)
                        requires
                            low == b,
                            b < 16,
                            pow == 268435456,
                            val < 268435456,
                    ;
                } else {
                    assert((low as int) * (pow as int) + val < 128 * (pow as int))
                        by (nonlinear_arith)
                        requires
                            low < 128,
                            val < pow,
                            pow >= 1,
                    ;
                    assert(128 * (pow as int) == pow128((i + 1) as nat));
                    assert(pow128((i + 1) as nat) <= 268435456);
                }
            }
            val = val + (low as u32) * pow;
            if b < 128 {
                proof {
                    assert(parse_varint(tail, i as nat) == Option::Some(
                        (low as nat) * pow128(i as nat),
                    ));
                }
                return Ok(Config { vga_console_on: vga, serial_console_on: ser, serial_baud: val });
            }
            proof {
                assert(bytes@.skip(pos + 1 as int) =~= tail.subrange(1, tail.len() as int));
                assert(parse_varint(tail, i as nat) == (match parse_varint(
                    bytes@.skip(pos + 1 as int),
                    (i + 1) as nat,
                ) {
                    Option::Some(r) => Option::<nat>::Some((low as nat) * pow128(i as nat) + r),
                    Option::None => Option::<nat>::None,
                }));
                assert(pow128((i + 1) as nat) == 128 * pow128(i as nat));
            }
            pos = pos + 1;
            i = i + 1;
            pow = pow * 128;
        }
        proof {
            assert(parse_varint(bytes@.skip(pos as int), i as nat) == Option::<nat>::None);
        }
        Err(ConfigLoadError::Decode)
    }

    /// Encodes the record and checks it fits the persisted buffer; the
    /// fixed record always does, so this always succeeds.
    pub fn save(&self) -> (r: Result<Vec<u8>, ConfigSaveError>)
        ensures
            r matches Ok(v) && v@ == encoded(*self) && v@.len() <= CONFIG_BUFFER_LEN,
    {
        let v = self.encode();
        if v.len() <= CONFIG_BUFFER_LEN {
            Ok(v)
        } else {
            Err(ConfigSaveError::Encode)
        }
    }

    /// Interprets the platform's blob read: no blob means the platform
    /// read failed, a blob that does not decode is rejected, and a blob
    /// that decodes is the record.
    pub fn load(read: Option<Vec<u8>>) -> (r: Result<Config, ConfigLoadError>)
        ensures
            read matches Option::None ==> r == Err::<Config, ConfigLoadError>(
                ConfigLoadError::PlatformRead,
            ),
            read matches Option::Some(b) ==> match decode_spec(b@) {
                Option::Some(c) => r == Ok::<Config, ConfigLoadError>(c),
                Option::None => r == Err::<Config, ConfigLoadError>(ConfigLoadError::Decode),
            },
    {
        match read {
            Option::None => Err(ConfigLoadError::PlatformRead),
            Option::Some(b) => Self::decode(b.as_slice()),
        }
    }

    /// Law: loading never fails boot. A failed platform read or malformed
    /// bytes yield the hardcoded default record; good bytes yield the
    /// record they hold.
    pub fn load_or_default(read: Option<Vec<u8>>) -> (r: Config)
        ensures
            r == (match read {
                Option::Some(b) => match decode_spec(b@) {
                    Option::Some(c) => c,
                    Option::None => Config::default_spec(),
                },
                Option::None => Config::default_spec(),
            }),
    {
        match Self::load(read) {
            Ok(c) => c,
            Err(_) => Config::default(),
        }
    }

    /// Should this system use the VGA console?
    pub fn has_vga_console(&self) -> (r: bool)
        ensures
            r == self.vga_console_on,
    {
        self.vga_console_on
    }

    /// Should this system use the serial console? Where it should, the
    /// fixed port index zero and the full line configuration: eight data
    /// bits, one stop bit, no parity, no handshaking, baud from the record.
    pub fn has_serial_console(&self) -> (r: Option<(u8, SerialPortConfig)>)
        ensures
            self.serial_console_on ==> r == Option::Some((0u8, serial_line_spec(self.serial_baud))),
            !self.serial_console_on ==> r matches Option::None,
    {
        if self.serial_console_on {
            Some(
                (
                    0,
                    SerialPortConfig {
                        data_rate_bps: self.serial_baud,
                        data_bits: DataBits::Eight,
                        stop_bits: StopBits::One,
                        parity: Parity::NoParity,
                        handshaking: Handshaking::NoHandshaking,
                    },
                ),
            )
        } else {
            None
        }
    }

    /// The whole boot decision derived from the record.
    pub fn console_plan(&self) -> (r: ConsolePlan)
        ensures
            r.vga == self.vga_console_on,
            self.serial_console_on ==> r.serial == Option::Some(
                (0u8, serial_line_spec(self.serial_baud)),
            ),
            !self.serial_console_on ==> r.serial matches Option::None,
    {
        ConsolePlan { vga: self.has_vga_console(), serial: self.has_serial_console() }
    }
}

impl Default for Config {
    /// The hardcoded fallback record.
    fn default() -> (r: Config)
        ensures
            r == Config::default_spec(),
    {
        Config { vga_console_on: true, serial_console_on: false, serial_baud: 115200 }
    }
}

} // verus!
