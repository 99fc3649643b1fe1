//! Time on air of a LoRa frame, in exact arithmetic.

use crate::datatypes::PhyPayload;
use vstd::arithmetic::power2::*;
use vstd::prelude::*;

verus! {

/// A duration in seconds, held as the quotient of two whole numbers.
#[derive(Clone, Copy, Debug, PartialEq, Eq, Structural)]
pub struct Airtime {
    numerator: u128,
    denominator: u64,
}

/// What an `Airtime` stands for: `numerator / denominator` seconds.
pub ghost struct Ratio {
    pub numerator: nat,
    pub denominator: nat,
}

impl View for Airtime {
    type V = Ratio;

    closed spec fn view(&self) -> Ratio {
        Ratio { numerator: self.numerator as nat, denominator: self.denominator as nat }
    }
}

impl Airtime {
    #[verifier::type_invariant]
    spec fn positive_denominator(self) -> bool {
        self.denominator > 0
    }

    /// No time at all.
    pub fn zero() -> (t: Airtime)
        ensures
            t@ == (Ratio { numerator: 0, denominator: 1 }),
    {
        Airtime { numerator: 0, denominator: 1 }
    }

    /// `numerator / denominator` seconds, unless the denominator is zero.
    pub fn new(numerator: u128, denominator: u64) -> (t: Option<Airtime>)
        ensures
            denominator == 0 <==> t is None,
            t matches Some(a) ==> a@ == (Ratio {
                numerator: numerator as nat,
                denominator: denominator as nat,
            }),
    {
        if denominator == 0 {
            None
        } else {
            Some(Airtime { numerator, denominator })
        }
    }

    /// The dividend of the quotient.
    pub fn numerator(&self) -> (n: u128)
        ensures
            n == self@.numerator,
    {
        self.numerator
    }

    /// The divisor of the quotient, which is never zero.
    pub fn denominator(&self) -> (d: u64)
        ensures
            d == self@.denominator,
            d > 0,
    {
        proof {
            use_type_invariant(self);
        }
        self.denominator
    }

    /// Whether the duration is zero.
    pub fn is_zero(&self) -> (z: bool)
        ensures
            z == (self@.numerator == 0),
    {
        self.numerator == 0
    }
}

impl Default for Airtime {
    fn default() -> (t: Airtime)
        ensures
            t@ == (Ratio { numerator: 0, denominator: 1 }),
    {
        Airtime::zero()
    }
}

/// The modulation parameters of a LoRa transmission that the estimate reads.
#[derive(Clone, Copy, Debug, PartialEq, Eq, Structural)]
pub struct LoraModulationInfo {
    /// Channel bandwidth in kilohertz.
    pub bandwidth: u32,
    pub spreading_factor: u32,
}

impl LoraModulationInfo {
    /// The parameters of a channel whose bandwidth is given in hertz: the
    /// whole kilohertz of it, and the spreading factor as it is.
    pub fn from_hertz(bandwidth_hz: u32, spreading_factor: u32) -> (m: LoraModulationInfo)
        ensures
            m.bandwidth == bandwidth_hz / 1000,
            m.spreading_factor == spreading_factor,
    {
        LoraModulationInfo { bandwidth: bandwidth_hz / 1000, spreading_factor }
    }

    /// Whether the time on air is defined for these parameters.
    pub fn is_valid(&self) -> (ok: bool)
        ensures
            ok == valid_modulation(self.bandwidth as int, self.spreading_factor as int),
    {
        self.bandwidth > 0 && 6 <= self.spreading_factor && self.spreading_factor <= 12
    }
}

/// The spreading factors that LoRa knows.
pub open spec fn valid_spreading_factor(spreading_factor: int) -> bool {
    6 <= spreading_factor <= 12
}

/// The parameters for which the time on air is defined.
pub open spec fn valid_modulation(bandwidth_khz: int, spreading_factor: int) -> bool {
    bandwidth_khz > 0 && valid_spreading_factor(spreading_factor)
}

/// Whether the low-data-rate optimisation is on: only on a 125 kHz channel
/// at spreading factor 11 or above.
pub open spec fn low_data_rate(bandwidth_khz: int, spreading_factor: int) -> bool {
    bandwidth_khz == 125 && spreading_factor >= 11
}

/// The quotient `a / b`, rounded up to a whole number, for a positive `b`.
pub open spec fn ceil_div(a: int, b: int) -> int {
    (a + b - 1) / b
}

/// Number of payload symbols of a frame of `len` bytes: eight, and five more
/// for each started group of `4 * (sf - 2 * de)` bits beyond what the header
/// symbols carry. A negative count of groups adds nothing.
pub open spec fn payload_symbols(len: nat, spreading_factor: int, optimize: bool) -> int {
    let de: int = if optimize { 1 } else { 0 };
    let groups = ceil_div(8 * len - 4 * spreading_factor + 44, 4 * (spreading_factor - 2 * de));
    8 + if groups > 0 { groups * 5 } else { 0 }
}

/// The time on air in seconds of a frame of `len` bytes: twelve and a half
/// preamble symbols and the payload symbols, each lasting
/// `2^sf / (1000 * bandwidth_khz)` seconds.
pub open spec fn airtime(len: nat, bandwidth_khz: int, spreading_factor: int) -> Ratio {
    let symbols = payload_symbols(
        len,
        spreading_factor,
        low_data_rate(bandwidth_khz, spreading_factor),
    );
    Ratio {
        numerator: ((25 + 2 * symbols) * pow2(spreading_factor as nat)) as nat,
        denominator: (2000 * bandwidth_khz) as nat,
    }
}

/// `ceil_div(a, b)` is the least whole number whose product with `b` reaches `a`.
pub proof fn lemma_ceil_div(a: int, b: int)
    requires
        b > 0,
    ensures
        ceil_div(a, b) * b >= a,
        (ceil_div(a, b) - 1) * b < a,
{
    let q = ceil_div(a, b);
    vstd::arithmetic::div_mod::lemma_fundamental_div_mod(a + b - 1, b);
    let r = (a + b - 1) % b;
    assert(0 <= r < b) by (nonlinear_arith)
        requires
            b > 0,
            r == (a + b - 1) % b,
    ;
    assert(b * q == q * b) by (nonlinear_arith);
    assert((q - 1) * b == q * b - b) by (nonlinear_arith);
}

/// Every frame has at least the eight symbols: nothing is ever taken off.
pub proof fn lemma_payload_symbols_at_least_eight(len: nat, spreading_factor: int, optimize: bool)
    ensures
        payload_symbols(len, spreading_factor, optimize) >= 8,
{
}

/// A longer frame never has fewer payload symbols.
pub proof fn lemma_payload_symbols_monotonic(
    shorter: nat,
    longer: nat,
    spreading_factor: int,
    optimize: bool,
)
    requires
        shorter <= longer,
        valid_spreading_factor(spreading_factor),
    ensures
        payload_symbols(shorter, spreading_factor, optimize) <= payload_symbols(
            longer,
            spreading_factor,
            optimize,
        ),
{
    let de: int = if optimize { 1 } else { 0 };
    let b = 4 * (spreading_factor - 2 * de);
    let x = 8 * shorter - 4 * spreading_factor + 44 + b - 1;
    let y = 8 * longer - 4 * spreading_factor + 44 + b - 1;
    vstd::arithmetic::div_mod::lemma_div_is_ordered(x, y, b);
}

/// Whether the low-data-rate optimisation is on.
pub fn low_data_rate_optimize(bandwidth_khz: u32, spreading_factor: u32) -> (on: bool)
    ensures
        on == low_data_rate(bandwidth_khz as int, spreading_factor as int),
        on <==> bandwidth_khz == 125 && spreading_factor >= 11,
{
    bandwidth_khz == 125 && spreading_factor >= 11
}

/// Number of payload symbols of a frame of `len` bytes.
pub fn payload_symbol_count(len: usize, spreading_factor: u32, optimize: bool) -> (n: u128)
    requires
        valid_spreading_factor(spreading_factor as int),
    ensures
        n == payload_symbols(len as nat, spreading_factor as int, optimize),
        8 <= n <= 8 + 5 * (8 * len + 44),
{
    let bits: u128 = 8 * (len as u128) + 44;
    let header: u128 = 4 * (spreading_factor as u128);
    let de: u128 = if optimize { 1 } else { 0 };
    let group: u128 = 4 * (spreading_factor as u128 - 2 * de);
    let ghost a: int = bits - header;
    let ghost b: int = group as int;
    if bits <= header {
        assert(ceil_div(a, b) <= 0) by (nonlinear_arith)
            requires
                a <= 0,
                b > 0,
        ;
        8
    } else {
        let groups: u128 = (bits - header + group - 1) / group;
        assert(0 < groups <= a) by (nonlinear_arith)
            requires
                a >= 1,
                b >= 1,
                groups == (a + b - 1) / b,
        ;
        8 + groups * 5
    }
}

fn two_to_the(exponent: u32) -> (p: u128)
    requires
        exponent <= 12,
    ensures
        p == pow2(exponent as nat),
        p <= 4096,
{
    let mut p: u128 = 1;
    let mut i: u32 = 0;
    proof {
        lemma2_to64();
    }
    while i < exponent
        invariant
            i <= exponent <= 12,
            p == pow2(i as nat),
            p <= 4096,
        decreases exponent - i,
    {
        proof {
            lemma2_to64();
            lemma_pow2_unfold((i + 1) as nat);
            if i + 1 < 12 {
                lemma_pow2_strictly_increases((i + 1) as nat, 12);
            }
        }
        p = p * 2;
        i = i + 1;
    }
    p
}

/// The time on air of the encoded frame `phy` on a channel of `bw` kilohertz
/// at spreading factor `sf`.
pub fn time_on_air(phy: &[u8], bw: u32, sf: u32) -> (t: Airtime)
    requires
        valid_modulation(bw as int, sf as int),
    ensures
        t@ == airtime(phy@.len(), bw as int, sf as int),
{
    let optimize = low_data_rate_optimize(bw, sf);
    let symbols = payload_symbol_count(phy.len(), sf, optimize);
    let symbol_units = two_to_the(sf);
    let halves: u128 = 25 + 2 * symbols;
    assert(halves * symbol_units <= 0x100_0000_0000_0000_0000_0000u128) by (nonlinear_arith)
        requires
            halves <= 0x1000_0000_0000_0000_0000u128,
            symbol_units <= 4096,
    ;
    Airtime { numerator: halves * symbol_units, denominator: 2000 * (bw as u64) }
}

/// The time on air of a frame that may have failed to encode: that of its
/// encoding, and no time at all where there is none.
pub open spec fn packet_airtime(encoded: Option<Vec<u8>>, info: LoraModulationInfo) -> Ratio {
    match encoded {
        Some(frame) => airtime(frame@.len(), info.bandwidth as int, info.spreading_factor as int),
        None => Ratio { numerator: 0, denominator: 1 },
    }
}

/// The time on air of `phy_payload` when sent with the modulation `info`.
/// A frame that could not be encoded takes no time: a record is never held
/// up by it.
pub fn packet_to_time_on_air(phy_payload: &PhyPayload, info: LoraModulationInfo) -> (t: Airtime)
    requires
        valid_modulation(info.bandwidth as int, info.spreading_factor as int),
    ensures
        t@ == packet_airtime(phy_payload.encoded, info),
{
    match &phy_payload.encoded {
        Some(frame) => time_on_air(frame.as_slice(), info.bandwidth, info.spreading_factor),
        None => Airtime::zero(),
    }
}

} // verus!
