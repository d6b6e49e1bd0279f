use vstd::prelude::*;

verus! {

/// How often the module outputs a sentence: once every `n` fixes, 0 for off.
#[derive(Clone, Copy, Debug, PartialEq, Eq, Structural)]
pub struct PcasSentenceRate(pub u8);

impl PcasSentenceRate {
    /// Sentence output switched off.
    pub fn off() -> (r: PcasSentenceRate)
        ensures
            r.0 == 0,
    {
        PcasSentenceRate(0)
    }

    /// One sentence every `n` fixes.
    pub fn every_n(n: u8) -> (r: PcasSentenceRate)
        ensures
            r.0 == n,
    {
        PcasSentenceRate(n)
    }
}

/// The PCAS03 sentence-rate configuration of the L76K.
#[derive(Clone, Copy, Debug, PartialEq, Eq, Structural)]
pub struct Pcas03 {
    pub gga: PcasSentenceRate,
    pub gll: PcasSentenceRate,
    pub gsa: PcasSentenceRate,
    pub gsv: PcasSentenceRate,
    pub rmc: PcasSentenceRate,
    pub vtg: PcasSentenceRate,
    pub zda: PcasSentenceRate,
    pub ant: PcasSentenceRate,
}

/// ASCII decimal digits of a number, without leading zeros.
pub open spec fn decimal(n: u8) -> Seq<u8> {
    if n < 10 {
        seq![(48 + n) as u8]
    } else if n < 100 {
        seq![(48 + n / 10) as u8, (48 + n % 10) as u8]
    } else {
        seq![(48 + n / 100) as u8, (48 + (n / 10) % 10) as u8, (48 + n % 10) as u8]
    }
}

/// XOR of all bytes: the NMEA checksum of a sentence body.
pub open spec fn xor_all(s: Seq<u8>) -> u8
    decreases s.len(),
{
    if s.len() == 0 {
        0
    } else {
        xor_all(s.drop_last()) ^ s.last()
    }
}

/// Upper-case hexadecimal digit of a value below 16.
pub open spec fn hex_digit(v: u8) -> u8 {
    if v < 10 { (48 + v) as u8 } else { (55 + v) as u8 }
}

/// The value of an upper-case hexadecimal digit.
pub open spec fn hex_value(c: u8) -> u8 {
    if c <= 57 { (c - 48) as u8 } else { (c - 55) as u8 }
}

/// A sentence body framed as NMEA: `$`, the body, `*`, the two hex digits
/// of its checksum, and CR LF.
pub open spec fn nmea_frame(body: Seq<u8>) -> Seq<u8> {
    let cs = xor_all(body);
    seq![36u8] + body + seq![42u8, hex_digit(cs >> 4u8), hex_digit(cs & 15u8), 13u8, 10u8]
}

/// The body of a PCAS03 command: `PCAS03` followed by the eight rates,
/// each after a comma.
pub open spec fn pcas03_body(c: Pcas03) -> Seq<u8> {
    seq![80u8, 67u8, 65u8, 83u8, 48u8, 51u8]
        + seq![44u8] + decimal(c.gga.0)
        + seq![44u8] + decimal(c.gll.0)
        + seq![44u8] + decimal(c.gsa.0)
        + seq![44u8] + decimal(c.gsv.0)
        + seq![44u8] + decimal(c.rmc.0)
        + seq![44u8] + decimal(c.vtg.0)
        + seq![44u8] + decimal(c.zda.0)
        + seq![44u8] + decimal(c.ant.0)
}

fn push_decimal(out: &mut Vec<u8>, n: u8)
    ensures
        final(out)@ == old(out)@ + decimal(n),
{
    if n >= 100 {
        out.push(48 + n / 100);
    }
    if n >= 10 {
        out.push(48 + (n / 10) % 10);
    }
    out.push(48 + n % 10);
    assert(n >= 10 && n < 100 ==> n / 10 < 10);
    assert(final(out)@ =~= old(out)@ + decimal(n));
}

fn hex_digit_of(v: u8) -> (c: u8)
    requires
        v < 16,
    ensures
        c == hex_digit(v),
{
    if v < 10 { 48 + v } else { 55 + v }
}

/// Frames a sentence body as NMEA with its checksum.
pub fn frame_sentence(body: &Vec<u8>) -> (out: Vec<u8>)
    requires
        body@.len() + 6 <= usize::MAX,
    ensures
        out@ == nmea_frame(body@),
{
    let mut out: Vec<u8> = Vec::new();
    out.push(36);
    let mut cs: u8 = 0;
    let mut i: usize = 0;
    while i < body.len()
        invariant
            i <= body@.len(),
            out@ == seq![36u8] + body@.take(i as int),
            cs == xor_all(body@.take(i as int)),
        decreases body@.len() - i,
    {
        let b = body[i];
        assert(body@.take(i + 1).drop_last() =~= body@.take(i as int));
        cs = cs ^ b;
        out.push(b);
        i = i + 1;
        assert(out@ =~= seq![36u8] + body@.take(i as int));
    }
    assert(body@.take(body@.len() as int) =~= body@);
    out.push(42);
    let hi = cs >> 4u8;
    let lo = cs & 15u8;
    assert(hi < 16 && lo < 16) by (bit_vector)
        requires
            hi == cs >> 4u8,
            lo == cs & 15u8,
    ;
    out.push(hex_digit_of(hi));
    out.push(hex_digit_of(lo));
    out.push(13);
    out.push(10);
    assert(out@ =~= nmea_frame(body@));
    out
}

impl Pcas03 {
    /// The body of this command, before NMEA framing.
    pub fn body(&self) -> (b: Vec<u8>)
        ensures
            b@ == pcas03_body(*self),
    {
        let mut b: Vec<u8> = Vec::new();
        b.push(80);
        b.push(67);
        b.push(65);
        b.push(83);
        b.push(48);
        b.push(51);
        b.push(44);
        push_decimal(&mut b, self.gga.0);
        b.push(44);
        push_decimal(&mut b, self.gll.0);
        b.push(44);
        push_decimal(&mut b, self.gsa.0);
        b.push(44);
        push_decimal(&mut b, self.gsv.0);
        b.push(44);
        push_decimal(&mut b, self.rmc.0);
        b.push(44);
        push_decimal(&mut b, self.vtg.0);
        b.push(44);
        push_decimal(&mut b, self.zda.0);
        b.push(44);
        push_decimal(&mut b, self.ant.0);
        assert(b@ =~= pcas03_body(*self));
        b
    }

}

/// The constellations the receiver tracks, as set by PCAS04.
#[derive(Clone, Copy, Debug, PartialEq, Eq, Structural)]
pub enum PcasGnssMode {
    Gps,
    BeiDou,
    GpsBeiDou,
    Glonass,
    GpsGlonass,
    BeiDouGlonass,
    GpsBeiDouGlonass,
}

/// The mode number that PCAS04 sends: one bit each for GPS, BeiDou and
/// GLONASS.
pub open spec fn gnss_code(m: PcasGnssMode) -> u8 {
    match m {
        PcasGnssMode::Gps => 1,
        PcasGnssMode::BeiDou => 2,
        PcasGnssMode::GpsBeiDou => 3,
        PcasGnssMode::Glonass => 4,
        PcasGnssMode::GpsGlonass => 5,
        PcasGnssMode::BeiDouGlonass => 6,
        PcasGnssMode::GpsBeiDouGlonass => 7,
    }
}

impl PcasGnssMode {
    /// The mode number that PCAS04 sends.
    pub fn code(&self) -> (n: u8)
        ensures
            n == gnss_code(*self),
    {
        match self {
            PcasGnssMode::Gps => 1,
            PcasGnssMode::BeiDou => 2,
            PcasGnssMode::GpsBeiDou => 3,
            PcasGnssMode::Glonass => 4,
            PcasGnssMode::GpsGlonass => 5,
            PcasGnssMode::BeiDouGlonass => 6,
            PcasGnssMode::GpsBeiDouGlonass => 7,
        }
    }
}

/// The mode tracks GPS.
pub open spec fn tracks_gps(m: PcasGnssMode) -> bool {
    m is Gps || m is GpsBeiDou || m is GpsGlonass || m is GpsBeiDouGlonass
}

/// The mode tracks BeiDou.
pub open spec fn tracks_beidou(m: PcasGnssMode) -> bool {
    m is BeiDou || m is GpsBeiDou || m is BeiDouGlonass || m is GpsBeiDouGlonass
}

/// The mode tracks GLONASS.
pub open spec fn tracks_glonass(m: PcasGnssMode) -> bool {
    m is Glonass || m is GpsGlonass || m is BeiDouGlonass || m is GpsBeiDouGlonass
}

/// The PCAS04 mode number is the bit mask of the constellations the mode
/// names: bit 0 for GPS, bit 1 for BeiDou, bit 2 for GLONASS; so distinct
/// modes send distinct numbers, from 1 to 7.
pub proof fn lemma_gnss_code_is_bit_mask(m: PcasGnssMode, other: PcasGnssMode)
    ensures
        gnss_code(m) as int == (if tracks_gps(m) { 1int } else { 0 }) + (if tracks_beidou(m) { 2int } else { 0 })
            + (if tracks_glonass(m) { 4int } else { 0 }),
        (gnss_code(m) & 1u8 != 0) <==> tracks_gps(m),
        (gnss_code(m) & 2u8 != 0) <==> tracks_beidou(m),
        (gnss_code(m) & 4u8 != 0) <==> tracks_glonass(m),
        1 <= gnss_code(m) <= 7,
        gnss_code(m) == gnss_code(other) ==> m == other,
{
    assert(1u8 & 1u8 == 1u8 && 1u8 & 2u8 == 0u8 && 1u8 & 4u8 == 0u8) by (bit_vector);
    assert(2u8 & 1u8 == 0u8 && 2u8 & 2u8 == 2u8 && 2u8 & 4u8 == 0u8) by (bit_vector);
    assert(3u8 & 1u8 == 1u8 && 3u8 & 2u8 == 2u8 && 3u8 & 4u8 == 0u8) by (bit_vector);
    assert(4u8 & 1u8 == 0u8 && 4u8 & 2u8 == 0u8 && 4u8 & 4u8 == 4u8) by (bit_vector);
    assert(5u8 & 1u8 == 1u8 && 5u8 & 2u8 == 0u8 && 5u8 & 4u8 == 4u8) by (bit_vector);
    assert(6u8 & 1u8 == 0u8 && 6u8 & 2u8 == 2u8 && 6u8 & 4u8 == 4u8) by (bit_vector);
    assert(7u8 & 1u8 == 1u8 && 7u8 & 2u8 == 2u8 && 7u8 & 4u8 == 4u8) by (bit_vector);
}

/// The PCAS configuration commands the driver sends.
#[derive(Clone, Copy, Debug, PartialEq, Eq, Structural)]
pub enum PcasCommand {
    Pcas03SetSentenceRates(Pcas03),
    Pcas04SetGnss(PcasGnssMode),
}

/// The body of a command, before NMEA framing; PCAS04 is `PCAS04` and the
/// mode number after a comma.
pub open spec fn command_body(c: PcasCommand) -> Seq<u8> {
    match c {
        PcasCommand::Pcas03SetSentenceRates(r) => pcas03_body(r),
        PcasCommand::Pcas04SetGnss(m) => seq![80u8, 67u8, 65u8, 83u8, 48u8, 52u8, 44u8] + decimal(gnss_code(m)),
    }
}

/// A command framed for sending.
pub struct EncodedCommand {
    bytes: Vec<u8>,
}

impl View for EncodedCommand {
    type V = Seq<u8>;

    closed spec fn view(&self) -> Seq<u8> {
        self.bytes@
    }
}

impl EncodedCommand {
    /// The bytes to write to the UART.
    pub fn as_bytes(&self) -> (b: &[u8])
        ensures
            b@ == self@,
    {
        self.bytes.as_slice()
    }
}

impl PcasCommand {
    /// The body of this command, before NMEA framing.
    pub fn body(&self) -> (b: Vec<u8>)
        ensures
            b@ == command_body(*self),
            b@.len() <= 38,
    {
        match self {
            PcasCommand::Pcas03SetSentenceRates(r) => r.body(),
            PcasCommand::Pcas04SetGnss(m) => {
                let mut b: Vec<u8> = Vec::new();
                b.push(80);
                b.push(67);
                b.push(65);
                b.push(83);
                b.push(48);
                b.push(52);
                b.push(44);
                push_decimal(&mut b, m.code());
                assert(b@ =~= command_body(*self));
                b
            },
        }
    }

    /// Encodes the command as an NMEA frame, if the frame fits in
    /// `capacity` bytes.
    pub fn encode(&self, capacity: usize) -> (out: Option<EncodedCommand>)
        ensures
            out is Some <==> nmea_frame(command_body(*self)).len() <= capacity,
            out matches Some(e) ==> e@ == nmea_frame(command_body(*self)),
    {
        let body = self.body();
        let framed = frame_sentence(&body);
        if framed.len() <= capacity {
            Some(EncodedCommand { bytes: framed })
        } else {
            None
        }
    }
}

/// The sentence configuration for normal runtime: one GGA and one RMC
/// sentence per fix, every other sentence off.
pub fn default_output() -> (c: Pcas03)
    ensures
        c.gga.0 == 1 && c.rmc.0 == 1,
        c.gll.0 == 0 && c.gsa.0 == 0 && c.gsv.0 == 0,
        c.vtg.0 == 0 && c.zda.0 == 0 && c.ant.0 == 0,
{
    Pcas03 {
        gga: PcasSentenceRate::every_n(1),
        gll: PcasSentenceRate::off(),
        gsa: PcasSentenceRate::off(),
        gsv: PcasSentenceRate::off(),
        rmc: PcasSentenceRate::every_n(1),
        vtg: PcasSentenceRate::off(),
        zda: PcasSentenceRate::off(),
        ant: PcasSentenceRate::off(),
    }
}

/// Every encoded frame passes a receiver's checksum test: the two hex
/// digits after `*` read back as the XOR of the bytes between `$` and `*`.
pub proof fn lemma_checksum_reads_back(body: Seq<u8>)
    ensures
        ({
            let f = nmea_frame(body);
            let n = body.len() as int;
            &&& f.len() == n + 6
            &&& f[0] == 36u8
            &&& f.subrange(1, n + 1) == body
            &&& f[n + 1] == 42u8
            &&& hex_value(f[n + 2]) * 16 + hex_value(f[n + 3]) == xor_all(body)
            &&& f[n + 4] == 13u8 && f[n + 5] == 10u8
        }),
{
    let f = nmea_frame(body);
    let n = body.len() as int;
    let cs = xor_all(body);
    let hi = cs >> 4u8;
    let lo = cs & 15u8;
    assert(hi < 16 && lo < 16 && hi * 16 + lo == cs) by (bit_vector)
        requires
            hi == cs >> 4u8,
            lo == cs & 15u8,
    ;
    assert(f.subrange(1, n + 1) =~= body);
    assert(f[n + 2] == hex_digit(hi));
    assert(f[n + 3] == hex_digit(lo));
}

/// The number that ASCII decimal digits read back as.
pub open spec fn digits_value(d: Seq<u8>) -> int
    decreases d.len(),
{
    if d.len() == 0 {
        0
    } else {
        digits_value(d.drop_last()) * 10 + (d.last() - 48)
    }
}

/// A rate or mode number is written as its shortest decimal: one to three
/// ASCII digits that read back as the number, with no leading zero.
pub proof fn lemma_decimal_reads_back(n: u8)
    ensures
        1 <= decimal(n).len() <= 3,
        forall|i: int| 0 <= i < decimal(n).len() ==> 48 <= #[trigger] decimal(n)[i] <= 57,
        digits_value(decimal(n)) == n,
        decimal(n).len() > 1 ==> decimal(n)[0] != 48u8,
{
    let d = decimal(n);
    reveal_with_fuel(digits_value, 4);
    assert(n / 100 < 3 && (n / 10) % 10 < 10 && n % 10 < 10);
    assert(n >= 100 ==> n == (n / 100) * 100 + ((n / 10) % 10) * 10 + n % 10);
    assert(10 <= n < 100 ==> n == (n / 10) * 10 + n % 10);
    if n >= 100 {
        assert(d.drop_last().drop_last() =~= seq![d[0]]);
        assert(d.drop_last() =~= seq![d[0], d[1]]);
        assert(seq![d[0]].drop_last() =~= Seq::<u8>::empty());
    } else if n >= 10 {
        assert(d.drop_last() =~= seq![d[0]]);
        assert(seq![d[0]].drop_last() =~= Seq::<u8>::empty());
    } else {
        assert(d.drop_last() =~= Seq::<u8>::empty());
    }
}

} // verus!
