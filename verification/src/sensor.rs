//! Power-sensor decisions with runtime detection: INA219 or INA700.
//!
//! Some hardware revisions ship a TI INA700 (integrated shunt, address 0x44)
//! in place of the INA219 (external 0.01 ohm shunt). Detection probes the
//! INA700's MANUFACTURER_ID register up to three times at boot and falls back
//! to the INA219. After several consecutive failed reads in INA219 mode the
//! probe is retried, so a slow-to-wake INA700 is recovered at runtime.
//!
//! The firmware performs the I2C transactions; the types here decide which
//! register to read next and how to interpret what came back. Scaling the
//! INA700's fixed-point readings and computing power use floating point and
//! stay with the firmware.

use vstd::prelude::*;

verus! {

/// INA700 I2C address (A0 = GND).
pub const INA700_ADDR: u8 = 0x44;
/// INA700 bus voltage register.
pub const INA700_REG_VBUS: u8 = 0x05;
/// INA700 current register.
pub const INA700_REG_CURRENT: u8 = 0x07;
/// INA700 MANUFACTURER_ID register.
pub const INA700_REG_MANUFACTURER_ID: u8 = 0x3E;
/// MANUFACTURER_ID reads "TI" in ASCII.
pub const MFG_ID_TI: u16 = 0x5449;
/// INA219 shunt voltage register (i16, 10 uV/LSB).
pub const INA219_REG_SHUNT: u8 = 0x01;
/// INA219 bus voltage register (bits 15..3, 4 mV/LSB).
pub const INA219_REG_BUS: u8 = 0x02;
/// Consecutive failed INA219 reads after which the INA700 probe is retried.
pub const REDETECT_AFTER_FAILURES: u8 = 5;
/// Probes of the INA700 at boot.
pub const DETECT_ATTEMPTS: u8 = 3;
/// Pause before each boot probe after the first.
pub const PROBE_RETRY_DELAY_MS: u32 = 50;

/// Which chip is fitted.
#[derive(Clone, Copy, PartialEq, Eq, Debug, Structural)]
pub enum Kind {
    Ina219,
    Ina700,
}

/// Big-endian value of two bytes.
pub fn u16_from_be_bytes(hi: u8, lo: u8) -> (r: u16)
    ensures
        r == hi * 256 + lo,
{
    (hi as u16) * 256 + (lo as u16)
}

/// A register value read as a two's-complement 16-bit number.
pub open spec fn signed16(raw: u16) -> int {
    if raw < 0x8000 {
        raw as int
    } else {
        raw - 0x1_0000
    }
}

/// Reinterpret a register value as a signed 16-bit number.
pub fn as_signed(raw: u16) -> (r: i16)
    ensures
        r == signed16(raw),
{
    if raw < 0x8000 {
        raw as i16
    } else {
        ((raw as i32) - 0x1_0000) as i16
    }
}

/// INA219 bus voltage in mV: bits 15..3 of the register, 4 mV per step.
pub fn ina219_bus_mv(raw: u16) -> (mv: u32)
    ensures
        mv == (raw as int / 8) * 4,
{
    let steps = raw >> 3;
    assert(steps == raw / 8) by (bit_vector)
        requires
            steps == raw >> 3,
    ;
    (steps as u32) * 4
}

/// INA219 current in mA: with the 0.01 ohm shunt one 10 uV step of the
/// signed shunt register is 1 mA.
pub fn ina219_current_ma(raw: u16) -> (ma: i16)
    ensures
        ma == signed16(raw),
{
    as_signed(raw)
}

/// Whether a MANUFACTURER_ID read (`None` if the transaction failed) shows an
/// INA700.
pub fn probe_found_ina700(id: Option<(u8, u8)>) -> (r: bool)
    ensures
        r == (id matches Some((hi, lo)) && hi * 256 + lo == MFG_ID_TI),
{
    match id {
        Some((hi, lo)) => u16_from_be_bytes(hi, lo) == MFG_ID_TI,
        None => false,
    }
}

/// The power monitor's detected chip and failure count.
#[derive(Clone, Copy, PartialEq, Eq, Debug, Structural)]
pub struct PowerSensor {
    pub ina219_addr: u8,
    pub kind: Kind,
    pub consecutive_failures: u8,
}

/// What to do after the voltage register read.
#[derive(Clone, Copy, PartialEq, Eq, Debug, Structural)]
pub enum ReadStep {
    /// Report zeros for this reading.
    Zeros,
    /// Read the current register at (address, register).
    ReadCurrent(u8, u8),
    /// Probe for an INA700 now (then report zeros).
    Redetect,
}

/// `s` with its failure count replaced.
pub open spec fn with_failures(s: PowerSensor, n: int) -> PowerSensor {
    PowerSensor { ina219_addr: s.ina219_addr, kind: s.kind, consecutive_failures: n as u8 }
}

/// The sensor and the next step after a voltage register read (`None` if it
/// failed).
pub open spec fn after_voltage_read(s: PowerSensor, raw: Option<u16>) -> (PowerSensor, ReadStep) {
    match s.kind {
        Kind::Ina219 => match raw {
            Some(_) => (with_failures(s, 0), ReadStep::ReadCurrent(s.ina219_addr, INA219_REG_SHUNT)),
            None => if s.consecutive_failures + 1 >= REDETECT_AFTER_FAILURES {
                (with_failures(s, 0), ReadStep::Redetect)
            } else {
                (with_failures(s, s.consecutive_failures + 1), ReadStep::Zeros)
            },
        },
        Kind::Ina700 => (
            s,
            match raw {
                Some(_) => ReadStep::ReadCurrent(INA700_ADDR, INA700_REG_CURRENT),
                None => ReadStep::Zeros,
            },
        ),
    }
}

/// A successful voltage read always goes on to the current reading, whatever
/// value (and whatever status bits) the register held: the INA219's shunt
/// register (0x01) at its address, or the INA700's current register (0x07)
/// at 0x44; in INA219 mode it also clears the failure count. A failed read
/// never goes on to a current reading.
pub proof fn lemma_voltage_read_steps(s: PowerSensor, raw: Option<u16>)
    ensures
        s.kind == Kind::Ina219 && raw is Some ==> {
            &&& after_voltage_read(s, raw).1 == ReadStep::ReadCurrent(s.ina219_addr, 0x01)
            &&& after_voltage_read(s, raw).0 == PowerSensor {
                ina219_addr: s.ina219_addr,
                kind: Kind::Ina219,
                consecutive_failures: 0,
            }
        },
        s.kind == Kind::Ina700 && raw is Some ==> after_voltage_read(s, raw) == (
            s,
            ReadStep::ReadCurrent(0x44, 0x07),
        ),
        raw is None ==> !(after_voltage_read(s, raw).1 is ReadCurrent),
        forall|r1: u16, r2: u16|
            #![trigger after_voltage_read(s, Some(r1)), after_voltage_read(s, Some(r2))]
            after_voltage_read(s, Some(r1)) == after_voltage_read(s, Some(r2)),
{
}

/// The sensor after `n` failed voltage reads in a row.
pub open spec fn after_failed_reads(s: PowerSensor, n: nat) -> PowerSensor
    decreases n,
{
    if n == 0 {
        s
    } else {
        after_voltage_read(after_failed_reads(s, (n - 1) as nat), None).0
    }
}

/// Failed reads below the threshold only count up.
proof fn lemma_failed_reads_count(s: PowerSensor, n: nat)
    requires
        s.kind == Kind::Ina219,
        s.consecutive_failures + n < REDETECT_AFTER_FAILURES,
    ensures
        after_failed_reads(s, n) == with_failures(s, s.consecutive_failures + n),
    decreases n,
{
    if n > 0 {
        lemma_failed_reads_count(s, (n - 1) as nat);
    }
}

/// Re-detection: in INA219 mode the INA700 probe is asked for on exactly the
/// failed read that completes a run of five. With `c` failures already
/// counted, the next `4 - c` failed reads report zeros, the one after asks
/// for the probe and restarts the count; the detected chip stays as it was.
pub proof fn lemma_redetect_after_failures(s: PowerSensor)
    requires
        s.kind == Kind::Ina219,
        s.consecutive_failures < REDETECT_AFTER_FAILURES,
    ensures
        forall|n: nat|
            n < 4 - s.consecutive_failures ==> after_voltage_read(
                #[trigger] after_failed_reads(s, n),
                None,
            ).1 == ReadStep::Zeros,
        after_voltage_read(after_failed_reads(s, (4 - s.consecutive_failures) as nat), None).1
            == ReadStep::Redetect,
        after_voltage_read(after_failed_reads(s, (4 - s.consecutive_failures) as nat), None).0
            == with_failures(s, 0),
{
    assert forall|n: nat| n < 4 - s.consecutive_failures implies after_voltage_read(
        #[trigger] after_failed_reads(s, n),
        None,
    ).1 == ReadStep::Zeros by {
        lemma_failed_reads_count(s, n);
    }
    lemma_failed_reads_count(s, (4 - s.consecutive_failures) as nat);
}

/// In INA219 mode the failure count stays below the re-detection threshold,
/// whatever a read returns.
pub proof fn lemma_failure_count_bounded(s: PowerSensor, raw: Option<u16>)
    requires
        s.consecutive_failures < REDETECT_AFTER_FAILURES,
    ensures
        after_voltage_read(s, raw).0.consecutive_failures < REDETECT_AFTER_FAILURES,
        after_voltage_read(s, raw).0.kind == s.kind,
{
}

impl PowerSensor {
    /// Human-readable name of the detected sensor.
    pub fn kind(&self) -> (name: &'static str)
        ensures
            name@ == (match self.kind {
                Kind::Ina219 => "INA219"@,
                Kind::Ina700 => "INA700"@,
            }),
    {
        match self.kind {
            Kind::Ina219 => "INA219",
            Kind::Ina700 => "INA700",
        }
    }

    /// The (address, register) of the voltage reading.
    pub fn voltage_register(&self) -> (r: (u8, u8))
        ensures
            r == (match self.kind {
                Kind::Ina219 => (self.ina219_addr, INA219_REG_BUS),
                Kind::Ina700 => (INA700_ADDR, INA700_REG_VBUS),
            }),
    {
        match self.kind {
            Kind::Ina219 => (self.ina219_addr, INA219_REG_BUS),
            Kind::Ina700 => (INA700_ADDR, INA700_REG_VBUS),
        }
    }

    /// Take the result of the voltage register read (`None` if it failed).
    /// In INA219 mode a failure is counted; on the fifth consecutive one the
    /// count restarts and the INA700 probe is retried. A success resets the
    /// count. In INA700 mode failures are not counted.
    pub fn on_voltage_read(&mut self, raw: Option<u16>) -> (step: ReadStep)
        ensures
            (*final(self), step) == after_voltage_read(*old(self), raw),
            old(self).kind == Kind::Ina219 && raw is Some ==> step == ReadStep::ReadCurrent(
                old(self).ina219_addr,
                0x01,
            ) && final(self).consecutive_failures == 0,
            old(self).kind == Kind::Ina700 && raw is Some ==> step == ReadStep::ReadCurrent(
                0x44,
                0x07,
            ),
    {
        proof {
            lemma_voltage_read_steps(*self, raw);
        }
        match self.kind {
            Kind::Ina219 => match raw {
                None => {
                    if self.note_failure() {
                        ReadStep::Redetect
                    } else {
                        ReadStep::Zeros
                    }
                },
                Some(_) => {
                    self.consecutive_failures = 0;
                    ReadStep::ReadCurrent(self.ina219_addr, INA219_REG_SHUNT)
                },
            },
            Kind::Ina700 => match raw {
                None => ReadStep::Zeros,
                Some(_) => ReadStep::ReadCurrent(INA700_ADDR, INA700_REG_CURRENT),
            },
        }
    }

    /// Count a failed read; returns whether the INA700 probe is due.
    fn note_failure(&mut self) -> (probe: bool)
        ensures
            final(self).ina219_addr == old(self).ina219_addr,
            final(self).kind == old(self).kind,
            probe == (old(self).consecutive_failures + 1 >= REDETECT_AFTER_FAILURES),
            final(self).consecutive_failures == (if probe {
                0
            } else {
                old(self).consecutive_failures + 1
            }),
    {
        self.consecutive_failures = self.consecutive_failures.saturating_add(1);
        if self.consecutive_failures >= REDETECT_AFTER_FAILURES {
            self.consecutive_failures = 0;
            true
        } else {
            false
        }
    }

    /// Take the result of a runtime INA700 probe: switch to the INA700 if it
    /// answered, else stay as before.
    pub fn on_redetect_probe(&mut self, id: Option<(u8, u8)>)
        ensures
            final(self).ina219_addr == old(self).ina219_addr,
            final(self).consecutive_failures == old(self).consecutive_failures,
            final(self).kind == (if id matches Some((hi, lo)) && hi * 256 + lo == MFG_ID_TI {
                Kind::Ina700
            } else {
                old(self).kind
            }),
    {
        if probe_found_ina700(id) {
            self.kind = Kind::Ina700;
        }
    }
}

/// Boot-time detection in progress.
#[derive(Clone, Copy, PartialEq, Eq, Debug, Structural)]
pub struct Detection {
    pub ina219_addr: u8,
    pub attempts: u8,
    pub found: bool,
}

/// What detection needs next.
#[derive(Clone, Copy, PartialEq, Eq, Debug, Structural)]
pub enum DetectStep {
    /// Wait this long, then probe the INA700's MANUFACTURER_ID.
    Probe(u32),
    /// Detection is over; take the sensor with [`Detection::finish`].
    Done,
}

/// Start detecting which sensor is fitted.
pub fn detect(ina219_addr: u8) -> (d: Detection)
    ensures
        d == (Detection { ina219_addr, attempts: 0, found: false }),
{
    Detection { ina219_addr, attempts: 0, found: false }
}

impl Detection {
    /// Probe again unless the INA700 answered or three probes were made; the
    /// first probe goes at once, later ones after a short pause.
    pub fn next_step(&self) -> (s: DetectStep)
        ensures
            s == (if self.found || self.attempts >= DETECT_ATTEMPTS {
                DetectStep::Done
            } else if self.attempts > 0 {
                DetectStep::Probe(PROBE_RETRY_DELAY_MS)
            } else {
                DetectStep::Probe(0)
            }),
    {
        if self.found || self.attempts >= DETECT_ATTEMPTS {
            DetectStep::Done
        } else if self.attempts > 0 {
            DetectStep::Probe(PROBE_RETRY_DELAY_MS)
        } else {
            DetectStep::Probe(0)
        }
    }

    /// Take the result of a probe.
    pub fn record_probe(&mut self, id: Option<(u8, u8)>)
        requires
            old(self).attempts < DETECT_ATTEMPTS,
        ensures
            final(self).ina219_addr == old(self).ina219_addr,
            final(self).attempts == old(self).attempts + 1,
            final(self).found == (old(self).found || (id matches Some((hi, lo)) && hi * 256 + lo
                == MFG_ID_TI)),
    {
        self.attempts = self.attempts + 1;
        if probe_found_ina700(id) {
            self.found = true;
        }
    }

    /// The detected sensor: the INA700 if a probe found it, else the INA219.
    pub fn finish(&self) -> (s: PowerSensor)
        ensures
            s == (PowerSensor {
                ina219_addr: self.ina219_addr,
                kind: if self.found {
                    Kind::Ina700
                } else {
                    Kind::Ina219
                },
                consecutive_failures: 0,
            }),
    {
        PowerSensor {
            ina219_addr: self.ina219_addr,
            kind: if self.found {
                Kind::Ina700
            } else {
                Kind::Ina219
            },
            consecutive_failures: 0,
        }
    }
}

} // verus!
