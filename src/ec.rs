use vstd::prelude::*;

verus! {

/// One single-byte write into the EC's register file.
#[derive(Clone, Copy, Debug, PartialEq, Eq, Structural)]
pub struct RegisterWrite {
    pub address: u16,
    pub value: u8,
}

/// The state of the EC's register file after `w` was performed on `regs`.
pub open spec fn apply_write(regs: Map<u16, u8>, w: RegisterWrite) -> Map<u16, u8> {
    regs.insert(w.address, w.value)
}

/// The state after the same write was performed `n` times.
pub open spec fn apply_repeated(regs: Map<u16, u8>, w: RegisterWrite, n: nat) -> Map<u16, u8>
    decreases n,
{
    if n == 0 {
        regs
    } else {
        apply_write(apply_repeated(regs, w, (n - 1) as nat), w)
    }
}

/// The raw register value for a duty of `percent` on a fan whose raw range
/// is `[min_speed, max_speed]`: a linear map, rounded down.
pub open spec fn raw_duty(percent: int, min_speed: int, max_speed: int) -> int {
    min_speed + percent * (max_speed - min_speed) / 100
}

/// The EC's fan registers: where the manual-control flag and the duty byte
/// live, and the raw range of the duty byte.
pub struct FanSpeedController {
    pub ec_path: String,
    pub manual_enable_address: u16,
    pub speed_control_address: u16,
    pub min_speed: u8,
    pub max_speed: u8,
}

impl FanSpeedController {
    /// The raw duty range is not inverted.
    pub open spec fn wf(&self) -> bool {
        self.min_speed <= self.max_speed
    }

    pub open spec fn enable_write(&self) -> RegisterWrite {
        RegisterWrite { address: self.manual_enable_address, value: 1 }
    }

    pub open spec fn disable_write(&self) -> RegisterWrite {
        RegisterWrite { address: self.manual_enable_address, value: 0 }
    }

    /// The write that stores `val` at `addr`.
    pub fn write_ec(&self, addr: u16, val: u8) -> (r: RegisterWrite)
        ensures
            r.address == addr,
            r.value == val,
    {
        RegisterWrite { address: addr, value: val }
    }

    /// The write that hands the fan over to this controller.
    pub fn enable_manual_control(&self) -> (r: RegisterWrite)
        ensures
            r == self.enable_write(),
    {
        self.write_ec(self.manual_enable_address, 1)
    }

    /// The write that gives the fan back to the EC's own logic.
    pub fn disable_manual_control(&self) -> (r: RegisterWrite)
        ensures
            r == self.disable_write(),
    {
        self.write_ec(self.manual_enable_address, 0)
    }

    /// The write that sets the fan to `percent` of its range.
    pub fn write_speed(&self, percent: u8) -> (r: RegisterWrite)
        requires
            self.wf(),
            percent <= 100,
        ensures
            r.address == self.speed_control_address,
            r.value as int == raw_duty(percent as int, self.min_speed as int, self.max_speed as int),
            self.min_speed <= r.value <= self.max_speed,
    {
        let span: u32 = (self.max_speed - self.min_speed) as u32;
        assert(percent as u32 * span <= 25500) by (nonlinear_arith)
            requires
                percent <= 100,
                span <= 255,
        ;
        let scaled: u32 = percent as u32 * span;
        assert(scaled <= 100 * span) by (nonlinear_arith)
            requires
                scaled == percent as u32 * span,
                percent <= 100,
        ;
        let step: u32 = scaled / 100;
        assert(step <= span) by (nonlinear_arith)
            requires
                step == scaled / 100,
                scaled <= 100 * span,
        ;
        let raw: u8 = self.min_speed + step as u8;
        self.write_ec(self.speed_control_address, raw)
    }
}

/// Giving the fan back to the EC any number of times, once or more, leaves
/// the registers as giving it back once does.
pub proof fn lemma_disable_idempotent(c: FanSpeedController, regs: Map<u16, u8>, n: nat)
    requires
        n >= 1,
    ensures
        apply_repeated(regs, c.disable_write(), n) == apply_write(regs, c.disable_write()),
        apply_write(regs, c.disable_write())[c.manual_enable_address] == 0,
    decreases n,
{
    let w = c.disable_write();
    assert(apply_repeated(regs, w, 0) == regs);
    if n > 1 {
        lemma_disable_idempotent(c, regs, (n - 1) as nat);
        assert(apply_write(apply_write(regs, w), w) =~= apply_write(regs, w));
    }
}

/// A duty of 0 % gives the bottom of the raw range, 100 % its top, and 50 %
/// its midpoint, rounded down.
pub proof fn lemma_duty_endpoints(min_speed: u8, max_speed: u8)
    requires
        min_speed <= max_speed,
    ensures
        raw_duty(0, min_speed as int, max_speed as int) == min_speed,
        raw_duty(100, min_speed as int, max_speed as int) == max_speed,
        raw_duty(50, min_speed as int, max_speed as int) == min_speed + (max_speed - min_speed) / 2,
{
    let span = max_speed - min_speed;
    assert(100 * span / 100 == span) by (nonlinear_arith);
    assert(50 * span / 100 == span / 2) by (nonlinear_arith);
}

/// A higher duty never gives a lower raw value.
pub proof fn lemma_duty_monotonic(p: int, q: int, min_speed: u8, max_speed: u8)
    requires
        min_speed <= max_speed,
        0 <= p <= q <= 100,
    ensures
        raw_duty(p, min_speed as int, max_speed as int) <= raw_duty(q, min_speed as int, max_speed as int),
{
    let span = max_speed - min_speed;
    assert(p * span <= q * span) by (nonlinear_arith)
        requires
            p <= q,
            span >= 0,
    ;
    assert(p * span / 100 <= q * span / 100) by (nonlinear_arith)
        requires
            p * span <= q * span,
    ;
}

} // verus!
