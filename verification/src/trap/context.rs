//! The trap context: the registers of a task in user mode.

use vstd::prelude::*;

verus! {

/// The bits of the supervisor status register that are defined.
pub const SSTATUS_MASK: u64 = 0x8000_0003_000d_e762;

/// The bit of the supervisor status register that says whether a trap came
/// from supervisor mode; clear when it came from user mode.
pub const SSTATUS_SPP: usize = 0x100;

/// The registers of a task in user mode, as saved when it traps.
#[derive(Debug, Clone, Copy)]
pub struct TrapContext {
    /// The general-purpose registers `x0` to `x31`.
    pub x: [usize; 32],
    /// The supervisor status register.
    pub sstatus: usize,
    /// The program counter at which the task goes on.
    pub sepc: usize,
}

/// The status register value `bits` with the previous privilege mode set to user.
///
/// Trusted: calls `Sstatus::from_bits`, `Sstatus::set_spp` with `SPP::User`
/// and `Sstatus::bits` of the `riscv` crate.  The first and the last keep
/// the bits in the register's mask, the second clears bit 8.  The mask is the
/// one stated here on 64-bit targets; on any target bit 8 of the result is
/// clear.
#[verifier::external_body]
fn sstatus_for_user(bits: usize) -> (r: usize)
    ensures
        r & SSTATUS_SPP == 0,
        usize::BITS == 64 ==> r as u64 == (bits as u64) & SSTATUS_MASK & !(SSTATUS_SPP as u64),
{
    let mut sstatus = riscv::register::sstatus::Sstatus::from_bits(bits);
    sstatus.set_spp(riscv::register::sstatus::SPP::User);
    sstatus.bits()
}

/// `cx` is the trap context of a program that is about to start in user
/// mode at `entry` with its stack at `sp`, made while the supervisor status
/// register held `sstatus`: all registers but the stack pointer are zero,
/// and the status register says that the trap came from user mode.  On a
/// 64-bit machine the status register is `sstatus` otherwise, as far as
/// its bits are defined.
pub open spec fn starts_program(cx: TrapContext, entry: usize, sp: usize, sstatus: usize) -> bool {
    &&& cx.sepc == entry
    &&& cx.x[2] == sp
    &&& forall|i: int| 0 <= i < 32 && i != 2 ==> cx.x[i] == 0
    &&& cx.sstatus & SSTATUS_SPP == 0
    &&& usize::BITS == 64 ==> cx.sstatus as u64 == (sstatus as u64) & SSTATUS_MASK & !(SSTATUS_SPP
        as u64)
}

impl TrapContext {
    /// Set the stack pointer, register `x2`.
    pub fn set_sp(&mut self, sp: usize)
        ensures
            final(self).x@ == old(self).x@.update(2, sp),
            final(self).sstatus == old(self).sstatus,
            final(self).sepc == old(self).sepc,
    {
        self.x[2] = sp;
    }

    /// The trap context of a program that is about to start in user mode at
    /// `entry` with its stack at `sp`; `sstatus` is the current value of the
    /// supervisor status register.
    pub fn app_init_context(entry: usize, sp: usize, sstatus: usize) -> (cx: Self)
        ensures
            starts_program(cx, entry, sp, sstatus),
    {
        let mut cx = TrapContext { x: [0;32], sstatus: sstatus_for_user(sstatus), sepc: entry };
        cx.set_sp(sp);
        cx
    }
}


/// The value of the decimal digit `b`, if it is one.
pub open spec fn digit(b: u8) -> Option<int> {
    if 48 <= b <= 57 {
        Some(b - 48)
    } else {
        None
    }
}

/// The number that `digits` writes in decimal with one or two digits and
/// without a leading zero.
pub open spec fn number(digits: Seq<u8>) -> Option<int> {
    if digits.len() == 1 && digit(digits[0]) is Some {
        digit(digits[0])
    } else if digits.len() == 2 && digits[0] != 48 && digit(digits[0]) is Some && digit(digits[1])
        is Some {
        Some(digit(digits[0]).unwrap() * 10 + digit(digits[1]).unwrap())
    } else {
        None
    }
}

/// The number of the general-purpose register that `name` names.
///
/// A register is named by its number, `x0` to `x31`, or by its role: `zero`,
/// `ra`, `sp`, `gp`, `tp`, the temporaries `t0` to `t6`, the saved registers
/// `s0` to `s11`, of which `s0` is also the frame pointer `fp`, and the
/// argument registers `a0` to `a7`.
pub open spec fn register_index(name: Seq<u8>) -> Option<int> {
    if name == seq![122u8, 101u8, 114u8, 111u8] {
        Some(0)
    } else if name == seq![114u8, 97u8] {
        Some(1)
    } else if name == seq![115u8, 112u8] {
        Some(2)
    } else if name == seq![103u8, 112u8] {
        Some(3)
    } else if name == seq![116u8, 112u8] {
        Some(4)
    } else if name == seq![102u8, 112u8] {
        Some(8)
    } else if name.len() >= 2 {
        match number(name.skip(1)) {
            Some(n) => if name[0] == 120 && n <= 31 {
                Some(n)
            } else if name[0] == 116 && n <= 2 {
                Some(5 + n)
            } else if name[0] == 116 && 3 <= n <= 6 {
                Some(25 + n)
            } else if name[0] == 115 && n <= 1 {
                Some(8 + n)
            } else if name[0] == 115 && 2 <= n <= 11 {
                Some(16 + n)
            } else if name[0] == 97 && n <= 7 {
                Some(10 + n)
            } else {
                None
            },
            None => None,
        }
    } else {
        None
    }
}

/// Whether `name` consists of the bytes `a`, `b`.
fn is_pair(name: &[u8], a: u8, b: u8) -> (r: bool)
    ensures
        r == (name@ == seq![a, b]),
{
    let r = name.len() == 2 && name[0] == a && name[1] == b;
    proof {
        if r {
            assert(name@ =~= seq![a, b]);
        }
    }
    r
}

/// The number written by the bytes of `name` after the first.
fn number_after_first(name: &[u8]) -> (n: Option<usize>)
    requires
        name@.len() >= 2,
    ensures
        match n {
            Some(v) => number(name@.skip(1)) == Some(v as int) && v <= 99,
            None => number(name@.skip(1)) is None,
        },
{
    let ghost digits = name@.skip(1);
    if name.len() == 2 {
        let d = name[1];
        proof {
            assert(digits.len() == 1 && digits[0] == d);
        }
        if d >= 48 && d <= 57 {
            Some((d - 48) as usize)
        } else {
            None
        }
    } else if name.len() == 3 {
        let d = name[1];
        let e = name[2];
        proof {
            assert(digits.len() == 2 && digits[0] == d && digits[1] == e);
        }
        if d >= 49 && d <= 57 && e >= 48 && e <= 57 {
            Some((d - 48) as usize * 10 + (e - 48) as usize)
        } else {
            None
        }
    } else {
        None
    }
}

/// The number of the general-purpose register that `name` names, if it
/// names one.
pub fn register_number(name: &[u8]) -> (index: Option<usize>)
    ensures
        match index {
            Some(i) => register_index(name@) == Some(i as int) && i < 32,
            None => register_index(name@) is None,
        },
{
    if name.len() == 4 && name[0] == 122 && name[1] == 101 && name[2] == 114 && name[3] == 111 {
        proof {
            assert(name@ =~= seq![122u8, 101u8, 114u8, 111u8]);
        }
        return Some(0);
    }
    proof {
        assert(name@ != seq![122u8, 101u8, 114u8, 111u8]) by {
            let zero = seq![122u8, 101u8, 114u8, 111u8];
            if name@ == zero {
                assert(zero.len() == 4 && zero[0] == 122 && zero[1] == 101 && zero[2] == 114
                    && zero[3] == 111);
            }
        }
    }
    if is_pair(name, 114, 97) {
        return Some(1);
    }
    if is_pair(name, 115, 112) {
        return Some(2);
    }
    if is_pair(name, 103, 112) {
        return Some(3);
    }
    if is_pair(name, 116, 112) {
        return Some(4);
    }
    if is_pair(name, 102, 112) {
        return Some(8);
    }
    if name.len() < 2 {
        return None;
    }
    let n = match number_after_first(name) {
        Some(n) => n,
        None => {
            return None;
        },
    };
    let first = name[0];
    if first == 120 && n <= 31 {
        Some(n)
    } else if first == 116 && n <= 2 {
        Some(5 + n)
    } else if first == 116 && 3 <= n && n <= 6 {
        Some(25 + n)
    } else if first == 115 && n <= 1 {
        Some(8 + n)
    } else if first == 115 && 2 <= n && n <= 11 {
        Some(16 + n)
    } else if first == 97 && n <= 7 {
        Some(10 + n)
    } else {
        None
    }
}

impl TrapContext {
    /// The value of the general-purpose register that `name` names.
    pub fn gpr(&self, name: &[u8]) -> (value: usize)
        requires
            register_index(name@) is Some,
        ensures
            value == self.x[register_index(name@).unwrap()],
    {
        match register_number(name) {
            Some(i) => self.x[i],
            None => 0,
        }
    }
}

} // verus!
