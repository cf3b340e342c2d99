use vstd::prelude::*;

use crate::text::{hex8, push_hex8, push_radix, radix_digits, same_text};

verus! {

/// One operand of an instruction: a register index, or a 16-bit immediate
/// (a signed displacement or constant is held as its two's-complement bits).
#[derive(Clone, Copy, Debug, PartialEq, Eq, Structural)]
pub enum Operand {
    Register(u8),
    Immediate(u16),
}

/// How a mnemonic is encoded, and so which operands it takes, in the order
/// in which they are written.
#[derive(Clone, Copy, Debug, PartialEq, Eq, Structural)]
pub enum Form {
    /// `rD, d(rA)`: a load or store with a displacement; `fpr` when `rD`
    /// names a floating-point register.
    Memory { opcode: u32, fpr: bool },
    /// `rD, rA, SIMM`
    ArithImm { opcode: u32 },
    /// `rA, rS, UIMM`
    LogicImm { opcode: u32 },
    /// `rD, SIMM`, encoded with `rA` zero.
    LoadImm { opcode: u32 },
    /// `rA, IMM`, comparing into condition field 0.
    Compare { opcode: u32, signed: bool },
    /// `rD`: a move between a general-purpose and a special register.
    SprMove { base: u32 },
    /// `rA, rS`: `or rA, rS, rS`.
    Move,
    /// No operand: one fixed word.
    Fixed { word: u32 },
}

/// The mnemonics that the codec knows.
#[derive(Clone, Copy, Debug, PartialEq, Eq, Structural)]
pub enum Mnemonic {
    Lwz,
    Lwzu,
    Lbz,
    Lbzu,
    Stw,
    Stwu,
    Stb,
    Stbu,
    Lhz,
    Lhzu,
    Lha,
    Lhau,
    Sth,
    Sthu,
    Lmw,
    Stmw,
    Lfs,
    Lfsu,
    Lfd,
    Lfdu,
    Stfs,
    Stfsu,
    Stfd,
    Stfdu,
    Mulli,
    Subfic,
    Addic,
    AddicRc,
    Addi,
    Addis,
    Ori,
    Oris,
    Xori,
    Xoris,
    AndiRc,
    AndisRc,
    Li,
    Lis,
    Cmplwi,
    Cmpwi,
    Mflr,
    Mtlr,
    Mfctr,
    Mtctr,
    Mr,
    Blr,
    Blrl,
    Bctr,
    Bctrl,
    Nop,
}

/// The text of a mnemonic.
pub open spec fn name_of(m: Mnemonic) -> Seq<char> {
    match m {
        Mnemonic::Lwz => "lwz"@,
        Mnemonic::Lwzu => "lwzu"@,
        Mnemonic::Lbz => "lbz"@,
        Mnemonic::Lbzu => "lbzu"@,
        Mnemonic::Stw => "stw"@,
        Mnemonic::Stwu => "stwu"@,
        Mnemonic::Stb => "stb"@,
        Mnemonic::Stbu => "stbu"@,
        Mnemonic::Lhz => "lhz"@,
        Mnemonic::Lhzu => "lhzu"@,
        Mnemonic::Lha => "lha"@,
        Mnemonic::Lhau => "lhau"@,
        Mnemonic::Sth => "sth"@,
        Mnemonic::Sthu => "sthu"@,
        Mnemonic::Lmw => "lmw"@,
        Mnemonic::Stmw => "stmw"@,
        Mnemonic::Lfs => "lfs"@,
        Mnemonic::Lfsu => "lfsu"@,
        Mnemonic::Lfd => "lfd"@,
        Mnemonic::Lfdu => "lfdu"@,
        Mnemonic::Stfs => "stfs"@,
        Mnemonic::Stfsu => "stfsu"@,
        Mnemonic::Stfd => "stfd"@,
        Mnemonic::Stfdu => "stfdu"@,
        Mnemonic::Mulli => "mulli"@,
        Mnemonic::Subfic => "subfic"@,
        Mnemonic::Addic => "addic"@,
        Mnemonic::AddicRc => "addic."@,
        Mnemonic::Addi => "addi"@,
        Mnemonic::Addis => "addis"@,
        Mnemonic::Ori => "ori"@,
        Mnemonic::Oris => "oris"@,
        Mnemonic::Xori => "xori"@,
        Mnemonic::Xoris => "xoris"@,
        Mnemonic::AndiRc => "andi."@,
        Mnemonic::AndisRc => "andis."@,
        Mnemonic::Li => "li"@,
        Mnemonic::Lis => "lis"@,
        Mnemonic::Cmplwi => "cmplwi"@,
        Mnemonic::Cmpwi => "cmpwi"@,
        Mnemonic::Mflr => "mflr"@,
        Mnemonic::Mtlr => "mtlr"@,
        Mnemonic::Mfctr => "mfctr"@,
        Mnemonic::Mtctr => "mtctr"@,
        Mnemonic::Mr => "mr"@,
        Mnemonic::Blr => "blr"@,
        Mnemonic::Blrl => "blrl"@,
        Mnemonic::Bctr => "bctr"@,
        Mnemonic::Bctrl => "bctrl"@,
        Mnemonic::Nop => "nop"@,
    }
}

/// How a mnemonic is encoded and which operands it takes.
pub open spec fn form_of(m: Mnemonic) -> Form {
    match m {
        Mnemonic::Lwz => Form::Memory { opcode: 32, fpr: false },
        Mnemonic::Lwzu => Form::Memory { opcode: 33, fpr: false },
        Mnemonic::Lbz => Form::Memory { opcode: 34, fpr: false },
        Mnemonic::Lbzu => Form::Memory { opcode: 35, fpr: false },
        Mnemonic::Stw => Form::Memory { opcode: 36, fpr: false },
        Mnemonic::Stwu => Form::Memory { opcode: 37, fpr: false },
        Mnemonic::Stb => Form::Memory { opcode: 38, fpr: false },
        Mnemonic::Stbu => Form::Memory { opcode: 39, fpr: false },
        Mnemonic::Lhz => Form::Memory { opcode: 40, fpr: false },
        Mnemonic::Lhzu => Form::Memory { opcode: 41, fpr: false },
        Mnemonic::Lha => Form::Memory { opcode: 42, fpr: false },
        Mnemonic::Lhau => Form::Memory { opcode: 43, fpr: false },
        Mnemonic::Sth => Form::Memory { opcode: 44, fpr: false },
        Mnemonic::Sthu => Form::Memory { opcode: 45, fpr: false },
        Mnemonic::Lmw => Form::Memory { opcode: 46, fpr: false },
        Mnemonic::Stmw => Form::Memory { opcode: 47, fpr: false },
        Mnemonic::Lfs => Form::Memory { opcode: 48, fpr: true },
        Mnemonic::Lfsu => Form::Memory { opcode: 49, fpr: true },
        Mnemonic::Lfd => Form::Memory { opcode: 50, fpr: true },
        Mnemonic::Lfdu => Form::Memory { opcode: 51, fpr: true },
        Mnemonic::Stfs => Form::Memory { opcode: 52, fpr: true },
        Mnemonic::Stfsu => Form::Memory { opcode: 53, fpr: true },
        Mnemonic::Stfd => Form::Memory { opcode: 54, fpr: true },
        Mnemonic::Stfdu => Form::Memory { opcode: 55, fpr: true },
        Mnemonic::Mulli => Form::ArithImm { opcode: 7 },
        Mnemonic::Subfic => Form::ArithImm { opcode: 8 },
        Mnemonic::Addic => Form::ArithImm { opcode: 12 },
        Mnemonic::AddicRc => Form::ArithImm { opcode: 13 },
        Mnemonic::Addi => Form::ArithImm { opcode: 14 },
        Mnemonic::Addis => Form::ArithImm { opcode: 15 },
        Mnemonic::Ori => Form::LogicImm { opcode: 24 },
        Mnemonic::Oris => Form::LogicImm { opcode: 25 },
        Mnemonic::Xori => Form::LogicImm { opcode: 26 },
        Mnemonic::Xoris => Form::LogicImm { opcode: 27 },
        Mnemonic::AndiRc => Form::LogicImm { opcode: 28 },
        Mnemonic::AndisRc => Form::LogicImm { opcode: 29 },
        Mnemonic::Li => Form::LoadImm { opcode: 14 },
        Mnemonic::Lis => Form::LoadImm { opcode: 15 },
        Mnemonic::Cmplwi => Form::Compare { opcode: 10, signed: false },
        Mnemonic::Cmpwi => Form::Compare { opcode: 11, signed: true },
        Mnemonic::Mflr => Form::SprMove { base: 0x7C08_02A6 },
        Mnemonic::Mtlr => Form::SprMove { base: 0x7C08_03A6 },
        Mnemonic::Mfctr => Form::SprMove { base: 0x7C09_02A6 },
        Mnemonic::Mtctr => Form::SprMove { base: 0x7C09_03A6 },
        Mnemonic::Mr => Form::Move,
        Mnemonic::Blr => Form::Fixed { word: 0x4E80_0020 },
        Mnemonic::Blrl => Form::Fixed { word: 0x4E80_0021 },
        Mnemonic::Bctr => Form::Fixed { word: 0x4E80_0420 },
        Mnemonic::Bctrl => Form::Fixed { word: 0x4E80_0421 },
        Mnemonic::Nop => Form::Fixed { word: 0x6000_0000 },
    }
}

/// The D-form mnemonic that a primary opcode stands for, where one does.
pub open spec fn primary_mnemonic(opcode: u32) -> Option<Mnemonic> {
    if opcode == 7 {
        Some(Mnemonic::Mulli)
    } else if opcode == 8 {
        Some(Mnemonic::Subfic)
    } else if opcode == 10 {
        Some(Mnemonic::Cmplwi)
    } else if opcode == 11 {
        Some(Mnemonic::Cmpwi)
    } else if opcode == 12 {
        Some(Mnemonic::Addic)
    } else if opcode == 13 {
        Some(Mnemonic::AddicRc)
    } else if opcode == 14 {
        Some(Mnemonic::Addi)
    } else if opcode == 15 {
        Some(Mnemonic::Addis)
    } else if opcode == 24 {
        Some(Mnemonic::Ori)
    } else if opcode == 25 {
        Some(Mnemonic::Oris)
    } else if opcode == 26 {
        Some(Mnemonic::Xori)
    } else if opcode == 27 {
        Some(Mnemonic::Xoris)
    } else if opcode == 28 {
        Some(Mnemonic::AndiRc)
    } else if opcode == 29 {
        Some(Mnemonic::AndisRc)
    } else if opcode == 32 {
        Some(Mnemonic::Lwz)
    } else if opcode == 33 {
        Some(Mnemonic::Lwzu)
    } else if opcode == 34 {
        Some(Mnemonic::Lbz)
    } else if opcode == 35 {
        Some(Mnemonic::Lbzu)
    } else if opcode == 36 {
        Some(Mnemonic::Stw)
    } else if opcode == 37 {
        Some(Mnemonic::Stwu)
    } else if opcode == 38 {
        Some(Mnemonic::Stb)
    } else if opcode == 39 {
        Some(Mnemonic::Stbu)
    } else if opcode == 40 {
        Some(Mnemonic::Lhz)
    } else if opcode == 41 {
        Some(Mnemonic::Lhzu)
    } else if opcode == 42 {
        Some(Mnemonic::Lha)
    } else if opcode == 43 {
        Some(Mnemonic::Lhau)
    } else if opcode == 44 {
        Some(Mnemonic::Sth)
    } else if opcode == 45 {
        Some(Mnemonic::Sthu)
    } else if opcode == 46 {
        Some(Mnemonic::Lmw)
    } else if opcode == 47 {
        Some(Mnemonic::Stmw)
    } else if opcode == 48 {
        Some(Mnemonic::Lfs)
    } else if opcode == 49 {
        Some(Mnemonic::Lfsu)
    } else if opcode == 50 {
        Some(Mnemonic::Lfd)
    } else if opcode == 51 {
        Some(Mnemonic::Lfdu)
    } else if opcode == 52 {
        Some(Mnemonic::Stfs)
    } else if opcode == 53 {
        Some(Mnemonic::Stfsu)
    } else if opcode == 54 {
        Some(Mnemonic::Stfd)
    } else if opcode == 55 {
        Some(Mnemonic::Stfdu)
    } else {
        None
    }
}

/// The mnemonic whose text is `name`, where one is.
pub open spec fn mnemonic_named(name: Seq<char>) -> Option<Mnemonic> {
    if name == "lwz"@ {
        Some(Mnemonic::Lwz)
    } else if name == "lwzu"@ {
        Some(Mnemonic::Lwzu)
    } else if name == "lbz"@ {
        Some(Mnemonic::Lbz)
    } else if name == "lbzu"@ {
        Some(Mnemonic::Lbzu)
    } else if name == "stw"@ {
        Some(Mnemonic::Stw)
    } else if name == "stwu"@ {
        Some(Mnemonic::Stwu)
    } else if name == "stb"@ {
        Some(Mnemonic::Stb)
    } else if name == "stbu"@ {
        Some(Mnemonic::Stbu)
    } else if name == "lhz"@ {
        Some(Mnemonic::Lhz)
    } else if name == "lhzu"@ {
        Some(Mnemonic::Lhzu)
    } else if name == "lha"@ {
        Some(Mnemonic::Lha)
    } else if name == "lhau"@ {
        Some(Mnemonic::Lhau)
    } else if name == "sth"@ {
        Some(Mnemonic::Sth)
    } else if name == "sthu"@ {
        Some(Mnemonic::Sthu)
    } else if name == "lmw"@ {
        Some(Mnemonic::Lmw)
    } else if name == "stmw"@ {
        Some(Mnemonic::Stmw)
    } else if name == "lfs"@ {
        Some(Mnemonic::Lfs)
    } else if name == "lfsu"@ {
        Some(Mnemonic::Lfsu)
    } else if name == "lfd"@ {
        Some(Mnemonic::Lfd)
    } else if name == "lfdu"@ {
        Some(Mnemonic::Lfdu)
    } else if name == "stfs"@ {
        Some(Mnemonic::Stfs)
    } else if name == "stfsu"@ {
        Some(Mnemonic::Stfsu)
    } else if name == "stfd"@ {
        Some(Mnemonic::Stfd)
    } else if name == "stfdu"@ {
        Some(Mnemonic::Stfdu)
    } else if name == "mulli"@ {
        Some(Mnemonic::Mulli)
    } else if name == "subfic"@ {
        Some(Mnemonic::Subfic)
    } else if name == "addic"@ {
        Some(Mnemonic::Addic)
    } else if name == "addic."@ {
        Some(Mnemonic::AddicRc)
    } else if name == "addi"@ {
        Some(Mnemonic::Addi)
    } else if name == "addis"@ {
        Some(Mnemonic::Addis)
    } else if name == "ori"@ {
        Some(Mnemonic::Ori)
    } else if name == "oris"@ {
        Some(Mnemonic::Oris)
    } else if name == "xori"@ {
        Some(Mnemonic::Xori)
    } else if name == "xoris"@ {
        Some(Mnemonic::Xoris)
    } else if name == "andi."@ {
        Some(Mnemonic::AndiRc)
    } else if name == "andis."@ {
        Some(Mnemonic::AndisRc)
    } else if name == "li"@ {
        Some(Mnemonic::Li)
    } else if name == "lis"@ {
        Some(Mnemonic::Lis)
    } else if name == "cmplwi"@ {
        Some(Mnemonic::Cmplwi)
    } else if name == "cmpwi"@ {
        Some(Mnemonic::Cmpwi)
    } else if name == "mflr"@ {
        Some(Mnemonic::Mflr)
    } else if name == "mtlr"@ {
        Some(Mnemonic::Mtlr)
    } else if name == "mfctr"@ {
        Some(Mnemonic::Mfctr)
    } else if name == "mtctr"@ {
        Some(Mnemonic::Mtctr)
    } else if name == "mr"@ {
        Some(Mnemonic::Mr)
    } else if name == "blr"@ {
        Some(Mnemonic::Blr)
    } else if name == "blrl"@ {
        Some(Mnemonic::Blrl)
    } else if name == "bctr"@ {
        Some(Mnemonic::Bctr)
    } else if name == "bctrl"@ {
        Some(Mnemonic::Bctrl)
    } else if name == "nop"@ {
        Some(Mnemonic::Nop)
    } else {
        None
    }
}
/// The number of operands that a form takes.
pub open spec fn operand_count(f: Form) -> nat {
    match f {
        Form::Memory { .. } => 3,
        Form::ArithImm { .. } => 3,
        Form::LogicImm { .. } => 3,
        Form::LoadImm { .. } => 2,
        Form::Compare { .. } => 2,
        Form::SprMove { .. } => 1,
        Form::Move => 2,
        Form::Fixed { .. } => 0,
    }
}

/// The register field that an operand fills, where it is a register below 32.
pub open spec fn register_field(o: Operand) -> Option<u32> {
    match o {
        Operand::Register(r) => if r < 32 {
            Some(r as u32)
        } else {
            None
        },
        Operand::Immediate(_) => None,
    }
}

/// The immediate field that an operand fills, where it is an immediate.
pub open spec fn immediate_field(o: Operand) -> Option<u32> {
    match o {
        Operand::Register(_) => None,
        Operand::Immediate(v) => Some(v as u32),
    }
}

/// The word that a mnemonic with these operands encodes to, where they fit
/// its form.
pub open spec fn encode(m: Mnemonic, ops: Seq<Operand>) -> Option<u32> {
    let f = form_of(m);
    if ops.len() != operand_count(f) {
        None
    } else {
        match f {
            Form::Memory { opcode, .. } => match (
                register_field(ops[0]),
                immediate_field(ops[1]),
                register_field(ops[2]),
            ) {
                (Some(d), Some(i), Some(a)) => Some(opcode << 26u32 | d << 21u32 | a << 16u32 | i),
                _ => None,
            },
            Form::ArithImm { opcode } => match (
                register_field(ops[0]),
                register_field(ops[1]),
                immediate_field(ops[2]),
            ) {
                (Some(d), Some(a), Some(i)) => Some(opcode << 26u32 | d << 21u32 | a << 16u32 | i),
                _ => None,
            },
            Form::LogicImm { opcode } => match (
                register_field(ops[0]),
                register_field(ops[1]),
                immediate_field(ops[2]),
            ) {
                (Some(a), Some(s), Some(i)) => Some(opcode << 26u32 | s << 21u32 | a << 16u32 | i),
                _ => None,
            },
            Form::LoadImm { opcode } => match (register_field(ops[0]), immediate_field(ops[1])) {
                (Some(d), Some(i)) => Some(opcode << 26u32 | d << 21u32 | i),
                _ => None,
            },
            Form::Compare { opcode, .. } => match (
                register_field(ops[0]),
                immediate_field(ops[1]),
            ) {
                (Some(a), Some(i)) => Some(opcode << 26u32 | a << 16u32 | i),
                _ => None,
            },
            Form::SprMove { base } => match register_field(ops[0]) {
                Some(d) => Some(base | d << 21u32),
                None => None,
            },
            Form::Move => match (register_field(ops[0]), register_field(ops[1])) {
                (Some(a), Some(s)) => Some(0x7C00_0378u32 | s << 21u32 | a << 16u32 | s << 11u32),
                _ => None,
            },
            Form::Fixed { word } => Some(word),
        }
    }
}

/// A five-bit register field of a word.
pub open spec fn field5(w: u32, shift: u32) -> u32 {
    (w >> shift) & 31u32
}

/// A register operand read from a field.
pub open spec fn reg(v: u32) -> Operand {
    Operand::Register(v as u8)
}

/// The immediate operand in the low half of a word.
pub open spec fn imm(w: u32) -> Operand {
    Operand::Immediate((w & 0xFFFFu32) as u16)
}

/// The mnemonic and operands of a word, where the codec knows the word.
pub open spec fn decode(w: u32) -> Option<(Mnemonic, Seq<Operand>)> {
    let opcode = w >> 26u32;
    let a = field5(w, 21);
    let b = field5(w, 16);
    if w == 0x4E80_0020u32 {
        Some((Mnemonic::Blr, seq![]))
    } else if w == 0x4E80_0021u32 {
        Some((Mnemonic::Blrl, seq![]))
    } else if w == 0x4E80_0420u32 {
        Some((Mnemonic::Bctr, seq![]))
    } else if w == 0x4E80_0421u32 {
        Some((Mnemonic::Bctrl, seq![]))
    } else if w == 0x6000_0000u32 {
        Some((Mnemonic::Nop, seq![]))
    } else if opcode == 31 {
        let spr = w & 0xFC1F_FFFFu32;
        if spr == 0x7C08_02A6u32 {
            Some((Mnemonic::Mflr, seq![reg(a)]))
        } else if spr == 0x7C08_03A6u32 {
            Some((Mnemonic::Mtlr, seq![reg(a)]))
        } else if spr == 0x7C09_02A6u32 {
            Some((Mnemonic::Mfctr, seq![reg(a)]))
        } else if spr == 0x7C09_03A6u32 {
            Some((Mnemonic::Mtctr, seq![reg(a)]))
        } else if w & 0xFC00_07FFu32 == 0x7C00_0378u32 && field5(w, 11) == a {
            Some((Mnemonic::Mr, seq![reg(b), reg(a)]))
        } else {
            None
        }
    } else if opcode == 14 && b == 0 {
        Some((Mnemonic::Li, seq![reg(a), imm(w)]))
    } else if opcode == 15 && b == 0 {
        Some((Mnemonic::Lis, seq![reg(a), imm(w)]))
    } else {
        match primary_mnemonic(opcode) {
            Some(m) => match form_of(m) {
                Form::Memory { .. } => Some((m, seq![reg(a), imm(w), reg(b)])),
                Form::ArithImm { .. } => Some((m, seq![reg(a), reg(b), imm(w)])),
                Form::LogicImm { .. } => Some((m, seq![reg(b), reg(a), imm(w)])),
                Form::Compare { .. } => if a == 0 {
                    Some((m, seq![reg(b), imm(w)]))
                } else {
                    None
                },
                _ => None,
            },
            None => None,
        }
    }
}

impl Mnemonic {
    /// The text of the mnemonic.
    pub fn name(&self) -> (r: &'static str)
        ensures
            r@ == name_of(*self),
    {
        match self {
            Mnemonic::Lwz => "lwz",
            Mnemonic::Lwzu => "lwzu",
            Mnemonic::Lbz => "lbz",
            Mnemonic::Lbzu => "lbzu",
            Mnemonic::Stw => "stw",
            Mnemonic::Stwu => "stwu",
            Mnemonic::Stb => "stb",
            Mnemonic::Stbu => "stbu",
            Mnemonic::Lhz => "lhz",
            Mnemonic::Lhzu => "lhzu",
            Mnemonic::Lha => "lha",
            Mnemonic::Lhau => "lhau",
            Mnemonic::Sth => "sth",
            Mnemonic::Sthu => "sthu",
            Mnemonic::Lmw => "lmw",
            Mnemonic::Stmw => "stmw",
            Mnemonic::Lfs => "lfs",
            Mnemonic::Lfsu => "lfsu",
            Mnemonic::Lfd => "lfd",
            Mnemonic::Lfdu => "lfdu",
            Mnemonic::Stfs => "stfs",
            Mnemonic::Stfsu => "stfsu",
            Mnemonic::Stfd => "stfd",
            Mnemonic::Stfdu => "stfdu",
            Mnemonic::Mulli => "mulli",
            Mnemonic::Subfic => "subfic",
            Mnemonic::Addic => "addic",
            Mnemonic::AddicRc => "addic.",
            Mnemonic::Addi => "addi",
            Mnemonic::Addis => "addis",
            Mnemonic::Ori => "ori",
            Mnemonic::Oris => "oris",
            Mnemonic::Xori => "xori",
            Mnemonic::Xoris => "xoris",
            Mnemonic::AndiRc => "andi.",
            Mnemonic::AndisRc => "andis.",
            Mnemonic::Li => "li",
            Mnemonic::Lis => "lis",
            Mnemonic::Cmplwi => "cmplwi",
            Mnemonic::Cmpwi => "cmpwi",
            Mnemonic::Mflr => "mflr",
            Mnemonic::Mtlr => "mtlr",
            Mnemonic::Mfctr => "mfctr",
            Mnemonic::Mtctr => "mtctr",
            Mnemonic::Mr => "mr",
            Mnemonic::Blr => "blr",
            Mnemonic::Blrl => "blrl",
            Mnemonic::Bctr => "bctr",
            Mnemonic::Bctrl => "bctrl",
            Mnemonic::Nop => "nop",
        }
    }

    /// How the mnemonic is encoded and which operands it takes.
    pub fn form(&self) -> (r: Form)
        ensures
            r == form_of(*self),
    {
        match self {
            Mnemonic::Lwz => Form::Memory { opcode: 32, fpr: false },
            Mnemonic::Lwzu => Form::Memory { opcode: 33, fpr: false },
            Mnemonic::Lbz => Form::Memory { opcode: 34, fpr: false },
            Mnemonic::Lbzu => Form::Memory { opcode: 35, fpr: false },
            Mnemonic::Stw => Form::Memory { opcode: 36, fpr: false },
            Mnemonic::Stwu => Form::Memory { opcode: 37, fpr: false },
            Mnemonic::Stb => Form::Memory { opcode: 38, fpr: false },
            Mnemonic::Stbu => Form::Memory { opcode: 39, fpr: false },
            Mnemonic::Lhz => Form::Memory { opcode: 40, fpr: false },
            Mnemonic::Lhzu => Form::Memory { opcode: 41, fpr: false },
            Mnemonic::Lha => Form::Memory { opcode: 42, fpr: false },
            Mnemonic::Lhau => Form::Memory { opcode: 43, fpr: false },
            Mnemonic::Sth => Form::Memory { opcode: 44, fpr: false },
            Mnemonic::Sthu => Form::Memory { opcode: 45, fpr: false },
            Mnemonic::Lmw => Form::Memory { opcode: 46, fpr: false },
            Mnemonic::Stmw => Form::Memory { opcode: 47, fpr: false },
            Mnemonic::Lfs => Form::Memory { opcode: 48, fpr: true },
            Mnemonic::Lfsu => Form::Memory { opcode: 49, fpr: true },
            Mnemonic::Lfd => Form::Memory { opcode: 50, fpr: true },
            Mnemonic::Lfdu => Form::Memory { opcode: 51, fpr: true },
            Mnemonic::Stfs => Form::Memory { opcode: 52, fpr: true },
            Mnemonic::Stfsu => Form::Memory { opcode: 53, fpr: true },
            Mnemonic::Stfd => Form::Memory { opcode: 54, fpr: true },
            Mnemonic::Stfdu => Form::Memory { opcode: 55, fpr: true },
            Mnemonic::Mulli => Form::ArithImm { opcode: 7 },
            Mnemonic::Subfic => Form::ArithImm { opcode: 8 },
            Mnemonic::Addic => Form::ArithImm { opcode: 12 },
            Mnemonic::AddicRc => Form::ArithImm { opcode: 13 },
            Mnemonic::Addi => Form::ArithImm { opcode: 14 },
            Mnemonic::Addis => Form::ArithImm { opcode: 15 },
            Mnemonic::Ori => Form::LogicImm { opcode: 24 },
            Mnemonic::Oris => Form::LogicImm { opcode: 25 },
            Mnemonic::Xori => Form::LogicImm { opcode: 26 },
            Mnemonic::Xoris => Form::LogicImm { opcode: 27 },
            Mnemonic::AndiRc => Form::LogicImm { opcode: 28 },
            Mnemonic::AndisRc => Form::LogicImm { opcode: 29 },
            Mnemonic::Li => Form::LoadImm { opcode: 14 },
            Mnemonic::Lis => Form::LoadImm { opcode: 15 },
            Mnemonic::Cmplwi => Form::Compare { opcode: 10, signed: false },
            Mnemonic::Cmpwi => Form::Compare { opcode: 11, signed: true },
            Mnemonic::Mflr => Form::SprMove { base: 0x7C08_02A6 },
            Mnemonic::Mtlr => Form::SprMove { base: 0x7C08_03A6 },
            Mnemonic::Mfctr => Form::SprMove { base: 0x7C09_02A6 },
            Mnemonic::Mtctr => Form::SprMove { base: 0x7C09_03A6 },
            Mnemonic::Mr => Form::Move,
            Mnemonic::Blr => Form::Fixed { word: 0x4E80_0020 },
            Mnemonic::Blrl => Form::Fixed { word: 0x4E80_0021 },
            Mnemonic::Bctr => Form::Fixed { word: 0x4E80_0420 },
            Mnemonic::Bctrl => Form::Fixed { word: 0x4E80_0421 },
            Mnemonic::Nop => Form::Fixed { word: 0x6000_0000 },
        }
    }

    /// The mnemonic whose text is `name`, where one is.
    pub fn from_name(name: &Vec<char>) -> (r: Option<Mnemonic>)
        ensures
            r == mnemonic_named(name@),
    {
        if same_text(name, "lwz") {
            Some(Mnemonic::Lwz)
        } else if same_text(name, "lwzu") {
            Some(Mnemonic::Lwzu)
        } else if same_text(name, "lbz") {
            Some(Mnemonic::Lbz)
        } else if same_text(name, "lbzu") {
            Some(Mnemonic::Lbzu)
        } else if same_text(name, "stw") {
            Some(Mnemonic::Stw)
        } else if same_text(name, "stwu") {
            Some(Mnemonic::Stwu)
        } else if same_text(name, "stb") {
            Some(Mnemonic::Stb)
        } else if same_text(name, "stbu") {
            Some(Mnemonic::Stbu)
        } else if same_text(name, "lhz") {
            Some(Mnemonic::Lhz)
        } else if same_text(name, "lhzu") {
            Some(Mnemonic::Lhzu)
        } else if same_text(name, "lha") {
            Some(Mnemonic::Lha)
        } else if same_text(name, "lhau") {
            Some(Mnemonic::Lhau)
        } else if same_text(name, "sth") {
            Some(Mnemonic::Sth)
        } else if same_text(name, "sthu") {
            Some(Mnemonic::Sthu)
        } else if same_text(name, "lmw") {
            Some(Mnemonic::Lmw)
        } else if same_text(name, "stmw") {
            Some(Mnemonic::Stmw)
        } else if same_text(name, "lfs") {
            Some(Mnemonic::Lfs)
        } else if same_text(name, "lfsu") {
            Some(Mnemonic::Lfsu)
        } else if same_text(name, "lfd") {
            Some(Mnemonic::Lfd)
        } else if same_text(name, "lfdu") {
            Some(Mnemonic::Lfdu)
        } else if same_text(name, "stfs") {
            Some(Mnemonic::Stfs)
        } else if same_text(name, "stfsu") {
            Some(Mnemonic::Stfsu)
        } else if same_text(name, "stfd") {
            Some(Mnemonic::Stfd)
        } else if same_text(name, "stfdu") {
            Some(Mnemonic::Stfdu)
        } else if same_text(name, "mulli") {
            Some(Mnemonic::Mulli)
        } else if same_text(name, "subfic") {
            Some(Mnemonic::Subfic)
        } else if same_text(name, "addic") {
            Some(Mnemonic::Addic)
        } else if same_text(name, "addic.") {
            Some(Mnemonic::AddicRc)
        } else if same_text(name, "addi") {
            Some(Mnemonic::Addi)
        } else if same_text(name, "addis") {
            Some(Mnemonic::Addis)
        } else if same_text(name, "ori") {
            Some(Mnemonic::Ori)
        } else if same_text(name, "oris") {
            Some(Mnemonic::Oris)
        } else if same_text(name, "xori") {
            Some(Mnemonic::Xori)
        } else if same_text(name, "xoris") {
            Some(Mnemonic::Xoris)
        } else if same_text(name, "andi.") {
            Some(Mnemonic::AndiRc)
        } else if same_text(name, "andis.") {
            Some(Mnemonic::AndisRc)
        } else if same_text(name, "li") {
            Some(Mnemonic::Li)
        } else if same_text(name, "lis") {
            Some(Mnemonic::Lis)
        } else if same_text(name, "cmplwi") {
            Some(Mnemonic::Cmplwi)
        } else if same_text(name, "cmpwi") {
            Some(Mnemonic::Cmpwi)
        } else if same_text(name, "mflr") {
            Some(Mnemonic::Mflr)
        } else if same_text(name, "mtlr") {
            Some(Mnemonic::Mtlr)
        } else if same_text(name, "mfctr") {
            Some(Mnemonic::Mfctr)
        } else if same_text(name, "mtctr") {
            Some(Mnemonic::Mtctr)
        } else if same_text(name, "mr") {
            Some(Mnemonic::Mr)
        } else if same_text(name, "blr") {
            Some(Mnemonic::Blr)
        } else if same_text(name, "blrl") {
            Some(Mnemonic::Blrl)
        } else if same_text(name, "bctr") {
            Some(Mnemonic::Bctr)
        } else if same_text(name, "bctrl") {
            Some(Mnemonic::Bctrl)
        } else if same_text(name, "nop") {
            Some(Mnemonic::Nop)
        } else {
            None
        }
    }
}


/// An instruction as text sees it: a mnemonic and its operands in the
/// order in which they are written.
#[derive(Debug)]
pub struct Instruction {
    pub mnemonic: Mnemonic,
    pub operands: Vec<Operand>,
}

impl View for Instruction {
    type V = (Mnemonic, Seq<Operand>);

    open spec fn view(&self) -> (Mnemonic, Seq<Operand>) {
        (self.mnemonic, self.operands@)
    }
}

fn register_at(ops: &Vec<Operand>, i: usize) -> (r: Option<u32>)
    requires
        i < ops@.len(),
    ensures
        r == register_field(ops@[i as int]),
{
    match ops[i] {
        Operand::Register(v) => if v < 32 {
            Some(v as u32)
        } else {
            None
        },
        Operand::Immediate(_) => None,
    }
}

fn immediate_at(ops: &Vec<Operand>, i: usize) -> (r: Option<u32>)
    requires
        i < ops@.len(),
    ensures
        r == immediate_field(ops@[i as int]),
{
    match ops[i] {
        Operand::Register(_) => None,
        Operand::Immediate(v) => Some(v as u32),
    }
}

fn operand_count_of(f: Form) -> (r: usize)
    ensures
        r == operand_count(f),
{
    match f {
        Form::Memory { .. } => 3,
        Form::ArithImm { .. } => 3,
        Form::LogicImm { .. } => 3,
        Form::LoadImm { .. } => 2,
        Form::Compare { .. } => 2,
        Form::SprMove { .. } => 1,
        Form::Move => 2,
        Form::Fixed { .. } => 0,
    }
}

/// The word that an instruction encodes to: `None` where its operands do not
/// fit its mnemonic (their number, a register where an immediate belongs or
/// the reverse, or a register index above 31).
pub fn encode_instruction(ins: &Instruction) -> (r: Option<u32>)
    ensures
        r == encode(ins.mnemonic, ins.operands@),
{
    let ops = &ins.operands;
    let f = ins.mnemonic.form();
    if ops.len() != operand_count_of(f) {
        return None;
    }
    match f {
        Form::Memory { opcode, .. } => match (
            register_at(ops, 0),
            immediate_at(ops, 1),
            register_at(ops, 2),
        ) {
            (Some(d), Some(i), Some(a)) => Some(opcode << 26u32 | d << 21u32 | a << 16u32 | i),
            _ => None,
        },
        Form::ArithImm { opcode } => match (
            register_at(ops, 0),
            register_at(ops, 1),
            immediate_at(ops, 2),
        ) {
            (Some(d), Some(a), Some(i)) => Some(opcode << 26u32 | d << 21u32 | a << 16u32 | i),
            _ => None,
        },
        Form::LogicImm { opcode } => match (
            register_at(ops, 0),
            register_at(ops, 1),
            immediate_at(ops, 2),
        ) {
            (Some(a), Some(s), Some(i)) => Some(opcode << 26u32 | s << 21u32 | a << 16u32 | i),
            _ => None,
        },
        Form::LoadImm { opcode } => match (register_at(ops, 0), immediate_at(ops, 1)) {
            (Some(d), Some(i)) => Some(opcode << 26u32 | d << 21u32 | i),
            _ => None,
        },
        Form::Compare { opcode, .. } => match (register_at(ops, 0), immediate_at(ops, 1)) {
            (Some(a), Some(i)) => Some(opcode << 26u32 | a << 16u32 | i),
            _ => None,
        },
        Form::SprMove { base } => match register_at(ops, 0) {
            Some(d) => Some(base | d << 21u32),
            None => None,
        },
        Form::Move => match (register_at(ops, 0), register_at(ops, 1)) {
            (Some(a), Some(s)) => Some(0x7C00_0378u32 | s << 21u32 | a << 16u32 | s << 11u32),
            _ => None,
        },
        Form::Fixed { word } => Some(word),
    }
}

fn fixed(m: Mnemonic) -> (r: Option<Instruction>)
    ensures
        r matches Some(i) && i@ == (m, Seq::<Operand>::empty()),
{
    let ins = Instruction { mnemonic: m, operands: Vec::new() };
    assert(ins.operands@ =~= Seq::<Operand>::empty());
    Some(ins)
}

/// Reads a word as an instruction: `None` where the word is no instruction
/// that the codec knows.
pub fn disassemble(code: u32) -> (r: Option<Instruction>)
    ensures
        match r {
            Some(i) => decode(code) == Some(i@),
            None => decode(code) is None,
        },
{
    let opcode = code >> 26u32;
    let a = (code >> 21u32) & 31u32;
    let b = (code >> 16u32) & 31u32;
    let ra = Operand::Register(a as u8);
    let rb = Operand::Register(b as u8);
    let im = Operand::Immediate((code & 0xFFFFu32) as u16);
    let ops = if code == 0x4E80_0020u32 {
        return fixed(Mnemonic::Blr);
    } else if code == 0x4E80_0021u32 {
        return fixed(Mnemonic::Blrl);
    } else if code == 0x4E80_0420u32 {
        return fixed(Mnemonic::Bctr);
    } else if code == 0x4E80_0421u32 {
        return fixed(Mnemonic::Bctrl);
    } else if code == 0x6000_0000u32 {
        return fixed(Mnemonic::Nop);
    } else if opcode == 31 {
        let spr = code & 0xFC1F_FFFFu32;
        if spr == 0x7C08_02A6u32 {
            (Mnemonic::Mflr, vec![ra])
        } else if spr == 0x7C08_03A6u32 {
            (Mnemonic::Mtlr, vec![ra])
        } else if spr == 0x7C09_02A6u32 {
            (Mnemonic::Mfctr, vec![ra])
        } else if spr == 0x7C09_03A6u32 {
            (Mnemonic::Mtctr, vec![ra])
        } else if code & 0xFC00_07FFu32 == 0x7C00_0378u32 && (code >> 11u32) & 31u32 == a {
            (Mnemonic::Mr, vec![rb, ra])
        } else {
            return None;
        }
    } else if opcode == 14 && b == 0 {
        (Mnemonic::Li, vec![ra, im])
    } else if opcode == 15 && b == 0 {
        (Mnemonic::Lis, vec![ra, im])
    } else {
        match primary(opcode) {
            Some(m) => match m.form() {
                Form::Memory { .. } => (m, vec![ra, im, rb]),
                Form::ArithImm { .. } => (m, vec![ra, rb, im]),
                Form::LogicImm { .. } => (m, vec![rb, ra, im]),
                Form::Compare { .. } => if a == 0 {
                    (m, vec![rb, im])
                } else {
                    return None;
                },
                _ => {
                    return None;
                },
            },
            None => {
                return None;
            },
        }
    };
    let ins = Instruction { mnemonic: ops.0, operands: ops.1 };
    assert(decode(code) matches Some(d) && ins@ =~~= d);
    Some(ins)
}

/// The D-form mnemonic that a primary opcode stands for, where one does.
fn primary(opcode: u32) -> (r: Option<Mnemonic>)
    ensures
        r == primary_mnemonic(opcode),
{
    match opcode {
        7 => Some(Mnemonic::Mulli),
        8 => Some(Mnemonic::Subfic),
        10 => Some(Mnemonic::Cmplwi),
        11 => Some(Mnemonic::Cmpwi),
        12 => Some(Mnemonic::Addic),
        13 => Some(Mnemonic::AddicRc),
        14 => Some(Mnemonic::Addi),
        15 => Some(Mnemonic::Addis),
        24 => Some(Mnemonic::Ori),
        25 => Some(Mnemonic::Oris),
        26 => Some(Mnemonic::Xori),
        27 => Some(Mnemonic::Xoris),
        28 => Some(Mnemonic::AndiRc),
        29 => Some(Mnemonic::AndisRc),
        32 => Some(Mnemonic::Lwz),
        33 => Some(Mnemonic::Lwzu),
        34 => Some(Mnemonic::Lbz),
        35 => Some(Mnemonic::Lbzu),
        36 => Some(Mnemonic::Stw),
        37 => Some(Mnemonic::Stwu),
        38 => Some(Mnemonic::Stb),
        39 => Some(Mnemonic::Stbu),
        40 => Some(Mnemonic::Lhz),
        41 => Some(Mnemonic::Lhzu),
        42 => Some(Mnemonic::Lha),
        43 => Some(Mnemonic::Lhau),
        44 => Some(Mnemonic::Sth),
        45 => Some(Mnemonic::Sthu),
        46 => Some(Mnemonic::Lmw),
        47 => Some(Mnemonic::Stmw),
        48 => Some(Mnemonic::Lfs),
        49 => Some(Mnemonic::Lfsu),
        50 => Some(Mnemonic::Lfd),
        51 => Some(Mnemonic::Lfdu),
        52 => Some(Mnemonic::Stfs),
        53 => Some(Mnemonic::Stfsu),
        54 => Some(Mnemonic::Stfd),
        55 => Some(Mnemonic::Stfdu),
        _ => None,
    }
}

/// Whether the immediates of a form are signed, and so written with a sign.
pub open spec fn signed_immediates(f: Form) -> bool {
    match f {
        Form::Memory { .. } => true,
        Form::ArithImm { .. } => true,
        Form::LoadImm { .. } => true,
        Form::Compare { signed, .. } => signed,
        _ => false,
    }
}

/// The text of an immediate: `0x` and its hexadecimal digits, with a minus
/// sign before a negative value of a signed field.
pub open spec fn immediate_text(v: u16, signed: bool) -> Seq<char> {
    if signed && v >= 0x8000 {
        "-0x"@ + radix_digits((0x10000 - v) as nat, 16)
    } else {
        "0x"@ + radix_digits(v as nat, 16)
    }
}

/// The text of the operand at `index`: `r<N>`, or `f<N>` for the
/// floating-point register of a load or store, or an immediate.
pub open spec fn operand_text(f: Form, index: int, o: Operand) -> Seq<char> {
    match o {
        Operand::Register(r) => (if f matches Form::Memory { fpr: true, .. } && index == 0 {
            "f"@
        } else {
            "r"@
        }) + radix_digits(r as nat, 10),
        Operand::Immediate(v) => immediate_text(v, signed_immediates(f)),
    }
}

/// The operands joined by `, `.
pub open spec fn operand_list_text(f: Form, ops: Seq<Operand>) -> Seq<char>
    decreases ops.len(),
{
    if ops.len() == 0 {
        seq![]
    } else if ops.len() == 1 {
        operand_text(f, 0, ops[0])
    } else {
        operand_list_text(f, ops.drop_last()) + ", "@ + operand_text(
            f,
            ops.len() - 1,
            ops.last(),
        )
    }
}

/// The operand text: a load or store writes its displacement and base
/// register as `d(rA)`.
pub open spec fn operands_text(f: Form, ops: Seq<Operand>) -> Seq<char> {
    if f is Memory && ops.len() == 3 {
        operand_text(f, 0, ops[0]) + ", "@ + operand_text(f, 1, ops[1]) + "("@ + operand_text(
            f,
            2,
            ops[2],
        ) + ")"@
    } else {
        operand_list_text(f, ops)
    }
}

/// Whether a character can stand inside a token without ending it or
/// opening a displacement: no separator, bracket or sign.
pub open spec fn plain_char(c: char) -> bool {
    c != ' ' && c != ',' && c != '\t' && c != '\n' && c != '\r' && c != '(' && c != ')' && c != '-'
}

/// The text of an instruction: its mnemonic, then a space and its operands
/// where it has any.
pub open spec fn instruction_text(m: Mnemonic, ops: Seq<Operand>) -> Seq<char> {
    if ops.len() == 0 {
        name_of(m)
    } else {
        name_of(m) + " "@ + operands_text(form_of(m), ops)
    }
}

/// The text of a word: its instruction, or `.long` and the word where the
/// codec does not know it.
pub open spec fn word_text(w: u32) -> Seq<char> {
    match decode(w) {
        Some((m, ops)) => instruction_text(m, ops),
        None => ".long "@ + hex8(w),
    }
}

fn push_operand(s: &mut String, f: Form, index: usize, o: Operand)
    ensures
        final(s)@ == old(s)@ + operand_text(f, index as int, o),
{
    match o {
        Operand::Register(r) => {
            let fpr = match f {
                Form::Memory { fpr, .. } => fpr && index == 0,
                _ => false,
            };
            if fpr {
                s.append("f");
            } else {
                s.append("r");
            }
            push_radix(s, r as u64, 10);
        },
        Operand::Immediate(v) => {
            let signed = match f {
                Form::Memory { .. } => true,
                Form::ArithImm { .. } => true,
                Form::LoadImm { .. } => true,
                Form::Compare { signed, .. } => signed,
                _ => false,
            };
            if signed && v >= 0x8000 {
                s.append("-0x");
                push_radix(s, 0x10000 - v as u64, 16);
            } else {
                s.append("0x");
                push_radix(s, v as u64, 16);
            }
        },
    }
    assert(s@ =~= old(s)@ + operand_text(f, index as int, o));
}

/// The text of an instruction, as `lwz r3, 0x4(r3)` or `addi r1, r1, -0x20`.
pub fn instruction_to_text(ins: &Instruction) -> (r: String)
    ensures
        r@ == instruction_text(ins.mnemonic, ins.operands@),
{
    let mut s = String::from_str(ins.mnemonic.name());
    let ops = &ins.operands;
    let f = ins.mnemonic.form();
    let n = ops.len();
    if n == 0 {
        return s;
    }
    s.append(" ");
    let ghost head = s@;
    let memory = match f {
        Form::Memory { .. } => true,
        _ => false,
    };
    if memory && n == 3 {
        push_operand(&mut s, f, 0, ops[0]);
        s.append(", ");
        push_operand(&mut s, f, 1, ops[1]);
        s.append("(");
        push_operand(&mut s, f, 2, ops[2]);
        s.append(")");
        assert(s@ =~= head + operands_text(f, ops@));
        return s;
    }
    let mut i: usize = 0;
    while i < n
        invariant
            n == ops@.len(),
            n > 0,
            i <= n,
            f == form_of(ins.mnemonic),
            s@ == head + operand_list_text(f, ops@.take(i as int)),
        decreases n - i,
    {
        if i > 0 {
            s.append(", ");
        }
        push_operand(&mut s, f, i, ops[i]);
        assert(ops@.take(i + 1).drop_last() =~= ops@.take(i as int));
        i = i + 1;
        assert(s@ =~= head + operand_list_text(f, ops@.take(i as int)));
    }
    assert(ops@.take(n as int) =~= ops@);
    s
}

/// The text of a machine word: its instruction, or `.long` and its eight
/// hexadecimal digits for a word that the codec does not know.
pub fn code_to_instruction(code: u32) -> (r: String)
    ensures
        r@ == word_text(code),
{
    match disassemble(code) {
        Some(ins) => instruction_to_text(&ins),
        None => {
            let mut s = String::from_str(".long ");
            push_hex8(&mut s, code);
            s
        },
    }
}

/// Each mnemonic's text names that mnemonic and no other, and holds no
/// separator, bracket or sign.
pub proof fn lemma_name_round_trip(m: Mnemonic)
    ensures
        mnemonic_named(name_of(m)) == Some(m),
        name_of(m).len() > 0,
        forall|i: int| 0 <= i < name_of(m).len() ==> plain_char(#[trigger] name_of(m)[i]),
{
    reveal_strlit("lwz");
    assert("lwz"@ =~= seq!['l', 'w', 'z']);
    reveal_strlit("lwzu");
    assert("lwzu"@ =~= seq!['l', 'w', 'z', 'u']);
    reveal_strlit("lbz");
    assert("lbz"@ =~= seq!['l', 'b', 'z']);
    reveal_strlit("lbzu");
    assert("lbzu"@ =~= seq!['l', 'b', 'z', 'u']);
    reveal_strlit("stw");
    assert("stw"@ =~= seq!['s', 't', 'w']);
    reveal_strlit("stwu");
    assert("stwu"@ =~= seq!['s', 't', 'w', 'u']);
    reveal_strlit("stb");
    assert("stb"@ =~= seq!['s', 't', 'b']);
    reveal_strlit("stbu");
    assert("stbu"@ =~= seq!['s', 't', 'b', 'u']);
    reveal_strlit("lhz");
    assert("lhz"@ =~= seq!['l', 'h', 'z']);
    reveal_strlit("lhzu");
    assert("lhzu"@ =~= seq!['l', 'h', 'z', 'u']);
    reveal_strlit("lha");
    assert("lha"@ =~= seq!['l', 'h', 'a']);
    reveal_strlit("lhau");
    assert("lhau"@ =~= seq!['l', 'h', 'a', 'u']);
    reveal_strlit("sth");
    assert("sth"@ =~= seq!['s', 't', 'h']);
    reveal_strlit("sthu");
    assert("sthu"@ =~= seq!['s', 't', 'h', 'u']);
    reveal_strlit("lmw");
    assert("lmw"@ =~= seq!['l', 'm', 'w']);
    reveal_strlit("stmw");
    assert("stmw"@ =~= seq!['s', 't', 'm', 'w']);
    reveal_strlit("lfs");
    assert("lfs"@ =~= seq!['l', 'f', 's']);
    reveal_strlit("lfsu");
    assert("lfsu"@ =~= seq!['l', 'f', 's', 'u']);
    reveal_strlit("lfd");
    assert("lfd"@ =~= seq!['l', 'f', 'd']);
    reveal_strlit("lfdu");
    assert("lfdu"@ =~= seq!['l', 'f', 'd', 'u']);
    reveal_strlit("stfs");
    assert("stfs"@ =~= seq!['s', 't', 'f', 's']);
    reveal_strlit("stfsu");
    assert("stfsu"@ =~= seq!['s', 't', 'f', 's', 'u']);
    reveal_strlit("stfd");
    assert("stfd"@ =~= seq!['s', 't', 'f', 'd']);
    reveal_strlit("stfdu");
    assert("stfdu"@ =~= seq!['s', 't', 'f', 'd', 'u']);
    reveal_strlit("mulli");
    assert("mulli"@ =~= seq!['m', 'u', 'l', 'l', 'i']);
    reveal_strlit("subfic");
    assert("subfic"@ =~= seq!['s', 'u', 'b', 'f', 'i', 'c']);
    reveal_strlit("addic");
    assert("addic"@ =~= seq!['a', 'd', 'd', 'i', 'c']);
    reveal_strlit("addic.");
    assert("addic."@ =~= seq!['a', 'd', 'd', 'i', 'c', '.']);
    reveal_strlit("addi");
    assert("addi"@ =~= seq!['a', 'd', 'd', 'i']);
    reveal_strlit("addis");
    assert("addis"@ =~= seq!['a', 'd', 'd', 'i', 's']);
    reveal_strlit("ori");
    assert("ori"@ =~= seq!['o', 'r', 'i']);
    reveal_strlit("oris");
    assert("oris"@ =~= seq!['o', 'r', 'i', 's']);
    reveal_strlit("xori");
    assert("xori"@ =~= seq!['x', 'o', 'r', 'i']);
    reveal_strlit("xoris");
    assert("xoris"@ =~= seq!['x', 'o', 'r', 'i', 's']);
    reveal_strlit("andi.");
    assert("andi."@ =~= seq!['a', 'n', 'd', 'i', '.']);
    reveal_strlit("andis.");
    assert("andis."@ =~= seq!['a', 'n', 'd', 'i', 's', '.']);
    reveal_strlit("li");
    assert("li"@ =~= seq!['l', 'i']);
    reveal_strlit("lis");
    assert("lis"@ =~= seq!['l', 'i', 's']);
    reveal_strlit("cmplwi");
    assert("cmplwi"@ =~= seq!['c', 'm', 'p', 'l', 'w', 'i']);
    reveal_strlit("cmpwi");
    assert("cmpwi"@ =~= seq!['c', 'm', 'p', 'w', 'i']);
    reveal_strlit("mflr");
    assert("mflr"@ =~= seq!['m', 'f', 'l', 'r']);
    reveal_strlit("mtlr");
    assert("mtlr"@ =~= seq!['m', 't', 'l', 'r']);
    reveal_strlit("mfctr");
    assert("mfctr"@ =~= seq!['m', 'f', 'c', 't', 'r']);
    reveal_strlit("mtctr");
    assert("mtctr"@ =~= seq!['m', 't', 'c', 't', 'r']);
    reveal_strlit("mr");
    assert("mr"@ =~= seq!['m', 'r']);
    reveal_strlit("blr");
    assert("blr"@ =~= seq!['b', 'l', 'r']);
    reveal_strlit("blrl");
    assert("blrl"@ =~= seq!['b', 'l', 'r', 'l']);
    reveal_strlit("bctr");
    assert("bctr"@ =~= seq!['b', 'c', 't', 'r']);
    reveal_strlit("bctrl");
    assert("bctrl"@ =~= seq!['b', 'c', 't', 'r', 'l']);
    reveal_strlit("nop");
    assert("nop"@ =~= seq!['n', 'o', 'p']);
    match m {
        Mnemonic::Lwz => {},
        Mnemonic::Lwzu => {},
        Mnemonic::Lbz => {},
        Mnemonic::Lbzu => {},
        Mnemonic::Stw => {},
        Mnemonic::Stwu => {},
        Mnemonic::Stb => {},
        Mnemonic::Stbu => {},
        Mnemonic::Lhz => {},
        Mnemonic::Lhzu => {},
        Mnemonic::Lha => {},
        Mnemonic::Lhau => {},
        Mnemonic::Sth => {},
        Mnemonic::Sthu => {},
        Mnemonic::Lmw => {},
        Mnemonic::Stmw => {},
        Mnemonic::Lfs => {},
        Mnemonic::Lfsu => {},
        Mnemonic::Lfd => {},
        Mnemonic::Lfdu => {},
        Mnemonic::Stfs => {},
        Mnemonic::Stfsu => {},
        Mnemonic::Stfd => {},
        Mnemonic::Stfdu => {},
        Mnemonic::Mulli => {},
        Mnemonic::Subfic => {},
        Mnemonic::Addic => {},
        Mnemonic::AddicRc => {},
        Mnemonic::Addi => {},
        Mnemonic::Addis => {},
        Mnemonic::Ori => {},
        Mnemonic::Oris => {},
        Mnemonic::Xori => {},
        Mnemonic::Xoris => {},
        Mnemonic::AndiRc => {},
        Mnemonic::AndisRc => {},
        Mnemonic::Li => {},
        Mnemonic::Lis => {},
        Mnemonic::Cmplwi => {},
        Mnemonic::Cmpwi => {},
        Mnemonic::Mflr => {},
        Mnemonic::Mtlr => {},
        Mnemonic::Mfctr => {},
        Mnemonic::Mtctr => {},
        Mnemonic::Mr => {},
        Mnemonic::Blr => {},
        Mnemonic::Blrl => {},
        Mnemonic::Bctr => {},
        Mnemonic::Bctrl => {},
        Mnemonic::Nop => {},
    }
}

proof fn lemma_fields(w: u32)
    ensures
        field5(w, 21) < 32,
        field5(w, 16) < 32,
        field5(w, 11) < 32,
        w >> 26u32 < 64,
        (w & 0xFFFFu32) < 0x10000,
{
    assert(field5(w, 21) < 32 && field5(w, 16) < 32 && field5(w, 11) < 32) by (bit_vector);
    assert(w >> 26u32 < 64 && (w & 0xFFFFu32) < 0x10000) by (bit_vector);
}

/// Disassembling a word and encoding what came out gives the word back:
/// every word that the codec reads is one that it writes.
pub proof fn lemma_decode_encode(w: u32)
    requires
        decode(w) is Some,
    ensures
        decode(w) matches Some((m, ops)) && encode(m, ops) == Some(w),
{
    lemma_fields(w);
    let opcode = w >> 26u32;
    let a = field5(w, 21);
    let b = field5(w, 16);
    let i = w & 0xFFFFu32;
    assert(reg(a) == Operand::Register(a as u8) && register_field(reg(a)) == Some(a));
    assert(register_field(reg(b)) == Some(b));
    assert(immediate_field(imm(w)) == Some(i));
    let (m, ops) = decode(w)->0;
    if w == 0x4E80_0020u32 || w == 0x4E80_0021u32 || w == 0x4E80_0420u32 || w == 0x4E80_0421u32
        || w == 0x6000_0000u32 {
    } else if opcode == 31 {
        if w & 0xFC1F_FFFFu32 == 0x7C08_02A6u32 || w & 0xFC1F_FFFFu32 == 0x7C08_03A6u32
            || w & 0xFC1F_FFFFu32 == 0x7C09_02A6u32 || w & 0xFC1F_FFFFu32 == 0x7C09_03A6u32 {
            let base = w & 0xFC1F_FFFFu32;
            assert(w == base | a << 21u32) by (bit_vector)
                requires
                    base == w & 0xFC1F_FFFFu32,
                    a == (w >> 21u32) & 31u32,
            ;
        } else {
            assert(w == 0x7C00_0378u32 | a << 21u32 | b << 16u32 | a << 11u32) by (bit_vector)
                requires
                    w & 0xFC00_07FFu32 == 0x7C00_0378u32,
                    (w >> 11u32) & 31u32 == a,
                    a == (w >> 21u32) & 31u32,
                    b == (w >> 16u32) & 31u32,
            ;
        }
    } else if (opcode == 14 || opcode == 15) && b == 0 {
        assert(w == opcode << 26u32 | a << 21u32 | i) by (bit_vector)
            requires
                opcode == w >> 26u32,
                a == (w >> 21u32) & 31u32,
                (w >> 16u32) & 31u32 == 0,
                i == w & 0xFFFFu32,
        ;
    } else {
        assert(w == opcode << 26u32 | a << 21u32 | b << 16u32 | i) by (bit_vector)
            requires
                opcode == w >> 26u32,
                a == (w >> 21u32) & 31u32,
                b == (w >> 16u32) & 31u32,
                i == w & 0xFFFFu32,
        ;
        if a == 0 {
            assert(w == opcode << 26u32 | b << 16u32 | i) by (bit_vector)
                requires
                    opcode == w >> 26u32,
                    (w >> 21u32) & 31u32 == 0,
                    b == (w >> 16u32) & 31u32,
                    i == w & 0xFFFFu32,
            ;
        }
    }
}

} // verus!
