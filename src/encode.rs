//! The second pass: an instruction record and the finished symbol table give
//! the 16-bit opcode.
use vstd::prelude::*;
use crate::isa::{Instr, InstrView, Mnemonic, SpecialRegister, register_index, spec_register};
use crate::number::{literal_value, parse_literal};

verus! {

/// A label: a name bound to the address where it was defined.
pub struct Label {
    pub name: Vec<char>,
    pub address: u16,
}

impl View for Label {
    type V = (Seq<char>, u16);

    open spec fn view(&self) -> (Seq<char>, u16) {
        (self.name@, self.address)
    }
}

pub open spec fn labels_view(l: Seq<Label>) -> Seq<(Seq<char>, u16)> {
    l.map_values(|x: Label| x@)
}

/// Why an instruction could not be encoded.
#[derive(Clone, Copy, Debug, PartialEq, Eq, Structural)]
pub enum EncodeError {
    /// It names a label that the table does not hold.
    UnresolvedLabel,
    /// An operand is missing or not of the shape its position needs.
    MalformedOperand,
    /// An address operand that starts with a digit but is no 12-bit literal,
    /// and names no label either.
    MalformedLiteral,
}

/// The address of the first label named `name`.
pub open spec fn lookup(labels: Seq<(Seq<char>, u16)>, name: Seq<char>) -> Option<u16>
    decreases labels.len(),
{
    if labels.len() == 0 {
        None
    } else if labels[0].0 == name {
        Some(labels[0].1)
    } else {
        lookup(labels.drop_first(), name)
    }
}

/// Whether two character sequences are equal.
pub fn chars_eq(a: &[char], b: &[char]) -> (r: bool)
    ensures
        r == (a@ == b@),
{
    if a.len() != b.len() {
        return false;
    }
    let mut i: usize = 0;
    while i < a.len()
        invariant
            a@.len() == b@.len(),
            i <= a@.len(),
            forall|j: int| 0 <= j < i ==> a@[j] == b@[j],
        decreases a@.len() - i,
    {
        if a[i] != b[i] {
            return false;
        }
        i = i + 1;
    }
    assert(a@ =~= b@);
    true
}

pub fn find_label(labels: &Vec<Label>, name: &[char]) -> (r: Option<u16>)
    ensures
        r == lookup(labels_view(labels@), name@),
{
    let mut i: usize = 0;
    let ghost all = labels_view(labels@);
    assert(all.subrange(0, all.len() as int) =~= all);
    while i < labels.len()
        invariant
            all == labels_view(labels@),
            i <= labels@.len(),
            lookup(all, name@) == lookup(all.subrange(i as int, all.len() as int), name@),
        decreases labels@.len() - i,
    {
        let ghost rest = all.subrange(i as int, all.len() as int);
        assert(rest[0] == labels@[i as int]@);
        if chars_eq(labels[i].name.as_slice(), name) {
            return Some(labels[i].address);
        }
        assert(rest.drop_first() =~= all.subrange(i + 1, all.len() as int));
        i = i + 1;
    }
    None
}

pub open spec fn reg_at(i: InstrView, k: nat) -> Option<nat> {
    if k < i.params.len() { spec_register(i.params[k as int]) } else { None }
}

pub open spec fn lit_at(i: InstrView, k: nat) -> Option<nat> {
    if k < i.params.len() { literal_value(i.params[k as int]) } else { None }
}

/// Whether `t` starts with a decimal digit, as every literal does.
pub open spec fn starts_with_digit(t: Seq<char>) -> bool {
    t.len() > 0 && '0' <= t[0] && t[0] <= '9'
}

/// The address operand `k`: a label's address or a literal. A name that
/// the table lacks is an unresolved label, or a malformed literal where it
/// starts with a digit.
pub open spec fn address_at(i: InstrView, k: nat, labels: Seq<(Seq<char>, u16)>) -> Result<nat, EncodeError> {
    if k >= i.params.len() {
        Err(EncodeError::MalformedOperand)
    } else if i.refs_label {
        match lookup(labels, i.params[k as int]) {
            Some(a) => Ok(a as nat),
            None => if starts_with_digit(i.params[k as int]) {
                Err(EncodeError::MalformedLiteral)
            } else {
                Err(EncodeError::UnresolvedLabel)
            },
        }
    } else {
        match literal_value(i.params[k as int]) {
            Some(v) => Ok(v),
            None => Err(EncodeError::MalformedOperand),
        }
    }
}

/// `base` with a 12-bit address in its low bits.
pub open spec fn with_address(base: nat, a: Result<nat, EncodeError>) -> Result<u16, EncodeError> {
    match a {
        Ok(v) => Ok((base + v % 0x1000) as u16),
        Err(e) => Err(e),
    }
}

/// `base` with register `x` of operand `k` in bits 8..12.
pub open spec fn reg_form(base: nat, i: InstrView, k: nat) -> Result<u16, EncodeError> {
    match reg_at(i, k) {
        Some(x) => Ok((base + x * 0x100) as u16),
        None => Err(EncodeError::MalformedOperand),
    }
}

/// `base` with register `x` in bits 8..12 and register `y` in bits 4..8.
pub open spec fn reg_reg_form(base: nat, i: InstrView) -> Result<u16, EncodeError> {
    match (reg_at(i, 0), reg_at(i, 1)) {
        (Some(x), Some(y)) => Ok((base + x * 0x100 + y * 0x10) as u16),
        _ => Err(EncodeError::MalformedOperand),
    }
}

/// `base` with register `x` in bits 8..12 and a byte in bits 0..8.
pub open spec fn reg_byte_form(base: nat, i: InstrView) -> Result<u16, EncodeError> {
    match (reg_at(i, 0), lit_at(i, 1)) {
        (Some(x), Some(v)) => Ok((base + x * 0x100 + v % 0x100) as u16),
        _ => Err(EncodeError::MalformedOperand),
    }
}

/// The opcode of `i` against the symbol table `labels`.
pub open spec fn spec_opcode(i: InstrView, labels: Seq<(Seq<char>, u16)>) -> Result<u16, EncodeError> {
    match i.mnemonic {
        Mnemonic::Cls => Ok(0x00E0),
        Mnemonic::Ret => Ok(0x00EE),
        Mnemonic::Sys => Ok(0),
        Mnemonic::Jmp => if i.params.len() == 2 {
            match lit_at(i, 1) {
                Some(v) => Ok((0xB000 + v % 0x1000) as u16),
                None => Err(EncodeError::MalformedOperand),
            }
        } else {
            with_address(0x1000, address_at(i, 0, labels))
        },
        Mnemonic::Call => with_address(0x2000, address_at(i, 0, labels)),
        Mnemonic::Se => if i.has_immediate { reg_byte_form(0x3000, i) } else { reg_reg_form(0x5000, i) },
        Mnemonic::Sne => if i.has_immediate { reg_byte_form(0x4000, i) } else { reg_reg_form(0x9000, i) },
        Mnemonic::Skp => reg_form(0xE09E, i, 0),
        Mnemonic::Sknp => reg_form(0xE0A1, i, 0),
        Mnemonic::Ld => match i.special_register {
            SpecialRegister::Index => if i.special_register_src {
                Err(EncodeError::MalformedOperand)
            } else {
                with_address(0xA000, address_at(i, 1, labels))
            },
            SpecialRegister::DelayTimer => if i.special_register_src {
                reg_form(0xF007, i, 0)
            } else {
                reg_form(0xF015, i, 1)
            },
            SpecialRegister::SoundTimer => if i.special_register_src {
                Err(EncodeError::MalformedOperand)
            } else {
                reg_form(0xF018, i, 1)
            },
            SpecialRegister::KeyWait => if i.special_register_src {
                reg_form(0xF00A, i, 0)
            } else {
                Err(EncodeError::MalformedOperand)
            },
            SpecialRegister::NoSpecial => if i.has_immediate {
                reg_byte_form(0x6000, i)
            } else {
                reg_reg_form(0x8000, i)
            },
        },
        Mnemonic::Or => reg_reg_form(0x8001, i),
        Mnemonic::And => reg_reg_form(0x8002, i),
        Mnemonic::Xor => reg_reg_form(0x8003, i),
        Mnemonic::Add => if i.has_immediate { reg_byte_form(0x7000, i) } else { reg_reg_form(0x8004, i) },
        Mnemonic::Sub => reg_reg_form(0x8005, i),
        Mnemonic::Shr => reg_reg_form(0x8006, i),
        Mnemonic::Subn => reg_reg_form(0x8007, i),
        Mnemonic::Shl => reg_reg_form(0x800E, i),
        Mnemonic::Rnd => reg_byte_form(0xC000, i),
        Mnemonic::Drw => match (reg_at(i, 0), reg_at(i, 1), lit_at(i, 2)) {
            (Some(x), Some(y), Some(n)) => Ok((0xD000 + x * 0x100 + y * 0x10 + n % 0x10) as u16),
            _ => Err(EncodeError::MalformedOperand),
        },
    }
}

fn reg_of(instr: &Instr, k: usize) -> (r: Option<u16>)
    ensures
        r is Some <==> reg_at(instr@, k as nat) is Some,
        r is Some ==> r->0 as nat == reg_at(instr@, k as nat)->0 && r->0 < 16,
{
    if k < instr.params.len() {
        register_index(instr.params[k].as_slice())
    } else {
        None
    }
}

fn lit_of(instr: &Instr, k: usize) -> (r: Option<u16>)
    ensures
        r is Some <==> lit_at(instr@, k as nat) is Some,
        r is Some ==> r->0 as nat == lit_at(instr@, k as nat)->0,
{
    if k < instr.params.len() {
        parse_literal(instr.params[k].as_slice())
    } else {
        None
    }
}

fn address_of(instr: &Instr, k: usize, labels: &Vec<Label>) -> (r: Result<u16, EncodeError>)
    ensures
        r is Ok <==> address_at(instr@, k as nat, labels_view(labels@)) is Ok,
        r is Ok ==> r->Ok_0 as nat == address_at(instr@, k as nat, labels_view(labels@))->Ok_0,
        r is Err ==> r == (match address_at(instr@, k as nat, labels_view(labels@)) {
            Err(e) => Err::<u16, EncodeError>(e),
            Ok(_) => Err::<u16, EncodeError>(EncodeError::MalformedOperand),
        }),
{
    if k >= instr.params.len() {
        Err(EncodeError::MalformedOperand)
    } else if instr.refs_label {
        let name = instr.params[k].as_slice();
        match find_label(labels, name) {
            Some(a) => Ok(a),
            None => if name.len() > 0 && '0' <= name[0] && name[0] <= '9' {
                Err(EncodeError::MalformedLiteral)
            } else {
                Err(EncodeError::UnresolvedLabel)
            },
        }
    } else {
        match parse_literal(instr.params[k].as_slice()) {
            Some(v) => Ok(v),
            None => Err(EncodeError::MalformedOperand),
        }
    }
}

fn address_opcode(base: u16, a: Result<u16, EncodeError>) -> (r: Result<u16, EncodeError>)
    requires
        base % 0x1000 == 0,
    ensures
        r == (match a {
            Ok(v) => Ok::<u16, EncodeError>((base + v % 0x1000) as u16),
            Err(e) => Err::<u16, EncodeError>(e),
        }),
{
    match a {
        Ok(v) => Ok(base + v % 0x1000),
        Err(e) => Err(e),
    }
}

fn reg_opcode(base: u16, instr: &Instr, k: usize) -> (r: Result<u16, EncodeError>)
    requires
        base % 0x1000 < 0xf00,
        base < 0xf100,
    ensures
        r == reg_form(base as nat, instr@, k as nat),
{
    match reg_of(instr, k) {
        Some(x) => Ok(base + x * 0x100),
        None => Err(EncodeError::MalformedOperand),
    }
}

fn reg_reg_opcode(base: u16, instr: &Instr) -> (r: Result<u16, EncodeError>)
    requires
        base < 0xf000,
    ensures
        r == reg_reg_form(base as nat, instr@),
{
    match (reg_of(instr, 0), reg_of(instr, 1)) {
        (Some(x), Some(y)) => Ok(base + x * 0x100 + y * 0x10),
        _ => Err(EncodeError::MalformedOperand),
    }
}

fn reg_byte_opcode(base: u16, instr: &Instr) -> (r: Result<u16, EncodeError>)
    requires
        base < 0xf000,
    ensures
        r == reg_byte_form(base as nat, instr@),
{
    match (reg_of(instr, 0), lit_of(instr, 1)) {
        (Some(x), Some(v)) => Ok(base + x * 0x100 + v % 0x100),
        _ => Err(EncodeError::MalformedOperand),
    }
}

/// The opcode of `instr`, with its label, if it names one, looked up in
/// `valid_labels`.
pub fn opcode_for_instruction(instr: &Instr, valid_labels: &Vec<Label>) -> (r: Result<u16, EncodeError>)
    ensures
        r == spec_opcode(instr@, labels_view(valid_labels@)),
{
    match instr.mnemonic {
        Mnemonic::Cls => Ok(0x00E0),
        Mnemonic::Ret => Ok(0x00EE),
        Mnemonic::Sys => Ok(0),
        Mnemonic::Jmp => if instr.params.len() == 2 {
            match lit_of(instr, 1) {
                Some(v) => Ok(0xB000 + v % 0x1000),
                None => Err(EncodeError::MalformedOperand),
            }
        } else {
            address_opcode(0x1000, address_of(instr, 0, valid_labels))
        },
        Mnemonic::Call => address_opcode(0x2000, address_of(instr, 0, valid_labels)),
        Mnemonic::Se => if instr.has_immediate {
            reg_byte_opcode(0x3000, instr)
        } else {
            reg_reg_opcode(0x5000, instr)
        },
        Mnemonic::Sne => if instr.has_immediate {
            reg_byte_opcode(0x4000, instr)
        } else {
            reg_reg_opcode(0x9000, instr)
        },
        Mnemonic::Skp => reg_opcode(0xE09E, instr, 0),
        Mnemonic::Sknp => reg_opcode(0xE0A1, instr, 0),
        Mnemonic::Ld => match instr.special_register {
            SpecialRegister::Index => if instr.special_register_src {
                Err(EncodeError::MalformedOperand)
            } else {
                address_opcode(0xA000, address_of(instr, 1, valid_labels))
            },
            SpecialRegister::DelayTimer => if instr.special_register_src {
                reg_opcode(0xF007, instr, 0)
            } else {
                reg_opcode(0xF015, instr, 1)
            },
            SpecialRegister::SoundTimer => if instr.special_register_src {
                Err(EncodeError::MalformedOperand)
            } else {
                reg_opcode(0xF018, instr, 1)
            },
            SpecialRegister::KeyWait => if instr.special_register_src {
                reg_opcode(0xF00A, instr, 0)
            } else {
                Err(EncodeError::MalformedOperand)
            },
            SpecialRegister::NoSpecial => if instr.has_immediate {
                reg_byte_opcode(0x6000, instr)
            } else {
                reg_reg_opcode(0x8000, instr)
            },
        },
        Mnemonic::Or => reg_reg_opcode(0x8001, instr),
        Mnemonic::And => reg_reg_opcode(0x8002, instr),
        Mnemonic::Xor => reg_reg_opcode(0x8003, instr),
        Mnemonic::Add => if instr.has_immediate {
            reg_byte_opcode(0x7000, instr)
        } else {
            reg_reg_opcode(0x8004, instr)
        },
        Mnemonic::Sub => reg_reg_opcode(0x8005, instr),
        Mnemonic::Shr => reg_reg_opcode(0x8006, instr),
        Mnemonic::Subn => reg_reg_opcode(0x8007, instr),
        Mnemonic::Shl => reg_reg_opcode(0x800E, instr),
        Mnemonic::Rnd => reg_byte_opcode(0xC000, instr),
        Mnemonic::Drw => match (reg_of(instr, 0), reg_of(instr, 1), lit_of(instr, 2)) {
            (Some(x), Some(y), Some(n)) => Ok(0xD000 + x * 0x100 + y * 0x10 + n % 0x10),
            _ => Err(EncodeError::MalformedOperand),
        },
    }
}

} // verus!
