//! The instruction set: mnemonics, registers, operand counts and the shape
//! that each operand position accepts.
use vstd::prelude::*;
use crate::lexer::chars_of;
use crate::number::{literal_value, parse_literal};

verus! {

/// The mnemonics the assembler knows.
#[derive(Clone, Copy, Debug, PartialEq, Eq, Structural)]
pub enum Mnemonic {
    Cls,
    Ret,
    Sys,
    Jmp,
    Call,
    Se,
    Sne,
    Ld,
    Or,
    And,
    Xor,
    Add,
    Sub,
    Shr,
    Subn,
    Shl,
    Rnd,
    Drw,
    Skp,
    Sknp,
}

/// A register other than `v0`..`vf` that an `ld` may name.
#[derive(Clone, Copy, Debug, PartialEq, Eq, Structural)]
pub enum SpecialRegister {
    NoSpecial,
    Index,
    DelayTimer,
    SoundTimer,
    KeyWait,
}

/// One instruction as read in the first pass: its operands, the hints the
/// operand checks recorded, and the address it was given.
pub struct Instr {
    pub mnemonic: Mnemonic,
    pub params: Vec<Vec<char>>,
    pub refs_label: bool,
    pub has_immediate: bool,
    pub special_register: SpecialRegister,
    pub special_register_src: bool,
    pub address: u16,
    pub line: usize,
}

#[verifier::ext_equal]
pub struct InstrView {
    pub mnemonic: Mnemonic,
    pub params: Seq<Seq<char>>,
    pub refs_label: bool,
    pub has_immediate: bool,
    pub special_register: SpecialRegister,
    pub special_register_src: bool,
    pub address: u16,
    pub line: nat,
}

impl View for Instr {
    type V = InstrView;

    open spec fn view(&self) -> InstrView {
        InstrView {
            mnemonic: self.mnemonic,
            params: self.params@.map_values(|p: Vec<char>| p@),
            refs_label: self.refs_label,
            has_immediate: self.has_immediate,
            special_register: self.special_register,
            special_register_src: self.special_register_src,
            address: self.address,
            line: self.line as nat,
        }
    }
}

/// A fresh record for mnemonic `m` at `address`, with no operands yet.
pub open spec fn new_instr(m: Mnemonic, address: u16, line: nat) -> InstrView {
    InstrView {
        mnemonic: m,
        params: Seq::empty(),
        refs_label: false,
        has_immediate: false,
        special_register: SpecialRegister::NoSpecial,
        special_register_src: false,
        address,
        line,
    }
}

impl Instr {
    pub fn new(mnemonic: Mnemonic, address: u16, line: usize) -> (r: Instr)
        ensures
            r@ == new_instr(mnemonic, address, line as nat),
    {
        let r = Instr {
            mnemonic,
            params: Vec::new(),
            refs_label: false,
            has_immediate: false,
            special_register: SpecialRegister::NoSpecial,
            special_register_src: false,
            address,
            line,
        };
        assert(r@.params =~= Seq::<Seq<char>>::empty());
        r
    }
}

/// Whether the characters `w` spell `lit`.
pub fn eq_lit(w: &[char], lit: &str) -> (r: bool)
    ensures
        r == (w@ == lit@),
{
    let n = lit.unicode_len();
    if w.len() != n {
        return false;
    }
    let mut i: usize = 0;
    while i < n
        invariant
            n == lit@.len(),
            n == w@.len(),
            i <= n,
            forall|j: int| 0 <= j < i ==> w@[j] == lit@[j],
        decreases n - i,
    {
        if w[i] != lit.get_char(i) {
            return false;
        }
        i = i + 1;
    }
    assert(w@ =~= lit@);
    true
}

/// The mnemonic that the word `w` spells, if any.
pub open spec fn spec_mnemonic(w: Seq<char>) -> Option<Mnemonic> {
    if w == "cls"@ { Some(Mnemonic::Cls) }
    else if w == "ret"@ { Some(Mnemonic::Ret) }
    else if w == "sys"@ { Some(Mnemonic::Sys) }
    else if w == "jmp"@ { Some(Mnemonic::Jmp) }
    else if w == "call"@ { Some(Mnemonic::Call) }
    else if w == "se"@ { Some(Mnemonic::Se) }
    else if w == "sne"@ { Some(Mnemonic::Sne) }
    else if w == "ld"@ { Some(Mnemonic::Ld) }
    else if w == "or"@ { Some(Mnemonic::Or) }
    else if w == "and"@ { Some(Mnemonic::And) }
    else if w == "xor"@ { Some(Mnemonic::Xor) }
    else if w == "add"@ { Some(Mnemonic::Add) }
    else if w == "sub"@ { Some(Mnemonic::Sub) }
    else if w == "shr"@ { Some(Mnemonic::Shr) }
    else if w == "subn"@ { Some(Mnemonic::Subn) }
    else if w == "shl"@ { Some(Mnemonic::Shl) }
    else if w == "rnd"@ { Some(Mnemonic::Rnd) }
    else if w == "drw"@ { Some(Mnemonic::Drw) }
    else if w == "skp"@ { Some(Mnemonic::Skp) }
    else if w == "sknp"@ { Some(Mnemonic::Sknp) }
    else { None }
}

pub fn mnemonic_of(w: &[char]) -> (r: Option<Mnemonic>)
    ensures
        r == spec_mnemonic(w@),
{
    if eq_lit(w, "cls") { Some(Mnemonic::Cls) }
    else if eq_lit(w, "ret") { Some(Mnemonic::Ret) }
    else if eq_lit(w, "sys") { Some(Mnemonic::Sys) }
    else if eq_lit(w, "jmp") { Some(Mnemonic::Jmp) }
    else if eq_lit(w, "call") { Some(Mnemonic::Call) }
    else if eq_lit(w, "se") { Some(Mnemonic::Se) }
    else if eq_lit(w, "sne") { Some(Mnemonic::Sne) }
    else if eq_lit(w, "ld") { Some(Mnemonic::Ld) }
    else if eq_lit(w, "or") { Some(Mnemonic::Or) }
    else if eq_lit(w, "and") { Some(Mnemonic::And) }
    else if eq_lit(w, "xor") { Some(Mnemonic::Xor) }
    else if eq_lit(w, "add") { Some(Mnemonic::Add) }
    else if eq_lit(w, "sub") { Some(Mnemonic::Sub) }
    else if eq_lit(w, "shr") { Some(Mnemonic::Shr) }
    else if eq_lit(w, "subn") { Some(Mnemonic::Subn) }
    else if eq_lit(w, "shl") { Some(Mnemonic::Shl) }
    else if eq_lit(w, "rnd") { Some(Mnemonic::Rnd) }
    else if eq_lit(w, "drw") { Some(Mnemonic::Drw) }
    else if eq_lit(w, "skp") { Some(Mnemonic::Skp) }
    else if eq_lit(w, "sknp") { Some(Mnemonic::Sknp) }
    else { None }
}

/// Whether `word` is a known mnemonic.
pub fn instruction_is_valid(word: &str) -> (r: bool)
    ensures
        r == spec_mnemonic(word@) is Some,
{
    let w = chars_of(word);
    mnemonic_of(w.as_slice()).is_some()
}

/// How many operands each mnemonic takes.
pub open spec fn operand_count_ok(m: Mnemonic, n: nat) -> bool {
    match m {
        Mnemonic::Cls | Mnemonic::Ret | Mnemonic::Sys => n == 0,
        Mnemonic::Jmp => n == 1 || n == 2,
        Mnemonic::Call | Mnemonic::Skp | Mnemonic::Sknp => n == 1,
        Mnemonic::Drw => n == 3,
        _ => n == 2,
    }
}

pub fn operand_count_valid(m: Mnemonic, n: usize) -> (r: bool)
    ensures
        r == operand_count_ok(m, n as nat),
{
    match m {
        Mnemonic::Cls | Mnemonic::Ret | Mnemonic::Sys => n == 0,
        Mnemonic::Jmp => n == 1 || n == 2,
        Mnemonic::Call | Mnemonic::Skp | Mnemonic::Sknp => n == 1,
        Mnemonic::Drw => n == 3,
        _ => n == 2,
    }
}

/// Whether `word` is a mnemonic that takes `num_params` operands.
pub fn num_params_valid_for_instruction(num_params: usize, word: &str) -> (r: bool)
    ensures
        r == (spec_mnemonic(word@) is Some && operand_count_ok(spec_mnemonic(word@)->0, num_params as nat)),
{
    let w = chars_of(word);
    match mnemonic_of(w.as_slice()) {
        Some(m) => operand_count_valid(m, num_params),
        None => false,
    }
}

/// The index of a general register token `v0`..`vf`.
pub open spec fn spec_register(t: Seq<char>) -> Option<nat> {
    if t.len() == 2 && t[0] == 'v' {
        if '0' <= t[1] && t[1] <= '9' {
            Some((t[1] as nat - '0' as nat) as nat)
        } else if 'a' <= t[1] && t[1] <= 'f' {
            Some((t[1] as nat - 'a' as nat + 10) as nat)
        } else {
            None
        }
    } else {
        None
    }
}

pub fn register_index(t: &[char]) -> (r: Option<u16>)
    ensures
        r == (match spec_register(t@) {
            Some(v) => Some(v as u16),
            None => None::<u16>,
        }),
        r is Some ==> r->0 < 16 && r->0 as nat == spec_register(t@)->0,
{
    if t.len() == 2 && t[0] == 'v' {
        let c = t[1];
        if '0' <= c && c <= '9' {
            Some(((c as u32) - ('0' as u32)) as u16)
        } else if 'a' <= c && c <= 'f' {
            Some(((c as u32) - ('a' as u32) + 10) as u16)
        } else {
            None
        }
    } else {
        None
    }
}

/// The special register a token names: `I`, `dt`, `st` or `key`.
pub open spec fn spec_special(t: Seq<char>) -> SpecialRegister {
    if t == "I"@ { SpecialRegister::Index }
    else if t == "dt"@ { SpecialRegister::DelayTimer }
    else if t == "st"@ { SpecialRegister::SoundTimer }
    else if t == "key"@ { SpecialRegister::KeyWait }
    else { SpecialRegister::NoSpecial }
}

pub fn special_of(t: &[char]) -> (r: SpecialRegister)
    ensures
        r == spec_special(t@),
{
    if eq_lit(t, "I") { SpecialRegister::Index }
    else if eq_lit(t, "dt") { SpecialRegister::DelayTimer }
    else if eq_lit(t, "st") { SpecialRegister::SoundTimer }
    else if eq_lit(t, "key") { SpecialRegister::KeyWait }
    else { SpecialRegister::NoSpecial }
}

/// A literal of value at most `max`.
pub open spec fn imm_ok(t: Seq<char>, max: nat) -> bool {
    literal_value(t) is Some && literal_value(t)->0 <= max
}

pub fn imm_valid(t: &[char], max: u16) -> (r: bool)
    ensures
        r == imm_ok(t@, max as nat),
{
    match parse_literal(t) {
        Some(v) => v <= max,
        None => false,
    }
}

pub open spec fn is_reg(t: Seq<char>) -> bool {
    spec_register(t) is Some
}

pub open spec fn with_label(i: InstrView) -> InstrView {
    InstrView { refs_label: true, ..i }
}

pub open spec fn with_immediate(i: InstrView) -> InstrView {
    InstrView { has_immediate: true, ..i }
}

pub open spec fn with_special(i: InstrView, s: SpecialRegister, src: bool) -> InstrView {
    InstrView { special_register: s, special_register_src: src, ..i }
}

/// An address operand: a 12-bit literal, or else a label to resolve later.
pub open spec fn address_operand(t: Seq<char>, i: InstrView) -> (bool, InstrView) {
    if imm_ok(t, 0xfff) { (true, i) } else { (true, with_label(i)) }
}

/// Whether token `t` is accepted at operand position `index` of `i`, and
/// the record with the hints that the check leaves in it.
pub open spec fn spec_validate(t: Seq<char>, index: nat, i: InstrView) -> (bool, InstrView) {
    match i.mnemonic {
        Mnemonic::Jmp => if index == 0 {
            if t == "v0"@ { (true, i) } else { address_operand(t, i) }
        } else if index == 1 {
            (imm_ok(t, 0xfff), with_immediate(i))
        } else {
            (false, i)
        },
        Mnemonic::Call => if index == 0 { address_operand(t, i) } else { (false, i) },
        Mnemonic::Rnd => if index == 0 {
            (is_reg(t), i)
        } else if index == 1 {
            (imm_ok(t, 0xff), with_immediate(i))
        } else {
            (false, i)
        },
        Mnemonic::Se | Mnemonic::Sne | Mnemonic::Add => if index == 0 {
            (is_reg(t), i)
        } else if index == 1 {
            if is_reg(t) { (true, i) } else { (imm_ok(t, 0xff), with_immediate(i)) }
        } else {
            (false, i)
        },
        Mnemonic::Skp | Mnemonic::Sknp => (index == 0 && is_reg(t), i),
        Mnemonic::Sub | Mnemonic::Xor | Mnemonic::Or | Mnemonic::And | Mnemonic::Shr
        | Mnemonic::Shl | Mnemonic::Subn => ((index == 0 || index == 1) && is_reg(t), i),
        Mnemonic::Ld => if index == 0 {
            if is_reg(t) {
                (true, i)
            } else if spec_special(t) != SpecialRegister::NoSpecial {
                (true, with_special(i, spec_special(t), false))
            } else {
                (false, i)
            }
        } else if index == 1 {
            match i.special_register {
                SpecialRegister::Index => address_operand(t, with_immediate(i)),
                SpecialRegister::DelayTimer | SpecialRegister::SoundTimer | SpecialRegister::KeyWait => (
                    is_reg(t),
                    i,
                ),
                SpecialRegister::NoSpecial => if is_reg(t) {
                    (true, i)
                } else if spec_special(t) != SpecialRegister::NoSpecial {
                    (true, with_special(i, spec_special(t), true))
                } else {
                    (imm_ok(t, 0xff), with_immediate(i))
                },
            }
        } else {
            (false, i)
        },
        Mnemonic::Drw => if index == 0 || index == 1 {
            (is_reg(t), i)
        } else if index == 2 {
            (imm_ok(t, 0xf), i)
        } else {
            (false, i)
        },
        Mnemonic::Cls | Mnemonic::Ret | Mnemonic::Sys => (false, i),
    }
}

fn address_operand_exec(t: &[char], instr: &mut Instr) -> (r: bool)
    ensures
        (r, final(instr)@) == address_operand(t@, old(instr)@),
{
    if !imm_valid(t, 0xfff) {
        instr.refs_label = true;
    }
    true
}

/// Checks token `t` at operand position `index` of `instr`, recording in
/// `instr` what the encoder will need to know of it.
pub fn validate_operand(t: &[char], index: usize, instr: &mut Instr) -> (r: bool)
    ensures
        (r, final(instr)@) == spec_validate(t@, index as nat, old(instr)@),
{
    match instr.mnemonic {
        Mnemonic::Jmp => if index == 0 {
            if eq_lit(t, "v0") { true } else { address_operand_exec(t, instr) }
        } else if index == 1 {
            instr.has_immediate = true;
            imm_valid(t, 0xfff)
        } else {
            false
        },
        Mnemonic::Call => if index == 0 { address_operand_exec(t, instr) } else { false },
        Mnemonic::Rnd => if index == 0 {
            register_index(t).is_some()
        } else if index == 1 {
            instr.has_immediate = true;
            imm_valid(t, 0xff)
        } else {
            false
        },
        Mnemonic::Se | Mnemonic::Sne | Mnemonic::Add => if index == 0 {
            register_index(t).is_some()
        } else if index == 1 {
            if register_index(t).is_some() {
                true
            } else {
                instr.has_immediate = true;
                imm_valid(t, 0xff)
            }
        } else {
            false
        },
        Mnemonic::Skp | Mnemonic::Sknp => index == 0 && register_index(t).is_some(),
        Mnemonic::Sub | Mnemonic::Xor | Mnemonic::Or | Mnemonic::And | Mnemonic::Shr
        | Mnemonic::Shl | Mnemonic::Subn => (index == 0 || index == 1) && register_index(t).is_some(),
        Mnemonic::Ld => if index == 0 {
            if register_index(t).is_some() {
                true
            } else {
                let s = special_of(t);
                if s != SpecialRegister::NoSpecial {
                    instr.special_register = s;
                    instr.special_register_src = false;
                    true
                } else {
                    false
                }
            }
        } else if index == 1 {
            match instr.special_register {
                SpecialRegister::Index => {
                    instr.has_immediate = true;
                    address_operand_exec(t, instr)
                },
                SpecialRegister::DelayTimer | SpecialRegister::SoundTimer | SpecialRegister::KeyWait => {
                    register_index(t).is_some()
                },
                SpecialRegister::NoSpecial => if register_index(t).is_some() {
                    true
                } else {
                    let s = special_of(t);
                    if s != SpecialRegister::NoSpecial {
                        instr.special_register = s;
                        instr.special_register_src = true;
                        true
                    } else {
                        instr.has_immediate = true;
                        imm_valid(t, 0xff)
                    }
                },
            }
        } else {
            false
        },
        Mnemonic::Drw => if index == 0 || index == 1 {
            register_index(t).is_some()
        } else if index == 2 {
            imm_valid(t, 0xf)
        } else {
            false
        },
        Mnemonic::Cls | Mnemonic::Ret | Mnemonic::Sys => false,
    }
}

/// Checks `param` at operand position `index` of `instr`; see
/// `validate_operand`.
pub fn param_valid_for_instruction(param: &str, index: usize, instr: &mut Instr) -> (r: bool)
    ensures
        (r, final(instr)@) == spec_validate(param@, index as nat, old(instr)@),
{
    let t = chars_of(param);
    validate_operand(t.as_slice(), index, instr)
}

/// How many operands a directive takes at the least: one for `org` and
/// `db`, none for a name that is no directive.
pub open spec fn spec_expected_params(name: Seq<char>) -> nat {
    if name == "org"@ || name == "db"@ { 1 } else { 0 }
}

/// The least operand count of the directive spelled by `name`; zero where
/// it spells none.
pub fn directive_min_operands(name: &[char]) -> (r: u32)
    ensures
        r as nat == spec_expected_params(name@),
{
    if eq_lit(name, "org") || eq_lit(name, "db") { 1 } else { 0 }
}

pub fn expected_params_for_directive(name: &str) -> (r: u32)
    ensures
        r as nat == spec_expected_params(name@),
{
    let w = chars_of(name);
    directive_min_operands(w.as_slice())
}

} // verus!
