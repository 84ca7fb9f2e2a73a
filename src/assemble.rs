//! The first pass (labels, directives, operand checks, addresses), the
//! second pass (encoding) and the layout of the image.
use vstd::prelude::*;
use crate::encode::{EncodeError, Label, labels_view, opcode_for_instruction, spec_opcode};
use crate::isa::{
    Instr, InstrView, Mnemonic, directive_min_operands, eq_lit, imm_ok, mnemonic_of, new_instr, operand_count_ok,
    operand_count_valid, spec_mnemonic, spec_validate, validate_operand,
};
use crate::lexer::{
    chars_of, directive_word, label_word, lines_view, source_lines, spec_is_label,
    spec_is_preprocessor, spec_remove_prefix, spec_remove_suffix, split_lines, starts_with,
    words_view,
};
use crate::number::{literal_value, parse_literal, trim_suffix_char};
use vstd::slice::slice_to_vec;

verus! {

/// Where code begins in memory.
pub const ORIGIN: u16 = 0x200;

/// The first address past the end of memory.
pub const MEMORY_END: u16 = 0x1000;

/// Why a run of the assembler failed; `line` counts from 1.
#[derive(Clone, Copy, Debug, PartialEq, Eq, Structural)]
pub enum AsmError {
    /// The first word is neither a comment, a label, a directive nor a mnemonic.
    UnknownInstruction { line: usize },
    /// A directive other than `@org` and `@db`.
    UnknownDirective { line: usize },
    /// An instruction or directive with the wrong number of operands.
    OperandCount { line: usize },
    /// An operand of the wrong shape or range for its position.
    InvalidOperand { line: usize },
    /// Two operands that no comma separates.
    MissingComma { line: usize },
    /// An `@org` target past the 12-bit address space.
    OriginOutOfBounds { line: usize },
    /// An instruction or data block placed below the code origin.
    BelowOrigin { line: usize },
    /// An instruction or data block that runs past the end of memory.
    ImageOverflow { line: usize },
    /// A label that no line defines.
    UnresolvedLabel { line: usize },
    /// An operand the encoder could not read.
    MalformedOperand { line: usize },
    /// An address operand that looks like a number but is no 12-bit literal.
    MalformedLiteral { line: usize },
}

/// Bytes that `@db` placed at an address.
pub struct Data {
    pub data: Vec<u8>,
    pub address: u16,
}

impl View for Data {
    type V = (u16, Seq<u8>);

    open spec fn view(&self) -> (u16, Seq<u8>) {
        (self.address, self.data@)
    }
}

/// What the first pass has gathered so far.
pub struct Assembler {
    pub pc: u16,
    pub highest: u16,
    pub labels: Vec<Label>,
    pub instrs: Vec<Instr>,
    pub data: Vec<Data>,
}

#[verifier::ext_equal]
pub struct AsmState {
    pub pc: nat,
    pub highest: nat,
    pub labels: Seq<(Seq<char>, u16)>,
    pub instrs: Seq<InstrView>,
    pub data: Seq<(u16, Seq<u8>)>,
}

pub open spec fn instrs_view(v: Seq<Instr>) -> Seq<InstrView> {
    v.map_values(|i: Instr| i@)
}

pub open spec fn data_view(v: Seq<Data>) -> Seq<(u16, Seq<u8>)> {
    v.map_values(|d: Data| d@)
}

impl View for Assembler {
    type V = AsmState;

    open spec fn view(&self) -> AsmState {
        AsmState {
            pc: self.pc as nat,
            highest: self.highest as nat,
            labels: labels_view(self.labels@),
            instrs: instrs_view(self.instrs@),
            data: data_view(self.data@),
        }
    }
}

/// The state before the first line: nothing read, counter at the origin.
pub open spec fn initial_state() -> AsmState {
    AsmState {
        pc: ORIGIN as nat,
        highest: ORIGIN as nat,
        labels: Seq::empty(),
        instrs: Seq::empty(),
        data: Seq::empty(),
    }
}

/// Every instruction and data block lies between the origin and the highest
/// address touched, which lies in memory; the counter lies in memory.
pub open spec fn state_wf(st: AsmState) -> bool {
    &&& st.pc <= MEMORY_END
    &&& ORIGIN <= st.highest <= MEMORY_END
    &&& forall|k: int| 0 <= k < st.instrs.len() ==> ORIGIN <= #[trigger] st.instrs[k].address
        && st.instrs[k].address + 2 <= st.highest
    &&& forall|k: int| 0 <= k < st.data.len() ==> ORIGIN <= #[trigger] st.data[k].0
        && st.data[k].0 + st.data[k].1.len() <= st.highest
}

/// Operand `raw`, at position `k`, read into `prev`: its trailing commas
/// removed, checked at its position, and followed by a comma where
/// `comma_needed`.
#[verifier::opaque]
pub open spec fn operand_step(prev: InstrView, raw: Seq<char>, k: nat, comma_needed: bool, line: usize) -> Result<InstrView, AsmError> {
    let t = trim_suffix_char(raw, ',');
    let (ok, next) = spec_validate(t, k, prev);
    if !ok {
        Err(AsmError::InvalidOperand { line })
    } else if comma_needed && !(raw.len() > 0 && raw.last() == ',') {
        Err(AsmError::MissingComma { line })
    } else {
        Ok(InstrView { params: next.params.push(t), ..next })
    }
}

/// Reads the operands `ops[0..k]` into `i`; all but the last need a comma
/// after them.
pub open spec fn read_operands(i: InstrView, ops: Seq<Seq<char>>, k: nat, line: usize) -> Result<InstrView, AsmError>
    decreases k,
{
    if k == 0 {
        Ok(i)
    } else {
        match read_operands(i, ops, (k - 1) as nat, line) {
            Err(e) => Err(e),
            Ok(prev) => operand_step(prev, ops[k - 1], (k - 1) as nat, k < ops.len(), line),
        }
    }
}

/// An instruction whose mnemonic is `words[off]`.
pub open spec fn instruction_step(st: AsmState, words: Seq<Seq<char>>, off: nat, line: usize) -> Result<AsmState, AsmError> {
    match spec_mnemonic(words[off as int]) {
        None => Err(AsmError::UnknownInstruction { line }),
        Some(m) => {
            let ops = words.subrange(off + 1 as int, words.len() as int);
            if !operand_count_ok(m, ops.len()) {
                Err(AsmError::OperandCount { line })
            } else {
                match read_operands(new_instr(m, st.pc as u16, line as nat), ops, ops.len(), line) {
                    Err(e) => Err(e),
                    Ok(i) => if m == Mnemonic::Jmp && ops.len() == 2 && i.params[0] != "v0"@ {
                        Err(AsmError::InvalidOperand { line })
                    } else if st.pc < ORIGIN {
                        Err(AsmError::BelowOrigin { line })
                    } else if st.pc + 2 > MEMORY_END {
                        Err(AsmError::ImageOverflow { line })
                    } else {
                        Ok(AsmState {
                            pc: st.pc + 2,
                            highest: if st.highest < st.pc + 2 { st.pc + 2 } else { st.highest },
                            instrs: st.instrs.push(i),
                            ..st
                        })
                    },
                }
            }
        },
    }
}

/// The bytes of `@db` operands `ops[0..k]`, each a literal of at most 8 bits
/// once trailing commas are removed.
pub open spec fn db_bytes(ops: Seq<Seq<char>>, k: nat) -> Option<Seq<u8>>
    decreases k,
{
    if k == 0 {
        Some(Seq::empty())
    } else {
        match db_bytes(ops, (k - 1) as nat) {
            None => None,
            Some(b) => {
                let t = trim_suffix_char(ops[k - 1], ',');
                if imm_ok(t, 0xff) { Some(b.push(literal_value(t)->0 as u8)) } else { None }
            },
        }
    }
}

/// How far `@db` with `n` bytes moves the counter: `n` rounded up to even.
pub open spec fn db_advance(n: nat) -> nat {
    if n % 2 == 1 { n + 1 } else { n }
}

/// A line whose first word is a directive.
pub open spec fn directive_step(st: AsmState, words: Seq<Seq<char>>, line: usize) -> Result<AsmState, AsmError> {
    let name = spec_remove_prefix(words[0], seq!['@']);
    let ops = words.drop_first();
    if name == "org"@ {
        if ops.len() != 1 {
            Err(AsmError::OperandCount { line })
        } else {
            match literal_value(ops[0]) {
                None => Err(AsmError::InvalidOperand { line }),
                Some(v) => if v >= MEMORY_END {
                    Err(AsmError::OriginOutOfBounds { line })
                } else {
                    Ok(AsmState { pc: v, ..st })
                },
            }
        }
    } else if name == "db"@ {
        if ops.len() == 0 {
            Err(AsmError::OperandCount { line })
        } else {
            match db_bytes(ops, ops.len()) {
                None => Err(AsmError::InvalidOperand { line }),
                Some(b) => {
                    let end = st.pc + db_advance(ops.len());
                    if st.pc < ORIGIN {
                        Err(AsmError::BelowOrigin { line })
                    } else if end > MEMORY_END {
                        Err(AsmError::ImageOverflow { line })
                    } else {
                        Ok(AsmState {
                            pc: end,
                            highest: if st.highest < end { end } else { st.highest },
                            data: st.data.push((st.pc as u16, b)),
                            ..st
                        })
                    }
                },
            }
        }
    } else {
        Err(AsmError::UnknownDirective { line })
    }
}

/// One source line, numbered `line`, read into the state.
pub open spec fn line_step(st: AsmState, words: Seq<Seq<char>>, line: usize) -> Result<AsmState, AsmError> {
    if words.len() == 0 {
        Ok(st)
    } else if starts_with(words[0], seq![';']) {
        Ok(st)
    } else if spec_is_label(words[0]) {
        let named = AsmState {
            labels: st.labels.push((spec_remove_suffix(words[0], seq![':']), st.pc as u16)),
            ..st
        };
        if words.len() < 2 { Ok(named) } else { instruction_step(named, words, 1, line) }
    } else if spec_is_preprocessor(words[0]) {
        directive_step(st, words, line)
    } else {
        instruction_step(st, words, 0, line)
    }
}

/// The first pass over `lines[0..k]`.
pub open spec fn first_pass(lines: Seq<Seq<Seq<char>>>, k: nat) -> Result<AsmState, AsmError>
    decreases k,
{
    if k == 0 {
        Ok(initial_state())
    } else {
        match first_pass(lines, (k - 1) as nat) {
            Err(e) => Err(e),
            Ok(st) => line_step(st, lines[k - 1], k as usize),
        }
    }
}

/// Once reading the operands has failed, later operands do not change the error.
pub proof fn lemma_read_operands_err(i: InstrView, ops: Seq<Seq<char>>, k: nat, j: nat, line: usize)
    requires
        k <= j,
        read_operands(i, ops, k, line) is Err,
    ensures
        read_operands(i, ops, j, line) == read_operands(i, ops, k, line),
    decreases j - k,
{
    if k < j {
        lemma_read_operands_err(i, ops, k, (j - 1) as nat, line);
    }
}

proof fn lemma_read_operands_keeps(i: InstrView, ops: Seq<Seq<char>>, k: nat, line: usize)
    requires
        read_operands(i, ops, k, line) is Ok,
    ensures
        read_operands(i, ops, k, line)->Ok_0.address == i.address,
        read_operands(i, ops, k, line)->Ok_0.params.len() == i.params.len() + k,
    decreases k,
{
    reveal(operand_step);
    if k > 0 {
        lemma_read_operands_keeps(i, ops, (k - 1) as nat, line);
    }
}

proof fn lemma_db_bytes_none(ops: Seq<Seq<char>>, k: nat, j: nat)
    requires
        k <= j,
        db_bytes(ops, k) is None,
    ensures
        db_bytes(ops, j) is None,
    decreases j - k,
{
    if k < j {
        lemma_db_bytes_none(ops, k, (j - 1) as nat);
    }
}

/// `@db` gives one byte per operand.
pub proof fn lemma_db_bytes_len(ops: Seq<Seq<char>>, k: nat)
    requires
        db_bytes(ops, k) is Some,
    ensures
        db_bytes(ops, k)->0.len() == k,
    decreases k,
{
    if k > 0 {
        lemma_db_bytes_len(ops, (k - 1) as nat);
    }
}

/// Once the first pass has failed, later lines do not change the error.
pub proof fn lemma_first_pass_err(lines: Seq<Seq<Seq<char>>>, k: nat, j: nat)
    requires
        k <= j,
        first_pass(lines, k) is Err,
    ensures
        first_pass(lines, j) == first_pass(lines, k),
    decreases j - k,
{
    if k < j {
        lemma_first_pass_err(lines, k, (j - 1) as nat);
    }
}

/// `w` with its trailing commas removed.
pub fn trim_commas(w: &[char]) -> (r: Vec<char>)
    ensures
        r@ == trim_suffix_char(w@, ','),
{
    let mut j: usize = w.len();
    assert(w@.subrange(0, j as int) =~= w@);
    while j > 0 && w[j - 1] == ','
        invariant
            j <= w@.len(),
            trim_suffix_char(w@.subrange(0, j as int), ',') == trim_suffix_char(w@, ','),
        decreases j,
    {
        assert(w@.subrange(0, j as int).drop_last() =~= w@.subrange(0, j - 1));
        j = j - 1;
    }
    let mut r: Vec<char> = Vec::new();
    let mut i: usize = 0;
    while i < j
        invariant
            j <= w@.len(),
            i <= j,
            r@ == w@.subrange(0, i as int),
        decreases j - i,
    {
        r.push(w[i]);
        i = i + 1;
        assert(r@ =~= w@.subrange(0, i as int));
    }
    r
}

fn read_operand(instr: &mut Instr, raw: &[char], k: usize, comma_needed: bool, line: usize) -> (r: Result<(), AsmError>)
    ensures
        match operand_step(old(instr)@, raw@, k as nat, comma_needed, line) {
            Ok(v) => r is Ok && final(instr)@ == v,
            Err(e) => r == Err::<(), AsmError>(e),
        },
{
    reveal(operand_step);
    let t = trim_commas(raw);
    let ok = validate_operand(t.as_slice(), k, instr);
    if !ok {
        return Err(AsmError::InvalidOperand { line });
    }
    if comma_needed && !(raw.len() > 0 && raw[raw.len() - 1] == ',') {
        return Err(AsmError::MissingComma { line });
    }
    let ghost next = instr@;
    let ghost tv = t@;
    instr.params.push(t);
    assert(instr@ =~= InstrView { params: next.params.push(tv), ..next });
    Ok(())
}

fn read_operands_exec(start: Instr, words: &Vec<Vec<char>>, off: usize, line: usize) -> (r: Result<Instr, AsmError>)
    requires
        off < words@.len(),
    ensures
        ({
            let ops = words_view(words@).subrange(off + 1 as int, words@.len() as int);
            match read_operands(start@, ops, ops.len(), line) {
                Ok(v) => r is Ok && r->Ok_0@ == v,
                Err(e) => r is Err && r->Err_0 == e,
            }
        }),
{
    let ghost ops = words_view(words@).subrange(off + 1 as int, words@.len() as int);
    let ghost i0 = start@;
    let len = words.len();
    let base: usize = off + 1;
    let n = len - base;
    let mut instr = start;
    let mut k: usize = 0;
    while k < n
        invariant
            ops == words_view(words@).subrange(off + 1 as int, words@.len() as int),
            ops.len() == n,
            base + n == len,
            len == words@.len(),
            i0 == start@,
            base == off + 1,
            k <= n,
            read_operands(i0, ops, k as nat, line) == Ok::<InstrView, AsmError>(instr@),
        decreases n - k,
    {
        let idx: usize = base + k;
        let raw = &words[idx];
        assert(raw@ == ops[k as int]);
        match read_operand(&mut instr, raw.as_slice(), k, k + 1 < n, line) {
            Err(e) => {
                assert(read_operands(i0, ops, (k + 1) as nat, line) == Err::<InstrView, AsmError>(e));
                proof { lemma_read_operands_err(i0, ops, (k + 1) as nat, n as nat, line); }
                return Err(e);
            },
            Ok(()) => {},
        }
        k = k + 1;
    }
    Ok(instr)
}

impl Assembler {
    /// An empty state with the counter at the origin.
    pub fn new() -> (r: Assembler)
        ensures
            r@ == initial_state(),
            state_wf(r@),
    {
        let r = Assembler {
            pc: ORIGIN,
            highest: ORIGIN,
            labels: Vec::new(),
            instrs: Vec::new(),
            data: Vec::new(),
        };
        assert(r@ =~= initial_state());
        r
    }

    fn instruction(&mut self, words: &Vec<Vec<char>>, off: usize, line: usize) -> (r: Result<(), AsmError>)
        requires
            off < words@.len(),
            state_wf(old(self)@),
        ensures
            match instruction_step(old(self)@, words_view(words@), off as nat, line) {
                Ok(st) => r is Ok && final(self)@ == st,
                Err(e) => r == Err::<(), AsmError>(e),
            },
            r is Ok ==> state_wf(final(self)@),
    {
        let ghost ops = words_view(words@).subrange(off + 1 as int, words@.len() as int);
        assert(words@[off as int]@ == words_view(words@)[off as int]);
        let m = match mnemonic_of(words[off].as_slice()) {
            None => return Err(AsmError::UnknownInstruction { line }),
            Some(m) => m,
        };
        let n = words.len() - off - 1;
        assert(ops.len() == n);
        if !operand_count_valid(m, n) {
            return Err(AsmError::OperandCount { line });
        }
        let instr = Instr::new(m, self.pc, line);
        match read_operands_exec(instr, words, off, line) {
            Err(e) => Err(e),
            Ok(i) => {
                proof { lemma_read_operands_keeps(new_instr(m, self.pc, line as nat), ops, n as nat, line); }
                if m == Mnemonic::Jmp && n == 2 && !eq_lit(i.params[0].as_slice(), "v0") {
                    return Err(AsmError::InvalidOperand { line });
                }
                if self.pc < ORIGIN {
                    return Err(AsmError::BelowOrigin { line });
                }
                if self.pc > MEMORY_END - 2 {
                    return Err(AsmError::ImageOverflow { line });
                }
                let end = self.pc + 2;
                if self.highest < end {
                    self.highest = end;
                }
                let ghost before = instrs_view(self.instrs@);
                let ghost iv = i@;
                self.instrs.push(i);
                self.pc = end;
                assert(instrs_view(self.instrs@) =~= before.push(iv));
                Ok(())
            },
        }
    }
}

fn db_bytes_exec(words: &Vec<Vec<char>>) -> (r: Option<Vec<u8>>)
    requires
        words@.len() >= 1,
    ensures
        ({
            let ops = words_view(words@).drop_first();
            match db_bytes(ops, ops.len()) {
                Some(b) => r is Some && r->0@ == b,
                None => r is None,
            }
        }),
{
    let ghost ops = words_view(words@).drop_first();
    let len = words.len();
    let mut bytes: Vec<u8> = Vec::new();
    let mut j: usize = 1;
    while j < len
        invariant
            len == words@.len(),
            1 <= j <= len,
            ops == words_view(words@).drop_first(),
            ops.len() == len - 1,
            db_bytes(ops, (j - 1) as nat) == Some(bytes@),
        decreases len - j,
    {
        assert(words@[j as int]@ == ops[j - 1]);
        let t = trim_commas(words[j].as_slice());
        match parse_literal(t.as_slice()) {
            Some(v) => {
                if v > 0xff {
                    proof { lemma_db_bytes_none(ops, j as nat, ops.len()); }
                    return None;
                }
                bytes.push(v as u8);
            },
            None => {
                proof { lemma_db_bytes_none(ops, j as nat, ops.len()); }
                return None;
            },
        }
        j = j + 1;
    }
    Some(bytes)
}

impl Assembler {
    fn directive(&mut self, words: &Vec<Vec<char>>, line: usize) -> (r: Result<(), AsmError>)
        requires
            words@.len() >= 1,
            spec_is_preprocessor(words@[0]@),
            state_wf(old(self)@),
        ensures
            match directive_step(old(self)@, words_view(words@), line) {
                Ok(st) => r is Ok && final(self)@ == st,
                Err(e) => r == Err::<(), AsmError>(e),
            },
            r is Ok ==> state_wf(final(self)@),
    {
        let ghost w = words_view(words@);
        let first = words[0].as_slice();
        let len = first.len();
        assert(w[0] == first@);
        assert(first@.subrange(0, 1) =~= seq!['@']);
        assert(spec_remove_prefix(w[0], seq!['@']) == first@.subrange(1, len as int));
        let name = &first[1..len];
        assert(name@ =~= first@.subrange(1, len as int));
        let n = words.len() - 1;
        assert(w.drop_first().len() == n);
        let min = directive_min_operands(name);
        if min == 0 {
            return Err(AsmError::UnknownDirective { line });
        }
        if n < min as usize {
            return Err(AsmError::OperandCount { line });
        }
        if eq_lit(name, "org") {
            if n != 1 {
                return Err(AsmError::OperandCount { line });
            }
            assert(w.drop_first()[0] == words@[1]@);
            match parse_literal(words[1].as_slice()) {
                None => Err(AsmError::InvalidOperand { line }),
                Some(v) => {
                    if v >= MEMORY_END {
                        return Err(AsmError::OriginOutOfBounds { line });
                    }
                    self.pc = v;
                    Ok(())
                },
            }
        } else {
            match db_bytes_exec(words) {
                None => Err(AsmError::InvalidOperand { line }),
                Some(bytes) => {
                    proof { lemma_db_bytes_len(w.drop_first(), n as nat); }
                    if self.pc < ORIGIN {
                        return Err(AsmError::BelowOrigin { line });
                    }
                    let room = (MEMORY_END - self.pc) as usize;
                    if n > room || (n % 2 == 1 && n + 1 > room) {
                        return Err(AsmError::ImageOverflow { line });
                    }
                    let adv = if n % 2 == 1 { n + 1 } else { n };
                    let end = self.pc + adv as u16;
                    if self.highest < end {
                        self.highest = end;
                    }
                    let ghost before = data_view(self.data@);
                    let ghost dv = (self.pc, bytes@);
                    self.data.push(Data { data: bytes, address: self.pc });
                    self.pc = end;
                    assert(data_view(self.data@) =~= before.push(dv));
                    Ok(())
                },
            }
        }
    }

    /// Reads one source line, numbered `line`, given as its words.
    pub fn process_line(&mut self, words: &Vec<Vec<char>>, line: usize) -> (r: Result<(), AsmError>)
        requires
            state_wf(old(self)@),
        ensures
            match line_step(old(self)@, words_view(words@), line) {
                Ok(st) => r is Ok && final(self)@ == st,
                Err(e) => r == Err::<(), AsmError>(e),
            },
            r is Ok ==> state_wf(final(self)@),
    {
        let ghost w = words_view(words@);
        if words.len() == 0 {
            return Ok(());
        }
        let first = words[0].as_slice();
        assert(w[0] == first@);
        if first.len() > 0 && first[0] == ';' {
            assert(first@.subrange(0, 1) =~= seq![';']);
            return Ok(());
        }
        assert(!starts_with(w[0], seq![';'])) by {
            if starts_with(w[0], seq![';']) {
                assert(w[0].subrange(0, 1)[0] == ';');
            }
        }
        let flen = first.len();
        if label_word(first) {
            assert(first@.subrange(flen - 1, flen as int) =~= seq![':']);
            let name = &first[0..flen - 1];
            assert(name@ =~= spec_remove_suffix(w[0], seq![':']));
            let ghost before = labels_view(self.labels@);
            let label = Label { name: slice_to_vec(name), address: self.pc };
            self.labels.push(label);
            assert(labels_view(self.labels@) =~= before.push((spec_remove_suffix(w[0], seq![':']), old(self).pc)));
            if words.len() < 2 {
                return Ok(());
            }
            self.instruction(words, 1, line)
        } else if directive_word(first) {
            self.directive(words, line)
        } else {
            self.instruction(words, 0, line)
        }
    }
}

/// Runs the first pass over `lines`, each given as its words.
pub fn first_pass_exec(lines: &Vec<Vec<Vec<char>>>) -> (r: Result<Assembler, AsmError>)
    ensures
        match first_pass(lines_view(lines@), lines@.len()) {
            Ok(st) => r is Ok && r->Ok_0@ == st,
            Err(e) => r is Err && r->Err_0 == e,
        },
        r is Ok ==> state_wf(r->Ok_0@),
{
    let ghost lv = lines_view(lines@);
    let len = lines.len();
    let mut state = Assembler::new();
    let mut k: usize = 0;
    while k < len
        invariant
            len == lines@.len(),
            lv == lines_view(lines@),
            k <= len,
            first_pass(lv, k as nat) == Ok::<AsmState, AsmError>(state@),
            state_wf(state@),
        decreases len - k,
    {
        assert(lines@[k as int]@.map_values(|w: Vec<char>| w@) == lv[k as int]);
        match state.process_line(&lines[k], k + 1) {
            Err(e) => {
                assert(first_pass(lv, (k + 1) as nat) == Err::<AsmState, AsmError>(e));
                proof { lemma_first_pass_err(lv, (k + 1) as nat, len as nat); }
                return Err(e);
            },
            Ok(()) => {},
        }
        k = k + 1;
    }
    Ok(state)
}

/// The run's error for an instruction on `line` that could not be encoded.
pub open spec fn encode_error(e: EncodeError, line: nat) -> AsmError {
    match e {
        EncodeError::UnresolvedLabel => AsmError::UnresolvedLabel { line: line as usize },
        EncodeError::MalformedOperand => AsmError::MalformedOperand { line: line as usize },
        EncodeError::MalformedLiteral => AsmError::MalformedLiteral { line: line as usize },
    }
}

/// The second pass over `instrs[0..k]`: their opcodes, in order, against
/// the complete symbol table.
pub open spec fn encode_all(instrs: Seq<InstrView>, labels: Seq<(Seq<char>, u16)>, k: nat) -> Result<Seq<u16>, AsmError>
    decreases k,
{
    if k == 0 {
        Ok(Seq::empty())
    } else {
        match encode_all(instrs, labels, (k - 1) as nat) {
            Err(e) => Err(e),
            Ok(ops) => match spec_opcode(instrs[k - 1], labels) {
                Ok(op) => Ok(ops.push(op)),
                Err(e) => Err(encode_error(e, instrs[k - 1].line)),
            },
        }
    }
}

/// `buf` with `bytes[0..j]` written from index `at` on.
pub open spec fn write_bytes(buf: Seq<u8>, at: int, bytes: Seq<u8>, j: nat) -> Seq<u8>
    decreases j,
{
    if j == 0 {
        buf
    } else {
        write_bytes(buf, at, bytes, (j - 1) as nat).update(at + j - 1, bytes[j - 1])
    }
}

/// `buf` with the data blocks `data[0..k]` copied in, each at its address
/// less the origin.
pub open spec fn place_data(buf: Seq<u8>, data: Seq<(u16, Seq<u8>)>, k: nat) -> Seq<u8>
    decreases k,
{
    if k == 0 {
        buf
    } else {
        let d = data[k - 1];
        write_bytes(place_data(buf, data, (k - 1) as nat), d.0 - ORIGIN, d.1, d.1.len())
    }
}

/// `buf` with the opcodes `ops[0..k]` written big-endian, each at its
/// instruction's address less the origin.
pub open spec fn place_code(buf: Seq<u8>, instrs: Seq<InstrView>, ops: Seq<u16>, k: nat) -> Seq<u8>
    decreases k,
{
    if k == 0 {
        buf
    } else {
        let at = instrs[k - 1].address - ORIGIN;
        place_code(buf, instrs, ops, (k - 1) as nat)
            .update(at, (ops[k - 1] / 0x100) as u8)
            .update(at + 1, (ops[k - 1] % 0x100) as u8)
    }
}

/// The image: zeros up to the highest address touched, the data blocks
/// over them, and the opcodes over both.
pub open spec fn image(st: AsmState, ops: Seq<u16>) -> Seq<u8> {
    let zeros = Seq::new((st.highest - ORIGIN) as nat, |i: int| 0u8);
    place_code(place_data(zeros, st.data, st.data.len()), st.instrs, ops, st.instrs.len())
}

/// What assembling the source `src` gives.
pub open spec fn spec_assemble(src: Seq<char>) -> Result<Seq<u8>, AsmError> {
    let lines = source_lines(src);
    match first_pass(lines, lines.len()) {
        Err(e) => Err(e),
        Ok(st) => match encode_all(st.instrs, st.labels, st.instrs.len()) {
            Err(e) => Err(e),
            Ok(ops) => Ok(image(st, ops)),
        },
    }
}

/// Once the second pass has failed, later instructions do not change the error.
pub proof fn lemma_encode_all_err(instrs: Seq<InstrView>, labels: Seq<(Seq<char>, u16)>, k: nat, j: nat)
    requires
        k <= j,
        encode_all(instrs, labels, k) is Err,
    ensures
        encode_all(instrs, labels, j) == encode_all(instrs, labels, k),
    decreases j - k,
{
    if k < j {
        lemma_encode_all_err(instrs, labels, k, (j - 1) as nat);
    }
}

proof fn lemma_encode_all_len(instrs: Seq<InstrView>, labels: Seq<(Seq<char>, u16)>, k: nat)
    requires
        encode_all(instrs, labels, k) is Ok,
    ensures
        encode_all(instrs, labels, k)->Ok_0.len() == k,
    decreases k,
{
    if k > 0 {
        lemma_encode_all_len(instrs, labels, (k - 1) as nat);
    }
}

/// Encodes every instruction that the first pass gathered.
pub fn encode_all_exec(state: &Assembler) -> (r: Result<Vec<u16>, AsmError>)
    ensures
        match encode_all(state@.instrs, state@.labels, state@.instrs.len()) {
            Ok(ops) => r is Ok && r->Ok_0@ == ops,
            Err(e) => r is Err && r->Err_0 == e,
        },
        r matches Ok(v) ==> v@.len() == state@.instrs.len(),
{
    let ghost iv = state@.instrs;
    let len = state.instrs.len();
    let mut ops: Vec<u16> = Vec::new();
    let mut k: usize = 0;
    while k < len
        invariant
            len == state.instrs@.len(),
            iv == state@.instrs,
            k <= len,
            encode_all(iv, state@.labels, k as nat) == Ok::<Seq<u16>, AsmError>(ops@),
        decreases len - k,
    {
        let instr = &state.instrs[k];
        assert(iv[k as int] == instr@);
        match opcode_for_instruction(instr, &state.labels) {
            Ok(op) => {
                ops.push(op);
            },
            Err(e) => {
                let err = match e {
                    EncodeError::UnresolvedLabel => AsmError::UnresolvedLabel { line: instr.line },
                    EncodeError::MalformedOperand => AsmError::MalformedOperand { line: instr.line },
                    EncodeError::MalformedLiteral => AsmError::MalformedLiteral { line: instr.line },
                };
                assert(encode_all(iv, state@.labels, (k + 1) as nat) == Err::<Seq<u16>, AsmError>(err));
                proof { lemma_encode_all_err(iv, state@.labels, (k + 1) as nat, len as nat); }
                return Err(err);
            },
        }
        k = k + 1;
    }
    proof { lemma_encode_all_len(iv, state@.labels, len as nat); }
    Ok(ops)
}

/// Lays out the data blocks and the opcodes `ops` of a finished first pass.
pub fn build_image(state: &Assembler, ops: &Vec<u16>) -> (r: Vec<u8>)
    requires
        state_wf(state@),
        ops@.len() == state@.instrs.len(),
    ensures
        r@ == image(state@, ops@),
{
    let size = (state.highest - ORIGIN) as usize;
    let mut buf: Vec<u8> = Vec::new();
    let mut i: usize = 0;
    while i < size
        invariant
            i <= size,
            buf@ == Seq::new(i as nat, |j: int| 0u8),
        decreases size - i,
    {
        buf.push(0);
        i = i + 1;
        assert(buf@ =~= Seq::new(i as nat, |j: int| 0u8));
    }
    let ghost zeros = buf@;
    let ghost dv = state@.data;
    let dlen = state.data.len();
    let mut k: usize = 0;
    while k < dlen
        invariant
            dlen == state.data@.len(),
            dv == state@.data,
            state_wf(state@),
            size == state@.highest - ORIGIN,
            k <= dlen,
            buf@.len() == size,
            buf@ == place_data(zeros, dv, k as nat),
        decreases dlen - k,
    {
        let d = &state.data[k];
        assert(dv[k as int] == d@);
        assert(ORIGIN <= dv[k as int].0 && dv[k as int].0 + dv[k as int].1.len() <= state@.highest);
        let at = (d.address - ORIGIN) as usize;
        let n = d.data.len();
        let ghost base = buf@;
        let mut j: usize = 0;
        while j < n
            invariant
                n == d.data@.len(),
                at + n <= size,
                at == d.address - ORIGIN,
                j <= n,
                buf@.len() == size,
                buf@ == write_bytes(base, at as int, d.data@, j as nat),
            decreases n - j,
        {
            buf.set(at + j, d.data[j]);
            j = j + 1;
        }
        k = k + 1;
    }
    let ghost placed = buf@;
    let ilen = state.instrs.len();
    let ghost iv = state@.instrs;
    let mut k: usize = 0;
    while k < ilen
        invariant
            ilen == state.instrs@.len(),
            iv == state@.instrs,
            ops@.len() == ilen,
            state_wf(state@),
            size == state@.highest - ORIGIN,
            k <= ilen,
            buf@.len() == size,
            buf@ == place_code(placed, iv, ops@, k as nat),
        decreases ilen - k,
    {
        let instr = &state.instrs[k];
        assert(iv[k as int] == instr@);
        assert(ORIGIN <= iv[k as int].address && iv[k as int].address + 2 <= state@.highest);
        let at = (instr.address - ORIGIN) as usize;
        let op = ops[k];
        buf.set(at, (op / 0x100) as u8);
        buf.set(at + 1, (op % 0x100) as u8);
        k = k + 1;
    }
    buf
}

/// Assembles the source text `src` into an image that starts at the origin.
pub fn assemble(src: &str) -> (r: Result<Vec<u8>, AsmError>)
    ensures
        match spec_assemble(src@) {
            Ok(b) => r is Ok && r->Ok_0@ == b,
            Err(e) => r is Err && r->Err_0 == e,
        },
{
    let chars = chars_of(src);
    let lines = split_lines(chars.as_slice());
    let state = match first_pass_exec(&lines) {
        Err(e) => return Err(e),
        Ok(s) => s,
    };
    let encoded = encode_all_exec(&state);
    let ops = match encoded {
        Err(e) => return Err(e),
        Ok(o) => o,
    };
    Ok(build_image(&state, &ops))
}

} // verus!
