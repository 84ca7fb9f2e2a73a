//! Properties of the assembler as a whole, proved from the specifications
//! that the passes are verified against.
use vstd::prelude::*;
use crate::assemble::{
    AsmError, AsmState, MEMORY_END, ORIGIN, db_advance, db_bytes, directive_step, encode_all,
    lemma_db_bytes_len, lemma_encode_all_err, lemma_first_pass_err,
    lemma_read_operands_err, first_pass, line_step, operand_step, read_operands,
    spec_assemble,
};
use crate::encode::{lookup, spec_opcode};
use crate::isa::{InstrView, Mnemonic, SpecialRegister, new_instr, operand_count_ok, spec_mnemonic, spec_validate};
use crate::lexer::{source_lines, spec_is_label, spec_is_preprocessor, spec_remove_prefix, starts_with};
use crate::number::{literal_value, trim_suffix_char};

verus! {

/// Assembling is a function of the source text: the same text gives the
/// same image, byte for byte, or the same error.
pub proof fn lemma_assemble_deterministic(a: Seq<char>, b: Seq<char>)
    requires
        a == b,
    ensures
        spec_assemble(a) == spec_assemble(b),
{
}

/// The position of the address operand that may name a label, for the
/// instructions that have one.
pub open spec fn address_position(i: InstrView) -> Option<nat> {
    match i.mnemonic {
        Mnemonic::Jmp => if i.params.len() == 2 { None } else { Some(0) },
        Mnemonic::Call => Some(0),
        Mnemonic::Ld => if i.special_register == SpecialRegister::Index && !i.special_register_src {
            Some(1)
        } else {
            None
        },
        _ => None,
    }
}

/// The table binds a name to the address of its first entry of that name,
/// wherever the reference stands: whether a label is defined before or
/// after the line that names it plays no part.
pub proof fn lemma_lookup_first(labels: Seq<(Seq<char>, u16)>, name: Seq<char>, j: int)
    requires
        0 <= j < labels.len(),
        labels[j].0 == name,
        forall|k: int| 0 <= k < j ==> labels[k].0 != name,
    ensures
        lookup(labels, name) == Some(labels[j].1),
    decreases j,
{
    if j > 0 {
        assert forall|k: int| 0 <= k < j - 1 implies labels.drop_first()[k].0 != name by {
            assert(labels.drop_first()[k] == labels[k + 1]);
        }
        lemma_lookup_first(labels.drop_first(), name, j - 1);
    }
}

/// A name that no entry of the table has is not found.
pub proof fn lemma_lookup_absent(labels: Seq<(Seq<char>, u16)>, name: Seq<char>)
    requires
        forall|k: int| 0 <= k < labels.len() ==> labels[k].0 != name,
    ensures
        lookup(labels, name) is None,
    decreases labels.len(),
{
    if labels.len() > 0 {
        assert forall|k: int| 0 <= k < labels.drop_first().len() implies labels.drop_first()[k].0
            != name by {
            assert(labels.drop_first()[k] == labels[k + 1]);
        }
        lemma_lookup_absent(labels.drop_first(), name);
    }
}

/// A label that resolves to address `a` gives the same opcode as the
/// literal `lit` of value `a` in its place.
pub proof fn lemma_label_as_literal(
    i: InstrView,
    labels: Seq<(Seq<char>, u16)>,
    lit: Seq<char>,
    a: u16,
)
    requires
        i.refs_label,
        address_position(i) is Some,
        address_position(i)->0 < i.params.len(),
        lookup(labels, i.params[address_position(i)->0 as int]) == Some(a),
        literal_value(lit) == Some(a as nat),
    ensures
        spec_opcode(i, labels) == spec_opcode(
            (InstrView {
                refs_label: false,
                params: i.params.update(address_position(i)->0 as int, lit),
                ..i
            }),
            labels,
        ),
{
}

/// A label that no line defines makes the whole run fail: no image comes
/// out, whether the reference stands before or after anything else.
pub proof fn lemma_undefined_label_fails(src: Seq<char>, k: int)
    requires
        ({
            let lines = source_lines(src);
            &&& first_pass(lines, lines.len()) is Ok
            &&& ({
                let st = first_pass(lines, lines.len())->Ok_0;
                let i = st.instrs[k];
                &&& 0 <= k < st.instrs.len()
                &&& i.refs_label
                &&& address_position(i) is Some
                &&& address_position(i)->0 < i.params.len()
                &&& forall|j: int| 0 <= j < st.labels.len()
                    ==> st.labels[j].0 != i.params[address_position(i)->0 as int]
            })
        }),
    ensures
        spec_assemble(src) is Err,
{
    let lines = source_lines(src);
    let st = first_pass(lines, lines.len())->Ok_0;
    let i = st.instrs[k];
    lemma_lookup_absent(st.labels, i.params[address_position(i)->0 as int]);
    assert(spec_opcode(i, st.labels) is Err);
    assert(encode_all(st.instrs, st.labels, (k + 1) as nat) is Err);
    lemma_encode_all_err(st.instrs, st.labels, (k + 1) as nat, st.instrs.len());
}

/// A line that the first pass rejects makes the whole run fail with that
/// line's error, whatever the lines after it hold.
pub proof fn lemma_rejected_line_fails(src: Seq<char>, j: int)
    requires
        ({
            let lines = source_lines(src);
            &&& 0 <= j < lines.len()
            &&& first_pass(lines, j as nat) is Ok
            &&& line_step(first_pass(lines, j as nat)->Ok_0, lines[j], (j + 1) as usize) is Err
        }),
    ensures
        ({
            let lines = source_lines(src);
            spec_assemble(src) == Err::<Seq<u8>, AsmError>(
                line_step(first_pass(lines, j as nat)->Ok_0, lines[j], (j + 1) as usize)->Err_0,
            )
        }),
{
    let lines = source_lines(src);
    assert(first_pass(lines, (j + 1) as nat) == line_step(first_pass(lines, j as nat)->Ok_0, lines[j], (j + 1) as usize));
    lemma_first_pass_err(lines, (j + 1) as nat, lines.len());
}

/// An operand whose shape its instruction and position do not accept is
/// rejected, however well the rest of the line is written: reading the
/// operands fails at it with `InvalidOperand`, or earlier.
pub proof fn lemma_bad_operand_rejected(i: InstrView, ops: Seq<Seq<char>>, k: nat, line: usize)
    requires
        k < ops.len(),
        read_operands(i, ops, k, line) is Ok,
        !spec_validate(
            trim_suffix_char(ops[k as int], ','),
            k,
            read_operands(i, ops, k, line)->Ok_0,
        ).0,
    ensures
        read_operands(i, ops, ops.len(), line) == Err::<InstrView, AsmError>(AsmError::InvalidOperand { line }),
{
    reveal(operand_step);
    assert(read_operands(i, ops, k + 1, line) == Err::<InstrView, AsmError>(AsmError::InvalidOperand { line }));
    lemma_read_operands_err(i, ops, k + 1, ops.len(), line);
}

/// An instruction line with an operand of the wrong shape for its position
/// makes the whole run fail with `InvalidOperand` on that line, however
/// well the rest of the line is written.
pub proof fn lemma_bad_operand_fails_run(src: Seq<char>, j: int, k: nat)
    requires
        ({
            let lines = source_lines(src);
            let words = lines[j];
            let ops = words.subrange(1, words.len() as int);
            let line = (j + 1) as usize;
            &&& 0 <= j < lines.len()
            &&& first_pass(lines, j as nat) is Ok
            &&& words.len() > 0
            &&& !starts_with(words[0], seq![';'])
            &&& !spec_is_label(words[0])
            &&& !spec_is_preprocessor(words[0])
            &&& spec_mnemonic(words[0]) is Some
            &&& operand_count_ok(spec_mnemonic(words[0])->0, ops.len())
            &&& k < ops.len()
            &&& ({
                let start = new_instr(
                    spec_mnemonic(words[0])->0,
                    first_pass(lines, j as nat)->Ok_0.pc as u16,
                    line as nat,
                );
                &&& read_operands(start, ops, k, line) is Ok
                &&& !spec_validate(
                    trim_suffix_char(ops[k as int], ','),
                    k,
                    read_operands(start, ops, k, line)->Ok_0,
                ).0
            })
        }),
    ensures
        spec_assemble(src) == Err::<Seq<u8>, AsmError>(AsmError::InvalidOperand { line: (j + 1) as usize }),
{
    let lines = source_lines(src);
    let words = lines[j];
    let ops = words.subrange(1, words.len() as int);
    let line = (j + 1) as usize;
    let st = first_pass(lines, j as nat)->Ok_0;
    let start = new_instr(spec_mnemonic(words[0])->0, st.pc as u16, line as nat);
    lemma_bad_operand_rejected(start, ops, k, line);
    assert(line_step(st, words, line) == Err::<AsmState, AsmError>(AsmError::InvalidOperand { line }));
    lemma_rejected_line_fails(src, j);
}

/// A `@db` line with `n` byte operands places the bytes at the counter and
/// moves the counter on by `n` rounded up to an even number, so that after
/// an odd count one unwritten byte separates the data from what follows.
pub proof fn lemma_db_advances(st: AsmState, words: Seq<Seq<char>>, line: usize)
    requires
        words.len() >= 2,
        spec_is_preprocessor(words[0]),
        spec_remove_prefix(words[0], seq!['@']) == "db"@,
        db_bytes(words.drop_first(), (words.len() - 1) as nat) is Some,
        ORIGIN <= st.pc,
        st.pc + db_advance((words.len() - 1) as nat) <= MEMORY_END,
    ensures
        ({
            let n = (words.len() - 1) as nat;
            let bytes = db_bytes(words.drop_first(), n)->0;
            &&& line_step(st, words, line) is Ok
            &&& line_step(st, words, line)->Ok_0.pc == st.pc + (if n % 2 == 1 { n + 1 } else { n })
            &&& line_step(st, words, line)->Ok_0.data == st.data.push((st.pc as u16, bytes))
            &&& bytes.len() == n
        }),
{
    reveal_strlit("db");
    reveal_strlit("org");
    let n = (words.len() - 1) as nat;
    lemma_db_bytes_len(words.drop_first(), n);
    assert(!starts_with(words[0], seq![';'])) by {
        if starts_with(words[0], seq![';']) {
            assert(words[0].subrange(0, 1)[0] == ';');
        }
    }
    assert("db"@ != "org"@) by {
        assert("db"@.len() != "org"@.len());
    }
}

} // verus!
