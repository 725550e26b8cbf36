use vstd::prelude::*;
use crate::interpreter::evaluator::semantics::{lookup_table, registers_fit, total_size};
use crate::interpreter::parser::ast_types::{
    CircuitDecl, Program, SpecQubitDecl, SpecStatement, Statement, program_view,
};
use crate::interpreter::type_checker::byte_len;

verus! {

// Whether the register sizes that evaluating a program adds up stay within
// `usize`.

/// The registers of a circuit count at most `usize::MAX` qubits together.
pub fn registers_of_circuit_fit(circuit: &CircuitDecl) -> (res: bool)
    ensures
        res == (total_size(lookup_table(circuit@.registers)) <= usize::MAX),
{
    let ghost regs = circuit@.registers;
    let mut total: usize = 0;
    let mut overflow = false;
    let mut i: usize = 0;
    assert(lookup_table(regs.take(0)) =~= Seq::<(Seq<char>, usize)>::empty());
    while i < circuit.registers.len()
        invariant
            i <= circuit.registers@.len(),
            regs == circuit@.registers,
            regs.len() == circuit.registers@.len(),
            !overflow ==> total == total_size(lookup_table(regs.take(i as int))),
            overflow ==> total_size(lookup_table(regs.take(i as int))) > usize::MAX,
        decreases circuit.registers@.len() - i,
    {
        let ghost pre = regs.take(i + 1);
        assert(pre.drop_last() =~= regs.take(i as int));
        assert(regs[i as int] == circuit.registers@[i as int]@);
        assert(lookup_table(pre).drop_last() =~= lookup_table(regs.take(i as int)));
        let size: usize = circuit.registers[i].init.as_str().len();
        assert(size == byte_len(regs[i as int].init));
        if !overflow {
            match total.checked_add(size) {
                Some(v) => {
                    total = v;
                },
                None => {
                    overflow = true;
                },
            }
        }
        i = i + 1;
    }
    assert(regs.take(regs.len() as int) =~= regs);
    !overflow
}

/// Whether the registers of every circuit of a program count at most
/// `usize::MAX` qubits together.
pub fn program_registers_fit(prg: &Program) -> (res: bool)
    ensures
        res == registers_fit(program_view(prg@)),
{
    let ghost stmts = program_view(prg@);
    let mut i: usize = 0;
    while i < prg.len()
        invariant
            i <= prg@.len(),
            stmts == program_view(prg@),
            forall|j: int| 0 <= j < i ==> (#[trigger] stmts[j] matches SpecStatement::Circuit(c)
                ==> total_size(lookup_table(c.registers)) <= usize::MAX),
        decreases prg@.len() - i,
    {
        assert(stmts[i as int] == prg@[i as int]@);
        match &prg[i] {
            Statement::Circuit(c) => {
                if !registers_of_circuit_fit(c) {
                    return false;
                }
            },
            _ => {},
        }
        i = i + 1;
    }
    true
}

} // verus!
