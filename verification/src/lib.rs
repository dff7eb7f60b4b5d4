//! A simulator for Norma machines: register machines whose registers hold
//! natural numbers of any size, programmed in a small language with
//! operation and test macros.

pub mod collections;
pub mod compiler;
pub mod interpreter;
pub mod machine;
pub mod natural;

use compiler::error::Diagnostics;
use machine::{input_register, monus, output_register, Machine};
use natural::{lenient_numeral, numeral_value, Natural};
use vstd::prelude::*;

verus! {

/// Compiles `source` and runs it on `input`: the output of the program that
/// compiling gives, or the errors that compiling found.
pub fn run(source: &str, input: Natural) -> (result: Result<Natural, Diagnostics>)
    requires
        4 * source@.len() + 4 <= usize::MAX,
    ensures
        exists|compiled: Result<interpreter::program::Program, Diagnostics>|
            #[trigger] compiler::compile_result(source@, compiled) && match (compiled, result) {
                (Ok(program), Ok(output)) => output@ == interpreter::program_output(
                    program@,
                    input@,
                ),
                (Err(found), Err(diagnostics)) => diagnostics@ == found@,
                _ => false,
            },
{
    let compiled = compiler::compile(source);
    let ghost outcome = compiled;
    match compiled {
        Ok(program) => {
            let output = interpreter::run_once(input, program);
            proof {
                assert(compiler::compile_result(source@, outcome));
            }
            Ok(output)
        },
        Err(diagnostics) => {
            proof {
                assert(compiler::compile_result(source@, outcome));
            }
            Err(diagnostics)
        },
    }
}


/// The name `VAL`.
pub open spec fn val_register() -> Seq<char> {
    seq!['V', 'A', 'L']
}

/// The name `TMP`.
pub open spec fn tmp_register() -> Seq<char> {
    seq!['T', 'M', 'P']
}

/// The name `CNT`.
pub open spec fn cnt_register() -> Seq<char> {
    seq!['C', 'N', 'T']
}

/// The name `J`.
pub open spec fn j_register() -> Seq<char> {
    seq!['J']
}

/// The names of the registers that `square` and `test` use differ.
proof fn lemma_register_names_differ()
    ensures
        input_register() != output_register(),
        input_register() != val_register(),
        input_register() != tmp_register(),
        input_register() != cnt_register(),
        input_register() != j_register(),
        output_register() != val_register(),
        output_register() != tmp_register(),
        output_register() != cnt_register(),
        output_register() != j_register(),
        val_register() != tmp_register(),
        val_register() != cnt_register(),
        tmp_register() != cnt_register(),
{
    assert(input_register()[0] != output_register()[0]);
    assert(input_register().len() != val_register().len());
    assert(input_register().len() != tmp_register().len());
    assert(input_register().len() != cnt_register().len());
    assert(input_register()[0] != j_register()[0]);
    assert(output_register().len() != val_register().len());
    assert(output_register().len() != tmp_register().len());
    assert(output_register().len() != cnt_register().len());
    assert(output_register()[0] != j_register()[0]);
    assert(val_register()[0] != tmp_register()[0]);
    assert(val_register()[0] != cnt_register()[0]);
    assert(tmp_register()[0] != cnt_register()[0]);
}

/// Squares the number written in decimal by `input` on a machine, with
/// only `inc`, `dec` and zero tests: the machine at the end, where `Y`
/// holds the square, `VAL` the number, and `X`, `TMP` and `CNT` zero; or
/// `None` where `input` is not a numeral that [`Natural::parse`] reads.
pub fn square(input: &str) -> (result: Option<Machine>)
    ensures
        result is Some <==> lenient_numeral(input@),
        result matches Some(machine) ==> machine.wf() && machine@ == map![
            input_register() => 0nat,
            output_register() => numeral_value(input@) * numeral_value(input@),
            val_register() => numeral_value(input@),
            tmp_register() => 0nat,
            cnt_register() => 0nat,
        ],
{
    let number = match Natural::parse(input) {
        Ok(number) => number,
        Err(_) => {
            return None;
        },
    };
    let ghost n = number@;
    let x = "X";
    let y = "Y";
    let val = "VAL";
    let tmp = "TMP";
    let cnt = "CNT";
    proof {
        lemma_register_names_differ();
        reveal_strlit("X");
        reveal_strlit("Y");
        reveal_strlit("VAL");
        reveal_strlit("TMP");
        reveal_strlit("CNT");
        assert(x@ =~= input_register());
        assert(y@ =~= output_register());
        assert(val@ =~= val_register());
        assert(tmp@ =~= tmp_register());
        assert(cnt@ =~= cnt_register());
    }
    let mut registers = Machine::new(number);
    registers.insert(val);
    registers.insert(tmp);
    registers.insert(cnt);
    let ghost names = set![
        input_register(),
        output_register(),
        val_register(),
        tmp_register(),
        cnt_register(),
    ];
    proof {
        assert(registers@.dom() =~= names);
    }
    while !registers.is_zero(x)
        invariant
            registers.wf(),
            x@ == input_register(),
            y@ == output_register(),
            val@ == val_register(),
            tmp@ == tmp_register(),
            cnt@ == cnt_register(),
            registers@.dom() == names,
            names == set![
                input_register(),
                output_register(),
                val_register(),
                tmp_register(),
                cnt_register(),
            ],
            registers@[input_register()] + registers@[val_register()] == n,
            registers@[cnt_register()] == registers@[val_register()],
            registers@[tmp_register()] == 0,
            registers@[output_register()] == 0,
        decreases registers@[input_register()],
    {
        proof {
            lemma_register_names_differ();
        }
        registers.dec(x);
        registers.inc(val);
        registers.inc(cnt);
        proof {
            assert(registers@.dom() =~= names);
        }
    }
    while !registers.is_zero(cnt)
        invariant
            registers.wf(),
            x@ == input_register(),
            y@ == output_register(),
            val@ == val_register(),
            tmp@ == tmp_register(),
            cnt@ == cnt_register(),
            registers@.dom() == names,
            names == set![
                input_register(),
                output_register(),
                val_register(),
                tmp_register(),
                cnt_register(),
            ],
            registers@[input_register()] == 0,
            registers@[val_register()] == n,
            registers@[tmp_register()] == 0,
            registers@[cnt_register()] <= n,
            registers@[output_register()] == (n - registers@[cnt_register()]) * n,
        decreases registers@[cnt_register()],
    {
        proof {
            lemma_register_names_differ();
        }
        let ghost count = registers@[cnt_register()];
        let ghost base = registers@[output_register()];
        registers.dec(cnt);
        proof {
            assert(registers@.dom() =~= names);
        }
        while !registers.is_zero(val)
            invariant
                registers.wf(),
                y@ == output_register(),
                val@ == val_register(),
                tmp@ == tmp_register(),
                registers@.dom() == names,
                names.contains(output_register()),
                names.contains(val_register()),
                names.contains(tmp_register()),
                names.contains(input_register()),
                names.contains(cnt_register()),
                registers@[input_register()] == 0,
                registers@[cnt_register()] == count - 1,
                registers@[val_register()] + registers@[tmp_register()] == n,
                registers@[output_register()] == base + registers@[tmp_register()],
            decreases registers@[val_register()],
        {
            proof {
                lemma_register_names_differ();
            }
            registers.inc(y);
            registers.inc(tmp);
            registers.dec(val);
            proof {
                assert(registers@.dom() =~= names);
            }
        }
        while !registers.is_zero(tmp)
            invariant
                registers.wf(),
                val@ == val_register(),
                tmp@ == tmp_register(),
                registers@.dom() == names,
                names.contains(output_register()),
                names.contains(val_register()),
                names.contains(tmp_register()),
                names.contains(input_register()),
                names.contains(cnt_register()),
                registers@[input_register()] == 0,
                registers@[cnt_register()] == count - 1,
                registers@[val_register()] + registers@[tmp_register()] == n,
                registers@[output_register()] == base + n,
            decreases registers@[tmp_register()],
        {
            proof {
                lemma_register_names_differ();
            }
            registers.inc(val);
            registers.dec(tmp);
            proof {
                assert(registers@.dom() =~= names);
            }
        }
        proof {
            assert((n - (count - 1)) * n == (n - count) * n + n) by (nonlinear_arith);
        }
    }
    proof {
        assert(registers@ =~= map![
            input_register() => 0nat,
            output_register() => n * n,
            val_register() => n,
            tmp_register() => 0nat,
            cnt_register() => 0nat,
        ]);
    }
    Some(registers)
}

/// Runs a fixed sequence of instructions on the number written in decimal
/// by `input`: three times `X` is decremented and incremented again and `J`
/// incremented twice, then, where `X` holds zero, `Y` is incremented and `J`
/// decremented. The machine at the end, or `None` where `input` is not a
/// numeral that [`Natural::parse`] reads.
pub fn test(input: &str) -> (result: Option<Machine>)
    ensures
        result is Some <==> lenient_numeral(input@),
        result matches Some(machine) ==> machine.wf() && machine@ == map![
            input_register() => if numeral_value(input@) == 0 {
                1nat
            } else {
                numeral_value(input@)
            },
            output_register() => 0nat,
            j_register() => 6nat,
        ],
{
    let number = match Natural::parse(input) {
        Ok(number) => number,
        Err(_) => {
            return None;
        },
    };
    let ghost n = number@;
    let x = "X";
    let y = "Y";
    let j = "J";
    proof {
        lemma_register_names_differ();
        reveal_strlit("X");
        reveal_strlit("Y");
        reveal_strlit("J");
        assert(x@ =~= input_register());
        assert(y@ =~= output_register());
        assert(j@ =~= j_register());
    }
    let mut registers = Machine::new(number);
    registers.insert(j);
    let ghost names = set![input_register(), output_register(), j_register()];
    proof {
        assert(registers@.dom() =~= names);
    }
    let mut i: u64 = 1;
    while i <= 3
        invariant
            1 <= i <= 4,
            registers.wf(),
            x@ == input_register(),
            j@ == j_register(),
            registers@.dom() == names,
            names == set![input_register(), output_register(), j_register()],
            registers@[input_register()] == (if i == 1 {
                n
            } else if n == 0 {
                1
            } else {
                n
            }),
            registers@[output_register()] == 0,
            registers@[j_register()] == 2 * (i - 1),
        decreases 4 - i,
    {
        proof {
            lemma_register_names_differ();
        }
        registers.dec(x);
        registers.inc(x);
        registers.inc(j);
        registers.inc(j);
        proof {
            assert(registers@.dom() =~= names);
        }
        i = i + 1;
    }
    proof {
        lemma_register_names_differ();
    }
    if registers.is_zero(x) {
        registers.inc(y);
        registers.dec(j);
    }
    proof {
        assert(registers@ =~= map![
            input_register() => if n == 0 { 1nat } else { n },
            output_register() => 0nat,
            j_register() => 6nat,
        ]);
    }
    Some(registers)
}

} // verus!
