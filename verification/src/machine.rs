//! The Norma machine: a bank of named registers, each holding a natural
//! number. Registers `X` (input) and `Y` (output) always exist.

use crate::natural::{decimal, Natural};
use std::cmp::Ordering;
use vstd::prelude::*;
use vstd::string::StringExecFns;

verus! {

/// The name of the input register.
pub open spec fn input_register() -> Seq<char> {
    seq!['X']
}

/// The name of the output register.
pub open spec fn output_register() -> Seq<char> {
    seq!['Y']
}

/// The registers after `dest` got `src` added to it and then `tmp` was
/// cleared (the three names may coincide).
pub open spec fn after_add(
    regs: Map<Seq<char>, nat>,
    dest: Seq<char>,
    src: Seq<char>,
    tmp: Seq<char>,
) -> Map<Seq<char>, nat> {
    regs.insert(dest, regs[dest] + regs[src]).insert(tmp, 0)
}

/// `a - b`, or zero where `b` is the greater.
pub open spec fn monus(a: nat, b: nat) -> nat {
    if b <= a {
        (a - b) as nat
    } else {
        0
    }
}

/// The registers after `dest` got `src` subtracted from it (stopping at
/// zero) and then `tmp` was cleared.
pub open spec fn after_sub(
    regs: Map<Seq<char>, nat>,
    dest: Seq<char>,
    src: Seq<char>,
    tmp: Seq<char>,
) -> Map<Seq<char>, nat> {
    regs.insert(dest, monus(regs[dest], regs[src])).insert(tmp, 0)
}

/// The order of two numbers.
pub open spec fn order_of(a: nat, b: nat) -> Ordering {
    if a < b {
        Ordering::Less
    } else if a == b {
        Ordering::Equal
    } else {
        Ordering::Greater
    }
}

/// Every register of `regs` set to zero.
pub open spec fn all_cleared(regs: Map<Seq<char>, nat>) -> Map<Seq<char>, nat> {
    Map::new(|name: Seq<char>| regs.dom().contains(name), |name: Seq<char>| 0nat)
}

/// Adding one to a register and then subtracting one gives back the
/// registers as they were.
pub proof fn lemma_inc_then_dec(regs: Map<Seq<char>, nat>, name: Seq<char>)
    requires
        regs.dom().contains(name),
    ensures
        ({
            let incremented = regs.insert(name, regs[name] + 1);
            incremented.insert(name, monus(incremented[name], 1))
        }) == regs,
{
    let incremented = regs.insert(name, regs[name] + 1);
    assert(incremented.insert(name, monus(incremented[name], 1)) =~= regs);
}

/// Adding a register to another and then subtracting it back gives back the
/// destination's value, for distinct destination, source and scratch
/// registers (the scratch register is left at zero).
pub proof fn lemma_add_then_sub(
    regs: Map<Seq<char>, nat>,
    dest: Seq<char>,
    src: Seq<char>,
    tmp: Seq<char>,
)
    requires
        regs.dom().contains(dest),
        regs.dom().contains(src),
        regs.dom().contains(tmp),
        dest != src,
        dest != tmp,
        src != tmp,
    ensures
        after_sub(after_add(regs, dest, src, tmp), dest, src, tmp) == regs.insert(tmp, 0),
{
    assert(after_sub(after_add(regs, dest, src, tmp), dest, src, tmp) =~= regs.insert(tmp, 0));
}

/// Clearing every register twice is the same as clearing them once.
pub proof fn lemma_clear_all_idempotent(regs: Map<Seq<char>, nat>)
    ensures
        all_cleared(all_cleared(regs)) == all_cleared(regs),
{
    assert(all_cleared(all_cleared(regs)) =~= all_cleared(regs));
}

/// A bank of registers.
pub struct Machine {
    names: Vec<String>,
    values: Vec<Natural>,
    contents: Ghost<Map<Seq<char>, nat>>,
}

impl View for Machine {
    type V = Map<Seq<char>, nat>;

    /// The value of each register, by name.
    closed spec fn view(&self) -> Map<Seq<char>, nat> {
        self.contents@
    }
}

impl Clone for Machine {
    fn clone(&self) -> (result: Self)
        ensures
            result@ == self@,
            self.wf() ==> result.wf(),
    {
        let mut values: Vec<Natural> = Vec::new();
        let mut i: usize = 0;
        while i < self.values.len()
            invariant
                i <= self.values.len(),
                values.len() == i,
                forall|j: int| 0 <= j < i ==> (#[trigger] values@[j])@ == self.values@[j]@,
            decreases self.values.len() - i,
        {
            values.push(self.values[i].clone());
            i = i + 1;
        }
        let names = self.names.clone();
        proof {
            assert(names@ =~= self.names@);
        }
        Machine { names, values, contents: Ghost(self.contents@) }
    }
}

impl Machine {
    /// The machine's internal consistency: one value per name, no name twice,
    /// and the input and output registers present.
    pub closed spec fn wf(&self) -> bool {
        &&& self.names.len() == self.values.len()
        &&& forall|i: int, j: int|
            0 <= i < j < self.names.len() ==> (#[trigger] self.names@[i])@
                != (#[trigger] self.names@[j])@
        &&& forall|name: Seq<char>|
            #![trigger self.contents@.dom().contains(name)]
            self.contents@.dom().contains(name) <==> exists|i: int|
                0 <= i < self.names.len() && (#[trigger] self.names@[i])@ == name
        &&& forall|i: int|
            0 <= i < self.names.len() ==> self.contents@[(#[trigger] self.names@[i])@]
                == self.values@[i]@
        &&& self.contents@.dom().contains(input_register())
        &&& self.contents@.dom().contains(output_register())
    }

    /// The input and output registers always exist.
    pub proof fn lemma_io_registers(&self)
        requires
            self.wf(),
        ensures
            self@.dom().contains(input_register()),
            self@.dom().contains(output_register()),
    {
    }

    /// A machine with the input register holding `input` and the output
    /// register holding zero, and no other register.
    pub fn new(input: Natural) -> (machine: Machine)
        ensures
            machine.wf(),
            machine@ == map![input_register() => input@, output_register() => 0nat],
    {
        let x = String::from_str("X");
        let y = String::from_str("Y");
        proof {
            reveal_strlit("X");
            reveal_strlit("Y");
            assert(x@ =~= input_register());
            assert(y@ =~= output_register());
            assert(input_register()[0] != output_register()[0]);
        }
        let mut names: Vec<String> = Vec::new();
        names.push(x);
        names.push(y);
        let mut values: Vec<Natural> = Vec::new();
        values.push(input);
        values.push(Natural::zero());
        let ghost contents = map![input_register() => values@[0]@, output_register() => 0nat];
        let machine = Machine { names, values, contents: Ghost(contents) };
        proof {
            assert forall|name: Seq<char>|
                #![trigger machine.contents@.dom().contains(name)]
                machine.contents@.dom().contains(name) <==> exists|i: int|
                    0 <= i < machine.names.len() && (#[trigger] machine.names@[i])@ == name by {
                if name == input_register() {
                    assert(machine.names@[0]@ == name);
                }
                if name == output_register() {
                    assert(machine.names@[1]@ == name);
                }
            }
        }
        machine
    }

    /// The index of the register named `name`, if there is one.
    fn position(&self, name: &str) -> (result: Option<usize>)
        requires
            self.wf(),
        ensures
            match result {
                Some(i) => i < self.names.len() && self.names@[i as int]@ == name@,
                None => !self@.dom().contains(name@),
            },
    {
        let key = String::from_str(name);
        let mut i: usize = 0;
        while i < self.names.len()
            invariant
                self.wf(),
                key@ == name@,
                i <= self.names.len(),
                forall|j: int| 0 <= j < i ==> (#[trigger] self.names@[j])@ != name@,
            decreases self.names.len() - i,
        {
            if self.names[i] == key {
                return Some(i);
            }
            i = i + 1;
        }
        None
    }

    /// Replaces the value at index `i` of the register bank.
    fn set_at(&mut self, i: usize, value: Natural)
        requires
            old(self).wf(),
            i < old(self).names.len(),
        ensures
            final(self).wf(),
            final(self).names == old(self).names,
            final(self)@ == old(self)@.insert(old(self).names@[i as int]@, value@),
    {
        let ghost name = self.names@[i as int]@;
        let ghost old_contents = self.contents@;
        let ghost new_contents = self.contents@.insert(name, value@);
        self.values.set(i, value);
        self.contents = Ghost(new_contents);
        proof {
            assert forall|j: int| 0 <= j < self.names.len() implies self.contents@[(
            #[trigger] self.names@[j])@] == self.values@[j]@ by {
                if j != i {
                    assert(self.names@[j]@ != name);
                }
            }
            assert forall|k: Seq<char>|
                #![trigger self.contents@.dom().contains(k)]
                self.contents@.dom().contains(k) implies exists|j: int|
                    0 <= j < self.names.len() && (#[trigger] self.names@[j])@ == k by {
                if k == name {
                    assert(self.names@[i as int]@ == k);
                } else {
                    assert(old_contents.dom().contains(k));
                }
            }
        }
    }

    /// The names of all registers, each once, in no particular order.
    pub fn register_names(&self) -> (result: Vec<String>)
        requires
            self.wf(),
        ensures
            forall|name: Seq<char>|
                self@.dom().contains(name) <==> exists|i: int|
                    0 <= i < result.len() && (#[trigger] result@[i])@ == name,
            forall|i: int, j: int|
                0 <= i < j < result.len() ==> (#[trigger] result@[i])@ != (#[trigger] result@[j])@,
    {
        let result = self.names.clone();
        proof {
            assert(result@ =~= self.names@);
            assert forall|name: Seq<char>| self@.dom().contains(name) <==> exists|i: int|
                0 <= i < result.len() && (#[trigger] result@[i])@ == name by {
                assert(self.contents@.dom().contains(name) <==> exists|i: int|
                    0 <= i < self.names.len() && (#[trigger] self.names@[i])@ == name);
            }
        }
        result
    }

    /// Sets the input register to `data`.
    pub fn input(&mut self, data: Natural)
        requires
            old(self).wf(),
        ensures
            final(self).wf(),
            final(self)@ == old(self)@.insert(input_register(), data@),
    {
        let x = String::from_str("X");
        proof {
            reveal_strlit("X");
            assert(x@ =~= input_register());
        }
        self.set_value(x.as_str(), data);
    }

    /// The value of the output register.
    pub fn output(&self) -> (result: Natural)
        requires
            self.wf(),
        ensures
            result@ == self@[output_register()],
    {
        let y = String::from_str("Y");
        proof {
            reveal_strlit("Y");
            assert(y@ =~= output_register());
        }
        self.get_value(y.as_str())
    }

    /// Creates the register `name`, holding zero, unless it exists already.
    /// Returns whether it was created.
    pub fn create(&mut self, name: &str) -> (created: bool)
        requires
            old(self).wf(),
        ensures
            final(self).wf(),
            created == !old(self)@.dom().contains(name@),
            final(self)@ == (if created {
                old(self)@.insert(name@, 0)
            } else {
                old(self)@
            }),
    {
        if self.register_exists(name) {
            false
        } else {
            self.insert(name);
            true
        }
    }

    /// Sets the register `name` to zero, creating it if it does not exist.
    pub fn insert(&mut self, name: &str)
        requires
            old(self).wf(),
        ensures
            final(self).wf(),
            final(self)@ == old(self)@.insert(name@, 0),
    {
        self.insert_with_value(name, Natural::zero());
    }

    /// Sets the register `name` to `value`, creating it if it does not exist.
    pub fn insert_with_value(&mut self, name: &str, value: Natural)
        requires
            old(self).wf(),
        ensures
            final(self).wf(),
            final(self)@ == old(self)@.insert(name@, value@),
    {
        self.set_value(name, value);
    }

    /// Sets the register `name` to `value`, creating it if it does not exist.
    fn set_value(&mut self, name: &str, value: Natural)
        requires
            old(self).wf(),
        ensures
            final(self).wf(),
            final(self)@ == old(self)@.insert(name@, value@),
    {
        match self.position(name) {
            Some(i) => {
                self.set_at(i, value);
            },
            None => {
                let key = String::from_str(name);
                let ghost old_names = self.names@;
                let ghost new_contents = self.contents@.insert(name@, value@);
                self.names.push(key);
                self.values.push(value);
                self.contents = Ghost(new_contents);
                proof {
                    let n = old_names.len() as int;
                    assert(self.names@[n]@ == name@);
                    assert forall|i: int, j: int|
                        0 <= i < j < self.names.len() implies (#[trigger] self.names@[i])@
                        != (#[trigger] self.names@[j])@ by {
                        if j == n {
                            assert(old_names[i] == self.names@[i]);
                            assert(old_names.len() == n);
                        }
                    }
                    assert forall|k: Seq<char>|
                        #![trigger self.contents@.dom().contains(k)]
                        self.contents@.dom().contains(k) <==> exists|i: int|
                            0 <= i < self.names.len() && (#[trigger] self.names@[i])@ == k by {
                        if k == name@ {
                            assert(self.names@[n]@ == k);
                        } else if self.contents@.dom().contains(k) {
                            let i = choose|i: int|
                                0 <= i < old_names.len() && (#[trigger] old_names[i])@ == k;
                            assert(self.names@[i] == old_names[i]);
                        }
                    }
                    assert forall|i: int| 0 <= i < self.names.len() implies self.contents@[(
                    #[trigger] self.names@[i])@] == self.values@[i]@ by {
                        if i < n {
                            assert(self.names@[i] == old_names[i]);
                        }
                    }
                }
            },
        }
    }

    /// Whether a register named `name` exists.
    pub fn register_exists(&self, name: &str) -> (result: bool)
        requires
            self.wf(),
        ensures
            result == self@.dom().contains(name@),
    {
        match self.position(name) {
            Some(i) => {
                proof {
                    assert(self.contents@.dom().contains(self.names@[i as int]@));
                }
                true
            },
            None => false,
        }
    }

    /// Sets every register to zero.
    pub fn clear_all(&mut self)
        requires
            old(self).wf(),
        ensures
            final(self).wf(),
            final(self)@ == all_cleared(old(self)@),
    {
        let ghost start = self@;
        let mut i: usize = 0;
        while i < self.values.len()
            invariant
                self.wf(),
                i <= self.values.len(),
                self@.dom() == start.dom(),
                forall|name: Seq<char>| #[trigger]
                    self@.dom().contains(name) ==> self@[name] == 0 || exists|j: int|
                        i <= j < self.names.len() && (#[trigger] self.names@[j])@ == name,
            decreases self.values.len() - i,
        {
            let ghost before = self@;
            let ghost names = self.names@;
            self.set_at(i, Natural::zero());
            proof {
                assert(self@.dom() =~= before.dom());
                assert forall|name: Seq<char>| #[trigger]
                    self@.dom().contains(name) implies self@[name] == 0 || exists|j: int|
                        i + 1 <= j < self.names.len() && (#[trigger] self.names@[j])@
                            == name by {
                    if name != names[i as int]@ && before[name] != 0 {
                        let j = choose|j: int|
                            i <= j < names.len() && (#[trigger] names[j])@ == name;
                        assert(j != i);
                    }
                }
            }
            i = i + 1;
        }
        proof {
            assert(self@ =~= all_cleared(start));
        }
    }

    /// Sets the register `name` to zero.
    pub fn clear(&mut self, name: &str)
        requires
            old(self).wf(),
            old(self)@.dom().contains(name@),
        ensures
            final(self).wf(),
            final(self)@ == old(self)@.insert(name@, 0),
    {
        self.set_value(name, Natural::zero());
    }

    /// Adds one to the register `name`.
    pub fn inc(&mut self, name: &str)
        requires
            old(self).wf(),
            old(self)@.dom().contains(name@),
        ensures
            final(self).wf(),
            final(self)@ == old(self)@.insert(name@, old(self)@[name@] + 1),
    {
        let value = self.get_value(name).succ();
        self.set_value(name, value);
    }

    /// Subtracts one from the register `name`, unless it holds zero.
    pub fn dec(&mut self, name: &str)
        requires
            old(self).wf(),
            old(self)@.dom().contains(name@),
        ensures
            final(self).wf(),
            final(self)@ == old(self)@.insert(name@, monus(old(self)@[name@], 1)),
    {
        let value = self.get_value(name).pred();
        self.set_value(name, value);
    }

    /// Adds the register `src` to the register `dest`, then clears the
    /// register `tmp`, as the macro that does this with `tmp` as scratch
    /// space would leave them.
    pub fn add(&mut self, dest: &str, src: &str, tmp: &str)
        requires
            old(self).wf(),
            old(self)@.dom().contains(dest@),
            old(self)@.dom().contains(src@),
            old(self)@.dom().contains(tmp@),
        ensures
            final(self).wf(),
            final(self)@ == after_add(old(self)@, dest@, src@, tmp@),
    {
        let operand = self.get_value(src);
        let sum = self.get_value(dest).add(&operand);
        self.set_value(dest, sum);
        self.set_value(tmp, Natural::zero());
    }

    /// Adds `constant` to the register `name`.
    pub fn add_const(&mut self, name: &str, constant: &Natural)
        requires
            old(self).wf(),
            old(self)@.dom().contains(name@),
        ensures
            final(self).wf(),
            final(self)@ == old(self)@.insert(name@, old(self)@[name@] + constant@),
    {
        let sum = self.get_value(name).add(constant);
        self.set_value(name, sum);
    }

    /// Subtracts the register `src` from the register `dest`, stopping at
    /// zero, then clears the register `tmp`.
    pub fn sub(&mut self, dest: &str, src: &str, tmp: &str)
        requires
            old(self).wf(),
            old(self)@.dom().contains(dest@),
            old(self)@.dom().contains(src@),
            old(self)@.dom().contains(tmp@),
        ensures
            final(self).wf(),
            final(self)@ == after_sub(old(self)@, dest@, src@, tmp@),
    {
        let operand = self.get_value(src);
        let difference = self.get_value(dest).saturating_sub(&operand);
        self.set_value(dest, difference);
        self.set_value(tmp, Natural::zero());
    }

    /// Subtracts `constant` from the register `name`, stopping at zero.
    pub fn sub_const(&mut self, name: &str, constant: &Natural)
        requires
            old(self).wf(),
            old(self)@.dom().contains(name@),
        ensures
            final(self).wf(),
            final(self)@ == old(self)@.insert(name@, monus(old(self)@[name@], constant@)),
    {
        let difference = self.get_value(name).saturating_sub(constant);
        self.set_value(name, difference);
    }

    /// Clears the register `tmp`, then gives the order of the registers
    /// `left` and `right` (read after the clearing).
    pub fn cmp(&mut self, left: &str, right: &str, tmp: &str) -> (result: Ordering)
        requires
            old(self).wf(),
            old(self)@.dom().contains(left@),
            old(self)@.dom().contains(right@),
            old(self)@.dom().contains(tmp@),
        ensures
            final(self).wf(),
            final(self)@ == old(self)@.insert(tmp@, 0),
            result == order_of(final(self)@[left@], final(self)@[right@]),
    {
        self.set_value(tmp, Natural::zero());
        let left_value = self.get_value(left);
        let right_value = self.get_value(right);
        left_value.compare(&right_value)
    }

    /// The order of the register `name` and `constant`.
    pub fn cmp_const(&mut self, name: &str, constant: &Natural) -> (result: Ordering)
        requires
            old(self).wf(),
            old(self)@.dom().contains(name@),
        ensures
            final(self).wf(),
            final(self)@ == old(self)@,
            result == order_of(old(self)@[name@], constant@),
    {
        self.get_value(name).compare(constant)
    }

    /// Whether the register `name` holds zero.
    pub fn is_zero(&self, name: &str) -> (result: bool)
        requires
            self.wf(),
            self@.dom().contains(name@),
        ensures
            result == (self@[name@] == 0),
    {
        self.get_value(name).is_zero()
    }

    /// The value of the register `name`.
    pub fn get_value(&self, name: &str) -> (result: Natural)
        requires
            self.wf(),
            self@.dom().contains(name@),
        ensures
            result@ == self@[name@],
    {
        match self.position(name) {
            Some(i) => self.values[i].clone(),
            None => {
                proof {
                    assert(false);
                }
                Natural::zero()
            },
        }
    }

    /// Each register's name with its value in decimal, each register once.
    pub fn export_registers(&mut self) -> (result: Vec<(String, String)>)
        requires
            old(self).wf(),
        ensures
            final(self).wf(),
            final(self)@ == old(self)@,
            forall|name: Seq<char>|
                old(self)@.dom().contains(name) <==> exists|i: int|
                    0 <= i < result.len() && (#[trigger] result@[i]).0@ == name,
            forall|i: int|
                0 <= i < result.len() ==> (#[trigger] result@[i]).1@ == decimal(
                    old(self)@[result@[i].0@],
                ),
            forall|i: int, j: int|
                0 <= i < j < result.len() ==> (#[trigger] result@[i]).0@ != (
                #[trigger] result@[j]).0@,
    {
        let mut result: Vec<(String, String)> = Vec::new();
        let mut i: usize = 0;
        while i < self.names.len()
            invariant
                self.wf(),
                i <= self.names.len(),
                result.len() == i,
                forall|j: int|
                    0 <= j < i ==> (#[trigger] result@[j]).0@ == self.names@[j]@ && result@[j].1@
                        == decimal(self.values@[j]@),
            decreases self.names.len() - i,
        {
            let name = self.names[i].clone();
            let value = self.values[i].to_decimal();
            result.push((name, value));
            i = i + 1;
        }
        proof {
            assert forall|name: Seq<char>|
                self@.dom().contains(name) <==> exists|i: int|
                    0 <= i < result.len() && (#[trigger] result@[i]).0@ == name by {
                if self@.dom().contains(name) {
                    let i = choose|i: int|
                        0 <= i < self.names.len() && (#[trigger] self.names@[i])@ == name;
                    assert(result@[i].0@ == name);
                }
                if exists|i: int| 0 <= i < result.len() && (#[trigger] result@[i]).0@ == name {
                    let i = choose|i: int|
                        0 <= i < result.len() && (#[trigger] result@[i]).0@ == name;
                    assert(self.names@[i]@ == name);
                }
            }
            assert forall|i: int, j: int|
                0 <= i < j < result.len() implies (#[trigger] result@[i]).0@ != (
                #[trigger] result@[j]).0@ by {
                assert(self.names@[i]@ != self.names@[j]@);
            }
        }
        result
    }
}

impl Default for Machine {
    /// A machine with the input and output registers, both holding zero.
    fn default() -> (machine: Self)
        ensures
            machine.wf(),
            machine@ == map![input_register() => 0nat, output_register() => 0nat],
    {
        Machine::new(Natural::zero())
    }
}

} // verus!
