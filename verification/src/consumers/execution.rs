//! The evaluation of gates, subcircuits, loops and switches.

use crate::consumers::backend::{wire_answer, ZKBackend};
use crate::consumers::operations::{
    as_add, as_mul, compute_weight, elements, get, lemma_wires_insert, remove, set_instance,
    set_witness, told, weight_number, wires,
};
use crate::consumers::semantics::{
    counts_checked, defined, freed, gathered, known, loaded, merged, most_counts, nested_weight,
    run_branch, run_cases, run_for, run_function, run_gate, run_gates, run_subcircuit, run_switch,
    run_turn, smaller, unloaded, weighted_sum, wrong_count_text, Env, FunctionV, Machine, Outcome,
    Scope, Text,
};
use crate::error::{decimal_text, Error};
use crate::number::BigUint;
use crate::structs::function::{CaseInvoke, ForLoopBody, Function};
use crate::structs::gate::Gate;
use crate::structs::iterators::{evaluate_iterexpr_list, IteratorTable};
use crate::structs::wire::{expand_wirelist, Value, WireId, WireList};
use std::collections::{HashMap, VecDeque};
use std::rc::Rc;
use vstd::prelude::*;
use vstd::std_specs::vecdeque::VecDequeAdditionalSpecFns;
use vstd::string::*;

verus! {

broadcast use vstd::std_specs::hash::group_hash_axioms;

/// A function as it is known to the evaluation. Its body is shared with the message
/// that defined it.
pub struct FunctionDeclaration {
    name: String,
    subcircuit: Rc<Vec<Gate>>,
    instance_nbr: usize,
    witness_nbr: usize,
    output_count: usize,
    input_count: usize,
}

impl View for FunctionDeclaration {
    type V = FunctionV;

    closed spec fn view(&self) -> FunctionV {
        FunctionV {
            name: self.name@,
            body: self.subcircuit@,
            instance_nbr: self.instance_nbr as nat,
            witness_nbr: self.witness_nbr as nat,
            output_count: self.output_count as nat,
            input_count: self.input_count as nat,
        }
    }
}

impl FunctionDeclaration {
    /// What is kept of a function.
    pub fn new(function: &Function) -> (r: Self)
        ensures
            r@ == defined(*function),
    {
        FunctionDeclaration {
            name: function.name.clone(),
            subcircuit: share(&function.body),
            instance_nbr: function.instance_count,
            witness_nbr: function.witness_count,
            output_count: function.output_count,
            input_count: function.input_count,
        }
    }
}

/// `Rc::clone`: another pointer to the same value.
#[verifier::external_body]
fn share<T>(pointer: &Rc<T>) -> (r: Rc<T>)
    ensures
        r == *pointer,
{
    Rc::clone(pointer)
}

/// The functions that are known, oldest first.
pub open spec fn declared(functions: Seq<FunctionDeclaration>) -> Seq<FunctionV> {
    functions.map_values(|f: FunctionDeclaration| f@)
}

/// The latest of the known functions that has a name.
fn find_function<'a>(functions: &'a Vec<FunctionDeclaration>, name: &String) -> (r: Option<
    &'a FunctionDeclaration,
>)
    ensures
        known(declared(functions@), name@) == (match r {
            Some(f) => Some(f@),
            None => None,
        }),
{
    let mut k: usize = functions.len();
    assert(declared(functions@).take(k as int) =~= declared(functions@));
    while k > 0
        invariant
            k <= functions@.len(),
            known(declared(functions@), name@) == known(
                declared(functions@).take(k as int),
                name@,
            ),
        decreases k,
    {
        let ghost left = declared(functions@).take(k as int);
        assert(left.drop_last() =~= declared(functions@).take(k - 1));
        assert(left.last() == functions@[k - 1]@);
        k = k - 1;
        if functions[k].name == *name {
            return Some(&functions[k]);
        }
    }
    None
}

fn wrong_count(kind: &str, name: &String, expected: usize, got: usize) -> (e: Error)
    ensures
        e@ == wrong_count_text(kind@, name@, expected as nat, got as nat),
{
    let mut message = "Wrong number of ".to_owned();
    message.append(kind);
    message.append(" variables in call to function ");
    message.append(name.as_str());
    message.append(" (Expected ");
    message.append(decimal_text(expected as u64).as_str());
    message.append(" / Got ");
    message.append(decimal_text(got as u64).as_str());
    message.append(").");
    Error { message }
}

/// Checks that a call gives a function as many wires as it has.
fn check_counts(
    function: &FunctionDeclaration,
    name: &String,
    output_list: &Vec<WireId>,
    input_list: &Vec<WireId>,
) -> (r: Result<(), Error>)
    ensures
        told(r) == counts_checked(function@, name@, output_list@.len(), input_list@.len()),
{
    if output_list.len() != function.output_count {
        Err(wrong_count("output", name, function.output_count, output_list.len()))
    } else if input_list.len() != function.input_count {
        Err(wrong_count("input", name, function.input_count, input_list.len()))
    } else {
        Ok(())
    }
}

/// Copies the inputs of a subcircuit into its own scope, where they follow its outputs.
fn load_inputs<B: ZKBackend>(
    backend: &mut B,
    scope: &HashMap<WireId, B::Wire>,
    input_list: &Vec<WireId>,
    output_count: usize,
    new_scope: &mut HashMap<WireId, B::Wire>,
) -> (r: Result<(), Error>)
    ensures
        (final(backend).state(), wires::<B>(final(new_scope)@), told(r)) == loaded::<B>(
            old(backend).state(),
            wires::<B>(scope@),
            input_list@,
            output_count as nat,
            0,
            wires::<B>(old(new_scope)@),
        ),
{
    let mut idx: usize = 0;
    while idx < input_list.len()
        invariant
            idx <= input_list@.len(),
            loaded::<B>(
                old(backend).state(),
                wires::<B>(scope@),
                input_list@,
                output_count as nat,
                0,
                wires::<B>(old(new_scope)@),
            ) == loaded::<B>(
                backend.state(),
                wires::<B>(scope@),
                input_list@,
                output_count as nat,
                idx as nat,
                wires::<B>(new_scope@),
            ),
        decreases input_list@.len() - idx,
    {
        let i = match get::<B>(scope, input_list[idx]) {
            Err(e) => {
                return Err(e);
            },
            Ok(i) => i,
        };
        let copy = match backend.copy(i) {
            Err(e) => {
                return Err(e);
            },
            Ok(copy) => copy,
        };
        let id: u64 = (idx as u64).wrapping_add(output_count as u64);
        assert(id == ((idx + output_count) % 0x1_0000_0000_0000_0000) as u64);
        match crate::consumers::operations::set::<B>(new_scope, id, copy) {
            Err(e) => {
                return Err(e);
            },
            Ok(_) => {},
        }
        idx = idx + 1;
    }
    Ok(())
}

/// Copies the inputs of a branch into the branch's scope.
fn copy_inputs<B: ZKBackend>(
    backend: &mut B,
    scope: &HashMap<WireId, B::Wire>,
    input_list: &Vec<WireId>,
    branch_scope: &mut HashMap<WireId, B::Wire>,
) -> (r: Result<(), Error>)
    ensures
        (final(backend).state(), wires::<B>(final(branch_scope)@), told(r)) == gathered::<B>(
            old(backend).state(),
            wires::<B>(scope@),
            input_list@,
            0,
            wires::<B>(old(branch_scope)@),
        ),
{
    let mut idx: usize = 0;
    while idx < input_list.len()
        invariant
            idx <= input_list@.len(),
            gathered::<B>(
                old(backend).state(),
                wires::<B>(scope@),
                input_list@,
                0,
                wires::<B>(old(branch_scope)@),
            ) == gathered::<B>(
                backend.state(),
                wires::<B>(scope@),
                input_list@,
                idx as nat,
                wires::<B>(branch_scope@),
            ),
        decreases input_list@.len() - idx,
    {
        let i = match get::<B>(scope, input_list[idx]) {
            Err(e) => {
                return Err(e);
            },
            Ok(i) => i,
        };
        let copy = match backend.copy(i) {
            Err(e) => {
                return Err(e);
            },
            Ok(copy) => copy,
        };
        proof {
            lemma_wires_insert::<B>(branch_scope@, input_list@[idx as int], copy);
        }
        branch_scope.insert(input_list[idx], copy);
        idx = idx + 1;
    }
    Ok(())
}

/// Copies the outputs of a subcircuit into the scope of its caller.
fn unload_outputs<B: ZKBackend>(
    backend: &mut B,
    new_scope: &HashMap<WireId, B::Wire>,
    output_list: &Vec<WireId>,
    scope: &mut HashMap<WireId, B::Wire>,
) -> (r: Result<(), Error>)
    ensures
        forall|m: Machine|
            m.backend == old(backend).state() && m.scope == wires::<B>(old(scope)@) ==> (
            Machine { backend: final(backend).state(), scope: wires::<B>(final(scope)@), ..m },
            told(r),
        ) == #[trigger] unloaded::<B>(m, wires::<B>(new_scope@), output_list@, 0),
{
    let mut idx: usize = 0;
    while idx < output_list.len()
        invariant
            idx <= output_list@.len(),
            forall|m: Machine|
                m.backend == old(backend).state() && m.scope == wires::<B>(old(scope)@)
                    ==> #[trigger] unloaded::<B>(m, wires::<B>(new_scope@), output_list@, 0)
                    == unloaded::<B>(
                    Machine { backend: backend.state(), scope: wires::<B>(scope@), ..m },
                    wires::<B>(new_scope@),
                    output_list@,
                    idx as nat,
                ),
        decreases output_list@.len() - idx,
    {
        let w = match get::<B>(new_scope, idx as u64) {
            Err(e) => {
                return Err(e);
            },
            Ok(w) => w,
        };
        let copy = match backend.copy(w) {
            Err(e) => {
                return Err(e);
            },
            Ok(copy) => copy,
        };
        match crate::consumers::operations::set::<B>(scope, output_list[idx], copy) {
            Err(e) => {
                return Err(e);
            },
            Ok(_) => {},
        }
        idx = idx + 1;
    }
    Ok(())
}

/// Forgets the wires from `first` to `last`, up to the first one without a value.
fn free_wires<B: ZKBackend>(scope: &mut HashMap<WireId, B::Wire>, first: WireId, last: WireId) -> (r:
    Result<(), Error>)
    ensures
        forall|m: Machine|
            m.scope == wires::<B>(old(scope)@) ==> (
            Machine { scope: wires::<B>(final(scope)@), ..m },
            told(r),
        ) == #[trigger] freed(m, first as int, last as int),
{
    if first > last {
        return Ok(());
    }
    let mut current: WireId = first;
    loop
        invariant
            first <= current <= last,
            forall|m: Machine|
                m.scope == wires::<B>(old(scope)@) ==> #[trigger] freed(
                    m,
                    first as int,
                    last as int,
                ) == freed(
                    Machine { scope: wires::<B>(scope@), ..m },
                    current as int,
                    last as int,
                ),
        decreases last - current,
    {
        let ghost before = scope@;
        match remove::<B>(scope, current) {
            Err(e) => {
                assert(scope@ =~= before);
                return Err(e);
            },
            Ok(_) => {},
        }
        assert(wires::<B>(scope@) =~= wires::<B>(before).remove(current));
        if current == last {
            proof {
                reveal_with_fuel(freed, 2);
            }
            return Ok(());
        }
        current = current + 1;
    }
}

/// The most instance and witness values that a branch of a switch takes.
fn max_counts(known_functions: &Vec<FunctionDeclaration>, branches: &Vec<CaseInvoke>) -> (r: Result<
    (usize, usize),
    Error,
>)
    ensures
        most_counts(declared(known_functions@), branches@, 0, 0, 0) == (match r {
            Ok((i, w)) => Ok::<(nat, nat), Text>((i as nat, w as nat)),
            Err(e) => Err::<(nat, nat), Text>(e@),
        }),
{
    let mut max_instance_count: usize = 0;
    let mut max_witness_count: usize = 0;
    let mut k: usize = 0;
    while k < branches.len()
        invariant
            k <= branches@.len(),
            most_counts(declared(known_functions@), branches@, 0, 0, 0) == most_counts(
                declared(known_functions@),
                branches@,
                k as nat,
                max_instance_count as nat,
                max_witness_count as nat,
            ),
        decreases branches@.len() - k,
    {
        let (instance_cnt, witness_cnt): (usize, usize) = match &branches[k] {
            CaseInvoke::AbstractGateCall(name, _) => match find_function(known_functions, name) {
                None => {
                    return Err(Error::new("Unknown function"));
                },
                Some(function) => (function.instance_nbr, function.witness_nbr),
            },
            CaseInvoke::AbstractAnonCall(_, instance_count, witness_count, _) => (
                *instance_count,
                *witness_count,
            ),
        };
        if instance_cnt > max_instance_count {
            max_instance_count = instance_cnt;
        }
        if witness_cnt > max_witness_count {
            max_witness_count = witness_cnt;
        }
        k = k + 1;
    }
    Ok((max_instance_count, max_witness_count))
}

/// The numbers of the wires of several scopes.
pub open spec fn scopes_of<B: ZKBackend>(scopes: Seq<HashMap<WireId, B::Wire>>) -> Seq<Scope> {
    scopes.map_values(|s: HashMap<WireId, B::Wire>| wires::<B>(s@))
}

/// The numbers of several wires.
pub open spec fn numbers<B: ZKBackend>(list: Seq<B::Wire>) -> Seq<nat> {
    list.map_values(|w: B::Wire| B::wire(w))
}

/// Adds up an output wire over all branches, each times its weight.
fn weighted_output<B: ZKBackend>(
    backend: &mut B,
    branches_scope: &Vec<HashMap<WireId, B::Wire>>,
    weights: &Vec<B::Wire>,
    output_wire: WireId,
    is_boolean: bool,
    zero: Result<B::Wire, Error>,
) -> (r: Result<B::Wire, Error>)
    requires
        branches_scope@.len() == weights@.len(),
    ensures
        (final(backend).state(), wire_answer::<B>(r)) == weighted_sum::<B>(
            old(backend).state(),
            is_boolean,
            scopes_of::<B>(branches_scope@),
            numbers::<B>(weights@),
            output_wire,
            0,
            wire_answer::<B>(zero),
        ),
{
    let mut accu = zero;
    let mut k: usize = 0;
    while k < branches_scope.len()
        invariant
            k <= branches_scope@.len(),
            branches_scope@.len() == weights@.len(),
            weighted_sum::<B>(
                old(backend).state(),
                is_boolean,
                scopes_of::<B>(branches_scope@),
                numbers::<B>(weights@),
                output_wire,
                0,
                wire_answer::<B>(zero),
            ) == weighted_sum::<B>(
                backend.state(),
                is_boolean,
                scopes_of::<B>(branches_scope@),
                numbers::<B>(weights@),
                output_wire,
                k as nat,
                wire_answer::<B>(accu),
            ),
        decreases branches_scope@.len() - k,
    {
        let branch_scope = &branches_scope[k];
        assert(scopes_of::<B>(branches_scope@)[k as int] == wires::<B>(branch_scope@));
        accu = match get::<B>(branch_scope, output_wire) {
            Err(e) => Err(e),
            Ok(wire) => match as_mul(backend, wire, &weights[k], is_boolean) {
                Err(e) => Err(e),
                Ok(weighted_wire) => match accu {
                    Err(e) => Err(e),
                    Ok(sum) => as_add(backend, &sum, &weighted_wire, is_boolean),
                },
            },
        };
        k = k + 1;
    }
    accu
}

/// Gives the output wires of a switch their weighted sums.
fn merge_branches<B: ZKBackend>(
    backend: &mut B,
    scope: &mut HashMap<WireId, B::Wire>,
    branches_scope: &Vec<HashMap<WireId, B::Wire>>,
    weights: &Vec<B::Wire>,
    output_list: &Vec<WireId>,
    is_boolean: bool,
) -> (r: Result<(), Error>)
    requires
        branches_scope@.len() == weights@.len(),
    ensures
        forall|m: Machine|
            m.backend == old(backend).state() && m.scope == wires::<B>(old(scope)@) ==> (
            Machine { backend: final(backend).state(), scope: wires::<B>(final(scope)@), ..m },
            told(r),
        ) == #[trigger] merged::<B>(
                m,
                is_boolean,
                scopes_of::<B>(branches_scope@),
                numbers::<B>(weights@),
                output_list@,
                0,
            ),
{
    let mut k: usize = 0;
    while k < output_list.len()
        invariant
            k <= output_list@.len(),
            branches_scope@.len() == weights@.len(),
            forall|m: Machine|
                m.backend == old(backend).state() && m.scope == wires::<B>(old(scope)@)
                    ==> #[trigger] merged::<B>(
                    m,
                    is_boolean,
                    scopes_of::<B>(branches_scope@),
                    numbers::<B>(weights@),
                    output_list@,
                    0,
                ) == merged::<B>(
                    Machine { backend: backend.state(), scope: wires::<B>(scope@), ..m },
                    is_boolean,
                    scopes_of::<B>(branches_scope@),
                    numbers::<B>(weights@),
                    output_list@,
                    k as nat,
                ),
        decreases output_list@.len() - k,
    {
        let zero = match backend.zero() {
            Err(e) => {
                return Err(e);
            },
            Ok(zero) => zero,
        };
        let zero_wire = backend.constant(zero);
        let sum = match weighted_output(
            backend,
            branches_scope,
            weights,
            output_list[k],
            is_boolean,
            zero_wire,
        ) {
            Err(e) => {
                return Err(e);
            },
            Ok(sum) => sum,
        };
        match crate::consumers::operations::set::<B>(scope, output_list[k], sum) {
            Err(e) => {
                return Err(e);
            },
            Ok(_) => {},
        }
        k = k + 1;
    }
    Ok(())
}

/// A copy of a queue.
fn copy_queue<B: ZKBackend>(queue: &VecDeque<B::FieldElement>) -> (r: VecDeque<B::FieldElement>)
    ensures
        elements::<B>(r@) == elements::<B>(queue@),
{
    let r = queue.clone();
    assert forall|i: int| 0 <= i < queue@.len() implies B::element(#[trigger] r@[i]) == B::element(
        queue@[i],
    ) by {
        assert(cloned(queue[i], r[i]));
        B::clone_is_same(queue@[i], r@[i]);
    }
    assert(elements::<B>(r@) =~= elements::<B>(queue@));
    r
}

/// Takes up to `count` values off the front of a queue.
fn take_front<T>(queue: &mut VecDeque<T>, count: usize) -> (r: VecDeque<T>)
    ensures
        r@ == old(queue)@.take(smaller(old(queue)@.len(), count as nat) as int),
        final(queue)@ == old(queue)@.skip(smaller(old(queue)@.len(), count as nat) as int),
{
    let n: usize = if queue.len() <= count {
        queue.len()
    } else {
        count
    };
    let mut front = queue.split_off(n);
    std::mem::swap(queue, &mut front);
    assert(front@ =~= old(queue)@.take(smaller(old(queue)@.len(), count as nat) as int));
    assert(queue@ =~= old(queue)@.skip(smaller(old(queue)@.len(), count as nat) as int));
    front
}

/// The weight of a branch inside a branch that may have a weight itself.
fn weigh_branch<B: ZKBackend>(
    backend: &mut B,
    case: &[u8],
    condition: &B::Wire,
    modulus: &BigUint,
    is_boolean: bool,
    weight: Option<&B::Wire>,
) -> (r: Result<B::Wire, Error>)
    ensures
        forall|env: Env|
            env.modulus == modulus@ && env.is_boolean == is_boolean ==> (
            final(backend).state(),
            wire_answer::<B>(r),
        ) == #[trigger] nested_weight::<B>(
                old(backend).state(),
                env,
                weight_number::<B>(weight),
                case@,
                B::wire(*condition),
            ),
{
    // Compute (1 - ('case' - 'condition') ^ (self.modulus - 1))
    match compute_weight(backend, case, condition, modulus, is_boolean) {
        Err(e) => Err(e),
        Ok(branch_weight) => match weight {
            Some(w) => as_mul(backend, w, &branch_weight, is_boolean),
            None => Ok(branch_weight),
        },
    }
}

/// What gates read, as a mathematical value.
pub open spec fn env_of(
    known_functions: Vec<FunctionDeclaration>,
    modulus: BigUint,
    is_boolean: bool,
) -> Env {
    Env { functions: declared(known_functions@), modulus: modulus@, is_boolean }
}

/// What gates change, as a mathematical value.
pub open spec fn machine<B: ZKBackend>(
    backend: B,
    scope: HashMap<WireId, B::Wire>,
    known_iterators: IteratorTable,
    instances: VecDeque<B::FieldElement>,
    witnesses: VecDeque<B::FieldElement>,
) -> Machine {
    Machine {
        backend: backend.state(),
        scope: wires::<B>(scope@),
        iterators: known_iterators@,
        instances: elements::<B>(instances@),
        witnesses: elements::<B>(witnesses@),
    }
}

/// Takes the first value off a queue.
fn pop<B: ZKBackend>(queue: &mut VecDeque<B::FieldElement>) -> (r: Option<B::FieldElement>)
    ensures
        match r {
            Some(x) => {
                &&& old(queue)@.len() > 0
                &&& B::element(x) == elements::<B>(old(queue)@)[0]
                &&& elements::<B>(final(queue)@) == elements::<B>(old(queue)@).drop_first()
            },
            None => old(queue)@.len() == 0 && final(queue)@ == old(queue)@,
        },
{
    let r = queue.pop_front();
    proof {
        if r is Some {
            assert(elements::<B>(queue@) =~= elements::<B>(old(queue)@).drop_first());
        }
    }
    r
}

/// Evaluates a list of gates in a scope.
pub fn ingest_gates<B: ZKBackend>(
    gates: &Vec<Gate>,
    backend: &mut B,
    scope: &mut HashMap<WireId, B::Wire>,
    known_functions: &Vec<FunctionDeclaration>,
    known_iterators: &mut IteratorTable,
    modulus: &BigUint,
    is_boolean: bool,
    instances: &mut VecDeque<B::FieldElement>,
    witnesses: &mut VecDeque<B::FieldElement>,
    weight: Option<&B::Wire>,
    depth: u64,
) -> (r: Result<(), Error>)
    ensures
        (
            machine::<B>(
                *final(backend),
                *final(scope),
                *final(known_iterators),
                *final(instances),
                *final(witnesses),
            ),
            told(r),
        ) == run_gates::<B>(
            gates@,
            0,
            env_of(*known_functions, *modulus, is_boolean),
            weight_number::<B>(weight),
            depth as nat,
            machine::<B>(
                *old(backend),
                *old(scope),
                *old(known_iterators),
                *old(instances),
                *old(witnesses),
            ),
        ),
    decreases depth, gates@, gates@.len(),
{
    let mut k: usize = 0;
    while k < gates.len()
        invariant
            k <= gates@.len(),
            run_gates::<B>(
                gates@,
                0,
                env_of(*known_functions, *modulus, is_boolean),
                weight_number::<B>(weight),
                depth as nat,
                machine::<B>(
                    *old(backend),
                    *old(scope),
                    *old(known_iterators),
                    *old(instances),
                    *old(witnesses),
                ),
            ) == run_gates::<B>(
                gates@,
                k as nat,
                env_of(*known_functions, *modulus, is_boolean),
                weight_number::<B>(weight),
                depth as nat,
                machine::<B>(*backend, *scope, *known_iterators, *instances, *witnesses),
            ),
        decreases gates@.len() - k,
    {
        match ingest_gate::<B>(
            &gates[k],
            backend,
            scope,
            known_functions,
            known_iterators,
            modulus,
            is_boolean,
            instances,
            witnesses,
            weight,
            depth,
        ) {
            Err(e) => {
                return Err(e);
            },
            Ok(_) => {},
        }
        k = k + 1;
    }
    Ok(())
}

/// This function ingests one gate at a time (but can call itself recursively)
/// If the current gate is in a branch of a switch, then it has to be weighted.
/// The weight is used in `AssertZero` gates by multiplying the tested wire by the weight. It
/// allows to 'disable' assertions that are in a not-taken branch. The weight should propagate
/// to inner gates.
/// - `scope` contains the list of existing wires with their respective value. It will be
///    augmented if this gate produces outputs, or reduced if this is a `GateFree`
/// - `known_functions` is the list of functions defined in previous or current `Relation` message
/// - `known_iterators` is the map of defined iterators. It will be temporarily updated if the
///    current gate is a `GateFor`
/// - `modulus` and `is_boolean` are used mainly is switches to compute the weight of each branch.
/// - `instances` and `witnesses` are the instances and witnesses pools, implemented as Queues.
///    They will be consumed whenever necessary.
/// - `depth` is how many calls of functions may still be nested in one another.
fn ingest_gate<B: ZKBackend>(
    gate: &Gate,
    backend: &mut B,
    scope: &mut HashMap<WireId, B::Wire>,
    known_functions: &Vec<FunctionDeclaration>,
    known_iterators: &mut IteratorTable,
    modulus: &BigUint,
    is_boolean: bool,
    instances: &mut VecDeque<B::FieldElement>,
    witnesses: &mut VecDeque<B::FieldElement>,
    weight: Option<&B::Wire>,
    depth: u64,
) -> (r: Result<(), Error>)
    ensures
        (
            machine::<B>(
                *final(backend),
                *final(scope),
                *final(known_iterators),
                *final(instances),
                *final(witnesses),
            ),
            told(r),
        ) == run_gate::<B>(
            *gate,
            env_of(*known_functions, *modulus, is_boolean),
            weight_number::<B>(weight),
            depth as nat,
            machine::<B>(
                *old(backend),
                *old(scope),
                *old(known_iterators),
                *old(instances),
                *old(witnesses),
            ),
        ),
    decreases depth, gate, 0int,
{
    match gate {
        Gate::Constant(out, value) => {
            match B::from_bytes_le(value.as_slice()) {
                Err(e) => Err(e),
                Ok(constant) => match backend.constant(constant) {
                    Err(e) => Err(e),
                    Ok(wire) => crate::consumers::operations::set::<B>(scope, *out, wire),
                },
            }
        },
        Gate::AssertZero(inp) => {
            let inp_wire = match get::<B>(scope, *inp) {
                Err(e) => {
                    return Err(e);
                },
                Ok(w) => w,
            };
            let tested = match weight {
                Some(w) => as_mul(backend, w, inp_wire, is_boolean),
                None => backend.copy(inp_wire),
            };
            match tested {
                Err(e) => Err(e),
                Ok(should_be_zero) => match backend.assert_zero(&should_be_zero) {
                    Err(_) => Err(
                        Error::with_number(
                            "Wire_",
                            *inp,
                            " (may be weighted) should be 0, while it is not",
                        ),
                    ),
                    Ok(_) => Ok(()),
                },
            }
        },
        Gate::Copy(out, inp) => {
            match get::<B>(scope, *inp) {
                Err(e) => Err(e),
                Ok(in_wire) => match backend.copy(in_wire) {
                    Err(e) => Err(e),
                    Ok(out_wire) => crate::consumers::operations::set::<B>(scope, *out, out_wire),
                },
            }
        },
        Gate::Add(out, left, right) => {
            match get::<B>(scope, *left) {
                Err(e) => Err(e),
                Ok(l) => match get::<B>(scope, *right) {
                    Err(e) => Err(e),
                    Ok(r) => match backend.add(l, r) {
                        Err(e) => Err(e),
                        Ok(sum) => crate::consumers::operations::set::<B>(scope, *out, sum),
                    },
                },
            }
        },
        Gate::Mul(out, left, right) => {
            match get::<B>(scope, *left) {
                Err(e) => Err(e),
                Ok(l) => match get::<B>(scope, *right) {
                    Err(e) => Err(e),
                    Ok(r) => match backend.multiply(l, r) {
                        Err(e) => Err(e),
                        Ok(prod) => crate::consumers::operations::set::<B>(scope, *out, prod),
                    },
                },
            }
        },
        Gate::AddConstant(out, inp, constant) => {
            match get::<B>(scope, *inp) {
                Err(e) => Err(e),
                Ok(l) => match B::from_bytes_le(constant.as_slice()) {
                    Err(e) => Err(e),
                    Ok(r) => match backend.add_constant(l, r) {
                        Err(e) => Err(e),
                        Ok(sum) => crate::consumers::operations::set::<B>(scope, *out, sum),
                    },
                },
            }
        },
        Gate::MulConstant(out, inp, constant) => {
            match get::<B>(scope, *inp) {
                Err(e) => Err(e),
                Ok(l) => match B::from_bytes_le(constant.as_slice()) {
                    Err(e) => Err(e),
                    Ok(r) => match backend.mul_constant(l, r) {
                        Err(e) => Err(e),
                        Ok(prod) => crate::consumers::operations::set::<B>(scope, *out, prod),
                    },
                },
            }
        },
        Gate::And(out, left, right) => {
            match get::<B>(scope, *left) {
                Err(e) => Err(e),
                Ok(l) => match get::<B>(scope, *right) {
                    Err(e) => Err(e),
                    Ok(r) => match backend.and(l, r) {
                        Err(e) => Err(e),
                        Ok(and) => crate::consumers::operations::set::<B>(scope, *out, and),
                    },
                },
            }
        },
        Gate::Xor(out, left, right) => {
            match get::<B>(scope, *left) {
                Err(e) => Err(e),
                Ok(l) => match get::<B>(scope, *right) {
                    Err(e) => Err(e),
                    Ok(r) => match backend.xor(l, r) {
                        Err(e) => Err(e),
                        Ok(xor) => crate::consumers::operations::set::<B>(scope, *out, xor),
                    },
                },
            }
        },
        Gate::Not(out, inp) => {
            match get::<B>(scope, *inp) {
                Err(e) => Err(e),
                Ok(val) => match backend.not(val) {
                    Err(e) => Err(e),
                    Ok(not) => crate::consumers::operations::set::<B>(scope, *out, not),
                },
            }
        },
        Gate::Instance(out) => {
            match pop::<B>(instances) {
                None => Err(Error::new("Not enough instance to consume")),
                Some(val) => set_instance(backend, scope, *out, val),
            }
        },
        Gate::Witness(out) => {
            let val = pop::<B>(witnesses);
            set_witness(backend, scope, *out, val)
        },
        Gate::Free(first, last) => {
            let last_value: WireId = match last {
                Some(id) => *id,
                None => *first,
            };
            free_wires::<B>(scope, *first, last_value)
        },
        Gate::Call(name, output_wires, input_wires) => {
            let function = match find_function(known_functions, name) {
                None => {
                    return Err(Error::new("Unknown function"));
                },
                Some(function) => function,
            };
            let expanded_output = match expand_wirelist(output_wires) {
                Err(e) => {
                    return Err(e);
                },
                Ok(list) => list,
            };
            let expanded_input = match expand_wirelist(input_wires) {
                Err(e) => {
                    return Err(e);
                },
                Ok(list) => list,
            };
            match check_counts(function, name, &expanded_output, &expanded_input) {
                Err(e) => {
                    return Err(e);
                },
                Ok(_) => {},
            }
            if depth == 0 {
                return Err(Error::new("Too many calls of functions in one another"));
            }
            ingest_function(
                function,
                backend,
                &expanded_output,
                &expanded_input,
                scope,
                known_functions,
                modulus,
                is_boolean,
                instances,
                witnesses,
                weight,
                depth - 1,
            )
        },
        Gate::AnonCall(output_wires, input_wires, _, _, subcircuit) => {
            let expanded_output = match expand_wirelist(output_wires) {
                Err(e) => {
                    return Err(e);
                },
                Ok(list) => list,
            };
            let expanded_input = match expand_wirelist(input_wires) {
                Err(e) => {
                    return Err(e);
                },
                Ok(list) => list,
            };
            // in the case of an anoncall, iterators *ARE* forwarded into inner bodies.
            ingest_subcircuit(
                subcircuit,
                backend,
                &expanded_output,
                &expanded_input,
                scope,
                known_functions,
                known_iterators,
                modulus,
                is_boolean,
                instances,
                witnesses,
                weight,
                depth,
            )
        },
        Gate::For(iterator_name, start_val, end_val, _, body) => ingest_for(
            iterator_name,
            *start_val,
            *end_val,
            body,
            backend,
            scope,
            known_functions,
            known_iterators,
            modulus,
            is_boolean,
            instances,
            witnesses,
            weight,
            depth,
        ),
        Gate::Switch(condition, output_wires, cases, branches) => ingest_switch(
            *condition,
            output_wires,
            cases,
            branches,
            backend,
            scope,
            known_functions,
            known_iterators,
            modulus,
            is_boolean,
            instances,
            witnesses,
            weight,
            depth,
        ),
    }
}

/// This function is similar to `ingest_gate` except that it operates linearly on a subcircuit
/// (i.e. a list of gates in an inner body of another gate).
/// It will operate on an internal `scope`, and will write outputs produced by the subcircuit
/// into the caller scope.
/// Internally, it will call `ingest_gate` with the internal scope for each sub-gate.
fn ingest_subcircuit<B: ZKBackend>(
    subcircuit: &Vec<Gate>,
    backend: &mut B,
    output_list: &Vec<WireId>,
    input_list: &Vec<WireId>,
    scope: &mut HashMap<WireId, B::Wire>,
    known_functions: &Vec<FunctionDeclaration>,
    known_iterators: &mut IteratorTable,
    modulus: &BigUint,
    is_boolean: bool,
    instances: &mut VecDeque<B::FieldElement>,
    witnesses: &mut VecDeque<B::FieldElement>,
    weight: Option<&B::Wire>,
    depth: u64,
) -> (r: Result<(), Error>)
    ensures
        (
            machine::<B>(
                *final(backend),
                *final(scope),
                *final(known_iterators),
                *final(instances),
                *final(witnesses),
            ),
            told(r),
        ) == run_subcircuit::<B>(
            subcircuit@,
            output_list@,
            input_list@,
            env_of(*known_functions, *modulus, is_boolean),
            weight_number::<B>(weight),
            depth as nat,
            machine::<B>(
                *old(backend),
                *old(scope),
                *old(known_iterators),
                *old(instances),
                *old(witnesses),
            ),
        ),
    decreases depth, subcircuit@, subcircuit@.len() + 1,
{
    let mut new_scope: HashMap<WireId, B::Wire> = HashMap::new();
    assert(wires::<B>(new_scope@) =~= Map::empty());
    // copy the inputs required by this function into the new scope, at the proper index
    match load_inputs(backend, scope, input_list, output_list.len(), &mut new_scope) {
        Err(e) => {
            return Err(e);
        },
        Ok(_) => {},
    }
    // evaluate the subcircuit in the new scope.
    match ingest_gates(
        subcircuit,
        backend,
        &mut new_scope,
        known_functions,
        known_iterators,
        modulus,
        is_boolean,
        instances,
        witnesses,
        weight,
        depth,
    ) {
        Err(e) => {
            return Err(e);
        },
        Ok(_) => {},
    }
    // copy the outputs produced from 'new_scope', into 'scope'
    unload_outputs(backend, &new_scope, output_list, scope)
}

/// Evaluates the body of a function.
fn ingest_function<B: ZKBackend>(
    function: &FunctionDeclaration,
    backend: &mut B,
    output_list: &Vec<WireId>,
    input_list: &Vec<WireId>,
    scope: &mut HashMap<WireId, B::Wire>,
    known_functions: &Vec<FunctionDeclaration>,
    modulus: &BigUint,
    is_boolean: bool,
    instances: &mut VecDeque<B::FieldElement>,
    witnesses: &mut VecDeque<B::FieldElement>,
    weight: Option<&B::Wire>,
    depth: u64,
) -> (r: Result<(), Error>)
    ensures
        forall|known_iterators: IteratorTable|
            (
                machine::<B>(
                    *final(backend),
                    *final(scope),
                    known_iterators,
                    *final(instances),
                    *final(witnesses),
                ),
                told(r),
            ) == run_function::<B>(
                function@,
                output_list@,
                input_list@,
                env_of(*known_functions, *modulus, is_boolean),
                weight_number::<B>(weight),
                depth as nat,
                #[trigger] machine::<B>(
                    *old(backend),
                    *old(scope),
                    known_iterators,
                    *old(instances),
                    *old(witnesses),
                ),
            ),
    decreases depth, function@.body, function@.body.len() + 2,
{
    // in the case of an named call, iterators *ARE NOT* forwarded into inner bodies.
    let mut no_iterators = IteratorTable::new();
    ingest_subcircuit(
        &function.subcircuit,
        backend,
        output_list,
        input_list,
        scope,
        known_functions,
        &mut no_iterators,
        modulus,
        is_boolean,
        instances,
        witnesses,
        weight,
        depth,
    )
}

/// Evaluates one turn of a loop.
fn ingest_turn<B: ZKBackend>(
    body: &ForLoopBody,
    backend: &mut B,
    scope: &mut HashMap<WireId, B::Wire>,
    known_functions: &Vec<FunctionDeclaration>,
    known_iterators: &mut IteratorTable,
    modulus: &BigUint,
    is_boolean: bool,
    instances: &mut VecDeque<B::FieldElement>,
    witnesses: &mut VecDeque<B::FieldElement>,
    weight: Option<&B::Wire>,
    depth: u64,
) -> (r: Result<(), Error>)
    ensures
        (
            machine::<B>(
                *final(backend),
                *final(scope),
                *final(known_iterators),
                *final(instances),
                *final(witnesses),
            ),
            told(r),
        ) == run_turn::<B>(
            *body,
            env_of(*known_functions, *modulus, is_boolean),
            weight_number::<B>(weight),
            depth as nat,
            machine::<B>(
                *old(backend),
                *old(scope),
                *old(known_iterators),
                *old(instances),
                *old(witnesses),
            ),
        ),
    decreases depth, body, 0int,
{
    match body {
        ForLoopBody::IterExprCall(name, outputs, inputs) => {
            let function = match find_function(known_functions, name) {
                None => {
                    return Err(Error::new("Unknown function"));
                },
                Some(function) => function,
            };
            let expanded_output = match evaluate_iterexpr_list(outputs, known_iterators) {
                Err(e) => {
                    return Err(e);
                },
                Ok(list) => list,
            };
            let expanded_input = match evaluate_iterexpr_list(inputs, known_iterators) {
                Err(e) => {
                    return Err(e);
                },
                Ok(list) => list,
            };
            match check_counts(function, name, &expanded_output, &expanded_input) {
                Err(e) => {
                    return Err(e);
                },
                Ok(_) => {},
            }
            if depth == 0 {
                return Err(Error::new("Too many calls of functions in one another"));
            }
            ingest_function(
                function,
                backend,
                &expanded_output,
                &expanded_input,
                scope,
                known_functions,
                modulus,
                is_boolean,
                instances,
                witnesses,
                weight,
                depth - 1,
            )
        },
        ForLoopBody::IterExprAnonCall(output_wires, input_wires, _, _, subcircuit) => {
            let expanded_output = match evaluate_iterexpr_list(output_wires, known_iterators) {
                Err(e) => {
                    return Err(e);
                },
                Ok(list) => list,
            };
            let expanded_input = match evaluate_iterexpr_list(input_wires, known_iterators) {
                Err(e) => {
                    return Err(e);
                },
                Ok(list) => list,
            };
            ingest_subcircuit(
                subcircuit,
                backend,
                &expanded_output,
                &expanded_input,
                scope,
                known_functions,
                known_iterators,
                modulus,
                is_boolean,
                instances,
                witnesses,
                weight,
                depth,
            )
        },
    }
}

/// For loops are unrolled. The body is called as many times (NB: the loop bounds are
/// inclusive), and iterator expressions are evaluated for each.
fn ingest_for<B: ZKBackend>(
    iterator_name: &String,
    start_val: u64,
    end_val: u64,
    body: &ForLoopBody,
    backend: &mut B,
    scope: &mut HashMap<WireId, B::Wire>,
    known_functions: &Vec<FunctionDeclaration>,
    known_iterators: &mut IteratorTable,
    modulus: &BigUint,
    is_boolean: bool,
    instances: &mut VecDeque<B::FieldElement>,
    witnesses: &mut VecDeque<B::FieldElement>,
    weight: Option<&B::Wire>,
    depth: u64,
) -> (r: Result<(), Error>)
    ensures
        (
            machine::<B>(
                *final(backend),
                *final(scope),
                *final(known_iterators),
                *final(instances),
                *final(witnesses),
            ),
            told(r),
        ) == run_for::<B>(
            iterator_name@,
            start_val as int,
            end_val as int,
            *body,
            env_of(*known_functions, *modulus, is_boolean),
            weight_number::<B>(weight),
            depth as nat,
            machine::<B>(
                *old(backend),
                *old(scope),
                *old(known_iterators),
                *old(instances),
                *old(witnesses),
            ),
        ),
    decreases depth, body, 1int,
{
    let mut current: u64 = start_val;
    let mut done: bool = start_val > end_val;
    while !done
        invariant
            done || current <= end_val,
            run_for::<B>(
                iterator_name@,
                start_val as int,
                end_val as int,
                *body,
                env_of(*known_functions, *modulus, is_boolean),
                weight_number::<B>(weight),
                depth as nat,
                machine::<B>(
                    *old(backend),
                    *old(scope),
                    *old(known_iterators),
                    *old(instances),
                    *old(witnesses),
                ),
            ) == run_for::<B>(
                iterator_name@,
                if done {
                    end_val + 1
                } else {
                    current as int
                },
                end_val as int,
                *body,
                env_of(*known_functions, *modulus, is_boolean),
                weight_number::<B>(weight),
                depth as nat,
                machine::<B>(*backend, *scope, *known_iterators, *instances, *witnesses),
            ),
        decreases (if done { 0int } else { end_val - current + 1 }),
    {
        known_iterators.insert(iterator_name, current);
        match ingest_turn(
            body,
            backend,
            scope,
            known_functions,
            known_iterators,
            modulus,
            is_boolean,
            instances,
            witnesses,
            weight,
            depth,
        ) {
            Err(e) => {
                return Err(e);
            },
            Ok(_) => {},
        }
        if current == end_val {
            done = true;
        } else {
            current = current + 1;
        }
    }
    known_iterators.remove(iterator_name);
    Ok(())
}

/// Evaluates one branch of a switch in a scope of its own, which is handed in empty.
fn ingest_branch<B: ZKBackend>(
    branch: &CaseInvoke,
    output_list: &Vec<WireId>,
    backend: &mut B,
    scope: &HashMap<WireId, B::Wire>,
    branch_scope: &mut HashMap<WireId, B::Wire>,
    known_functions: &Vec<FunctionDeclaration>,
    known_iterators: &mut IteratorTable,
    modulus: &BigUint,
    is_boolean: bool,
    instances: &mut VecDeque<B::FieldElement>,
    witnesses: &mut VecDeque<B::FieldElement>,
    weight: &B::Wire,
    depth: u64,
) -> (r: Result<(), Error>)
    requires
        old(branch_scope)@ == Map::<WireId, B::Wire>::empty(),
    ensures
        branch_left::<B>(
            *final(backend),
            *final(branch_scope),
            *final(known_iterators),
            r,
            run_branch::<B>(
                *branch,
                output_list@,
                env_of(*known_functions, *modulus, is_boolean),
                B::wire(*weight),
                depth as nat,
                machine::<B>(
                    *old(backend),
                    *scope,
                    *old(known_iterators),
                    *old(instances),
                    *old(witnesses),
                ),
            ),
        ),
    decreases depth, branch, 0int,
{
    assert(wires::<B>(branch_scope@) =~= Map::empty());
    match branch {
        CaseInvoke::AbstractGateCall(name, input_wires) => {
            let function = match find_function(known_functions, name) {
                None => {
                    let mut message = "Unknown function: ".to_owned();
                    message.append(name.as_str());
                    return Err(Error { message });
                },
                Some(function) => function,
            };
            let expanded_input = match expand_wirelist(input_wires) {
                Err(e) => {
                    return Err(e);
                },
                Ok(list) => list,
            };
            match check_counts(function, name, output_list, &expanded_input) {
                Err(e) => {
                    return Err(e);
                },
                Ok(_) => {},
            }
            match copy_inputs(backend, scope, &expanded_input, branch_scope) {
                Err(e) => {
                    return Err(e);
                },
                Ok(_) => {},
            }
            if depth == 0 {
                return Err(Error::new("Too many calls of functions in one another"));
            }
            let ghost m1 = machine::<B>(
                *backend,
                *branch_scope,
                *known_iterators,
                *instances,
                *witnesses,
            );
            ingest_function(
                function,
                backend,
                output_list,
                &expanded_input,
                branch_scope,
                known_functions,
                modulus,
                is_boolean,
                instances,
                witnesses,
                Some(weight),
                depth - 1,
            )
        },
        CaseInvoke::AbstractAnonCall(input_wires, _, _, subcircuit) => {
            let expanded_input = match expand_wirelist(input_wires) {
                Err(e) => {
                    return Err(e);
                },
                Ok(list) => list,
            };
            match copy_inputs(backend, scope, &expanded_input, branch_scope) {
                Err(e) => {
                    return Err(e);
                },
                Ok(_) => {},
            }
            ingest_subcircuit(
                subcircuit,
                backend,
                output_list,
                &expanded_input,
                branch_scope,
                known_functions,
                known_iterators,
                modulus,
                is_boolean,
                instances,
                witnesses,
                Some(weight),
                depth,
            )
        },
    }
}

/// What of a branch's outcome lives on: the backend, the iterators, whether it
/// succeeded, and its scope where it did.
pub open spec fn branch_left<B: ZKBackend>(
    backend: B,
    branch_scope: HashMap<WireId, B::Wire>,
    known_iterators: IteratorTable,
    r: Result<(), Error>,
    outcome: Outcome,
) -> bool {
    &&& backend.state() == outcome.0.backend
    &&& known_iterators@ == outcome.0.iterators
    &&& told(r) == outcome.1
    &&& r is Ok ==> wires::<B>(branch_scope@) == outcome.0.scope
}

/// Switches are multiplexed. Each branch has a weight, which is (in plaintext) either 1
/// or 0 (0 if the branch is not taken, 1 otherwise)
fn ingest_switch<B: ZKBackend>(
    condition: WireId,
    output_wires: &WireList,
    cases: &Vec<Value>,
    branches: &Vec<CaseInvoke>,
    backend: &mut B,
    scope: &mut HashMap<WireId, B::Wire>,
    known_functions: &Vec<FunctionDeclaration>,
    known_iterators: &mut IteratorTable,
    modulus: &BigUint,
    is_boolean: bool,
    instances: &mut VecDeque<B::FieldElement>,
    witnesses: &mut VecDeque<B::FieldElement>,
    weight: Option<&B::Wire>,
    depth: u64,
) -> (r: Result<(), Error>)
    ensures
        (
            machine::<B>(
                *final(backend),
                *final(scope),
                *final(known_iterators),
                *final(instances),
                *final(witnesses),
            ),
            told(r),
        ) == run_switch::<B>(
            condition,
            output_wires@,
            cases@,
            branches@,
            env_of(*known_functions, *modulus, is_boolean),
            weight_number::<B>(weight),
            depth as nat,
            machine::<B>(
                *old(backend),
                *old(scope),
                *old(known_iterators),
                *old(instances),
                *old(witnesses),
            ),
        ),
    decreases depth, branches@, branches@.len() + 1,
{
    // determine the maximum instance/witness consumption
    let (max_instance_count, max_witness_count): (usize, usize) = match max_counts(
        known_functions,
        branches,
    ) {
        Err(e) => {
            return Err(e);
        },
        Ok(counts) => counts,
    };
    // 'consumes' max_instances and max_witnesses values from the corresponding pools
    // by removing them from the instances/witnesses variables, and storing them into
    // new queues. The new queues (a clone of them) will be used in each branch.
    let new_instances = take_front(instances, max_instance_count);
    let new_witnesses = take_front(witnesses, max_witness_count);
    proof {
        let i = smaller(old(instances)@.len(), max_instance_count as nat) as int;
        let w = smaller(old(witnesses)@.len(), max_witness_count as nat) as int;
        assert(elements::<B>(new_instances@) =~= elements::<B>(old(instances)@).take(i));
        assert(elements::<B>(instances@) =~= elements::<B>(old(instances)@).skip(i));
        assert(elements::<B>(new_witnesses@) =~= elements::<B>(old(witnesses)@).take(w));
        assert(elements::<B>(witnesses@) =~= elements::<B>(old(witnesses)@).skip(w));
    }
    let expanded_output = match expand_wirelist(output_wires) {
        Err(e) => {
            return Err(e);
        },
        Ok(list) => list,
    };
    // This will handle the input/output wires for each branches. Output wires will then
    // be combined using their respective weight.
    let mut branches_scope: Vec<HashMap<WireId, B::Wire>> = Vec::new();
    let mut weights: Vec<B::Wire> = Vec::new();
    let ghost env = env_of(*known_functions, *modulus, is_boolean);
    let ghost whole = run_cases::<B>(
        condition,
        expanded_output@,
        cases@,
        branches@,
        0,
        elements::<B>(new_instances@),
        elements::<B>(new_witnesses@),
        env,
        weight_number::<B>(weight),
        depth as nat,
        machine::<B>(*backend, *scope, *known_iterators, *instances, *witnesses),
        (Seq::empty(), Seq::empty()),
    );
    assert(scopes_of::<B>(branches_scope@) =~= Seq::empty());
    assert(numbers::<B>(weights@) =~= Seq::empty());
    let mut k: usize = 0;
    while k < cases.len() && k < branches.len()
        invariant
            k <= cases@.len(),
            k <= branches@.len(),
            branches_scope@.len() == weights@.len(),
            env == env_of(*known_functions, *modulus, is_boolean),
            run_switch::<B>(
                condition,
                output_wires@,
                cases@,
                branches@,
                env,
                weight_number::<B>(weight),
                depth as nat,
                machine::<B>(
                    *old(backend),
                    *old(scope),
                    *old(known_iterators),
                    *old(instances),
                    *old(witnesses),
                ),
            ) == (match whole.1 {
                Err(t) => (whole.0, Err(t)),
                Ok((scopes, weights)) => merged::<B>(
                    whole.0,
                    is_boolean,
                    scopes,
                    weights,
                    expanded_output@,
                    0,
                ),
            }),
            whole == run_cases::<B>(
                condition,
                expanded_output@,
                cases@,
                branches@,
                k as nat,
                elements::<B>(new_instances@),
                elements::<B>(new_witnesses@),
                env,
                weight_number::<B>(weight),
                depth as nat,
                machine::<B>(*backend, *scope, *known_iterators, *instances, *witnesses),
                (scopes_of::<B>(branches_scope@), numbers::<B>(weights@)),
            ),
        decreases branches@.len() - k,
    {
        let condition_wire = match get::<B>(scope, condition) {
            Err(e) => {
                return Err(e);
            },
            Ok(w) => w,
        };
        let branch_weight = match weigh_branch(
            backend,
            cases[k].as_slice(),
            condition_wire,
            modulus,
            is_boolean,
            weight,
        ) {
            Err(e) => {
                return Err(e);
            },
            Ok(w) => w,
        };
        let mut branch_scope: HashMap<WireId, B::Wire> = HashMap::new();
        let mut branch_instances = copy_queue::<B>(&new_instances);
        let mut branch_witnesses = copy_queue::<B>(&new_witnesses);
        match ingest_branch(
            &branches[k],
            &expanded_output,
            backend,
            scope,
            &mut branch_scope,
            known_functions,
            known_iterators,
            modulus,
            is_boolean,
            &mut branch_instances,
            &mut branch_witnesses,
            &branch_weight,
            depth,
        ) {
            Err(e) => {
                return Err(e);
            },
            Ok(_) => {},
        }
        proof {
            assert(scopes_of::<B>(branches_scope@.push(branch_scope)) =~= scopes_of::<B>(
                branches_scope@,
            ).push(wires::<B>(branch_scope@)));
            assert(numbers::<B>(weights@.push(branch_weight)) =~= numbers::<B>(weights@).push(
                B::wire(branch_weight),
            ));
        }
        weights.push(branch_weight);
        branches_scope.push(branch_scope);
        k = k + 1;
    }
    // Compute the weighted sum for all output wire.
    merge_branches(backend, scope, &branches_scope, &weights, &expanded_output, is_boolean)
}

} // verus!
