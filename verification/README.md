# zki_sieve

Tools around zero-knowledge statements that are written as SIEVE IR circuits: evaluating
them, flattening them, and converting them to and from rank-1 constraint systems in the
zkInterface format. The library is verified with Verus; every function states what it
returns, and the proofs are in the same files.

## The library, `src/`

- `number`, `prime`, `error`: unbounded numbers over `num-bigint`, the little theorem of
  prime numbers, errors with their words.
- `flat`: how FlatBuffers lie in bytes; their writing with the `flatbuffers` crate, and
  their reading.
- `structs`: headers, instances, witnesses, relations, gates, functions, loops; the binary
  form of instances, witnesses and of simple gates and blocks; constraint systems.
- `consumers`:
  - `semantics` says what the evaluation of a circuit is, for any backend; `execution` and
    `evaluator` do it.
  - `backend` is the interface of backends. `plaintext` computes with values, `flattening`
    writes the circuit again without functions, loops and switches (`flatten` does so with
    whole statements), `to_r1cs` writes it as a constraint system.
  - `invariance`, `simulation`, `coupling` and `statements` relate evaluations with
    different backends. The laws themselves are in `flattening_law`, `r1cs_law`,
    `verifier_law`, `switch_law`, `selection_law`, `relation_law`, `iteration_law` and
    `scope_law`.
- `producers`: building statements gate by gate, and from constraint systems
  (`from_r1cs`, with its laws in `from_r1cs_law` and `from_r1cs_refusal`).
- `tools`: what the command line tools decide.

## The laws

- A flattened statement holds just where the statement does, and is all that the sink gets.
- A constraint system that a statement is converted to is met by its own values just where
  the statement holds; and a circuit that a constraint system is converted to holds just
  where the constraint system is met.
- The public part of that constraint system is the same for who knows the witness and for
  who does not.
- A branch of a switch weighs one if it is selected, else zero; a switch gives what the
  selected branch gives when it is evaluated alone, or zero where none is selected, and
  assertions count in the selected branch only.
- Two relations in a row leave what one relation with the gates of both leaves.
- Constraints are refused just for variables that their header does not declare; the others
  add one assertion each.
- Gates change no wires but their outputs; iterators end with their loops; functions see
  neither wires nor iterators of their callers; after a refusal nothing changes.
- What is written in binary form is read back the same.

## The tools, `app/`

`app/` holds the command line tools: reading and writing files, JSON and YAML. Instances
and witnesses are kept in their binary form, relations as JSON.
